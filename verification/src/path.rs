//! Model directory paths.
//!
//! A path names a directory in the model store as a sequence of segments,
//! mirroring the `<root>/primary/...`, `<root>/backup/...` layout that
//! cascade nodes persist under. Sibling paths for duplicated nodes carry a
//! numeric suffix on their final segment.

use vstd::prelude::*;

verus! {

/// A directory path in the model store: an ordered list of segments.
#[derive(Debug)]
pub struct ModelPath {
    pub segments: Vec<String>,
}

impl View for ModelPath {
    type V = Seq<Seq<char>>;

    open spec fn view(&self) -> Seq<Seq<char>> {
        self.segments@.map_values(|s: String| s@)
    }
}

impl ModelPath {
    /// The path of a top-level model directory.
    pub fn root(name: String) -> (r: ModelPath)
        ensures
            r@ == seq![name@],
    {
        let mut segments: Vec<String> = Vec::new();
        segments.push(name);
        let r = ModelPath { segments };
        proof {
            assert(r@ =~= seq![name@]);
        }
        r
    }

    /// A copy naming the same directory.
    pub fn clone_path(&self) -> (r: ModelPath)
        ensures
            r@ == self@,
    {
        let n = self.segments.len();
        let mut segments: Vec<String> = Vec::new();
        let mut i: usize = 0;
        while i < n
            invariant
                n == self.segments@.len(),
                0 <= i <= n,
                segments@.len() == i,
                forall|j: int| 0 <= j < i ==> segments@[j]@ == self.segments@[j]@,
            decreases n - i,
        {
            segments.push(self.segments[i].clone());
            i = i + 1;
        }
        let r = ModelPath { segments };
        proof {
            assert(r@ =~= self@);
        }
        r
    }

    pub fn len(&self) -> (n: usize)
        ensures
            n == self@.len(),
    {
        self.segments.len()
    }
}

/// The path of a sub-directory: `path` extended by one segment.
pub fn append_dir(path: &ModelPath, subdir: &str) -> (r: ModelPath)
    ensures
        r@ == path@.push(subdir@),
{
    let mut r = path.clone_path();
    r.segments.push(subdir.to_owned());
    proof {
        assert(r@ =~= path@.push(subdir@));
    }
    r
}

/// Do two paths name the same directory?
pub fn path_eq(a: &ModelPath, b: &ModelPath) -> (r: bool)
    ensures
        r == (a@ == b@),
{
    let n = a.segments.len();
    if n != b.segments.len() {
        proof {
            assert(a@.len() != b@.len());
        }
        return false;
    }
    let mut i: usize = 0;
    while i < n
        invariant
            n == a@.len(),
            n == b@.len(),
            0 <= i <= n,
            forall|j: int| 0 <= j < i ==> a@[j] == b@[j],
        decreases n - i,
    {
        if !a.segments[i].eq(&b.segments[i]) {
            proof {
                assert(a@[i as int] != b@[i as int]);
            }
            return false;
        }
        i = i + 1;
    }
    proof {
        assert(a@ =~= b@);
    }
    true
}

/// `p` names `q` itself or a directory above `q`.
pub open spec fn spec_is_prefix(p: Seq<Seq<char>>, q: Seq<Seq<char>>) -> bool {
    &&& p.len() <= q.len()
    &&& forall|i: int| 0 <= i < p.len() ==> p[i] == #[trigger] q[i]
}

/// Does `p` name `q` itself or a directory above `q`?
pub fn is_prefix(p: &ModelPath, q: &ModelPath) -> (r: bool)
    ensures
        r == spec_is_prefix(p@, q@),
{
    let n = p.segments.len();
    if n > q.segments.len() {
        return false;
    }
    let mut i: usize = 0;
    while i < n
        invariant
            n == p@.len(),
            n <= q@.len(),
            0 <= i <= n,
            forall|j: int| 0 <= j < i ==> p@[j] == #[trigger] q@[j],
        decreases n - i,
    {
        if !p.segments[i].eq(&q.segments[i]) {
            proof {
                assert(p@[i as int] != q@[i as int]);
            }
            return false;
        }
        i = i + 1;
    }
    true
}

/// The decimal digit characters of `n`, most significant first.
pub open spec fn spec_digits(n: nat) -> Seq<char>
    decreases n,
{
    if n < 10 {
        seq![spec_digit_char(n)]
    } else {
        spec_digits(n / 10).push(spec_digit_char(n % 10))
    }
}

/// The character of one decimal digit.
pub open spec fn spec_digit_char(d: nat) -> char {
    if d == 0 {
        '0'
    } else if d == 1 {
        '1'
    } else if d == 2 {
        '2'
    } else if d == 3 {
        '3'
    } else if d == 4 {
        '4'
    } else if d == 5 {
        '5'
    } else if d == 6 {
        '6'
    } else if d == 7 {
        '7'
    } else if d == 8 {
        '8'
    } else {
        '9'
    }
}

/// Numeric value of one digit character; inverse of [`spec_digit_char`] on
/// digits.
pub open spec fn spec_digit_val(c: char) -> nat {
    if c == '0' {
        0
    } else if c == '1' {
        1
    } else if c == '2' {
        2
    } else if c == '3' {
        3
    } else if c == '4' {
        4
    } else if c == '5' {
        5
    } else if c == '6' {
        6
    } else if c == '7' {
        7
    } else if c == '8' {
        8
    } else {
        9
    }
}

/// Numeric value of a digit string, most significant first.
pub open spec fn spec_seq_val(s: Seq<char>) -> nat
    decreases s.len(),
{
    if s.len() == 0 {
        0
    } else {
        spec_seq_val(s.drop_last()) * 10 + spec_digit_val(s.last())
    }
}

/// Reading the decimal digits of `n` back gives `n`: the digit rendering is
/// injective.
pub proof fn lemma_digits_value(n: nat)
    ensures
        spec_seq_val(spec_digits(n)) == n,
        spec_digits(n).len() >= 1,
    decreases n,
{
    if n < 10 {
        let s = seq![spec_digit_char(n)];
        assert(spec_digits(n) == s);
        assert(s.last() == spec_digit_char(n));
        assert(s.drop_last() =~= Seq::<char>::empty());
        assert(spec_seq_val(s.drop_last()) == 0);
        assert(spec_digit_val(spec_digit_char(n)) == n);
        assert(spec_seq_val(s) == spec_seq_val(s.drop_last()) * 10 + spec_digit_val(s.last()));
    } else {
        lemma_digits_value(n / 10);
        let s = spec_digits(n);
        assert(s.drop_last() =~= spec_digits(n / 10));
        assert(s.last() == spec_digit_char(n % 10));
        assert(spec_digit_val(spec_digit_char(n % 10)) == n % 10);
        assert((n / 10) * 10 + n % 10 == n) by (nonlinear_arith);
    }
}

/// Distinct numbers render to distinct digit strings.
pub proof fn lemma_digits_injective(a: nat, b: nat)
    requires
        spec_digits(a) == spec_digits(b),
    ensures
        a == b,
{
    lemma_digits_value(a);
    lemma_digits_value(b);
}

fn digit_str(d: u64) -> (r: &'static str)
    requires
        d < 10,
    ensures
        r@ == seq![spec_digit_char(d as nat)],
{
    proof {
        reveal_strlit("0");
        reveal_strlit("1");
        reveal_strlit("2");
        reveal_strlit("3");
        reveal_strlit("4");
        reveal_strlit("5");
        reveal_strlit("6");
        reveal_strlit("7");
        reveal_strlit("8");
        reveal_strlit("9");
    }
    let r = if d == 0 {
        "0"
    } else if d == 1 {
        "1"
    } else if d == 2 {
        "2"
    } else if d == 3 {
        "3"
    } else if d == 4 {
        "4"
    } else if d == 5 {
        "5"
    } else if d == 6 {
        "6"
    } else if d == 7 {
        "7"
    } else if d == 8 {
        "8"
    } else {
        "9"
    };
    proof {
        assert(r@ =~= seq![spec_digit_char(d as nat)]);
    }
    r
}

/// Appends the decimal digits of `n` to `s`.
fn push_digits(n: u64, s: &mut String)
    ensures
        final(s)@ == old(s)@ + spec_digits(n as nat),
    decreases n,
{
    if n >= 10 {
        push_digits(n / 10, s);
        s.append(digit_str(n % 10));
        proof {
            assert(s@ =~= old(s)@ + spec_digits(n as nat));
        }
    } else {
        s.append(digit_str(n));
        proof {
            assert(s@ =~= old(s)@ + spec_digits(n as nat));
        }
    }
}

/// The final segment of a numbered sibling: `base`, an underscore, and the
/// decimal digits of `index`.
pub open spec fn spec_numbered_segment(base: Seq<char>, index: nat) -> Seq<char> {
    base + seq!['_'] + spec_digits(index)
}

/// The sibling path probed when duplicating a node at `p`: the same path with
/// its final segment replaced by that segment plus a numeric suffix.
pub open spec fn spec_numbered_sibling(p: Seq<Seq<char>>, index: nat) -> Seq<Seq<char>>
    recommends
        p.len() > 0,
{
    p.update(p.len() - 1, spec_numbered_segment(p[p.len() - 1], index))
}

/// Builds the numbered sibling of `path` for one probe attempt.
pub fn numbered_sibling(path: &ModelPath, index: u64) -> (r: ModelPath)
    requires
        path@.len() > 0,
    ensures
        r@ == spec_numbered_sibling(path@, index as nat),
{
    let mut r = path.clone_path();
    let last = r.segments.len() - 1;
    let mut seg: String = r.segments[last].clone();
    proof {
        reveal_strlit("_");
    }
    seg.append("_");
    push_digits(index, &mut seg);
    proof {
        assert(seg@ =~= spec_numbered_segment(path@[last as int], index as nat));
    }
    r.segments.set(last, seg);
    proof {
        assert(r@ =~~= spec_numbered_sibling(path@, index as nat));
    }
    r
}

/// Siblings probed under distinct indices name distinct directories.
pub proof fn lemma_numbered_sibling_injective(p: Seq<Seq<char>>, a: nat, b: nat)
    requires
        p.len() > 0,
        spec_numbered_sibling(p, a) == spec_numbered_sibling(p, b),
    ensures
        a == b,
{
    let last = p.len() - 1;
    let sa = spec_numbered_segment(p[last], a);
    let sb = spec_numbered_segment(p[last], b);
    assert(sa == spec_numbered_sibling(p, a)[last]);
    assert(sb == spec_numbered_sibling(p, b)[last]);
    let k = p[last].len() + 1;
    assert(sa.skip(k as int) =~= spec_digits(a));
    assert(sb.skip(k as int) =~= spec_digits(b));
    lemma_digits_injective(a, b);
}

} // verus!
