//! Character-level helpers: Unicode whitespace and string comparison.
use vstd::prelude::*;

verus! {

broadcast use vstd::string::group_string_axioms;

/// The characters of a string.
pub fn chars_of(s: &str) -> (v: Vec<char>)
    ensures
        v@ == s@,
{
    let mut v: Vec<char> = Vec::new();
    for c in it: s.chars()
        invariant
            v@ == it.seq().take(it.index() as int),
    {
        v.push(c);
    }
    v
}


/// Unicode `White_Space`, the property that `char::is_whitespace` tests
/// (PropList.txt: U+0009..U+000D, U+0020, U+0085, U+00A0, U+1680,
/// U+2000..U+200A, U+2028, U+2029, U+202F, U+205F, U+3000).
pub open spec fn is_ws(c: char) -> bool {
    let u = c as u32;
    ||| 0x09 <= u <= 0x0D
    ||| u == 0x20
    ||| u == 0x85
    ||| u == 0xA0
    ||| u == 0x1680
    ||| 0x2000 <= u <= 0x200A
    ||| u == 0x2028
    ||| u == 0x2029
    ||| u == 0x202F
    ||| u == 0x205F
    ||| u == 0x3000
}

/// Whether `c` is Unicode whitespace.
pub fn is_whitespace(c: char) -> (b: bool)
    ensures
        b == is_ws(c),
{
    let u = c as u32;
    (0x09 <= u && u <= 0x0D) || u == 0x20 || u == 0x85 || u == 0xA0 || u == 0x1680 || (0x2000 <= u
        && u <= 0x200A) || u == 0x2028 || u == 0x2029 || u == 0x202F || u == 0x205F || u == 0x3000
}

/// A string made of the given characters (`FromIterator<char>` for `String`).
///
/// Trusted: the string holds exactly these characters, in order.
#[verifier::external_body]
pub(crate) fn string_from_chars(v: &[char]) -> (s: String)
    ensures
        s@ == v@,
{
    v.iter().collect()
}

/// Whether two strings hold the same characters.
pub fn str_eq(a: &str, b: &str) -> (r: bool)
    ensures
        r == (a@ == b@),
{
    let x = chars_of(a);
    let y = chars_of(b);
    if x.len() != y.len() {
        return false;
    }
    let mut i: usize = 0;
    while i < x.len()
        invariant
            x@ == a@,
            y@ == b@,
            x@.len() == y@.len(),
            i <= x@.len(),
            forall|j: int| 0 <= j < i ==> x@[j] == y@[j],
        decreases x@.len() - i,
    {
        if x[i] != y[i] {
            return false;
        }
        i = i + 1;
    }
    assert(x@ =~= y@);
    true
}

/// The words of `s` (maximal runs of non-whitespace characters) joined by
/// single spaces, as `s.split_whitespace().collect::<Vec<_>>().join(" ")`.
pub open spec fn collapse_ws(s: Seq<char>) -> Seq<char>
    decreases s.len(),
{
    if s.len() == 0 {
        Seq::<char>::empty()
    } else {
        let p = s.drop_last();
        let c = s.last();
        if is_ws(c) {
            collapse_ws(p)
        } else if p.len() > 0 && !is_ws(p.last()) {
            collapse_ws(p).push(c)
        } else if collapse_ws(p).len() == 0 {
            seq![c]
        } else {
            collapse_ws(p).push(' ').push(c)
        }
    }
}

/// Collapsed whitespace is single spaces between words: every whitespace
/// character left is a space with a non-whitespace character on each side.
pub proof fn lemma_collapse_ws_shape(s: Seq<char>)
    ensures
        ({
            let r = collapse_ws(s);
            &&& r.len() > 0 ==> !is_ws(r[0]) && !is_ws(r.last())
            &&& forall|k: int| 0 <= k < r.len() && #[trigger] is_ws(r[k]) ==> r[k] == ' ' && 0 < k < r.len() - 1
                && !is_ws(r[k - 1]) && !is_ws(r[k + 1])
        }),
    decreases s.len(),
{
    if s.len() > 0 {
        let p = s.drop_last();
        let c = s.last();
        lemma_collapse_ws_shape(p);
        let rp = collapse_ws(p);
        let r = collapse_ws(s);
        if !is_ws(c) {
            assert(is_ws(' '));
            assert forall|k: int| 0 <= k < r.len() && #[trigger] is_ws(r[k]) implies r[k] == ' ' && 0 < k < r.len() - 1
                && !is_ws(r[k - 1]) && !is_ws(r[k + 1]) by {
                if k < rp.len() {
                    assert(r[k] == rp[k]);
                    if k + 1 < rp.len() {
                        assert(r[k + 1] == rp[k + 1]);
                    }
                    assert(r[k - 1] == rp[k - 1]);
                }
            }
        }
    }
}

/// Collapses the whitespace of `s` (see [`collapse_ws`]).
pub fn collapse_whitespace(s: &[char]) -> (out: Vec<char>)
    ensures
        out@ == collapse_ws(s@),
{
    let mut out: Vec<char> = Vec::new();
    let mut i: usize = 0;
    while i < s.len()
        invariant
            i <= s@.len(),
            out@ == collapse_ws(s@.subrange(0, i as int)),
        decreases s@.len() - i,
    {
        let c = s[i];
        proof {
            let t = s@.subrange(0, i + 1);
            assert(t.drop_last() == s@.subrange(0, i as int));
            assert(t.last() == c);
        }
        if is_whitespace(c) {
        } else if i > 0 && !is_whitespace(s[i - 1]) {
            out.push(c);
        } else if out.len() == 0 {
            out.push(c);
        } else {
            out.push(' ');
            out.push(c);
        }
        i = i + 1;
    }
    assert(s@.subrange(0, s@.len() as int) == s@);
    out
}


/// The decimal digit character of `d < 10`.
pub open spec fn digit_char(d: nat) -> char {
    ((48 + d) as u8) as char
}

/// The decimal representation of `n`, as `Display` writes it for integers.
pub open spec fn decimal(n: nat) -> Seq<char>
    decreases n,
{
    if n < 10 {
        seq![digit_char(n)]
    } else {
        decimal(n / 10).push(digit_char(n % 10))
    }
}

fn push_decimal(n: usize, out: &mut Vec<char>)
    ensures
        final(out)@ == old(out)@ + decimal(n as nat),
    decreases n,
{
    if n >= 10 {
        push_decimal(n / 10, out);
    }
    let d = (n % 10) as u8;
    out.push((48u8 + d) as char);
    proof {
        assert(digit_char((n % 10) as nat) == (48u8 + d) as char);
    }
}

/// The decimal representation of `n`.
pub fn decimal_string(n: usize) -> (s: String)
    ensures
        s@ == decimal(n as nat),
{
    let mut v: Vec<char> = Vec::new();
    push_decimal(n, &mut v);
    string_from_chars(v.as_slice())
}

} // verus!
