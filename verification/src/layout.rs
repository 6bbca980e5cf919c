//! The text content of laid-out rows: list bullets, image placeholders,
//! code lines and the styled runs of a paragraph.
use vstd::prelude::*;
use crate::blocks::{spans_view, Span, SpanView};
use crate::text::{chars_of, decimal, decimal_string, is_whitespace, is_ws, string_from_chars};

verus! {

/// The bullet of a list item: `"{index}. "` in an ordered list, else `"• "`.
pub open spec fn spec_bullet(ordered: bool, index: usize) -> Seq<char> {
    if ordered {
        decimal(index as nat) + ". "@
    } else {
        "• "@
    }
}

/// The bullet of a list item.
pub fn bullet(ordered: bool, index: usize) -> (s: String)
    ensures
        s@ == spec_bullet(ordered, index),
{
    if ordered {
        let mut s = decimal_string(index);
        s.append(". ");
        s
    } else {
        String::from_str("• ")
    }
}

/// The placeholder of an image that cannot be loaded: `[alt]`.
pub fn alt_placeholder(alt: &str) -> (s: String)
    ensures
        s@ == "["@ + alt@ + "]"@,
{
    let mut s = String::from_str("[");
    s.append(alt);
    s.append("]");
    s
}

/// `s` without its trailing whitespace (`str::trim_end`).
pub open spec fn trim_end_ws(s: Seq<char>) -> Seq<char>
    decreases s.len(),
{
    if s.len() > 0 && is_ws(s.last()) {
        trim_end_ws(s.drop_last())
    } else {
        s
    }
}

/// The pieces of `t` between `\n` characters (one more than there are `\n`).
pub open spec fn split_newlines(t: Seq<char>) -> Seq<Seq<char>>
    decreases t.len(),
{
    if t.len() == 0 {
        seq![Seq::<char>::empty()]
    } else {
        let r = split_newlines(t.drop_last());
        if t.last() == '\n' {
            r.push(Seq::<char>::empty())
        } else {
            r.update(r.len() - 1, r.last().push(t.last()))
        }
    }
}

/// A line without the `\r` of a `\r\n` ending.
pub open spec fn strip_cr(p: Seq<char>) -> Seq<char> {
    if p.len() > 0 && p.last() == '\r' {
        p.drop_last()
    } else {
        p
    }
}

/// The lines of a code block, as `text.trim_end().lines()` gives them: the
/// pieces between `\n`, those ended by `\r\n` without the `\r`; no line for
/// an empty block.
pub open spec fn spec_code_lines(text: Seq<char>) -> Seq<Seq<char>> {
    let t = trim_end_ws(text);
    if t.len() == 0 {
        Seq::<Seq<char>>::empty()
    } else {
        let ps = split_newlines(t);
        Seq::new(ps.len(), |k: int| if k < ps.len() - 1 { strip_cr(ps[k]) } else { ps[k] })
    }
}

proof fn lemma_split_newlines_nonempty(t: Seq<char>)
    ensures
        split_newlines(t).len() >= 1,
    decreases t.len(),
{
    if t.len() > 0 {
        lemma_split_newlines_nonempty(t.drop_last());
    }
}

/// The lines of a code block (see [`spec_code_lines`]).
pub fn code_lines(text: &str) -> (lines: Vec<String>)
    ensures
        lines@.map_values(|l: String| l@) == spec_code_lines(text@),
{
    let chars = chars_of(text);
    let mut n = chars.len();
    assert(chars@.subrange(0, n as int) == chars@);
    while n > 0 && is_whitespace(chars[n - 1])
        invariant
            n <= chars@.len(),
            chars@ == text@,
            trim_end_ws(text@) == trim_end_ws(chars@.subrange(0, n as int)),
        decreases n,
    {
        assert(chars@.subrange(0, n as int).drop_last() == chars@.subrange(0, n - 1));
        n = n - 1;
    }
    let ghost t = chars@.subrange(0, n as int);
    assert(trim_end_ws(text@) == t);
    let mut lines: Vec<String> = Vec::new();
    if n == 0 {
        assert(lines@.map_values(|l: String| l@) =~= spec_code_lines(text@));
        return lines;
    }
    let mut cur: Vec<char> = Vec::new();
    let mut i: usize = 0;
    while i < n
        invariant
            n <= chars@.len(),
            t == chars@.subrange(0, n as int),
            i <= n,
            ({
                let ps = split_newlines(chars@.subrange(0, i as int));
                &&& ps.len() == lines@.len() + 1
                &&& cur@ == ps.last()
                &&& forall|k: int| 0 <= k < lines@.len() ==> #[trigger] lines@[k]@ == strip_cr(ps[k])
            }),
        decreases n - i,
    {
        let c = chars[i];
        proof {
            let u = chars@.subrange(0, i + 1);
            assert(u.drop_last() == chars@.subrange(0, i as int));
            assert(u.last() == c);
            lemma_split_newlines_nonempty(chars@.subrange(0, i as int));
        }
        if c == '\n' {
            let k = cur.len();
            let line = if k > 0 && cur[k - 1] == '\r' {
                let mut c2 = cur.clone();
                c2.truncate(k - 1);
                assert(c2@ == cur@.drop_last());
                string_from_chars(c2.as_slice())
            } else {
                string_from_chars(cur.as_slice())
            };
            lines.push(line);
            cur = Vec::new();
        } else {
            cur.push(c);
        }
        i = i + 1;
    }
    let ghost ps = split_newlines(t);
    lines.push(string_from_chars(cur.as_slice()));
    assert(lines@.map_values(|l: String| l@) =~= spec_code_lines(text@));
    lines
}

/// The concatenated text of the first `k` spans.
pub open spec fn joined_text(spans: Seq<SpanView>, k: nat) -> Seq<char>
    decreases k,
{
    if k == 0 {
        Seq::<char>::empty()
    } else {
        joined_text(spans, (k - 1) as nat) + spans[k - 1].text
    }
}

/// The UTF-8 length of the text of the first `k` spans.
pub open spec fn joined_len(spans: Seq<SpanView>, k: nat) -> nat {
    vstd::utf8::encode_utf8(joined_text(spans, k)).len()
}

/// The text of a run of spans, and the byte range each span covers in it.
pub fn join_spans(spans: &Vec<Span>) -> (r: (String, Vec<(usize, usize)>))
    ensures
        r.0@ == joined_text(spans_view(spans@), spans@.len()),
        r.1@.len() == spans@.len(),
        forall|k: int| 0 <= k < spans@.len() ==> #[trigger] r.1@[k] == (
            joined_len(spans_view(spans@), k as nat) as usize,
            joined_len(spans_view(spans@), (k + 1) as nat) as usize,
        ),
{
    let ghost sv = spans_view(spans@);
    let mut full = String::new();
    let mut ranges: Vec<(usize, usize)> = Vec::new();
    let mut k: usize = 0;
    while k < spans.len()
        invariant
            sv == spans_view(spans@),
            k <= spans@.len(),
            full@ == joined_text(sv, k as nat),
            ranges@.len() == k,
            forall|j: int| 0 <= j < k ==> #[trigger] ranges@[j] == (
                joined_len(sv, j as nat) as usize,
                joined_len(sv, (j + 1) as nat) as usize,
            ),
        decreases spans@.len() - k,
    {
        let start = full.as_str().as_bytes().len();
        full.append(spans[k].text.as_str());
        let end = full.as_str().as_bytes().len();
        assert(sv[k as int] == spans@[k as int]@);
        ranges.push((start, end));
        k = k + 1;
    }
    (full, ranges)
}

} // verus!
