//! A parsed HTML document as a list of nodes in document order, each with its
//! depth, and the tree queries that block extraction needs.
use vstd::prelude::*;
use crate::text::str_eq;
use vstd::string::StrSliceExecFns;

verus! {

/// An attribute of an element: namespace URI (empty for plain HTML
/// attributes), local name and value.
pub struct Attr {
    pub ns: String,
    pub name: String,
    pub value: String,
}

/// What a node holds.
pub enum NodeData {
    /// A text node.
    Text(String),
    /// An element: its local name and attributes.
    Element(String, Vec<Attr>),
    /// Any other node (document root, doctype, comment, processing instruction).
    Other,
}

/// A node and its depth (the number of its ancestors).
pub struct DomNode {
    pub depth: usize,
    pub data: NodeData,
}

/// The nodes of the document that `scraper::Html::parse_document` builds for
/// an HTML source, in document order (each node before its descendants, which
/// come before its next sibling).
pub uninterp spec fn parsed_html(html: Seq<char>) -> Seq<DomNode>;

/// `scraper::Html::parse_document`, listed in document order.
///
/// Trusted: the result is named `parsed_html` of the source. Each node of the
/// parsed tree is listed once, from the document root down, with its number
/// of ancestors; text nodes with their text, elements with their local name
/// and attributes, every other kind of node as `Other`.
#[verifier::external_body]
pub(crate) fn parse_html(html: &str) -> (doc: Vec<DomNode>)
    ensures
        doc@ == parsed_html(html@),
{
    let parsed = scraper::Html::parse_document(html);
    let mut doc = Vec::new();
    for node in parsed.tree.root().descendants() {
        let data = match node.value() {
            scraper::Node::Text(t) => NodeData::Text(t.text.to_string()),
            scraper::Node::Element(e) => NodeData::Element(e.name().to_string(), e.attrs.iter().map(
                |(k, v)| Attr { ns: k.ns.to_string(), name: k.local.to_string(), value: v.to_string() },
            ).collect()),
            _ => NodeData::Other,
        };
        doc.push(DomNode { depth: node.ancestors().count(), data });
    }
    doc
}

// ── Structure ────────────────────────────────────────────────────────────────

/// The first position at or after `j` whose depth is at most `d` (or the end).
pub open spec fn scan_end(doc: Seq<DomNode>, d: int, j: int) -> int
    decreases doc.len() - j,
{
    if j < 0 || j >= doc.len() || doc[j].depth <= d {
        j
    } else {
        scan_end(doc, d, j + 1)
    }
}

/// The end of the subtree of node `i`: its descendants are the nodes strictly
/// between `i` and this position.
pub open spec fn subtree_end(doc: Seq<DomNode>, i: int) -> int {
    scan_end(doc, doc[i].depth as int, i + 1)
}

/// Node `j` is a descendant of node `i`.
pub open spec fn is_descendant(doc: Seq<DomNode>, i: int, j: int) -> bool {
    0 <= i < j < subtree_end(doc, i)
}

/// Node `j` is a child of node `i`: a descendant one level deeper.
pub open spec fn is_child(doc: Seq<DomNode>, i: int, j: int) -> bool {
    &&& is_descendant(doc, i, j)
    &&& doc[j].depth == doc[i].depth + 1
}

pub proof fn lemma_scan_end(doc: Seq<DomNode>, d: int, j: int)
    requires
        0 <= j <= doc.len(),
    ensures
        j <= scan_end(doc, d, j) <= doc.len(),
        forall|k: int| j <= k < scan_end(doc, d, j) ==> #[trigger] doc[k].depth > d,
        scan_end(doc, d, j) < doc.len() ==> doc[scan_end(doc, d, j)].depth <= d,
    decreases doc.len() - j,
{
    if j < doc.len() && doc[j].depth > d {
        lemma_scan_end(doc, d, j + 1);
    }
}

/// Where the subtree of node `i` ends.
pub fn subtree_end_of(doc: &Vec<DomNode>, i: usize) -> (e: usize)
    requires
        i < doc@.len(),
    ensures
        e == subtree_end(doc@, i as int),
        i < e <= doc@.len(),
{
    let n = doc.len();
    let d = doc[i].depth;
    let mut j = i + 1;
    while j < doc.len() && doc[j].depth > d
        invariant
            i < j <= doc@.len(),
            d == doc@[i as int].depth,
            scan_end(doc@, d as int, i + 1) == scan_end(doc@, d as int, j as int),
        decreases doc@.len() - j,
    {
        j = j + 1;
    }
    proof {
        lemma_scan_end(doc@, d as int, (i + 1) as int);
    }
    j
}

/// The children of node `i` at or after position `j`, in document order.
pub open spec fn children_from(doc: Seq<DomNode>, i: int, j: int) -> Seq<int>
    decreases doc.len() - j,
{
    if j <= i || j >= doc.len() || j >= subtree_end(doc, i) {
        Seq::<int>::empty()
    } else if is_child(doc, i, j) {
        seq![j] + children_from(doc, i, j + 1)
    } else {
        children_from(doc, i, j + 1)
    }
}

/// The children of node `i`, in document order.
pub open spec fn children(doc: Seq<DomNode>, i: int) -> Seq<int> {
    children_from(doc, i, i + 1)
}

/// Whether node `j` is a child of node `i`.
pub fn is_child_of(doc: &Vec<DomNode>, i: usize, j: usize) -> (b: bool)
    requires
        i < doc@.len(),
        j < doc@.len(),
    ensures
        b == is_child(doc@, i as int, j as int),
{
    let e = subtree_end_of(doc, i);
    i < j && j < e && doc[j].depth > doc[i].depth && doc[j].depth - 1 == doc[i].depth
}

/// The positions of the children of node `i`, in document order.
pub fn children_of(doc: &Vec<DomNode>, i: usize) -> (v: Vec<usize>)
    requires
        i < doc@.len(),
    ensures
        v@.map_values(|k: usize| k as int) == children(doc@, i as int),
{
    let e = subtree_end_of(doc, i);
    proof {
        lemma_scan_end(doc@, doc@[i as int].depth as int, (i + 1) as int);
    }
    let d = doc[i].depth;
    let mut v: Vec<usize> = Vec::new();
    let mut j = i + 1;
    while j < e
        invariant
            i < j <= e,
            e == subtree_end(doc@, i as int),
            e <= doc@.len(),
            d == doc@[i as int].depth,
            forall|k: int| i < k < e ==> #[trigger] doc@[k].depth > d,
            v@.map_values(|k: usize| k as int) + children_from(doc@, i as int, j as int)
                == children(doc@, i as int),
        decreases e - j,
    {
        if doc[j].depth - 1 == d {
            v.push(j);
            assert(v@.map_values(|k: usize| k as int) =~= v@.drop_last().map_values(|k: usize| k as int).push(j as int));
        }
        j = j + 1;
    }
    v
}


// ── Element names ────────────────────────────────────────────────────────────

/// The element names that block extraction tells apart.
#[derive(Clone, Copy, PartialEq, Eq, Structural, Debug)]
pub enum Tag {
    H1,
    H2,
    H3,
    P,
    Ul,
    Ol,
    Li,
    Blockquote,
    Pre,
    Code,
    Table,
    Tr,
    Th,
    Td,
    Hr,
    Img,
    Strong,
    B,
    Em,
    I,
    Body,
    Other,
}

/// The tag of an element's local name.
pub open spec fn tag_of_name(n: Seq<char>) -> Tag {
    if n == "h1"@ {
        Tag::H1
    } else if n == "h2"@ {
        Tag::H2
    } else if n == "h3"@ {
        Tag::H3
    } else if n == "p"@ {
        Tag::P
    } else if n == "ul"@ {
        Tag::Ul
    } else if n == "ol"@ {
        Tag::Ol
    } else if n == "li"@ {
        Tag::Li
    } else if n == "blockquote"@ {
        Tag::Blockquote
    } else if n == "pre"@ {
        Tag::Pre
    } else if n == "code"@ {
        Tag::Code
    } else if n == "table"@ {
        Tag::Table
    } else if n == "tr"@ {
        Tag::Tr
    } else if n == "th"@ {
        Tag::Th
    } else if n == "td"@ {
        Tag::Td
    } else if n == "hr"@ {
        Tag::Hr
    } else if n == "img"@ {
        Tag::Img
    } else if n == "strong"@ {
        Tag::Strong
    } else if n == "b"@ {
        Tag::B
    } else if n == "em"@ {
        Tag::Em
    } else if n == "i"@ {
        Tag::I
    } else if n == "body"@ {
        Tag::Body
    } else {
        Tag::Other
    }
}

/// Each element name that block extraction tells apart is recognised as its
/// own tag: `h1`–`h3`, `p`, `ul`, `ol`, `li`, `blockquote`, `pre`, `code`,
/// `table`, `tr`, `th`, `td`, `hr`, `img`, `strong`, `b`, `em`, `i`, `body`.
pub proof fn lemma_tag_names()
    ensures
        tag_of_name("h1"@) == Tag::H1,
        tag_of_name("h2"@) == Tag::H2,
        tag_of_name("h3"@) == Tag::H3,
        tag_of_name("p"@) == Tag::P,
        tag_of_name("ul"@) == Tag::Ul,
        tag_of_name("ol"@) == Tag::Ol,
        tag_of_name("li"@) == Tag::Li,
        tag_of_name("blockquote"@) == Tag::Blockquote,
        tag_of_name("pre"@) == Tag::Pre,
        tag_of_name("code"@) == Tag::Code,
        tag_of_name("table"@) == Tag::Table,
        tag_of_name("tr"@) == Tag::Tr,
        tag_of_name("th"@) == Tag::Th,
        tag_of_name("td"@) == Tag::Td,
        tag_of_name("hr"@) == Tag::Hr,
        tag_of_name("img"@) == Tag::Img,
        tag_of_name("strong"@) == Tag::Strong,
        tag_of_name("b"@) == Tag::B,
        tag_of_name("em"@) == Tag::Em,
        tag_of_name("i"@) == Tag::I,
        tag_of_name("body"@) == Tag::Body,
{
    reveal_strlit("h1");
    reveal_strlit("h2");
    reveal_strlit("h3");
    reveal_strlit("p");
    reveal_strlit("ul");
    reveal_strlit("ol");
    reveal_strlit("li");
    reveal_strlit("blockquote");
    reveal_strlit("pre");
    reveal_strlit("code");
    reveal_strlit("table");
    reveal_strlit("tr");
    reveal_strlit("th");
    reveal_strlit("td");
    reveal_strlit("hr");
    reveal_strlit("img");
    reveal_strlit("strong");
    reveal_strlit("b");
    reveal_strlit("em");
    reveal_strlit("i");
    reveal_strlit("body");
    let names = seq![
        "h1"@, "h2"@, "h3"@, "p"@, "ul"@, "ol"@, "li"@, "blockquote"@, "pre"@, "code"@, "table"@,
        "tr"@, "th"@, "td"@, "hr"@, "img"@, "strong"@, "b"@, "em"@, "i"@, "body"@,
    ];
    assert forall|a: int, b: int| 0 <= a < b < names.len() implies names[a] != names[b] by {
        if names[a].len() == names[b].len() {
            if names[a][0] == names[b][0] {
                assert(names[a].len() >= 2);
                assert(names[a][1] != names[b][1]);
            } else {
                assert(names[a][0] != names[b][0]);
            }
        }
    }
}

/// The tag of an element's local name.
pub fn tag_of(name: &str) -> (t: Tag)
    ensures
        t == tag_of_name(name@),
{
    if str_eq(name, "h1") {
        Tag::H1
    } else if str_eq(name, "h2") {
        Tag::H2
    } else if str_eq(name, "h3") {
        Tag::H3
    } else if str_eq(name, "p") {
        Tag::P
    } else if str_eq(name, "ul") {
        Tag::Ul
    } else if str_eq(name, "ol") {
        Tag::Ol
    } else if str_eq(name, "li") {
        Tag::Li
    } else if str_eq(name, "blockquote") {
        Tag::Blockquote
    } else if str_eq(name, "pre") {
        Tag::Pre
    } else if str_eq(name, "code") {
        Tag::Code
    } else if str_eq(name, "table") {
        Tag::Table
    } else if str_eq(name, "tr") {
        Tag::Tr
    } else if str_eq(name, "th") {
        Tag::Th
    } else if str_eq(name, "td") {
        Tag::Td
    } else if str_eq(name, "hr") {
        Tag::Hr
    } else if str_eq(name, "img") {
        Tag::Img
    } else if str_eq(name, "strong") {
        Tag::Strong
    } else if str_eq(name, "b") {
        Tag::B
    } else if str_eq(name, "em") {
        Tag::Em
    } else if str_eq(name, "i") {
        Tag::I
    } else if str_eq(name, "body") {
        Tag::Body
    } else {
        Tag::Other
    }
}

/// The tag of node `j`, if it is an element.
pub open spec fn node_tag(doc: Seq<DomNode>, j: int) -> Option<Tag> {
    match doc[j].data {
        NodeData::Element(name, _) => Some(tag_of_name(name@)),
        _ => None,
    }
}

/// The tag of node `j`, if it is an element.
pub fn node_tag_of(doc: &Vec<DomNode>, j: usize) -> (t: Option<Tag>)
    requires
        j < doc@.len(),
    ensures
        t == node_tag(doc@, j as int),
{
    match &doc[j].data {
        NodeData::Element(name, _) => Some(tag_of(name.as_str())),
        _ => None,
    }
}

// ── Selection ────────────────────────────────────────────────────────────────

/// The descendants of node `i` at or after position `j` that are elements
/// with tag `t`, in document order.
pub open spec fn select_from(doc: Seq<DomNode>, i: int, t: Tag, j: int) -> Seq<int>
    decreases doc.len() - j,
{
    if j <= i || j >= doc.len() || j >= subtree_end(doc, i) {
        Seq::<int>::empty()
    } else if node_tag(doc, j) == Some(t) {
        seq![j] + select_from(doc, i, t, j + 1)
    } else {
        select_from(doc, i, t, j + 1)
    }
}

/// The descendants of node `i` that are elements with tag `t`, in document order.
pub open spec fn select(doc: Seq<DomNode>, i: int, t: Tag) -> Seq<int> {
    select_from(doc, i, t, i + 1)
}

/// The positions of the descendants of node `i` that are `t` elements.
pub fn select_of(doc: &Vec<DomNode>, i: usize, t: Tag) -> (v: Vec<usize>)
    requires
        i < doc@.len(),
    ensures
        v@.map_values(|k: usize| k as int) == select(doc@, i as int, t),
{
    let e = subtree_end_of(doc, i);
    let mut v: Vec<usize> = Vec::new();
    let mut j = i + 1;
    while j < e
        invariant
            i < j <= e,
            e == subtree_end(doc@, i as int),
            e <= doc@.len(),
            v@.map_values(|k: usize| k as int) + select_from(doc@, i as int, t, j as int) == select(
                doc@,
                i as int,
                t,
            ),
        decreases e - j,
    {
        if node_tag_of(doc, j) == Some(t) {
            v.push(j);
            assert(v@.map_values(|k: usize| k as int) =~= v@.drop_last().map_values(|k: usize| k as int).push(j as int));
        }
        j = j + 1;
    }
    v
}

/// The text of the descendants of node `i` at or after position `j`, in
/// document order.
pub open spec fn text_from(doc: Seq<DomNode>, i: int, j: int) -> Seq<char>
    decreases doc.len() - j,
{
    if j <= i || j >= doc.len() || j >= subtree_end(doc, i) {
        Seq::<char>::empty()
    } else {
        (match doc[j].data {
            NodeData::Text(t) => t@,
            _ => Seq::<char>::empty(),
        }) + text_from(doc, i, j + 1)
    }
}

/// The text of node `i`: its descendant text nodes, concatenated in document order.
pub open spec fn text_of(doc: Seq<DomNode>, i: int) -> Seq<char> {
    text_from(doc, i, i + 1)
}

/// The text of node `i`.
pub fn text_content(doc: &Vec<DomNode>, i: usize) -> (s: String)
    requires
        i < doc@.len(),
    ensures
        s@ == text_of(doc@, i as int),
{
    let e = subtree_end_of(doc, i);
    let mut s = String::new();
    let mut j = i + 1;
    while j < e
        invariant
            i < j <= e,
            e == subtree_end(doc@, i as int),
            e <= doc@.len(),
            s@ + text_from(doc@, i as int, j as int) == text_of(doc@, i as int),
        decreases e - j,
    {
        match &doc[j].data {
            NodeData::Text(t) => {
                s.append(t.as_str());
            },
            _ => {},
        }
        j = j + 1;
    }
    s
}

// ── Attributes ───────────────────────────────────────────────────────────────

/// The value of the first attribute at or after position `k` without a
/// namespace whose local name is `name`.
pub open spec fn attr_from(attrs: Seq<Attr>, name: Seq<char>, k: int) -> Option<Seq<char>>
    decreases attrs.len() - k,
{
    if k < 0 || k >= attrs.len() {
        None
    } else if attrs[k].ns@.len() == 0 && attrs[k].name@ == name {
        Some(attrs[k].value@)
    } else {
        attr_from(attrs, name, k + 1)
    }
}

/// The value of attribute `name` of node `j`, or the empty string when it has none.
pub open spec fn attr_or_empty(doc: Seq<DomNode>, j: int, name: Seq<char>) -> Seq<char> {
    match doc[j].data {
        NodeData::Element(_, attrs) => match attr_from(attrs@, name, 0) {
            Some(v) => v,
            None => Seq::<char>::empty(),
        },
        _ => Seq::<char>::empty(),
    }
}

/// The value of the first attribute without a namespace named `name`.
fn lookup_attr(attrs: &Vec<Attr>, name: &str) -> (v: Option<String>)
    ensures
        match attr_from(attrs@, name@, 0) {
            Some(x) => v matches Some(s) && s@ == x,
            None => v is None,
        },
{
    let mut k: usize = 0;
    while k < attrs.len()
        invariant
            k <= attrs@.len(),
            attr_from(attrs@, name@, 0) == attr_from(attrs@, name@, k as int),
        decreases attrs@.len() - k,
    {
        let a = &attrs[k];
        if a.ns.as_str().unicode_len() == 0 && str_eq(a.name.as_str(), name) {
            return Some(a.value.clone());
        }
        k = k + 1;
    }
    None
}

/// The value of attribute `name` of node `j`, or the empty string.
pub fn attr_value(doc: &Vec<DomNode>, j: usize, name: &str) -> (v: String)
    requires
        j < doc@.len(),
    ensures
        v@ == attr_or_empty(doc@, j as int, name@),
{
    match &doc[j].data {
        NodeData::Element(_, attrs) => match lookup_attr(attrs, name) {
            Some(v) => v,
            None => String::new(),
        },
        _ => String::new(),
    }
}

} // verus!
