//! The block model of a document: the HTML elements that are laid out on
//! paper (headings, paragraphs, lists, quotes, code, tables, rules, images)
//! with their inline text spans.
use vstd::prelude::*;
use crate::dom::{
    attr_or_empty, attr_value, children, children_from, children_of, is_child, is_child_of,
    lemma_scan_end, lemma_tag_names, node_tag, node_tag_of, parse_html, parsed_html, select, select_from, select_of,
    subtree_end, subtree_end_of, tag_of, tag_of_name, text_content, text_of, DomNode, NodeData, Tag,
};
use crate::text::{chars_of, collapse_whitespace, collapse_ws, is_whitespace, is_ws, string_from_chars};

verus! {

// ── Inline spans ─────────────────────────────────────────────────────────────

/// A run of inline text with its style.
#[derive(Debug)]
pub struct Span {
    pub text: String,
    pub bold: bool,
    pub italic: bool,
    pub code: bool,
}

/// The value of a span.
pub struct SpanView {
    pub text: Seq<char>,
    pub bold: bool,
    pub italic: bool,
    pub code: bool,
}

impl View for Span {
    type V = SpanView;

    open spec fn view(&self) -> SpanView {
        SpanView { text: self.text@, bold: self.bold, italic: self.italic, code: self.code }
    }
}

impl Span {
    pub fn new(text: String, bold: bool, italic: bool, code: bool) -> (s: Self)
        ensures
            s@ == (SpanView { text: text@, bold, italic, code }),
    {
        Span { text, bold, italic, code }
    }
}

/// The values of a list of spans.
pub open spec fn spans_view(v: Seq<Span>) -> Seq<SpanView> {
    v.map_values(|s: Span| s@)
}

/// The text a text node contributes to a span: its whitespace collapsed,
/// with one leading space if it starts with whitespace and one trailing space
/// if it ends with whitespace and is longer than one byte. A text node with
/// no words contributes nothing.
pub open spec fn span_text(raw: Seq<char>) -> Option<Seq<char>> {
    let inner = collapse_ws(raw);
    if inner.len() == 0 {
        None
    } else {
        let lead = if raw.len() > 0 && is_ws(raw[0]) {
            seq![' ']
        } else {
            Seq::<char>::empty()
        };
        let trail = if vstd::utf8::encode_utf8(raw).len() > 1 && raw.len() > 0 && is_ws(raw.last()) {
            seq![' ']
        } else {
            Seq::<char>::empty()
        };
        Some(lead + inner + trail)
    }
}

/// The span text of a text node (see [`span_text`]).
pub fn normalize_text(raw: &str) -> (r: Option<String>)
    ensures
        match span_text(raw@) {
            Some(t) => r matches Some(s) && s@ == t,
            None => r is None,
        },
{
    let chars = chars_of(raw);
    let inner = collapse_whitespace(chars.as_slice());
    if inner.len() == 0 {
        return None;
    }
    let n = chars.len();
    let mut out: Vec<char> = Vec::new();
    if n > 0 && is_whitespace(chars[0]) {
        out.push(' ');
    }
    let mut k: usize = 0;
    let ghost start = out@;
    while k < inner.len()
        invariant
            k <= inner@.len(),
            out@ == start + inner@.subrange(0, k as int),
        decreases inner@.len() - k,
    {
        out.push(inner[k]);
        k = k + 1;
    }
    assert(inner@.subrange(0, inner@.len() as int) == inner@);
    let blen = raw.as_bytes().len();
    assert(blen as int == vstd::utf8::encode_utf8(raw@).len());
    if blen > 1 && n > 0 && is_whitespace(chars[n - 1]) {
        out.push(' ');
    }
    assert(n > 0 ==> chars@[n - 1] == raw@.last());
    Some(string_from_chars(out.as_slice()))
}

/// The style children of an element inherit: `strong`/`b` make bold, `em`/`i`
/// italic, `code` monospace.
pub open spec fn child_style(t: Tag, bold: bool, italic: bool, code: bool) -> (bool, bool, bool) {
    match t {
        Tag::Strong | Tag::B => (true, italic, code),
        Tag::Em | Tag::I => (bold, true, code),
        Tag::Code => (bold, italic, true),
        _ => (bold, italic, code),
    }
}

fn child_style_of(t: Tag, bold: bool, italic: bool, code: bool) -> (r: (bool, bool, bool))
    ensures
        r == child_style(t, bold, italic, code),
{
    match t {
        Tag::Strong | Tag::B => (true, italic, code),
        Tag::Em | Tag::I => (bold, true, code),
        Tag::Code => (bold, italic, true),
        _ => (bold, italic, code),
    }
}

/// The spans of the children of node `i` at or after position `j`.
pub open spec fn spans_from(doc: Seq<DomNode>, i: int, j: int, bold: bool, italic: bool, code: bool) -> Seq<
    SpanView,
>
    decreases doc.len() - j, 1int,
{
    if j <= i || j >= doc.len() || j >= subtree_end(doc, i) {
        Seq::<SpanView>::empty()
    } else if is_child(doc, i, j) {
        node_spans(doc, j, bold, italic, code) + spans_from(doc, i, j + 1, bold, italic, code)
    } else {
        spans_from(doc, i, j + 1, bold, italic, code)
    }
}

/// The spans of node `j`: a text node gives its span text with the current
/// style, an element the spans of its children with the style it implies.
pub open spec fn node_spans(doc: Seq<DomNode>, j: int, bold: bool, italic: bool, code: bool) -> Seq<
    SpanView,
>
    decreases doc.len() - j, 0int,
{
    if j < 0 || j >= doc.len() {
        Seq::<SpanView>::empty()
    } else {
        match doc[j].data {
            NodeData::Text(t) => match span_text(t@) {
                Some(x) => seq![SpanView { text: x, bold, italic, code }],
                None => Seq::<SpanView>::empty(),
            },
            NodeData::Element(name, _) => {
                let st = child_style(tag_of_name(name@), bold, italic, code);
                spans_from(doc, j, j + 1, st.0, st.1, st.2)
            },
            NodeData::Other => Seq::<SpanView>::empty(),
        }
    }
}

/// The inline spans of element `i`, its children read in document order.
pub open spec fn spans_of(doc: Seq<DomNode>, i: int, bold: bool, italic: bool, code: bool) -> Seq<SpanView> {
    spans_from(doc, i, i + 1, bold, italic, code)
}

/// The inline spans of node `i` (see [`spans_of`]).
pub fn extract_spans(doc: &Vec<DomNode>, i: usize, bold: bool, italic: bool, code: bool) -> (out: Vec<Span>)
    requires
        i < doc@.len(),
    ensures
        spans_view(out@) == spans_of(doc@, i as int, bold, italic, code),
    decreases doc@.len() - i,
{
    let e = subtree_end_of(doc, i);
    proof {
        lemma_scan_end(doc@, doc@[i as int].depth as int, (i + 1) as int);
    }
    let d = doc[i].depth;
    let mut out: Vec<Span> = Vec::new();
    let mut j = i + 1;
    while j < e
        invariant
            i < j <= e,
            e == subtree_end(doc@, i as int),
            e <= doc@.len(),
            d == doc@[i as int].depth,
            forall|k: int| i < k < e ==> #[trigger] doc@[k].depth > d,
            spans_view(out@) + spans_from(doc@, i as int, j as int, bold, italic, code) == spans_of(
                doc@,
                i as int,
                bold,
                italic,
                code,
            ),
        decreases e - j,
    {
        if doc[j].depth - 1 == d {
            let ghost before = out@;
            match &doc[j].data {
                NodeData::Text(t) => {
                    match normalize_text(t.as_str()) {
                        Some(x) => {
                            out.push(Span::new(x, bold, italic, code));
                            assert(spans_view(out@) =~= spans_view(before) + node_spans(doc@, j as int, bold, italic, code));
                        },
                        None => {
                            assert(spans_view(out@) =~= spans_view(before) + node_spans(doc@, j as int, bold, italic, code));
                        },
                    }
                },
                NodeData::Element(name, _) => {
                    let st = child_style_of(tag_of(name.as_str()), bold, italic, code);
                    let mut sub = extract_spans(doc, j, st.0, st.1, st.2);
                    let ghost sub_v = sub@;
                    out.append(&mut sub);
                    assert(spans_view(out@) =~= spans_view(before) + spans_view(sub_v));
                },
                NodeData::Other => {
                    assert(spans_view(out@) =~= spans_view(before) + node_spans(doc@, j as int, bold, italic, code));
                },
            }
        }
        j = j + 1;
    }
    out
}


// ── Blocks ───────────────────────────────────────────────────────────────────

/// A block of a document, laid out on its own rows.
pub enum Block {
    Heading { level: u8, spans: Vec<Span> },
    Paragraph { spans: Vec<Span> },
    Code { text: String },
    Rule,
    ListItem { ordered: bool, index: usize, spans: Vec<Span>, indent: usize },
    Blockquote { spans: Vec<Span> },
    Image { src: String, alt: String },
    TableRow { cells: Vec<Vec<Span>>, header: bool },
}

/// The value of a block.
pub enum BlockView {
    Heading { level: u8, spans: Seq<SpanView> },
    Paragraph { spans: Seq<SpanView> },
    Code { text: Seq<char> },
    Rule,
    ListItem { ordered: bool, index: usize, spans: Seq<SpanView>, indent: usize },
    Blockquote { spans: Seq<SpanView> },
    Image { src: Seq<char>, alt: Seq<char> },
    TableRow { cells: Seq<Seq<SpanView>>, header: bool },
}

/// The values of the cells of a table row.
pub open spec fn cells_view(cells: Seq<Vec<Span>>) -> Seq<Seq<SpanView>> {
    cells.map_values(|c: Vec<Span>| spans_view(c@))
}

impl View for Block {
    type V = BlockView;

    open spec fn view(&self) -> BlockView {
        match self {
            Block::Heading { level, spans } => BlockView::Heading { level: *level, spans: spans_view(spans@) },
            Block::Paragraph { spans } => BlockView::Paragraph { spans: spans_view(spans@) },
            Block::Code { text } => BlockView::Code { text: text@ },
            Block::Rule => BlockView::Rule,
            Block::ListItem { ordered, index, spans, indent } => BlockView::ListItem {
                ordered: *ordered,
                index: *index,
                spans: spans_view(spans@),
                indent: *indent,
            },
            Block::Blockquote { spans } => BlockView::Blockquote { spans: spans_view(spans@) },
            Block::Image { src, alt } => BlockView::Image { src: src@, alt: alt@ },
            Block::TableRow { cells, header } => BlockView::TableRow {
                cells: cells_view(cells@),
                header: *header,
            },
        }
    }
}

/// The values of a list of blocks.
pub open spec fn blocks_view(v: Seq<Block>) -> Seq<BlockView> {
    v.map_values(|b: Block| b@)
}

/// The items of a list element `j`: of the `li` descendants `lis`, in
/// document order, the first `n` that are children of `j`, each numbered by
/// its position among all the `li` descendants (from 1).
pub open spec fn list_items(
    doc: Seq<DomNode>,
    j: int,
    lis: Seq<int>,
    n: nat,
    ordered: bool,
    depth: usize,
) -> Seq<BlockView>
    decreases n,
{
    if n == 0 {
        Seq::<BlockView>::empty()
    } else {
        let li = lis[n - 1];
        list_items(doc, j, lis, (n - 1) as nat, ordered, depth) + if is_child(doc, j, li) {
            seq![
                BlockView::ListItem {
                    ordered,
                    index: n as usize,
                    spans: spans_of(doc, li, false, false, false),
                    indent: depth,
                },
            ]
        } else {
            Seq::<BlockView>::empty()
        }
    }
}

/// One italic quote block for each of the first `n` paragraphs `ps`.
pub open spec fn quote_blocks(doc: Seq<DomNode>, ps: Seq<int>, n: nat) -> Seq<BlockView>
    decreases n,
{
    if n == 0 {
        Seq::<BlockView>::empty()
    } else {
        quote_blocks(doc, ps, (n - 1) as nat) + seq![
            BlockView::Blockquote { spans: spans_of(doc, ps[n - 1], false, true, false) },
        ]
    }
}

/// The spans of the first `n` cells `cs`, bold in a header row.
pub open spec fn cell_spans(doc: Seq<DomNode>, cs: Seq<int>, n: nat, header: bool) -> Seq<Seq<SpanView>>
    decreases n,
{
    if n == 0 {
        Seq::<Seq<SpanView>>::empty()
    } else {
        cell_spans(doc, cs, (n - 1) as nat, header).push(spans_of(doc, cs[n - 1], header, false, false))
    }
}

/// The row of table row element `tr`: a header row if it has a `th`
/// descendant, whose cells are then its `th` descendants, else its `td`
/// descendants. A row without cells gives no block.
pub open spec fn table_row(doc: Seq<DomNode>, tr: int) -> Seq<BlockView> {
    let header = select(doc, tr, Tag::Th).len() > 0;
    let cs = select(doc, tr, if header { Tag::Th } else { Tag::Td });
    if cs.len() > 0 {
        seq![BlockView::TableRow { cells: cell_spans(doc, cs, cs.len(), header), header }]
    } else {
        Seq::<BlockView>::empty()
    }
}

/// The rows of the first `n` table rows `trs`.
pub open spec fn table_rows(doc: Seq<DomNode>, trs: Seq<int>, n: nat) -> Seq<BlockView>
    decreases n,
{
    if n == 0 {
        Seq::<BlockView>::empty()
    } else {
        table_rows(doc, trs, (n - 1) as nat) + table_row(doc, trs[n - 1])
    }
}

/// The image block of `img` element `k`: its `src` and `alt` (empty when absent).
pub open spec fn image_block(doc: Seq<DomNode>, k: int) -> BlockView {
    BlockView::Image { src: attr_or_empty(doc, k, "src"@), alt: attr_or_empty(doc, k, "alt"@) }
}

/// The blocks of element `j`:
/// - `h1`–`h3`: a heading of that level, bold for levels 1 and 2;
/// - `p`: an image if it has an `img` descendant (the first one), else a
///   paragraph of its spans if it has any;
/// - `ul`/`ol`: its list items (see [`list_items`]);
/// - `blockquote`: an italic quote for each `p` descendant;
/// - `pre`: a code block of the text of its first `code` descendant, or its own text;
/// - `table`: a row for each `tr` descendant (see [`table_row`]);
/// - `hr`: a rule; `img`: an image; anything else: nothing.
pub open spec fn element_blocks(doc: Seq<DomNode>, j: int, depth: usize) -> Seq<BlockView> {
    match node_tag(doc, j) {
        Some(Tag::H1) => seq![BlockView::Heading { level: 1, spans: spans_of(doc, j, true, false, false) }],
        Some(Tag::H2) => seq![BlockView::Heading { level: 2, spans: spans_of(doc, j, true, false, false) }],
        Some(Tag::H3) => seq![BlockView::Heading { level: 3, spans: spans_of(doc, j, false, false, false) }],
        Some(Tag::P) => {
            let imgs = select(doc, j, Tag::Img);
            if imgs.len() > 0 {
                seq![image_block(doc, imgs[0])]
            } else {
                let s = spans_of(doc, j, false, false, false);
                if s.len() > 0 {
                    seq![BlockView::Paragraph { spans: s }]
                } else {
                    Seq::<BlockView>::empty()
                }
            }
        },
        Some(Tag::Ul) => {
            let lis = select(doc, j, Tag::Li);
            list_items(doc, j, lis, lis.len(), false, depth)
        },
        Some(Tag::Ol) => {
            let lis = select(doc, j, Tag::Li);
            list_items(doc, j, lis, lis.len(), true, depth)
        },
        Some(Tag::Blockquote) => {
            let ps = select(doc, j, Tag::P);
            quote_blocks(doc, ps, ps.len())
        },
        Some(Tag::Pre) => {
            let codes = select(doc, j, Tag::Code);
            seq![
                BlockView::Code {
                    text: if codes.len() > 0 {
                        text_of(doc, codes[0])
                    } else {
                        text_of(doc, j)
                    },
                },
            ]
        },
        Some(Tag::Table) => {
            let trs = select(doc, j, Tag::Tr);
            table_rows(doc, trs, trs.len())
        },
        Some(Tag::Hr) => seq![BlockView::Rule],
        Some(Tag::Img) => seq![image_block(doc, j)],
        _ => Seq::<BlockView>::empty(),
    }
}


/// The positions are nodes of the document.
pub open spec fn all_in(doc: Seq<DomNode>, v: Seq<usize>) -> bool {
    forall|k: int| 0 <= k < v.len() ==> #[trigger] v[k] < doc.len()
}

proof fn lemma_select_in(doc: Seq<DomNode>, i: int, t: Tag, j: int)
    requires
        0 <= i < doc.len(),
    ensures
        forall|k: int| 0 <= k < select_from(doc, i, t, j).len() ==> i < #[trigger] select_from(doc, i, t, j)[k] < doc.len(),
    decreases doc.len() - j,
{
    if !(j <= i || j >= doc.len() || j >= subtree_end(doc, i)) {
        lemma_select_in(doc, i, t, j + 1);
        let r = select_from(doc, i, t, j + 1);
        if node_tag(doc, j) == Some(t) {
            assert forall|k: int| 0 <= k < select_from(doc, i, t, j).len() implies i < #[trigger] select_from(doc, i, t, j)[k] < doc.len() by {
                if k > 0 {
                    assert(select_from(doc, i, t, j)[k] == r[k - 1]);
                }
            }
        }
    }
}

proof fn lemma_cell_spans_len(doc: Seq<DomNode>, cs: Seq<int>, n: nat, header: bool)
    ensures
        cell_spans(doc, cs, n, header).len() == n,
    decreases n,
{
    if n > 0 {
        lemma_cell_spans_len(doc, cs, (n - 1) as nat, header);
    }
}

/// The positions of the `t` descendants of node `i`, all within the document.
fn select_nodes(doc: &Vec<DomNode>, i: usize, t: Tag) -> (v: Vec<usize>)
    requires
        i < doc@.len(),
    ensures
        v@.map_values(|k: usize| k as int) == select(doc@, i as int, t),
        all_in(doc@, v@),
{
    let v = select_of(doc, i, t);
    proof {
        lemma_select_in(doc@, i as int, t, i + 1);
        assert forall|k: int| 0 <= k < v@.len() implies #[trigger] v@[k] < doc@.len() by {
            assert(v@.map_values(|k: usize| k as int)[k] == v@[k] as int);
        }
    }
    v
}

/// Appends the list items of list element `j` (see [`list_items`]).
fn push_list_items(
    doc: &Vec<DomNode>,
    j: usize,
    lis: &Vec<usize>,
    ordered: bool,
    depth: usize,
    blocks: &mut Vec<Block>,
)
    requires
        j < doc@.len(),
        all_in(doc@, lis@),
    ensures
        blocks_view(final(blocks)@) == blocks_view(old(blocks)@) + list_items(
            doc@,
            j as int,
            lis@.map_values(|k: usize| k as int),
            lis@.len(),
            ordered,
            depth,
        ),
{
    let ghost l = lis@.map_values(|k: usize| k as int);
    let ghost start = blocks_view(blocks@);
    let mut idx: usize = 0;
    while idx < lis.len()
        invariant
            j < doc@.len(),
            all_in(doc@, lis@),
            l == lis@.map_values(|k: usize| k as int),
            idx <= lis@.len(),
            blocks_view(blocks@) == start + list_items(doc@, j as int, l, idx as nat, ordered, depth),
        decreases lis@.len() - idx,
    {
        let li = lis[idx];
        assert(l[idx as int] == li as int);
        let ghost before = blocks@;
        if is_child_of(doc, j, li) {
            let spans = extract_spans(doc, li, false, false, false);
            blocks.push(Block::ListItem { ordered, index: idx + 1, spans, indent: depth });
        }
        assert(blocks_view(blocks@) =~= blocks_view(before) + (if is_child(doc@, j as int, li as int) {
            seq![
                BlockView::ListItem {
                    ordered,
                    index: (idx + 1) as usize,
                    spans: spans_of(doc@, li as int, false, false, false),
                    indent: depth,
                },
            ]
        } else {
            Seq::<BlockView>::empty()
        }));
        idx = idx + 1;
    }
}

/// Appends one italic quote block for each paragraph `ps`.
fn push_quotes(doc: &Vec<DomNode>, ps: &Vec<usize>, blocks: &mut Vec<Block>)
    requires
        all_in(doc@, ps@),
    ensures
        blocks_view(final(blocks)@) == blocks_view(old(blocks)@) + quote_blocks(
            doc@,
            ps@.map_values(|k: usize| k as int),
            ps@.len(),
        ),
{
    let ghost l = ps@.map_values(|k: usize| k as int);
    let ghost start = blocks_view(blocks@);
    let mut idx: usize = 0;
    while idx < ps.len()
        invariant
            all_in(doc@, ps@),
            l == ps@.map_values(|k: usize| k as int),
            idx <= ps@.len(),
            blocks_view(blocks@) == start + quote_blocks(doc@, l, idx as nat),
        decreases ps@.len() - idx,
    {
        let p = ps[idx];
        assert(l[idx as int] == p as int);
        let ghost before = blocks@;
        let spans = extract_spans(doc, p, false, true, false);
        blocks.push(Block::Blockquote { spans });
        assert(blocks_view(blocks@) =~= blocks_view(before) + seq![
            BlockView::Blockquote { spans: spans_of(doc@, p as int, false, true, false) },
        ]);
        idx = idx + 1;
    }
}

/// The spans of each cell `cs`, bold in a header row.
fn row_cells(doc: &Vec<DomNode>, cs: &Vec<usize>, header: bool) -> (cells: Vec<Vec<Span>>)
    requires
        all_in(doc@, cs@),
    ensures
        cells_view(cells@) == cell_spans(doc@, cs@.map_values(|k: usize| k as int), cs@.len(), header),
{
    let ghost l = cs@.map_values(|k: usize| k as int);
    let mut cells: Vec<Vec<Span>> = Vec::new();
    let mut idx: usize = 0;
    while idx < cs.len()
        invariant
            all_in(doc@, cs@),
            l == cs@.map_values(|k: usize| k as int),
            idx <= cs@.len(),
            cells_view(cells@) == cell_spans(doc@, l, idx as nat, header),
        decreases cs@.len() - idx,
    {
        let c = cs[idx];
        assert(l[idx as int] == c as int);
        let ghost before = cells@;
        cells.push(extract_spans(doc, c, header, false, false));
        assert(cells_view(cells@) =~= cells_view(before).push(spans_of(doc@, c as int, header, false, false)));
        idx = idx + 1;
    }
    cells
}

/// Appends the rows of the table rows `trs` (see [`table_row`]).
fn push_table_rows(doc: &Vec<DomNode>, trs: &Vec<usize>, blocks: &mut Vec<Block>)
    requires
        all_in(doc@, trs@),
    ensures
        blocks_view(final(blocks)@) == blocks_view(old(blocks)@) + table_rows(
            doc@,
            trs@.map_values(|k: usize| k as int),
            trs@.len(),
        ),
{
    let ghost l = trs@.map_values(|k: usize| k as int);
    let ghost start = blocks_view(blocks@);
    let mut idx: usize = 0;
    while idx < trs.len()
        invariant
            all_in(doc@, trs@),
            l == trs@.map_values(|k: usize| k as int),
            idx <= trs@.len(),
            blocks_view(blocks@) == start + table_rows(doc@, l, idx as nat),
        decreases trs@.len() - idx,
    {
        let tr = trs[idx];
        assert(l[idx as int] == tr as int);
        let ghost before = blocks@;
        let ths = select_nodes(doc, tr, Tag::Th);
        let is_header = ths.len() > 0;
        let ghost ths_v = ths@;
        let cs = if is_header {
            ths.clone()
        } else {
            select_nodes(doc, tr, Tag::Td)
        };
        let cells = row_cells(doc, &cs, is_header);
        proof {
            let sel = select(doc@, tr as int, if is_header { Tag::Th } else { Tag::Td });
            assert(cs@.map_values(|k: usize| k as int) == sel);
            assert(ths_v.map_values(|k: usize| k as int) == select(doc@, tr as int, Tag::Th));
            lemma_cell_spans_len(doc@, sel, sel.len(), is_header);
            assert(cells_view(cells@).len() == cells@.len());
        }
        if cells.len() > 0 {
            blocks.push(Block::TableRow { cells, header: is_header });
        }
        assert(blocks_view(blocks@) =~= blocks_view(before) + table_row(doc@, tr as int));
        idx = idx + 1;
    }
}

/// Appends the blocks of element `el` (see [`element_blocks`]).
pub fn collect_element(doc: &Vec<DomNode>, el: usize, blocks: &mut Vec<Block>, list_depth: usize)
    requires
        el < doc@.len(),
    ensures
        blocks_view(final(blocks)@) == blocks_view(old(blocks)@) + element_blocks(doc@, el as int, list_depth),
{
    let ghost before = blocks@;
    match node_tag_of(doc, el) {
        Some(Tag::H1) => {
            let spans = extract_spans(doc, el, true, false, false);
            blocks.push(Block::Heading { level: 1, spans });
        },
        Some(Tag::H2) => {
            let spans = extract_spans(doc, el, true, false, false);
            blocks.push(Block::Heading { level: 2, spans });
        },
        Some(Tag::H3) => {
            let spans = extract_spans(doc, el, false, false, false);
            blocks.push(Block::Heading { level: 3, spans });
        },
        Some(Tag::P) => {
            let imgs = select_nodes(doc, el, Tag::Img);
            if imgs.len() > 0 {
                let img = imgs[0];
                let src = attr_value(doc, img, "src");
                let alt = attr_value(doc, img, "alt");
                blocks.push(Block::Image { src, alt });
            } else {
                let spans = extract_spans(doc, el, false, false, false);
                if spans.len() > 0 {
                    blocks.push(Block::Paragraph { spans });
                }
            }
        },
        Some(Tag::Ul) => {
            let lis = select_nodes(doc, el, Tag::Li);
            push_list_items(doc, el, &lis, false, list_depth, blocks);
        },
        Some(Tag::Ol) => {
            let lis = select_nodes(doc, el, Tag::Li);
            push_list_items(doc, el, &lis, true, list_depth, blocks);
        },
        Some(Tag::Blockquote) => {
            let ps = select_nodes(doc, el, Tag::P);
            push_quotes(doc, &ps, blocks);
        },
        Some(Tag::Pre) => {
            let codes = select_nodes(doc, el, Tag::Code);
            let text = if codes.len() > 0 {
                text_content(doc, codes[0])
            } else {
                text_content(doc, el)
            };
            blocks.push(Block::Code { text });
        },
        Some(Tag::Table) => {
            let trs = select_nodes(doc, el, Tag::Tr);
            push_table_rows(doc, &trs, blocks);
        },
        Some(Tag::Hr) => {
            blocks.push(Block::Rule);
        },
        Some(Tag::Img) => {
            let src = attr_value(doc, el, "src");
            let alt = attr_value(doc, el, "alt");
            blocks.push(Block::Image { src, alt });
        },
        _ => {},
    }
    assert(blocks_view(blocks@) =~= blocks_view(before) + element_blocks(doc@, el as int, list_depth));
}


/// The blocks of the first `n` children `cs` of a `body` element: for each
/// child that is an element, its blocks (see [`element_blocks`]).
pub open spec fn body_blocks(doc: Seq<DomNode>, cs: Seq<int>, n: nat) -> Seq<BlockView>
    decreases n,
{
    if n == 0 {
        Seq::<BlockView>::empty()
    } else {
        body_blocks(doc, cs, (n - 1) as nat) + if node_tag(doc, cs[n - 1]) is Some {
            element_blocks(doc, cs[n - 1], 0)
        } else {
            Seq::<BlockView>::empty()
        }
    }
}

/// The blocks of the `body` elements among the first `n` nodes, in document order.
pub open spec fn blocks_upto(doc: Seq<DomNode>, n: nat) -> Seq<BlockView>
    decreases n,
{
    if n == 0 {
        Seq::<BlockView>::empty()
    } else {
        blocks_upto(doc, (n - 1) as nat) + if node_tag(doc, n - 1) == Some(Tag::Body) {
            let cs = children(doc, n - 1);
            body_blocks(doc, cs, cs.len())
        } else {
            Seq::<BlockView>::empty()
        }
    }
}

/// The blocks of a document: those of every element child of `body`
/// (`body > *`), in document order.
pub open spec fn document_blocks(doc: Seq<DomNode>) -> Seq<BlockView> {
    blocks_upto(doc, doc.len())
}

proof fn lemma_children_in(doc: Seq<DomNode>, i: int, j: int)
    requires
        0 <= i < doc.len(),
    ensures
        forall|k: int| 0 <= k < children_from(doc, i, j).len() ==> i < #[trigger] children_from(doc, i, j)[k] < doc.len(),
    decreases doc.len() - j,
{
    if !(j <= i || j >= doc.len() || j >= subtree_end(doc, i)) {
        lemma_children_in(doc, i, j + 1);
        let r = children_from(doc, i, j + 1);
        if is_child(doc, i, j) {
            assert forall|k: int| 0 <= k < children_from(doc, i, j).len() implies i < #[trigger] children_from(doc, i, j)[k] < doc.len() by {
                if k > 0 {
                    assert(children_from(doc, i, j)[k] == r[k - 1]);
                }
            }
        }
    }
}

/// Appends the blocks of the element children of `body` element `b`.
fn push_body_blocks(doc: &Vec<DomNode>, b: usize, blocks: &mut Vec<Block>)
    requires
        b < doc@.len(),
    ensures
        blocks_view(final(blocks)@) == blocks_view(old(blocks)@) + body_blocks(
            doc@,
            children(doc@, b as int),
            children(doc@, b as int).len(),
        ),
{
    let cs = children_of(doc, b);
    let ghost l = cs@.map_values(|k: usize| k as int);
    proof {
        lemma_children_in(doc@, b as int, b + 1);
        assert forall|k: int| 0 <= k < cs@.len() implies #[trigger] cs@[k] < doc@.len() by {
            assert(l[k] == cs@[k] as int);
        }
    }
    let ghost start = blocks_view(blocks@);
    let mut idx: usize = 0;
    while idx < cs.len()
        invariant
            all_in(doc@, cs@),
            l == cs@.map_values(|k: usize| k as int),
            l == children(doc@, b as int),
            idx <= cs@.len(),
            blocks_view(blocks@) == start + body_blocks(doc@, l, idx as nat),
        decreases cs@.len() - idx,
    {
        let c = cs[idx];
        assert(l[idx as int] == c as int);
        let ghost before = blocks_view(blocks@);
        if node_tag_of(doc, c).is_some() {
            collect_element(doc, c, blocks, 0);
        }
        assert(blocks_view(blocks@) =~= before + (if node_tag(doc@, c as int) is Some {
            element_blocks(doc@, c as int, 0)
        } else {
            Seq::<BlockView>::empty()
        }));
        idx = idx + 1;
    }
}

/// The blocks of a parsed document (see [`document_blocks`]).
pub fn document_blocks_of(doc: &Vec<DomNode>) -> (blocks: Vec<Block>)
    ensures
        blocks_view(blocks@) == document_blocks(doc@),
{
    let mut blocks: Vec<Block> = Vec::new();
    let mut i: usize = 0;
    while i < doc.len()
        invariant
            i <= doc@.len(),
            blocks_view(blocks@) == blocks_upto(doc@, i as nat),
        decreases doc@.len() - i,
    {
        let ghost before = blocks_view(blocks@);
        if node_tag_of(doc, i) == Some(Tag::Body) {
            push_body_blocks(doc, i, &mut blocks);
        }
        assert(blocks_view(blocks@) =~= before + (if node_tag(doc@, i as int) == Some(Tag::Body) {
            body_blocks(doc@, children(doc@, i as int), children(doc@, i as int).len())
        } else {
            Seq::<BlockView>::empty()
        }));
        i = i + 1;
    }
    blocks
}

/// The blocks of an HTML document, in the order they are laid out.
pub fn parse_blocks(html: &str) -> (blocks: Vec<Block>)
    ensures
        blocks_view(blocks@) == document_blocks(parsed_html(html@)),
{
    let doc = parse_html(html);
    document_blocks_of(&doc)
}


// ── Laws ─────────────────────────────────────────────────────────────────────

/// Whether node `j` is an element with local name `n`.
pub open spec fn named(doc: Seq<DomNode>, j: int, n: Seq<char>) -> bool {
    doc[j].data matches NodeData::Element(m, _) && m@ == n
}

/// The span text of a text node starts with a space exactly when the node
/// starts with whitespace, and ends with a space exactly when the node is
/// longer than one byte and ends with whitespace (a newline or a tab as much
/// as a space); between them no whitespace is doubled.
pub proof fn lemma_span_text_edges(raw: Seq<char>)
    ensures
        span_text(raw) matches Some(t) ==> {
            &&& raw.len() > 0 && t.len() > 0
            &&& (t[0] == ' ' <==> is_ws(raw[0]))
            &&& (t.last() == ' ' <==> (vstd::utf8::encode_utf8(raw).len() > 1 && is_ws(raw.last())))
            &&& forall|k: int| 0 <= k < t.len() - 1 ==> !(is_ws(t[k]) && is_ws(#[trigger] t[k + 1]))
        },
{
    crate::text::lemma_collapse_ws_shape(raw);
    assert(is_ws(' '));
    let inner = collapse_ws(raw);
    if inner.len() > 0 {
        if raw.len() == 0 {
            assert(collapse_ws(raw).len() == 0);
        }
        let lead = if raw.len() > 0 && is_ws(raw[0]) { seq![' '] } else { Seq::<char>::empty() };
        let trail = if vstd::utf8::encode_utf8(raw).len() > 1 && raw.len() > 0 && is_ws(raw.last()) {
            seq![' ']
        } else {
            Seq::<char>::empty()
        };
        let t = lead + inner + trail;
        assert(t[0] == if lead.len() > 0 { ' ' } else { inner[0] });
        assert(t.last() == if trail.len() > 0 { ' ' } else { inner.last() });
        assert forall|k: int| 0 <= k < t.len() - 1 implies !(is_ws(t[k]) && is_ws(#[trigger] t[k + 1])) by {
            let a = k - lead.len();
            if is_ws(t[k]) && is_ws(t[k + 1]) {
                if 0 <= a && a + 1 < inner.len() {
                    assert(t[k] == inner[a] && t[k + 1] == inner[a + 1]);
                    assert(is_ws(inner[a]));
                } else if a < 0 {
                    assert(t[k + 1] == inner[0]);
                } else {
                    assert(a == inner.len() - 1);
                    assert(t[k] == inner.last());
                }
            }
        }
    }
}

/// A style, once set, holds for every span inside: bold stays bold, italic
/// italic, monospace monospace.
proof fn lemma_spans_keep_style(doc: Seq<DomNode>, i: int, j: int, bold: bool, italic: bool, code: bool)
    ensures
        forall|k: int| 0 <= k < spans_from(doc, i, j, bold, italic, code).len() ==> {
            let s = #[trigger] spans_from(doc, i, j, bold, italic, code)[k];
            &&& bold ==> s.bold
            &&& italic ==> s.italic
            &&& code ==> s.code
        },
    decreases doc.len() - j,
{
    if !(j <= i || j >= doc.len() || j >= subtree_end(doc, i)) {
        lemma_spans_keep_style(doc, i, j + 1, bold, italic, code);
        if is_child(doc, i, j) {
            let head = node_spans(doc, j, bold, italic, code);
            match doc[j].data {
                NodeData::Element(name, _) => {
                    let st = child_style(tag_of_name(name@), bold, italic, code);
                    lemma_spans_keep_style(doc, j, j + 1, st.0, st.1, st.2);
                    assert(head == spans_from(doc, j, j + 1, st.0, st.1, st.2));
                    assert((bold ==> st.0) && (italic ==> st.1) && (code ==> st.2));
                },
                NodeData::Text(t) => {
                    match span_text(t@) {
                        Some(x) => assert(head == seq![SpanView { text: x, bold, italic, code }]),
                        None => assert(head.len() == 0),
                    }
                },
                NodeData::Other => assert(head.len() == 0),
            }
            let rest = spans_from(doc, i, j + 1, bold, italic, code);
            let all = spans_from(doc, i, j, bold, italic, code);
            assert(all == head + rest);
            assert forall|k: int| 0 <= k < all.len() implies {
                let s = #[trigger] all[k];
                &&& bold ==> s.bold
                &&& italic ==> s.italic
                &&& code ==> s.code
            } by {
                if k < head.len() {
                    assert(all[k] == head[k]);
                } else {
                    assert(all[k] == rest[k - head.len()]);
                }
            }
        }
    }
}

/// Every span inside a `strong` or `b` element is bold, inside an `em` or `i`
/// element italic, inside a `code` element monospace; and the style the
/// element is read with holds for every span inside it too.
pub proof fn lemma_inline_styles(doc: Seq<DomNode>, j: int, bold: bool, italic: bool, code: bool)
    requires
        0 <= j < doc.len(),
    ensures
        forall|k: int| 0 <= k < node_spans(doc, j, bold, italic, code).len() ==> {
            let s = #[trigger] node_spans(doc, j, bold, italic, code)[k];
            &&& (bold || named(doc, j, "strong"@) || named(doc, j, "b"@)) ==> s.bold
            &&& (italic || named(doc, j, "em"@) || named(doc, j, "i"@)) ==> s.italic
            &&& (code || named(doc, j, "code"@)) ==> s.code
        },
{
    lemma_tag_names();
    match doc[j].data {
        NodeData::Element(name, _) => {
            let st = child_style(tag_of_name(name@), bold, italic, code);
            lemma_spans_keep_style(doc, j, j + 1, st.0, st.1, st.2);
            assert(node_spans(doc, j, bold, italic, code) == spans_from(doc, j, j + 1, st.0, st.1, st.2));
            assert((bold || named(doc, j, "strong"@) || named(doc, j, "b"@)) ==> st.0);
            assert((italic || named(doc, j, "em"@) || named(doc, j, "i"@)) ==> st.1);
            assert((code || named(doc, j, "code"@)) ==> st.2);
        },
        NodeData::Text(t) => {},
        NodeData::Other => {},
    }
}

proof fn lemma_list_items_shape(doc: Seq<DomNode>, j: int, lis: Seq<int>, n: nat, ordered: bool, depth: usize)
    ensures
        forall|k: int| 0 <= k < list_items(doc, j, lis, n, ordered, depth).len() ==>
            ((#[trigger] list_items(doc, j, lis, n, ordered, depth)[k]) matches BlockView::ListItem { ordered: o, indent, .. }
                && o == ordered && indent == depth),
    decreases n,
{
    if n > 0 {
        lemma_list_items_shape(doc, j, lis, (n - 1) as nat, ordered, depth);
        let prev = list_items(doc, j, lis, (n - 1) as nat, ordered, depth);
        let all = list_items(doc, j, lis, n, ordered, depth);
        assert forall|k: int| 0 <= k < all.len() implies
            ((#[trigger] all[k]) matches BlockView::ListItem { ordered: o, indent, .. }
                && o == ordered && indent == depth) by {
            if k < prev.len() {
                assert(all[k] == prev[k]);
            }
        }
    }
}

proof fn lemma_quote_blocks_shape(doc: Seq<DomNode>, ps: Seq<int>, n: nat)
    ensures
        forall|k: int| 0 <= k < quote_blocks(doc, ps, n).len() ==>
            ((#[trigger] quote_blocks(doc, ps, n)[k]) matches BlockView::Blockquote { spans }
                && forall|m: int| 0 <= m < spans.len() ==> (#[trigger] spans[m]).italic),
    decreases n,
{
    if n > 0 {
        lemma_quote_blocks_shape(doc, ps, (n - 1) as nat);
        lemma_spans_keep_style(doc, ps[n - 1], ps[n - 1] + 1, false, true, false);
    }
}

proof fn lemma_cell_spans_bold(doc: Seq<DomNode>, cs: Seq<int>, n: nat, header: bool)
    ensures
        forall|c: int, m: int| 0 <= c < cell_spans(doc, cs, n, header).len() && 0 <= m < cell_spans(doc, cs, n, header)[c].len()
            ==> (header ==> (#[trigger] cell_spans(doc, cs, n, header)[c][m]).bold),
    decreases n,
{
    if n > 0 {
        lemma_cell_spans_bold(doc, cs, (n - 1) as nat, header);
        let c = cs[n - 1];
        lemma_spans_keep_style(doc, c, c + 1, header, false, false);
        let prev = cell_spans(doc, cs, (n - 1) as nat, header);
        let all = cell_spans(doc, cs, n, header);
        assert(all == prev.push(spans_of(doc, c, header, false, false)));
        assert forall|a: int, m: int| 0 <= a < all.len() && 0 <= m < all[a].len()
            implies (header ==> (#[trigger] all[a][m]).bold) by {
            if a < prev.len() {
                assert(all[a] == prev[a]);
            } else {
                assert(all[a] == spans_from(doc, c, c + 1, header, false, false));
            }
        }
    }
}

proof fn lemma_table_rows_shape(doc: Seq<DomNode>, trs: Seq<int>, n: nat)
    ensures
        forall|k: int| 0 <= k < table_rows(doc, trs, n).len() ==>
            ((#[trigger] table_rows(doc, trs, n)[k]) matches BlockView::TableRow { cells, header }
                && forall|c: int, m: int| 0 <= c < cells.len() && 0 <= m < cells[c].len() ==> (header ==> (#[trigger] cells[c][m]).bold)),
    decreases n,
{
    if n > 0 {
        lemma_table_rows_shape(doc, trs, (n - 1) as nat);
        let tr = trs[n - 1];
        let header = select(doc, tr, Tag::Th).len() > 0;
        let cs = select(doc, tr, if header { Tag::Th } else { Tag::Td });
        lemma_cell_spans_bold(doc, cs, cs.len(), header);
    }
}

/// The items of a `ul` element are unordered and those of an `ol` element
/// ordered, all indented to the list's depth; no other element gives a list
/// item.
pub proof fn lemma_list_ordered(doc: Seq<DomNode>, j: int, depth: usize)
    requires
        0 <= j < doc.len(),
    ensures
        forall|k: int| 0 <= k < element_blocks(doc, j, depth).len() ==> {
            let b = #[trigger] element_blocks(doc, j, depth)[k];
            &&& (named(doc, j, "ul"@) || named(doc, j, "ol"@)) ==> (b matches BlockView::ListItem { ordered, indent, .. }
                && ordered == named(doc, j, "ol"@) && indent == depth)
            &&& !(named(doc, j, "ul"@) || named(doc, j, "ol"@)) ==> !(b is ListItem)
        },
{
    lemma_tag_names();
    match node_tag(doc, j) {
        Some(Tag::Ul) | Some(Tag::Ol) => {
            let lis = select(doc, j, Tag::Li);
            lemma_list_items_shape(doc, j, lis, lis.len(), node_tag(doc, j) == Some(Tag::Ol), depth);
            assert(named(doc, j, "ol"@) ==> node_tag(doc, j) == Some(Tag::Ol));
            assert(named(doc, j, "ul"@) ==> node_tag(doc, j) == Some(Tag::Ul));
            assert(named(doc, j, "ul"@) || named(doc, j, "ol"@)) by {
                if let NodeData::Element(m, _) = doc[j].data {
                    assert(tag_of_name(m@) == Tag::Ul ==> m@ == "ul"@);
                }
            }
        },
        Some(Tag::Blockquote) => {
            let ps = select(doc, j, Tag::P);
            lemma_quote_blocks_shape(doc, ps, ps.len());
        },
        Some(Tag::Table) => {
            let trs = select(doc, j, Tag::Tr);
            lemma_table_rows_shape(doc, trs, trs.len());
        },
        _ => {},
    }
}

/// `h1` and `h2` elements give one bold heading of their level, `h3` one of
/// level 3; every quote of a `blockquote` is italic; and every cell of a
/// table's header row is bold.
pub proof fn lemma_block_styles(doc: Seq<DomNode>, j: int, depth: usize)
    requires
        0 <= j < doc.len(),
    ensures
        ({
            let bs = element_blocks(doc, j, depth);
            &&& named(doc, j, "h1"@) ==> (bs.len() == 1 && (bs[0] matches BlockView::Heading { level, spans }
                && level == 1 && forall|m: int| 0 <= m < spans.len() ==> (#[trigger] spans[m]).bold))
            &&& named(doc, j, "h2"@) ==> (bs.len() == 1 && (bs[0] matches BlockView::Heading { level, spans }
                && level == 2 && forall|m: int| 0 <= m < spans.len() ==> (#[trigger] spans[m]).bold))
            &&& named(doc, j, "h3"@) ==> (bs.len() == 1 && (bs[0] matches BlockView::Heading { level, .. } && level == 3))
            &&& named(doc, j, "blockquote"@) ==> forall|k: int| 0 <= k < bs.len() ==>
                ((#[trigger] bs[k]) matches BlockView::Blockquote { spans }
                    && forall|m: int| 0 <= m < spans.len() ==> (#[trigger] spans[m]).italic)
            &&& named(doc, j, "table"@) ==> forall|k: int| 0 <= k < bs.len() ==>
                ((#[trigger] bs[k]) matches BlockView::TableRow { cells, header }
                    && forall|c: int, m: int| 0 <= c < cells.len() && 0 <= m < cells[c].len()
                        ==> (header ==> (#[trigger] cells[c][m]).bold))
        }),
{
    lemma_tag_names();
    lemma_spans_keep_style(doc, j, j + 1, true, false, false);
    let ps = select(doc, j, Tag::P);
    lemma_quote_blocks_shape(doc, ps, ps.len());
    let trs = select(doc, j, Tag::Tr);
    lemma_table_rows_shape(doc, trs, trs.len());
}

} // verus!
