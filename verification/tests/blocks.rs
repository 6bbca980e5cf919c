use thermal_printer::blocks::{parse_blocks, Block, Span};
use thermal_printer::render::{to_html, InputFormat};

fn texts(spans: &[Span]) -> Vec<(String, bool, bool, bool)> {
    spans.iter().map(|s| (s.text.clone(), s.bold, s.italic, s.code)).collect()
}

#[test]
fn heading_and_paragraph() {
    let blocks = parse_blocks("<h1>Title</h1><p>Hello <b>bold</b> and <em>it</em> <code>c</code></p>");
    assert_eq!(blocks.len(), 2);
    match &blocks[0] {
        Block::Heading { level, spans } => {
            assert_eq!(*level, 1);
            assert_eq!(texts(spans), vec![("Title".to_string(), true, false, false)]);
        }
        _ => panic!("expected a heading"),
    }
    match &blocks[1] {
        Block::Paragraph { spans } => assert_eq!(
            texts(spans),
            vec![
                ("Hello ".to_string(), false, false, false),
                ("bold".to_string(), true, false, false),
                (" and ".to_string(), false, false, false),
                ("it".to_string(), false, true, false),
                ("c".to_string(), false, false, true),
            ]
        ),
        _ => panic!("expected a paragraph"),
    }
}

#[test]
fn h3_is_not_bold() {
    let blocks = parse_blocks("<h3>Small</h3>");
    match &blocks[0] {
        Block::Heading { level, spans } => {
            assert_eq!(*level, 3);
            assert_eq!(texts(spans), vec![("Small".to_string(), false, false, false)]);
        }
        _ => panic!("expected a heading"),
    }
}

#[test]
fn whitespace_is_collapsed() {
    let blocks = parse_blocks("<p>  a \n\t b  </p>");
    match &blocks[0] {
        Block::Paragraph { spans } => {
            assert_eq!(texts(spans), vec![(" a b ".to_string(), false, false, false)])
        }
        _ => panic!("expected a paragraph"),
    }
}

#[test]
fn empty_paragraph_gives_nothing() {
    assert!(parse_blocks("<p>   </p><div>ignored</div>").is_empty());
}

#[test]
fn lists_number_all_items_but_keep_direct_ones() {
    let blocks = parse_blocks("<ol><li>a<ul><li>b</li></ul></li><li>c</li></ol>");
    assert_eq!(blocks.len(), 2);
    match &blocks[0] {
        Block::ListItem { ordered, index, spans, indent } => {
            assert!(*ordered);
            assert_eq!((*index, *indent), (1, 0));
            assert_eq!(
                texts(spans),
                vec![("a".to_string(), false, false, false), ("b".to_string(), false, false, false)]
            );
        }
        _ => panic!("expected a list item"),
    }
    match &blocks[1] {
        Block::ListItem { ordered, index, .. } => {
            assert!(*ordered);
            assert_eq!(*index, 3);
        }
        _ => panic!("expected a list item"),
    }
}

#[test]
fn quotes_code_rules_images() {
    let blocks = parse_blocks(
        "<blockquote><p>q1</p><p>q2</p></blockquote><pre><code>x\ny</code></pre><hr><img src=\"a.png\" alt=\"A\"><p>see <img src=\"b.png\"></p>",
    );
    assert_eq!(blocks.len(), 6);
    match &blocks[0] {
        Block::Blockquote { spans } => assert_eq!(texts(spans), vec![("q1".to_string(), false, true, false)]),
        _ => panic!("expected a quote"),
    }
    assert!(matches!(&blocks[1], Block::Blockquote { .. }));
    match &blocks[2] {
        Block::Code { text } => assert_eq!(text, "x\ny"),
        _ => panic!("expected code"),
    }
    assert!(matches!(&blocks[3], Block::Rule));
    match &blocks[4] {
        Block::Image { src, alt } => assert_eq!((src.as_str(), alt.as_str()), ("a.png", "A")),
        _ => panic!("expected an image"),
    }
    match &blocks[5] {
        Block::Image { src, alt } => assert_eq!((src.as_str(), alt.as_str()), ("b.png", "")),
        _ => panic!("expected an image"),
    }
}

#[test]
fn pre_without_code_uses_its_text() {
    let blocks = parse_blocks("<pre>plain <b>text</b></pre>");
    match &blocks[0] {
        Block::Code { text } => assert_eq!(text, "plain text"),
        _ => panic!("expected code"),
    }
}

#[test]
fn table_rows() {
    let blocks = parse_blocks("<table><tr><th>H1</th><th>H2</th></tr><tr><td>x</td><td>y</td></tr><tr></tr></table>");
    assert_eq!(blocks.len(), 2);
    match &blocks[0] {
        Block::TableRow { cells, header } => {
            assert!(*header);
            assert_eq!(cells.len(), 2);
            assert_eq!(texts(&cells[0]), vec![("H1".to_string(), true, false, false)]);
        }
        _ => panic!("expected a row"),
    }
    match &blocks[1] {
        Block::TableRow { cells, header } => {
            assert!(!*header);
            assert_eq!(texts(&cells[1]), vec![("y".to_string(), false, false, false)]);
        }
        _ => panic!("expected a row"),
    }
}

#[test]
fn markdown_document_blocks() {
    let html = to_html("# Title\n\nSome *text*.\n\n1. one\n2. two\n\n---\n", InputFormat::Markdown);
    let blocks = parse_blocks(&html);
    assert_eq!(blocks.len(), 5);
    assert!(matches!(&blocks[0], Block::Heading { level: 1, .. }));
    match &blocks[1] {
        Block::Paragraph { spans } => assert_eq!(
            texts(spans),
            vec![
                ("Some ".to_string(), false, false, false),
                ("text".to_string(), false, true, false),
                (".".to_string(), false, false, false),
            ]
        ),
        _ => panic!("expected a paragraph"),
    }
    assert!(matches!(&blocks[2], Block::ListItem { ordered: true, index: 1, .. }));
    assert!(matches!(&blocks[3], Block::ListItem { ordered: true, index: 2, .. }));
    assert!(matches!(&blocks[4], Block::Rule));
}
