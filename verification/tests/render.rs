use thermal_printer::render::{to_html, InputFormat};

#[test]
fn markdown_heading() {
    let html = to_html("# Hello", InputFormat::Markdown);
    assert!(html.contains("<h1>Hello</h1>"));
}

#[test]
fn html_passthrough() {
    let src = "<p>hello</p>";
    assert_eq!(to_html(src, InputFormat::Html), src);
}

#[test]
fn detect_md() {
    assert!(matches!(InputFormat::detect("doc.md").unwrap(), InputFormat::Markdown));
}

#[test]
fn detect_html() {
    assert!(matches!(InputFormat::detect("doc.html").unwrap(), InputFormat::Html));
}

#[test]
fn detect_unknown_errors() {
    assert!(InputFormat::detect("doc.txt").is_err());
}

#[test]
fn detect_other_spellings() {
    assert_eq!(InputFormat::detect("notes/readme.markdown").unwrap(), InputFormat::Markdown);
    assert_eq!(InputFormat::detect("page.htm").unwrap(), InputFormat::Html);
    assert_eq!(InputFormat::detect("dir.md/file.html").unwrap(), InputFormat::Html);
}

#[test]
fn detect_error_messages() {
    let e = InputFormat::detect("doc.txt").unwrap_err();
    assert_eq!(e.extension.as_deref(), Some("txt"));
    assert_eq!(
        e.message(),
        "Unsupported file extension: txt.  Use .md, .markdown, .html, or .htm"
    );
    let e = InputFormat::detect("Makefile").unwrap_err();
    assert_eq!(e.extension, None);
    assert_eq!(
        e.message(),
        "Unsupported file extension: (none).  Use .md, .markdown, .html, or .htm"
    );
}

#[test]
fn from_extension_is_case_sensitive() {
    assert!(InputFormat::from_extension(Some("MD")).is_err());
    assert_eq!(InputFormat::from_extension(Some("md")).unwrap(), InputFormat::Markdown);
    assert!(InputFormat::from_extension(None).is_err());
}

#[test]
fn markdown_extensions_enabled() {
    let html = to_html("~~gone~~ <b>raw</b>\n\n| a |\n|---|\n| 1 |\n\n- [x] done", InputFormat::Markdown);
    assert!(html.contains("<del>gone</del>"));
    assert!(html.contains("<b>raw</b>"));
    assert!(html.contains("<table>"));
    assert!(html.contains("checked"));
}
