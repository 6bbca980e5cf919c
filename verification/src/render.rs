//! Input documents: their format, told by the file extension, and their
//! conversion to HTML.
use vstd::prelude::*;
use crate::text::str_eq;

verus! {

/// The format of an input document.
#[derive(Clone, Copy, PartialEq, Eq, Structural, Debug)]
pub enum InputFormat {
    Markdown,
    Html,
}

/// An input file whose extension names no supported format; the extension
/// it has, if any.
#[derive(PartialEq, Eq, Debug)]
pub struct UnsupportedExtension {
    pub extension: Option<String>,
}

impl UnsupportedExtension {
    /// The message of the error.
    pub fn message(&self) -> (m: String)
        ensures
            m@ == "Unsupported file extension: "@ + match self.extension {
                Some(e) => e@,
                None => "(none)"@,
            } + ".  Use .md, .markdown, .html, or .htm"@,
    {
        let mut m = String::from_str("Unsupported file extension: ");
        match &self.extension {
            Some(e) => m.append(e.as_str()),
            None => m.append("(none)"),
        }
        m.append(".  Use .md, .markdown, .html, or .htm");
        m
    }
}

/// What `Path::extension` gives for a path: the part of the file name after
/// its last `.`, or `None` when the file name has no `.` (other than a
/// leading one) or there is no file name.
pub uninterp spec fn path_extension(path: Seq<char>) -> Option<Seq<char>>;

/// `std::path::Path::extension` of a path given as text.
///
/// Trusted: the result is named `path_extension` of the path.
#[verifier::external_body]
pub(crate) fn extension_of(path: &str) -> (r: Option<String>)
    ensures
        match path_extension(path@) {
            Some(e) => r matches Some(s) && s@ == e,
            None => r is None,
        },
{
    std::path::Path::new(path).extension().and_then(|e| e.to_str()).map(|e| e.to_string())
}

/// The format an extension names: `md`/`markdown` is Markdown, `html`/`htm` HTML.
pub open spec fn format_of_extension(ext: Option<Seq<char>>) -> Option<InputFormat> {
    match ext {
        Some(e) => if e == "md"@ || e == "markdown"@ {
            Some(InputFormat::Markdown)
        } else if e == "html"@ || e == "htm"@ {
            Some(InputFormat::Html)
        } else {
            None
        },
        None => None,
    }
}

impl InputFormat {
    /// The format an extension names; any other extension, or none, is refused.
    pub fn from_extension(ext: Option<&str>) -> (r: Result<InputFormat, UnsupportedExtension>)
        ensures
            ({
                let e = match ext {
                    Some(s) => Some(s@),
                    None => None::<Seq<char>>,
                };
                match format_of_extension(e) {
                    Some(f) => r == Ok::<InputFormat, UnsupportedExtension>(f),
                    None => r matches Err(err) && match err.extension {
                        Some(x) => e == Some(x@),
                        None => e is None,
                    },
                }
            }),
    {
        match ext {
            Some(e) => if str_eq(e, "md") || str_eq(e, "markdown") {
                Ok(InputFormat::Markdown)
            } else if str_eq(e, "html") || str_eq(e, "htm") {
                Ok(InputFormat::Html)
            } else {
                Err(UnsupportedExtension { extension: Some(String::from_str(e)) })
            },
            None => Err(UnsupportedExtension { extension: None }),
        }
    }

    /// The format of the file at `path`, told by its extension.
    pub fn detect(path: &str) -> (r: Result<InputFormat, UnsupportedExtension>)
        ensures
            match format_of_extension(path_extension(path@)) {
                Some(f) => r == Ok::<InputFormat, UnsupportedExtension>(f),
                None => r matches Err(err) && match err.extension {
                    Some(x) => path_extension(path@) == Some(x@),
                    None => path_extension(path@) is None,
                },
            },
    {
        let ext = extension_of(path);
        match ext {
            Some(e) => Self::from_extension(Some(e.as_str())),
            None => Self::from_extension(None),
        }
    }
}

/// The Markdown extensions and rendering options used for input documents.
#[derive(Clone, Copy, PartialEq, Eq, Structural, Debug)]
pub struct MarkdownOptions {
    pub strikethrough: bool,
    pub table: bool,
    pub autolink: bool,
    pub tasklist: bool,
    /// Raw HTML in the Markdown is passed through.
    pub unsafe_html: bool,
}

/// What `comrak::markdown_to_html` returns for a Markdown source with the
/// given options (all others at their defaults).
pub uninterp spec fn comrak_html(source: Seq<char>, opts: MarkdownOptions) -> Seq<char>;

/// `comrak::markdown_to_html`, with default options but for those named.
///
/// Trusted: the result is named `comrak_html` of the source and options.
#[verifier::external_body]
pub(crate) fn markdown_to_html(source: &str, opts: MarkdownOptions) -> (html: String)
    ensures
        html@ == comrak_html(source@, opts),
{
    let mut o = comrak::Options::default();
    o.extension.strikethrough = opts.strikethrough;
    o.extension.table = opts.table;
    o.extension.autolink = opts.autolink;
    o.extension.tasklist = opts.tasklist;
    o.render.unsafe_ = opts.unsafe_html;
    comrak::markdown_to_html(source, &o)
}

/// The options documents are converted with: strikethrough, tables,
/// autolinks and task lists, with raw HTML allowed.
pub open spec fn document_options() -> MarkdownOptions {
    MarkdownOptions { strikethrough: true, table: true, autolink: true, tasklist: true, unsafe_html: true }
}

/// Converts the input file contents to an HTML string ready for rendering:
/// HTML passes through, Markdown is rendered (see [`document_options`]).
pub fn to_html(source: &str, format: InputFormat) -> (html: String)
    ensures
        html@ == match format {
            InputFormat::Html => source@,
            InputFormat::Markdown => comrak_html(source@, document_options()),
        },
{
    match format {
        InputFormat::Html => String::from_str(source),
        InputFormat::Markdown => {
            let opts = MarkdownOptions {
                strikethrough: true,
                table: true,
                autolink: true,
                tasklist: true,
                unsafe_html: true,
            };
            markdown_to_html(source, opts)
        },
    }
}

} // verus!
