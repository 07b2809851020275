//! Untangling: a source file becomes a Markdown document with one fenced
//! block.

use vstd::prelude::*;
use vstd::string::*;
use crate::paths::{extension, extension_of, join_path, joined_path, md_renamed, name_of, strip_current_dir, with_md_extension, without_current_dir};
use crate::registry::{inverse, LanguageRegistry};
use crate::text::concat;

verus! {

/// What untangling one file does.
#[derive(Debug, PartialEq, Eq)]
pub enum UntangleAction {
    /// Write `text` to `path`, replacing what is there, after creating the
    /// parent directories.
    Write { path: String, text: String },
    /// Dry run: report that a document tagged `language` would go to `path`.
    Report { path: String, language: String },
}

/// An untangle action, as characters.
pub enum UntangleView {
    Write(Seq<char>, Seq<char>),
    Report(Seq<char>, Seq<char>),
}

impl View for UntangleAction {
    type V = UntangleView;

    open spec fn view(&self) -> UntangleView {
        match self {
            UntangleAction::Write { path, text } => UntangleView::Write(path@, text@),
            UntangleAction::Report { path, language } => UntangleView::Report(path@, language@),
        }
    }
}

/// The language that the registry `t` gives the file at `p`, by the
/// extension of its name; empty where there is none.
pub open spec fn language_of_path(t: Seq<(Seq<char>, Seq<char>)>, p: Seq<char>) -> Seq<char> {
    match extension_of(name_of(p)) {
        Some(e) => match inverse(t, e) {
            Some(l) => l,
            None => Seq::empty(),
        },
        None => Seq::empty(),
    }
}

/// Where the document for the file at `p` goes under `root`: its path
/// without a leading `./`, under `root`, with extension `md`.
pub open spec fn markdown_path_of(root: Seq<char>, p: Seq<char>) -> Seq<char> {
    md_renamed(joined_path(root, without_current_dir(p)))
}

/// The document that wraps `content` in one fenced block tagged `language`:
/// the opening fence line, the content, a line break where the content
/// does not end with one, and the closing fence line.
pub open spec fn untangled_text(language: Seq<char>, content: Seq<char>) -> Seq<char> {
    let body = if content.len() > 0 && content.last() != '\n' {
        content + "\n"@
    } else {
        content
    };
    "```"@ + language + "\n"@ + body + "```\n"@
}

/// What untangling the file at `p` with text `content` does.
pub open spec fn untangle_plan(
    t: Seq<(Seq<char>, Seq<char>)>,
    p: Seq<char>,
    content: Seq<char>,
    root: Seq<char>,
    dry_run: bool,
) -> UntangleView {
    if dry_run {
        UntangleView::Report(markdown_path_of(root, p), language_of_path(t, p))
    } else {
        UntangleView::Write(markdown_path_of(root, p), untangled_text(language_of_path(t, p), content))
    }
}

/// The language for the file at `path`, by the registry's inversion.
pub fn language_for_path(registry: &LanguageRegistry, path: &str) -> (r: String)
    ensures
        r@ == language_of_path(registry@, path@),
{
    match extension(path) {
        Some(e) => match registry.invert(e.as_str()) {
            Some(l) => l,
            None => String::new(),
        },
        None => String::new(),
    }
}

/// Where the document for the file at `input_file` goes under `output_dir`.
pub fn markdown_path(input_file: &str, output_dir: &str) -> (r: String)
    ensures
        r@ == markdown_path_of(output_dir@, input_file@),
{
    let rel = strip_current_dir(input_file);
    let joined = join_path(output_dir, rel.as_str());
    with_md_extension(joined.as_str())
}

/// The Markdown document that wraps `content` in a block tagged `language`.
pub fn untangled_document(language: &str, content: &str) -> (r: String)
    ensures
        r@ == untangled_text(language@, content@),
{
    let open = concat("```", language);
    let mut doc = concat(open.as_str(), "\n");
    doc.append(content);
    let n = content.unicode_len();
    if n > 0 && content.get_char(n - 1) != '\n' {
        doc.append("\n");
    }
    doc.append("```\n");
    doc
}

/// Untangles the file at `input_file`, whose text is `content`: a Markdown
/// document under `output_dir`, or in a dry run a report of it.
pub fn untangle_file(
    input_file: &str,
    content: &str,
    output_dir: &str,
    registry: &LanguageRegistry,
    dry_run: bool,
) -> (r: UntangleAction)
    ensures
        r@ == untangle_plan(registry@, input_file@, content@, output_dir@, dry_run),
{
    let language = language_for_path(registry, input_file);
    let path = markdown_path(input_file, output_dir);
    if dry_run {
        UntangleAction::Report { path, language }
    } else {
        let text = untangled_document(language.as_str(), content);
        UntangleAction::Write { path, text }
    }
}

} // verus!
