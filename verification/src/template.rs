//! The page template: the markup that goes out before and after the view.

use crate::text::{
    chars_of, find_first, first_occurrence, lemma_first_occurrence_is_leftmost, occurs_at,
    string_of,
};
use vstd::prelude::*;
use vstd::slice::slice_subrange;
use vstd::string::StringExecFns;

verus! {

/// A template split at its `<body>` tag. `before` ends with the tag and
/// holds the reference to the style script; `after` is what follows the tag.
#[derive(Debug, Clone, PartialEq, Eq)]
pub struct Template {
    pub before: String,
    pub after: String,
}

/// Why a template cannot be used.
#[derive(Debug, PartialEq, Eq, Clone, Copy, Structural)]
pub enum TemplateError {
    /// The template has no `<body>` tag, so there is no place for the view.
    MissingBody,
}

/// The reference to the style script.
pub open spec fn style_script() -> Seq<char> {
    "<script src=\"https://cdn.tailwindcss.com\"></script>"@
}

/// `head` with the style script in front of its first `</head>`, or at its
/// end where it has none.
pub open spec fn with_style(head: Seq<char>) -> Seq<char> {
    match first_occurrence(head, "</head>"@) {
        Some(at) => head.take(at) + style_script() + head.skip(at),
        None => head + style_script(),
    }
}

/// The two parts of a template: what stands before its first `<body>` tag,
/// with the style script and the tag, and what stands after the tag. `None`
/// where the template has no such tag.
pub open spec fn template_of(html: Seq<char>) -> Option<(Seq<char>, Seq<char>)> {
    match first_occurrence(html, "<body>"@) {
        Some(at) => Some(
            (with_style(html.take(at)) + "<body>"@, html.skip(at + "<body>"@.len())),
        ),
        None => None,
    }
}

/// The two parts of a template, put together again, are the template with
/// the style script put in at one place in front of the `<body>` tag:
/// nothing else is added, and nothing is lost.
pub proof fn lemma_template_keeps_the_page(html: Seq<char>)
    requires
        template_of(html) is Some,
    ensures
        template_of(html) matches Some(parts) && exists|at: int|
            0 <= at <= html.len() && #[trigger] html.take(at) + style_script() + html.skip(at)
                == parts.0 + parts.1,
{
    let tag = "<body>"@;
    lemma_first_occurrence_is_leftmost(html, tag);
    let body_at = first_occurrence(html, tag)->0;
    assert(occurs_at(html, tag, body_at));
    let head = html.take(body_at);
    let rest = html.skip(body_at + tag.len());
    assert(html.subrange(body_at, body_at + tag.len()) == tag);
    let at = match first_occurrence(head, "</head>"@) {
        Some(at) => at,
        None => head.len() as int,
    };
    if first_occurrence(head, "</head>"@) is Some {
        lemma_first_occurrence_is_leftmost(head, "</head>"@);
        assert(occurs_at(head, "</head>"@, at));
    }
    assert(html.take(at) =~= head.take(at));
    assert(html.skip(at) =~= head.skip(at) + tag + rest);
    assert(head + style_script() =~= head.take(head.len() as int) + style_script() + head.skip(
        head.len() as int,
    ));
    assert(html.take(at) + style_script() + html.skip(at) =~= with_style(head) + tag + rest);
}

/// Splits a template at its first `<body>` tag and puts the style script
/// into the part before it. Fails exactly when the template has no `<body>`
/// tag.
pub fn prepare_template(index_html: &str) -> (prepared: Result<Template, TemplateError>)
    ensures
        match prepared {
            Ok(template) => template_of(index_html@) == Some((template.before@, template.after@)),
            Err(error) => error == TemplateError::MissingBody && template_of(index_html@) is None,
        },
{
    let html = chars_of(index_html);
    let body_tag = chars_of("<body>");
    match find_first(html.as_slice(), body_tag.as_slice()) {
        None => Err(TemplateError::MissingBody),
        Some(body_at) => {
            assert(occurs_at(html@, body_tag@, body_at as int));
            let end: usize = html.len();
            let after_at: usize = body_at + body_tag.len();
            let head_end = chars_of("</head>");
            let head = slice_subrange(html.as_slice(), 0, body_at);
            assert(head@ =~= html@.take(body_at as int));
            let style_at = match find_first(head, head_end.as_slice()) {
                Some(at) => at,
                None => head.len(),
            };
            let mut before = string_of(slice_subrange(head, 0, style_at));
            before.append("<script src=\"https://cdn.tailwindcss.com\"></script>");
            before.append(string_of(slice_subrange(head, style_at, head.len())).as_str());
            before.append("<body>");
            let after = string_of(slice_subrange(html.as_slice(), after_at, end));
            proof {
                assert(head@.subrange(0, style_at as int) =~= head@.take(style_at as int));
                assert(head@.subrange(style_at as int, head@.len() as int) =~= head@.skip(
                    style_at as int,
                ));
                assert(head@.take(head@.len() as int) =~= head@);
                assert(head@.skip(head@.len() as int) =~= Seq::<char>::empty());
                assert(before@ =~= with_style(head@) + "<body>"@);
                assert(after@ =~= index_html@.skip(body_at + "<body>"@.len()));
            }
            Ok(Template { before, after })
        },
    }
}

} // verus!
