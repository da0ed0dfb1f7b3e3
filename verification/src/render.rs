//! One-line rendering of a diagnostic for the terminal.

use vstd::prelude::*;
use crate::source::{SourceText, Span, is_boundary, boundary_index, location_at};
use crate::text::{chars_of, decimal, push_decimal, string_push_str};

verus! {

/// `path: severity: message`, or with the one-based line and column of the
/// span's start after the path when the span starts on a character boundary
/// of `source`.
pub open spec fn rendered(
    path: Seq<char>,
    source: Seq<char>,
    severity: Seq<char>,
    message: Seq<char>,
    span: Option<Span>,
) -> Seq<char> {
    let tail = ": "@ + severity + ": "@ + message;
    match span {
        Some(sp) => if source.len() < usize::MAX && is_boundary(source, sp.start as int) {
            let (line, column) = location_at(source, boundary_index(source, sp.start as int));
            path + ":"@ + decimal(line) + ":"@ + decimal(column) + tail
        } else {
            path + tail
        },
        None => path + tail,
    }
}

/// Renders a diagnostic as `path:line:column: severity: message`, falling
/// back to `path: severity: message` when there is no span or its start is
/// not a position in `source`.
pub fn render(path: &str, source: &str, severity: &str, message: &str, span: Option<Span>) -> (r: String)
    ensures
        r@ == rendered(path@, source@, severity@, message@, span),
{
    let mut out = path.to_owned();
    let mut located = false;
    if let Some(sp) = span {
        let n = chars_of(source).len();
        if n < usize::MAX {
            let text = SourceText::new(source);
            if let Some(loc) = text.location(sp.start) {
                string_push_str(&mut out, ":");
                push_decimal(&mut out, loc.line);
                string_push_str(&mut out, ":");
                push_decimal(&mut out, loc.column);
                located = true;
            }
        }
    }
    string_push_str(&mut out, ": ");
    string_push_str(&mut out, severity);
    string_push_str(&mut out, ": ");
    string_push_str(&mut out, message);
    proof {
        let tail = ": "@ + severity@ + ": "@ + message@;
        assert(out@ =~= rendered(path@, source@, severity@, message@, span)) by {
            if located {
                let sp = span->Some_0;
                let (line, column) = location_at(source@, boundary_index(source@, sp.start as int));
                assert(out@ =~= path@ + ":"@ + decimal(line) + ":"@ + decimal(column) + tail);
            } else {
                assert(out@ =~= path@ + tail);
            }
        }
    }
    out
}

} // verus!
