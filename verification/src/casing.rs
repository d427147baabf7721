//! The case a text is laid out in, and its characters.

use vstd::prelude::*;
use vstd::std_specs::iter::IteratorSpec;
use crate::text_mesh::FontStyle;

verus! {

/// What `str::to_uppercase` makes of a text.
pub uninterp spec fn uppercase_of(text: Seq<char>) -> Seq<char>;

/// What `str::to_lowercase` makes of a text.
pub uninterp spec fn lowercase_of(text: Seq<char>) -> Seq<char>;

/// The text as it is laid out: in upper case, in lower case, or as it is.
pub open spec fn working_text(text: Seq<char>, style: FontStyle) -> Seq<char> {
    if style.uppercase {
        uppercase_of(text)
    } else if style.lowercase {
        lowercase_of(text)
    } else {
        text
    }
}

/// Calls `str::to_uppercase` of the standard library, which maps the text to
/// upper case by the rules of Unicode. The result depends on the text alone.
#[verifier::external_body]
fn to_upper(text: &str) -> (r: String)
    ensures
        r@ == uppercase_of(text@),
{
    text.to_uppercase()
}

/// Calls `str::to_lowercase` of the standard library, which maps the text to
/// lower case by the rules of Unicode. The result depends on the text alone.
#[verifier::external_body]
fn to_lower(text: &str) -> (r: String)
    ensures
        r@ == lowercase_of(text@),
{
    text.to_lowercase()
}

/// The characters of a text, in order.
pub fn chars_of(text: &str) -> (r: Vec<char>)
    ensures
        r@ == text@,
{
    broadcast use {vstd::string::axiom_spec_iter, vstd::string::next_postcondition};

    let mut rest = text.chars();
    let mut out: Vec<char> = Vec::new();
    loop
        invariant
            rest.obeys_prophetic_iter_laws(),
            rest.decrease() is Some,
            out@ + rest.remaining() == text@,
        ensures
            out@ == text@,
        decreases rest.decrease()->0,
    {
        let ghost before = rest.remaining();
        match rest.next() {
            Some(c) => {
                out.push(c);
                proof {
                    assert(out@ + rest.remaining() =~= text@);
                }
            },
            None => {
                proof {
                    assert(out@ + rest.remaining() =~= out@);
                }
                break ;
            },
        }
    }
    out
}

/// The text in the case that `style` asks for.
pub fn apply_casing(text: &str, style: FontStyle) -> (r: String)
    ensures
        r@ == working_text(text@, style),
{
    if style.uppercase {
        to_upper(text)
    } else if style.lowercase {
        to_lower(text)
    } else {
        text.to_owned()
    }
}

} // verus!
