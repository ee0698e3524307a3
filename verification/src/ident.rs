//! Game identifiers: universally unique identifiers in their simple form,
//! 32 hexadecimal digits in lower case without hyphens.
use vstd::prelude::*;

verus! {

/// Whether `c` is a hexadecimal digit in lower case.
pub open spec fn is_lower_hex(c: char) -> bool {
    ('0' <= c <= '9') || ('a' <= c <= 'f')
}

/// Whether `text` has the simple form: 32 hexadecimal digits in lower case.
pub open spec fn is_simple_form(text: Seq<char>) -> bool {
    &&& text.len() == 32
    &&& forall|i: int| 0 <= i < text.len() ==> is_lower_hex(#[trigger] text[i])
}

/// Whether `text` has the form of an identifier that was drawn at random:
/// the simple form, with the version digit `4` at place 12 and one of the
/// variant digits `8`, `9`, `a`, `b` at place 16, places counted from 0.
pub open spec fn is_drawn_form(text: Seq<char>) -> bool {
    &&& is_simple_form(text)
    &&& text[12] == '4'
    &&& (text[16] == '8' || text[16] == '9' || text[16] == 'a' || text[16] == 'b')
}

/// The simple form of the identifier that a text is read as, `None` where
/// the text is not read as an identifier. This is what `Uuid::try_parse` of
/// the crate uuid makes of the text, written out by `Uuid::simple`.
pub uninterp spec fn simple_form(text: Seq<char>) -> Option<Seq<char>>;

/// Reads `text` as an identifier and writes it in the simple form. The
/// reading is `uuid::Uuid::try_parse`, the writing `Uuid::simple` with its
/// `Display`: of the outcome the library takes on trust that it has the
/// simple form, that it depends on the text alone, and that a text which
/// has the simple form already is read and written as itself.
#[verifier::external_body]
pub(crate) fn parse_to_simple(text: &str) -> (simple: Option<String>)
    ensures
        match simple {
            Some(s) => {
                &&& simple_form(text@) == Some(s@)
                &&& is_simple_form(s@)
                &&& is_simple_form(text@) ==> s@ == text@
            },
            None => simple_form(text@) is None && !is_simple_form(text@),
        },
{
    match uuid::Uuid::try_parse(text) {
        Ok(id) => Some(id.simple().to_string()),
        Err(_) => None,
    }
}

/// A fresh random identifier in the simple form. This is `Uuid::new_v4` of
/// the crate uuid, written out by `Uuid::simple` with its `Display`: the
/// library takes on trust that the outcome has the simple form and holds
/// the version and variant digits that `new_v4` sets in every identifier
/// it draws, and nothing else of it.
#[verifier::external_body]
pub(crate) fn fresh_simple() -> (simple: String)
    ensures
        is_drawn_form(simple@),
{
    uuid::Uuid::new_v4().simple().to_string()
}

/// Tells whether `text` has the simple form.
pub fn has_simple_form(text: &str) -> (ok: bool)
    ensures
        ok == is_simple_form(text@),
{
    let n: usize = text.unicode_len();
    if n != 32 {
        return false;
    }
    let mut i: usize = 0;
    while i < n
        invariant
            i <= n == text@.len() == 32,
            forall|k: int| 0 <= k < i ==> is_lower_hex(#[trigger] text@[k]),
        decreases n - i,
    {
        let c: char = text.get_char(i);
        if !((c >= '0' && c <= '9') || (c >= 'a' && c <= 'f')) {
            return false;
        }
        i = i + 1;
    }
    true
}

} // verus!
