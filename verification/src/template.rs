//! The built-in error page.
use vstd::prelude::*;
use vstd::utf8::encode_utf8;
use crate::global::DEFAULT_ERROR_HTML;
use crate::text::{chars_to_bytes, replace_all, replace_chars, str_chars};

verus! {

/// The error page with `text` as its title and heading.
pub open spec fn error_html(text: Seq<char>) -> Seq<char> {
    replace_all(DEFAULT_ERROR_HTML@, seq!['{', '}'], text)
}

/// The bytes of the error page with every `{}` of the template replaced by
/// `text`.
pub fn get_error_html(text: &str) -> (r: Vec<u8>)
    ensures
        r@ == encode_utf8(error_html(text@)),
{
    let t = str_chars(DEFAULT_ERROR_HTML);
    let pat = vec!['{', '}'];
    assert(pat@ =~= seq!['{', '}']);
    let rep = str_chars(text);
    let html = replace_chars(&t, &pat, &rep);
    chars_to_bytes(&html)
}

} // verus!
