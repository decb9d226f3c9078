//! The sidebar logo, embedded in the page as a `data:` URI (the executable
//! ships as one file, with no assets beside it).

use vstd::prelude::*;

verus! {

/// A base64 digit: `A`-`Z`, `a`-`z`, `0`-`9`, `+`, `/` for 0 to 63.
pub open spec fn b64_digit(v: int) -> char {
    if v < 26 {
        (65 + v) as char
    } else if v < 52 {
        (97 + v - 26) as char
    } else if v < 62 {
        (48 + v - 52) as char
    } else if v == 62 {
        '+'
    } else {
        '/'
    }
}

/// Standard base64 (RFC 4648): every three bytes become four digits, and a
/// final group of one or two bytes is padded with `=`.
pub open spec fn base64_of(data: Seq<u8>) -> Seq<char>
    decreases data.len(),
{
    if data.len() == 0 {
        seq![]
    } else if data.len() == 1 {
        let a = data[0] as int;
        seq![b64_digit(a / 4), b64_digit((a % 4) * 16), '=', '=']
    } else if data.len() == 2 {
        let a = data[0] as int;
        let b = data[1] as int;
        seq![b64_digit(a / 4), b64_digit((a % 4) * 16 + b / 16), b64_digit((b % 16) * 4), '=']
    } else {
        let a = data[0] as int;
        let b = data[1] as int;
        let c = data[2] as int;
        seq![
            b64_digit(a / 4),
            b64_digit((a % 4) * 16 + b / 16),
            b64_digit((b % 16) * 4 + c / 64),
            b64_digit(c % 64),
        ] + base64_of(data.skip(3))
    }
}

/// `base64::engine::general_purpose::STANDARD.encode`: standard alphabet,
/// with padding.
#[verifier::external_body]
fn base64_standard(data: &[u8]) -> (r: String)
    ensures
        r@ == base64_of(data@),
{
    base64::Engine::encode(&base64::engine::general_purpose::STANDARD, data)
}

/// A PNG image as a `data:image/png;base64,...` URI.
pub fn png_data_uri(png: &[u8]) -> (r: String)
    ensures
        r@ == "data:image/png;base64,"@ + base64_of(png@),
{
    let mut v = crate::text::chars_of("data:image/png;base64,");
    crate::text::append_chars(&mut v, &crate::text::chars_of(base64_standard(png).as_str()));
    crate::text::string_from(&v)
}

} // verus!
