use vstd::prelude::*;

verus! {

/// Whether `c` has Unicode's Alphabetic or Numeric property.
pub uninterp spec fn alphanumeric(c: char) -> bool;

/// Whether `c` has Unicode's White_Space property.
pub uninterp spec fn whitespace(c: char) -> bool;

/// The lower-case mapping of `c` in Unicode, as one or more characters.
pub uninterp spec fn lowercase_of(c: char) -> Seq<char>;

/// Whether `c` is an ASCII letter or digit.
pub open spec fn ascii_alphanumeric(c: char) -> bool {
    in_range(c, 'a', 'z') || in_range(c, 'A', 'Z') || in_range(c, '0', '9')
}

/// Whether `c` is ASCII white space: space, tab, line feed, vertical tab,
/// form feed or carriage return.
pub open spec fn ascii_whitespace(c: char) -> bool {
    c == ' ' || 9 <= c as u32 <= 13
}

/// Relies on char::is_alphanumeric: its answer depends on the character
/// alone; among ASCII characters the Alphabetic and Numeric properties hold
/// of the letters and digits only.
pub assume_specification[ char::is_alphanumeric ](c: char) -> (r: bool)
    ensures
        r == alphanumeric(c),
        (c as u32) < 128 ==> (r <==> ascii_alphanumeric(c)),
;

/// Relies on char::is_whitespace: its answer depends on the character alone;
/// among ASCII characters the White_Space property holds of space and of
/// `U+0009 ..= U+000D` only.
pub assume_specification[ char::is_whitespace ](c: char) -> (r: bool)
    ensures
        r == whitespace(c),
        (c as u32) < 128 ==> (r <==> ascii_whitespace(c)),
;

/// Relies on char::to_lowercase: the Unicode lower-case mapping of `c`, one
/// or more characters that depend on `c` alone; an ASCII capital maps to its
/// small letter and any other ASCII character to itself.
#[verifier::external_body]
pub(crate) fn lowercase(c: char) -> (r: String)
    ensures
        r@ == lowercase_of(c),
        r@.len() >= 1,
        (c as u32) < 128 ==> r@ == seq![ascii_lower(c)],
{
    c.to_lowercase().collect()
}

/// Relies on String::push: appends one character at the end.
pub assume_specification[ String::push ](s: &mut String, ch: char)
    ensures
        final(s)@ == old(s)@.push(ch),
;

/// Whether the code point of `c` lies in `lo ..= hi`.
pub open spec fn in_range(c: char, lo: char, hi: char) -> bool {
    lo as u32 <= c as u32 <= hi as u32
}

/// The ASCII lower-case form of `c`: `A..=Z` become `a..=z`, all else stays.
pub open spec fn ascii_lower(c: char) -> char {
    if in_range(c, 'A', 'Z') {
        ((c as u32) + 32) as char
    } else {
        c
    }
}

/// Maps `A..=Z` to `a..=z` and leaves every other character as it is.
pub fn to_ascii_lower(c: char) -> (r: char)
    ensures
        r == ascii_lower(c),
{
    if 'A' <= c && c <= 'Z' {
        ((c as u8) + 32) as char
    } else {
        c
    }
}

/// The characters of `s`, in order.
pub fn chars_of(s: &str) -> (r: Vec<char>)
    ensures
        r@ == s@,
{
    let mut r: Vec<char> = Vec::new();
    for c in it: s.chars()
        invariant
            r@ == it.seq().take(it.index() as int),
    {
        r.push(c);
    }
    r
}

} // verus!
