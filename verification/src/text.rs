use vstd::prelude::*;

verus! {

/// The characters of a string slice, in order.
pub fn chars_of(s: &str) -> (r: Vec<char>)
    ensures
        r@ == s@,
{
    let mut r: Vec<char> = Vec::new();
    for c in it: s.chars()
        invariant
            r@ == it.seq().take(it.index() as int),
    {
        r.push(c);
    }
    r
}

/// Whether the characters `cs` spell the word `w`.
pub fn chars_equal(cs: &Vec<char>, w: &str) -> (r: bool)
    ensures
        r == (cs@ == w@),
{
    let ws = chars_of(w);
    if cs.len() != ws.len() {
        return false;
    }
    let mut i: usize = 0;
    while i < cs.len()
        invariant
            cs@.len() == ws@.len(),
            ws@ == w@,
            i <= cs@.len(),
            forall|j: int| 0 <= j < i ==> cs@[j] == ws@[j],
        decreases cs@.len() - i,
    {
        if cs[i] != ws[i] {
            return false;
        }
        i += 1;
    }
    assert(cs@ =~= ws@);
    true
}

} // verus!

verus! {

/// Whether `c` is alphabetic or numeric in the sense of the Unicode standard, as
/// `char::is_alphanumeric` decides it.
pub uninterp spec fn unicode_alphanumeric(c: char) -> bool;

/// Calls `char::is_alphanumeric`. The result is named `unicode_alphanumeric`; of it
/// the contract states only what the documentation of the Unicode property gives for
/// ASCII: of the ASCII characters, exactly the letters and digits are alphanumeric.
#[verifier::external_body]
pub fn is_alphanumeric(c: char) -> (r: bool)
    ensures
        r == unicode_alphanumeric(c),
        ('a' <= c <= 'z' || 'A' <= c <= 'Z' || '0' <= c <= '9') ==> r,
        (c as int) < 128 ==> (r <==> ('a' <= c <= 'z' || 'A' <= c <= 'Z' || '0' <= c <= '9')),
{
    c.is_alphanumeric()
}

/// A string made of the characters `cs`, in order; calls `String::from_iter`.
#[verifier::external_body]
pub fn string_from(cs: &[char]) -> (r: String)
    ensures
        r@ == cs@,
{
    String::from_iter(cs.iter())
}

} // verus!

verus! {

/// A string of the one character `c`; calls `String::from`.
#[verifier::external_body]
pub fn string_of_char(c: char) -> (r: String)
    ensures
        r@ == seq![c],
{
    String::from(c)
}

/// A string with the characters of `s`.
pub fn string_of(s: &str) -> (r: String)
    ensures
        r@ == s@,
{
    s.to_string()
}

} // verus!

verus! {

/// Whether `c` is lowercase in the sense of the Unicode standard, as
/// `char::is_lowercase` decides it.
pub uninterp spec fn unicode_lowercase(c: char) -> bool;

/// Whether `c` is uppercase in the sense of the Unicode standard, as
/// `char::is_uppercase` decides it.
pub uninterp spec fn unicode_uppercase(c: char) -> bool;

/// The first character of the lowercase mapping of `c`, as `char::to_lowercase` gives it.
pub uninterp spec fn lowercase_first(c: char) -> char;

/// The first character of the uppercase mapping of `c`, as `char::to_uppercase` gives it.
pub uninterp spec fn uppercase_first(c: char) -> char;

/// Calls `char::is_lowercase`; the result is named `unicode_lowercase`. Of it the
/// contract states what the documentation gives for ASCII: of the ASCII
/// characters, exactly `a` to `z` are lowercase.
#[verifier::external_body]
pub fn is_lowercase(c: char) -> (r: bool)
    ensures
        r == unicode_lowercase(c),
        'a' <= c <= 'z' ==> r,
        ('A' <= c <= 'Z' || '0' <= c <= '9') ==> !r,
        (c as int) < 128 ==> (r <==> 'a' <= c <= 'z'),
{
    c.is_lowercase()
}

/// Calls `char::is_uppercase`; the result is named `unicode_uppercase`. Of it the
/// contract states what the documentation gives for ASCII: of the ASCII
/// characters, exactly `A` to `Z` are uppercase.
#[verifier::external_body]
pub fn is_uppercase(c: char) -> (r: bool)
    ensures
        r == unicode_uppercase(c),
        'A' <= c <= 'Z' ==> r,
        ('a' <= c <= 'z' || '0' <= c <= '9') ==> !r,
        (c as int) < 128 ==> (r <==> 'A' <= c <= 'Z'),
{
    c.is_uppercase()
}

/// Calls `char::to_lowercase` and takes the first character it yields, which the
/// documentation says always exists; the result is named `lowercase_first`. For
/// ASCII the documentation gives it: `A` to `Z` map to `a` to `z`, and any other
/// ASCII character, having no lowercase mapping, to itself.
#[verifier::external_body]
pub fn to_lowercase_first(c: char) -> (r: char)
    ensures
        r == lowercase_first(c),
        'A' <= c <= 'Z' ==> r as int == c as int + 32,
        (c as int) < 128 && !('A' <= c <= 'Z') ==> r == c,
{
    c.to_lowercase().next().unwrap_or(c)
}

/// Calls `char::to_uppercase` and takes the first character it yields, which the
/// documentation says always exists; the result is named `uppercase_first`. For
/// ASCII the documentation gives it: `a` to `z` map to `A` to `Z`, and any other
/// ASCII character, having no uppercase mapping, to itself.
#[verifier::external_body]
pub fn to_uppercase_first(c: char) -> (r: char)
    ensures
        r == uppercase_first(c),
        'a' <= c <= 'z' ==> r as int == c as int - 32,
        (c as int) < 128 && !('a' <= c <= 'z') ==> r == c,
{
    c.to_uppercase().next().unwrap_or(c)
}

} // verus!

verus! {

/// The number of bytes of the UTF-8 encoding of a text, as `str::len` reports it.
pub open spec fn utf8_len(s: Seq<char>) -> nat {
    (vstd::utf8::encode_utf8(s).len() as usize) as nat
}

} // verus!

verus! {

/// The text `format!("{:?}", items)` gives for a list of strings: each quoted and
/// escaped as `Debug` does, separated by `, `, in square brackets.
pub uninterp spec fn debug_list(items: Seq<Seq<char>>) -> Seq<char>;

/// Writes a list of strings as `Debug` does; the text is named `debug_list`.
#[verifier::external_body]
pub fn debug_text(items: &Vec<String>) -> (r: String)
    ensures
        r@ == debug_list(items@.map_values(|s: String| s@)),
{
    format!("{:?}", items)
}

} // verus!
