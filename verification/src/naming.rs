//! Names that are made from other names.

use vstd::prelude::*;

verus! {

/// The upper case form of a lower case letter of ASCII, and every other
/// character as it is.
pub open spec fn ascii_upper(c: char) -> char {
    if 'a' <= c <= 'z' {
        ((c as u32) - 32) as char
    } else {
        c
    }
}

/// What is left of `id` in camel case, where `hump` says that the next
/// character follows an underscore.
pub open spec fn camel_from(id: Seq<char>, hump: bool) -> Seq<char>
    decreases id.len(),
{
    if id.len() == 0 {
        Seq::empty()
    } else if id[0] == '_' {
        camel_from(id.skip(1), true)
    } else {
        seq![
            if hump {
                ascii_upper(id[0])
            } else {
                id[0]
            },
        ] + camel_from(id.skip(1), false)
    }
}

/// The camel case form of a name in snake case: the underscores are dropped,
/// and a character that followed one is put in upper case.
pub open spec fn camel_case(id: Seq<char>) -> Seq<char> {
    camel_from(id, false)
}

/// The upper case form of a lower case letter of ASCII.
fn to_ascii_upper(c: char) -> (upper: char)
    ensures
        upper == ascii_upper(c),
{
    if 'a' <= c && c <= 'z' {
        ((c as u8) - 32) as char
    } else {
        c
    }
}

/// Appends a character to a string.
///
/// This is `String::push` of the standard library, which is taken at its
/// word: the string afterwards is the string before with the character at its
/// end.
#[verifier::external_body]
fn push_char(string: &mut String, c: char)
    ensures
        final(string)@ == old(string)@.push(c),
{
    string.push(c)
}

/// The camel case form of a name in snake case. See [`camel_case`].
pub fn snake_to_camel_case(id: &str) -> (camel: String)
    ensures
        camel@ == camel_case(id@),
{
    let mut result = String::new();
    let mut hump = false;
    let len = id.unicode_len();
    let mut i: usize = 0;
    assert(id@.skip(0) =~= id@);
    while i < len
        invariant
            i <= len,
            len == id@.len(),
            camel_case(id@) == result@ + camel_from(id@.skip(i as int), hump),
        decreases len - i,
    {
        let c = id.get_char(i);
        proof {
            assert(id@.skip(i as int).skip(1) =~= id@.skip(i + 1));
            assert(id@.skip(i as int)[0] == c);
        }
        if c == '_' {
            hump = true;
        } else {
            let ghost before = result@;
            let kept = if hump {
                to_ascii_upper(c)
            } else {
                c
            };
            push_char(&mut result, kept);
            hump = false;
            assert(before + (seq![kept] + camel_from(id@.skip(i + 1), false)) =~= result@ + camel_from(
                id@.skip(i + 1),
                false,
            ));
        }
        i += 1;
    }
    assert(result@ + Seq::<char>::empty() =~= result@);
    result
}

/// The name under which a glyph is tracked for changes.
pub open spec fn spec_glyph_identifier(glyph_name: Seq<char>) -> Seq<char> {
    "/glyph/"@ + glyph_name
}

/// See [`spec_glyph_identifier`].
pub fn glyph_identifier(glyph_name: &str) -> (identifier: String)
    ensures
        identifier@ == spec_glyph_identifier(glyph_name@),
{
    let mut identifier = "/glyph/".to_owned();
    identifier.append(glyph_name);
    identifier
}

} // verus!
