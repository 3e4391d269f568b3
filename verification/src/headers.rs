//! HTTP header names, header values and header maps.
//!
//! The types are those of the `http` crate. This module states what the library
//! relies on: the text of a name, the bytes of a value, and the fields that a
//! map holds.

use http::header::{HeaderName, HeaderValue, InvalidHeaderName, MaxSizeReached};
use http::HeaderMap;
use vstd::prelude::*;

verus! {

/// The name of a header, `http::HeaderName`.
#[verifier::external_type_specification]
#[verifier::external_body]
pub struct ExHeaderName(HeaderName);

/// The value of a header, `http::HeaderValue`.
#[verifier::external_type_specification]
#[verifier::external_body]
pub struct ExHeaderValue(HeaderValue);

/// The error of `HeaderName::from_bytes`.
#[verifier::external_type_specification]
#[verifier::external_body]
pub struct ExInvalidHeaderName(InvalidHeaderName);

/// The error of `HeaderMap::try_insert`.
#[verifier::external_type_specification]
#[verifier::external_body]
pub struct ExMaxSizeReached(MaxSizeReached);

/// The multimap of headers, `http::HeaderMap`.
#[verifier::external_type_specification]
#[verifier::external_body]
#[verifier::reject_recursive_types(T)]
pub struct ExHeaderMap<T>(HeaderMap<T>);

/// The text that a header name holds, which `HeaderName::as_str` shows.
pub uninterp spec fn header_name_text(name: HeaderName) -> Seq<char>;

/// The bytes that a header value holds, which `HeaderValue::as_bytes` shows.
pub uninterp spec fn header_value_bytes(value: HeaderValue) -> Seq<u8>;

/// The fields that a header map holds: under the text of each name present, the
/// bytes of its values in the order in which they were added.
pub uninterp spec fn header_fields(map: HeaderMap<HeaderValue>) -> Map<Seq<char>, Seq<Seq<u8>>>;

/// Whether a header value is marked as sensitive, as `HeaderValue::is_sensitive`
/// tells.
pub uninterp spec fn header_value_sensitive(value: HeaderValue) -> bool;

/// The marks that a header map holds: under the text of each name present, for each
/// of its values whether it is marked as sensitive.
pub uninterp spec fn header_marks(map: HeaderMap<HeaderValue>) -> Map<Seq<char>, Seq<bool>>;

/// A map with at most this many names always has room for one more.
pub const ALWAYS_ROOM: usize = 6553;

/// A byte that a header name may hold: a letter, a digit or one of
/// ``!#$%&'*+-.^_`|~``.
pub open spec fn is_token_byte(b: u8) -> bool {
    ||| 'a' as u8 <= b <= 'z' as u8
    ||| 'A' as u8 <= b <= 'Z' as u8
    ||| '0' as u8 <= b <= '9' as u8
    ||| "!#$%&'*+-.^_`|~"@.contains(b as char)
}

/// The character of a byte, with an upper case letter turned to lower case.
pub open spec fn lowercase(b: u8) -> char {
    if 'A' as u8 <= b <= 'Z' as u8 {
        (b + 32) as char
    } else {
        b as char
    }
}

/// The header name that some bytes spell, in lower case, if they spell one.
pub open spec fn spelled_name(bytes: Seq<u8>) -> Option<Seq<char>> {
    if 1 <= bytes.len() <= 65535 && forall|i: int|
        0 <= i < bytes.len() ==> is_token_byte(#[trigger] bytes[i]) {
        Some(bytes.map_values(|b: u8| lowercase(b)))
    } else {
        None
    }
}

/// The header name that a text spells, if it spells one.
pub open spec fn header_name_of(text: Seq<char>) -> Option<Seq<char>> {
    spelled_name(vstd::utf8::encode_utf8(text))
}

/// The longest text that is checked to spell a header name when it is looked up.
pub const CHECKED_LENGTH: usize = 64;

/// The name under which a text is looked up in a header map. A text of up to
/// [`CHECKED_LENGTH`] bytes must spell a header name. A longer one need not: a zero
/// stands for each byte that a header name may not hold.
pub open spec fn lookup_name(text: Seq<char>) -> Option<Seq<char>> {
    let bytes = vstd::utf8::encode_utf8(text);
    if CHECKED_LENGTH < bytes.len() <= 65535 {
        Some(
            bytes.map_values(
                |b: u8|
                    if is_token_byte(b) {
                        lowercase(b)
                    } else {
                        0 as char
                    },
            ),
        )
    } else {
        spelled_name(bytes)
    }
}

/// The texts of a list of header names.
pub open spec fn name_texts(names: Seq<HeaderName>) -> Seq<Seq<char>> {
    names.map_values(|n: HeaderName| header_name_text(n))
}

/// A character that may stand in a static header value: visible ASCII, a space
/// or a tab.
pub open spec fn is_visible(c: char) -> bool {
    32 <= c as u32 <= 126 || c == '\t'
}

/// `HeaderName::from_bytes` accepts exactly the bytes that spell a header name:
/// between one and 65535 letters, digits and token punctuation. The name that it
/// gives has them in lower case.
pub assume_specification[ HeaderName::from_bytes ](src: &[u8]) -> (name: Result<
    HeaderName,
    InvalidHeaderName,
>)
    ensures
        name is Ok <==> spelled_name(src@) is Some,
        name matches Ok(n) ==> spelled_name(src@) == Some(header_name_text(n)),
;

/// `HeaderName::as_str` shows the text of the name.
pub assume_specification[ HeaderName::as_str ](name: &HeaderName) -> (shown: &str)
    ensures
        shown@ == header_name_text(*name),
;

/// `HeaderValue::from_static` turns a string of visible ASCII characters, spaces
/// and tabs into a value that holds its bytes and is not marked as sensitive. On any
/// other string it panics.
pub assume_specification[ HeaderValue::from_static ](src: &'static str) -> (value: HeaderValue)
    requires
        forall|i: int| 0 <= i < src@.len() ==> is_visible(#[trigger] src@[i]),
    ensures
        header_value_bytes(value) == vstd::utf8::encode_utf8(src@),
        !header_value_sensitive(value),
;

/// `HeaderValue::as_bytes` shows the bytes of the value.
pub assume_specification[ HeaderValue::as_bytes ](value: &HeaderValue) -> (bytes: &[u8])
    ensures
        bytes@ == header_value_bytes(*value),
;

/// `HeaderMap::new` makes a map without fields.
pub assume_specification[ HeaderMap::<HeaderValue>::new ]() -> (fresh: HeaderMap<HeaderValue>)
    ensures
        header_fields(fresh).dom() == Set::<Seq<char>>::empty(),
        header_marks(fresh).dom() == Set::<Seq<char>>::empty(),
;

/// `HeaderMap::get`, by a header name, finds the first value under the name, if the
/// name is present.
#[verifier::external_body]
pub(crate) fn first_value<'a>(fields: &'a HeaderMap<HeaderValue>, name: &HeaderName) -> (value:
    Option<&'a HeaderValue>)
    ensures
        value is Some <==> header_fields(*fields).contains_key(header_name_text(*name)),
        value matches Some(v) ==> header_value_bytes(*v) == header_fields(
            *fields,
        )[header_name_text(*name)][0],
        value matches Some(v) ==> header_value_sensitive(*v) == header_marks(
            *fields,
        )[header_name_text(*name)][0],
{
    fields.get(name)
}

/// `HeaderMap::get`, by a text, finds the first value under the name that the text is
/// looked up by, if it has such a name and the name is present.
#[verifier::external_body]
pub(crate) fn first_value_by_text<'a>(fields: &'a HeaderMap<HeaderValue>, text: &str) -> (value:
    Option<&'a HeaderValue>)
    ensures
        value is Some <==> (lookup_name(text@) is Some && header_fields(*fields).contains_key(
            lookup_name(text@)->Some_0,
        )),
        value matches Some(v) ==> header_value_bytes(*v) == header_fields(
            *fields,
        )[lookup_name(text@)->Some_0][0],
        value matches Some(v) ==> header_value_sensitive(*v) == header_marks(
            *fields,
        )[lookup_name(text@)->Some_0][0],
{
    fields.get(text)
}

/// `HeaderMap::try_insert` puts one value under a name, in place of all values
/// that were there, and hands back the first of those. When the map cannot grow
/// it fails and changes no field. That depends on how the map has hashed its
/// names, and happens to no map of at most [`ALWAYS_ROOM`] names.
#[verifier::external_body]
pub(crate) fn put_value(
    fields: &mut HeaderMap<HeaderValue>,
    name: &HeaderName,
    value: &HeaderValue,
) -> (previous: Result<Option<HeaderValue>, MaxSizeReached>)
    ensures
        previous is Ok ==> header_fields(*final(fields)) == header_fields(*old(fields)).insert(
            header_name_text(*name),
            seq![header_value_bytes(*value)],
        ),
        previous is Ok ==> header_marks(*final(fields)) == header_marks(*old(fields)).insert(
            header_name_text(*name),
            seq![header_value_sensitive(*value)],
        ),
        previous is Err ==> header_fields(*final(fields)) == header_fields(*old(fields)),
        previous is Err ==> header_marks(*final(fields)) == header_marks(*old(fields)),
        previous is Err ==> header_fields(*old(fields)).dom().len() > ALWAYS_ROOM,
        previous matches Ok(first) ==> (first is Some <==> header_fields(
            *old(fields),
        ).contains_key(header_name_text(*name))),
        previous matches Ok(Some(v)) ==> header_value_bytes(v) == header_fields(
            *old(fields),
        )[header_name_text(*name)][0],
        previous matches Ok(Some(v)) ==> header_value_sensitive(v) == header_marks(
            *old(fields),
        )[header_name_text(*name)][0],
{
    fields.try_insert(name, value.clone())
}

/// Reads a header name, in whatever case it is written.
pub fn parse_header_name(text: &str) -> (name: Result<HeaderName, InvalidHeaderName>)
    ensures
        name is Ok <==> header_name_of(text@) is Some,
        name matches Ok(n) ==> header_name_of(text@) == Some(header_name_text(n)),
{
    HeaderName::from_bytes(text.as_bytes())
}

/// The case in which a header name is spelled does not matter.
pub proof fn spelling_ignores_case(a: Seq<u8>, b: Seq<u8>)
    requires
        a.map_values(|c: u8| lowercase(c)) == b.map_values(|c: u8| lowercase(c)),
    ensures
        spelled_name(a) == spelled_name(b),
{
    let la = a.map_values(|c: u8| lowercase(c));
    let lb = b.map_values(|c: u8| lowercase(c));
    assert(la.len() == lb.len());
    assert forall|i: int| 0 <= i < a.len() implies is_token_byte(#[trigger] a[i])
        == is_token_byte(b[i]) by {
        assert(la[i] == lb[i]);
    }
    assert forall|i: int| 0 <= i < b.len() implies is_token_byte(#[trigger] b[i])
        == is_token_byte(a[i]) by {
        assert(is_token_byte(a[i]) == is_token_byte(b[i]));
    }
}

/// A header name spells itself.
pub proof fn name_spells_itself(text: Seq<char>, name: Seq<char>)
    requires
        header_name_of(text) == Some(name),
    ensures
        header_name_of(name) == Some(name),
{
    let bytes = vstd::utf8::encode_utf8(text);
    reveal_strlit("!#$%&'*+-.^_`|~");
    assert forall|i: int| 0 <= i < name.len() implies (#[trigger] name[i] as u32) < 128 by {
        assert(is_token_byte(bytes[i]));
    }
    vstd::utf8::is_ascii_chars_encode_utf8(name);
    let again = vstd::utf8::encode_utf8(name);
    assert forall|i: int| 0 <= i < again.len() implies is_token_byte(#[trigger] again[i])
        && lowercase(again[i]) == name[i] by {
        assert(is_token_byte(bytes[i]));
        assert(name[i] == lowercase(bytes[i]));
    }
    assert(again.map_values(|b: u8| lowercase(b)) =~= name);
}

/// A text spells a header name exactly when it has between one and 65535 characters, each
/// of them a letter or a digit of ASCII or one of ``!#$%&'*+-.^_`|~``.
pub proof fn names_are_made_of_token_characters(text: Seq<char>)
    ensures
        header_name_of(text) is Some <==> 1 <= text.len() <= 65535 && forall|i: int|
            0 <= i < text.len() ==> {
                let c = #[trigger] text[i];
                ||| 'a' <= c <= 'z'
                ||| 'A' <= c <= 'Z'
                ||| '0' <= c <= '9'
                ||| "!#$%&'*+-.^_`|~"@.contains(c)
            },
{
    let bytes = vstd::utf8::encode_utf8(text);
    reveal_strlit("!#$%&'*+-.^_`|~");
    if header_name_of(text) is Some {
        name_bytes_are_characters(text);
        assert forall|i: int| 0 <= i < text.len() implies ({
            let c = #[trigger] text[i];
            ||| 'a' <= c <= 'z'
            ||| 'A' <= c <= 'Z'
            ||| '0' <= c <= '9'
            ||| "!#$%&'*+-.^_`|~"@.contains(c)
        }) by {
            assert(is_token_byte(bytes[i]));
            assert(bytes[i] as char == text[i]);
        }
    }
    if 1 <= text.len() <= 65535 && forall|i: int|
        0 <= i < text.len() ==> {
            let c = #[trigger] text[i];
            ||| 'a' <= c <= 'z'
            ||| 'A' <= c <= 'Z'
            ||| '0' <= c <= '9'
            ||| "!#$%&'*+-.^_`|~"@.contains(c)
        } {
        assert forall|i: int| 0 <= i < text.len() implies (#[trigger] text[i] as u32) < 128 by {}
        vstd::utf8::is_ascii_chars_encode_utf8(text);
        assert forall|i: int| 0 <= i < bytes.len() implies is_token_byte(#[trigger] bytes[i]) by {
            let c = text[i];
            assert(bytes[i] == c as u8);
        }
    }
}

/// A header name has the characters of the text that spells it, with the upper case letters
/// turned to lower case, and the text is looked up under it.
pub proof fn name_keeps_all_but_case(text: Seq<char>, name: Seq<char>)
    requires
        header_name_of(text) == Some(name),
    ensures
        lookup_name(text) == Some(name),
        name.len() == text.len(),
        forall|i: int|
            0 <= i < text.len() ==> #[trigger] name[i] == if 'A' <= text[i] <= 'Z' {
                (text[i] as u32 + 32) as char
            } else {
                text[i]
            },
{
    let bytes = vstd::utf8::encode_utf8(text);
    name_bytes_are_characters(text);
    assert(lookup_name(text) == Some(name)) by {
        if lookup_name(text) is Some {
            assert(lookup_name(text)->Some_0 =~= name);
        }
    }
    assert forall|i: int| 0 <= i < text.len() implies #[trigger] name[i] == if 'A' <= text[i]
        <= 'Z' {
        (text[i] as u32 + 32) as char
    } else {
        text[i]
    } by {
        assert(name[i] == lowercase(bytes[i]));
        assert(bytes[i] as int == text[i] as int);
        assert(bytes[i] as char == text[i]);
    }
}

/// The bytes of a text that spells a header name are its characters.
proof fn name_bytes_are_characters(text: Seq<char>)
    requires
        header_name_of(text) is Some,
    ensures
        vstd::utf8::encode_utf8(text).len() == text.len(),
        forall|i: int|
            0 <= i < text.len() ==> (#[trigger] vstd::utf8::encode_utf8(text)[i]) as int
                == text[i] as int && text[i] as int <= 127,
{
    let bytes = vstd::utf8::encode_utf8(text);
    let chars = bytes.map_values(|b: u8| b as char);
    reveal_strlit("!#$%&'*+-.^_`|~");
    assert forall|i: int| 0 <= i < chars.len() implies (#[trigger] chars[i] as u32) < 128 by {
        assert(is_token_byte(bytes[i]));
    }
    vstd::utf8::is_ascii_chars_encode_utf8(chars);
    assert(vstd::utf8::encode_utf8(chars) =~= bytes);
    vstd::utf8::encode_utf8_decode_utf8(chars);
    vstd::utf8::encode_utf8_decode_utf8(text);
    assert(chars == text);
    assert forall|i: int| 0 <= i < text.len() implies (#[trigger] bytes[i]) as int == text[i] as int
        && text[i] as int <= 127 by {
        assert(chars[i] as u32 <= 127);
    }
}

/// A text of up to 64 bytes that spells no header name is looked up under none. A longer one,
/// of up to 65535 bytes, is looked up under a name of as many characters, in which a zero
/// stands for each byte that no header name holds.
pub proof fn long_texts_are_looked_up(text: Seq<char>)
    ensures
        ({
            let bytes = vstd::utf8::encode_utf8(text);
            &&& bytes.len() <= 64 || bytes.len() > 65535 ==> lookup_name(text) == header_name_of(
                text,
            )
            &&& 64 < bytes.len() <= 65535 ==> {
                &&& lookup_name(text) is Some
                &&& lookup_name(text)->Some_0.len() == bytes.len()
                &&& forall|i: int|
                    0 <= i < bytes.len() ==> #[trigger] lookup_name(text)->Some_0[i]
                        == if 65 <= bytes[i] <= 90 {
                        (bytes[i] + 32) as char
                    } else if 97 <= bytes[i] <= 122 || 48 <= bytes[i] <= 57
                        || "!#$%&'*+-.^_`|~"@.contains(bytes[i] as char) {
                        bytes[i] as char
                    } else {
                        0 as char
                    }
            }
        }),
{
}

/// The texts of a list of header names keep their number and their order.
pub proof fn name_texts_keep_order(names: Seq<HeaderName>)
    ensures
        name_texts(names).len() == names.len(),
        forall|i: int|
            0 <= i < names.len() ==> #[trigger] name_texts(names)[i] == header_name_text(names[i]),
{
}

} // verus!
