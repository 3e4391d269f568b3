//! Request headers that are forwarded.

use crate::headers;
use crate::ohttp::security::OHttpSecurityLayer;
use crate::text;
use http::header::{HeaderName, HeaderValue, InvalidHeaderName, MaxSizeReached};
use http::HeaderMap;
use vstd::prelude::*;
use vstd::string::*;

verus! {

broadcast use vstd::string::group_string_axioms;

/// A configured header name that is none.
#[derive(Debug)]
pub struct InvalidForwardHeader {
    pub entry: String,
    pub cause: InvalidHeaderName,
}

impl InvalidForwardHeader {
    /// The message of the error.
    pub fn message(&self) -> (message: String)
        ensures
            message@ == "Invalid forward_headers entry: "@ + self.entry@,
    {
        let mut message = String::from_str("Invalid forward_headers entry: ");
        message.append(self.entry.as_str());
        message
    }
}

/// The text that `String::from_utf8_lossy` makes of bytes that are not UTF-8, with
/// replacement characters for what it cannot decode.
pub uninterp spec fn repaired_text(bytes: Seq<u8>) -> Seq<char>;

/// The text of some bytes: decoded from UTF-8, or repaired where they are not that.
pub open spec fn lossy_text(bytes: Seq<u8>) -> Seq<char> {
    if vstd::utf8::valid_utf8(bytes) {
        vstd::utf8::decode_utf8(bytes)
    } else {
        repaired_text(bytes)
    }
}

/// `String::from_utf8_lossy` decodes UTF-8. Of other bytes it makes a text that
/// depends on them alone.
#[verifier::external_body]
fn decode_lossy(bytes: &[u8]) -> (decoded: String)
    ensures
        vstd::utf8::valid_utf8(bytes@) ==> decoded@ == vstd::utf8::decode_utf8(bytes@),
        !vstd::utf8::valid_utf8(bytes@) ==> decoded@ == repaired_text(bytes@),
{
    String::from_utf8_lossy(bytes).into_owned()
}

/// Some entry of the list spells this header name.
pub open spec fn is_spelled_in(name: Seq<char>, entries: Seq<String>) -> bool {
    exists|i: int| 0 <= i < entries.len() && headers::header_name_of(#[trigger] entries[i]@) == Some(
        name,
    )
}

/// The names that the entries spell, each once, in order.
pub open spec fn are_names_of(names: Seq<Seq<char>>, entries: Seq<String>) -> bool {
    &&& text::strictly_ordered(names)
    &&& forall|t: Seq<char>| #[trigger] names.contains(t) <==> is_spelled_in(t, entries)
}

/// Entry `i` is the first that spells no header name.
pub open spec fn is_first_invalid(entries: Seq<String>, i: int) -> bool {
    &&& 0 <= i < entries.len()
    &&& headers::header_name_of(entries[i]@) is None
    &&& forall|j: int| 0 <= j < i ==> headers::header_name_of(#[trigger] entries[j]@) is Some
}

/// The texts of a list of pairs.
pub open spec fn pair_texts(pairs: Seq<(String, String)>) -> Seq<(Seq<char>, Seq<char>)> {
    pairs.map_values(|p: (String, String)| (p.0@, p.1@))
}

/// Those of the names that are present among the fields.
pub open spec fn present(
    fields: Map<Seq<char>, Seq<Seq<u8>>>,
    names: Seq<Seq<char>>,
) -> Seq<Seq<char>> {
    names.filter(|n: Seq<char>| fields.contains_key(n))
}

/// The fields that are forwarded: of each of the names that is present, the first
/// value.
pub open spec fn forwarded_fields(
    fields: Map<Seq<char>, Seq<Seq<u8>>>,
    names: Seq<Seq<char>>,
) -> Map<Seq<char>, Seq<Seq<u8>>> {
    Map::new(
        |n: Seq<char>| names.contains(n) && fields.contains_key(n),
        |n: Seq<char>| seq![fields[n][0]],
    )
}

/// The marks that are forwarded: of each of the names that is present, whether its
/// first value is marked as sensitive.
pub open spec fn forwarded_marks(
    fields: Map<Seq<char>, Seq<Seq<u8>>>,
    marks: Map<Seq<char>, Seq<bool>>,
    names: Seq<Seq<char>>,
) -> Map<Seq<char>, Seq<bool>> {
    Map::new(
        |n: Seq<char>| names.contains(n) && fields.contains_key(n),
        |n: Seq<char>| seq![marks[n][0]],
    )
}

/// The forwarded headers as they stand in the key of a client: the names that are
/// present, each with the text of its first value.
pub open spec fn key_headers(
    fields: Map<Seq<char>, Seq<Seq<u8>>>,
    names: Seq<Seq<char>>,
) -> Seq<(Seq<char>, Seq<char>)> {
    present(fields, names).map_values(|n: Seq<char>| (n, lossy_text(fields[n][0])))
}

/// Puts a name into an ordered list, unless it is there.
fn insert_name(names: &mut Vec<HeaderName>, name: HeaderName)
    requires
        text::strictly_ordered(headers::name_texts(old(names)@)),
    ensures
        text::strictly_ordered(headers::name_texts(final(names)@)),
        forall|t: Seq<char>| #[trigger]
            headers::name_texts(final(names)@).contains(t) <==> headers::name_texts(
                old(names)@,
            ).contains(t) || t == headers::header_name_text(name),
{
    let ghost before = headers::name_texts(names@);
    let ghost added = headers::header_name_text(name);
    let mut at: usize = 0;
    while at < names.len()
        invariant
            names@ == old(names)@,
            before == headers::name_texts(names@),
            text::strictly_ordered(before),
            added == headers::header_name_text(name),
            at <= names@.len(),
            forall|j: int| 0 <= j < at ==> text::text_before(#[trigger] before[j], added),
        ensures
            names@ == old(names)@,
            at <= names@.len(),
            forall|j: int| 0 <= j < at ==> text::text_before(#[trigger] before[j], added),
            at < names@.len() ==> text::text_before(added, before[at as int]),
        decreases names.len() - at,
    {
        match text::compare_text(names[at].as_str(), name.as_str()) {
            text::Standing::Before => {
                at += 1;
            },
            text::Standing::Same => {
                assert(before[at as int] == added);
                assert(before.contains(added));
                return;
            },
            text::Standing::After => {
                break;
            },
        }
    }
    names.insert(at, name);
    proof {
        let after = headers::name_texts(names@);
        assert(after =~= before.insert(at as int, added));
        assert forall|i: int, j: int| 0 <= i < j < after.len() implies #[trigger] text::text_before(
            after[i],
            after[j],
        ) by {
            let oi = if i < at {
                i
            } else {
                i - 1
            };
            let oj = if j < at {
                j
            } else {
                j - 1
            };
            if i != at && j != at {
                assert(text::text_before(before[oi], before[oj]));
            } else if j == at {
                assert(text::text_before(before[i], added));
            } else {
                assert(text::text_before(added, before[at as int]));
                if j > at + 1 {
                    assert(text::text_before(before[at as int], before[oj]));
                    text::order_is_transitive(
                        vstd::utf8::encode_utf8(added),
                        vstd::utf8::encode_utf8(before[at as int]),
                        vstd::utf8::encode_utf8(before[oj]),
                    );
                }
            }
        }
        assert forall|t: Seq<char>| #[trigger] after.contains(t) <==> before.contains(t) || t
            == added by {
            if after.contains(t) {
                let i = choose|i: int| 0 <= i < after.len() && after[i] == t;
                if i < at {
                    assert(before[i] == t);
                } else if i > at {
                    assert(before[i - 1] == t);
                }
            }
            if before.contains(t) {
                let i = choose|i: int| 0 <= i < before.len() && before[i] == t;
                if i < at {
                    assert(after[i] == t);
                } else {
                    assert(after[i + 1] == t);
                }
            }
            assert(after[at as int] == added);
        }
    }
}

/// Reads the names of the headers to forward. The order of the entries, their case
/// and repetitions do not matter.
pub fn parse_forward_headers(entries: &[String]) -> (names: Result<
    Vec<HeaderName>,
    InvalidForwardHeader,
>)
    ensures
        names is Ok <==> forall|i: int|
            0 <= i < entries@.len() ==> headers::header_name_of(#[trigger] entries@[i]@) is Some,
        names matches Ok(list) ==> are_names_of(headers::name_texts(list@), entries@),
        names matches Err(e) ==> exists|i: int| #[trigger]
            is_first_invalid(entries@, i) && e.entry@ == entries@[i]@,
{
    let mut names: Vec<HeaderName> = Vec::new();
    let mut i: usize = 0;
    while i < entries.len()
        invariant
            i <= entries@.len(),
            forall|j: int|
                0 <= j < i ==> headers::header_name_of(#[trigger] entries@[j]@) is Some,
            are_names_of(headers::name_texts(names@), entries@.take(i as int)),
        decreases entries.len() - i,
    {
        match headers::parse_header_name(entries[i].as_str()) {
            Err(cause) => {
                assert(is_first_invalid(entries@, i as int));
                return Err(InvalidForwardHeader { entry: entries[i].clone(), cause });
            },
            Ok(name) => {
                let ghost before = headers::name_texts(names@);
                let ghost seen = entries@.take(i as int);
                let ghost now = entries@.take(i + 1);
                let ghost added = headers::header_name_text(name);
                insert_name(&mut names, name);
                proof {
                    let after = headers::name_texts(names@);
                    assert forall|t: Seq<char>| #[trigger] after.contains(t) <==> is_spelled_in(
                        t,
                        now,
                    ) by {
                        if is_spelled_in(t, now) {
                            let k = choose|k: int|
                                0 <= k < now.len() && headers::header_name_of(
                                    #[trigger] now[k]@,
                                ) == Some(t);
                            if k < i {
                                assert(seen[k] == now[k]);
                                assert(is_spelled_in(t, seen));
                                assert(before.contains(t));
                            }
                        }
                        if before.contains(t) {
                            assert(is_spelled_in(t, seen));
                            let k = choose|k: int|
                                0 <= k < seen.len() && headers::header_name_of(
                                    #[trigger] seen[k]@,
                                ) == Some(t);
                            assert(now[k] == seen[k]);
                        }
                        assert(now[i as int] == entries@[i as int]);
                    }
                }
            },
        }
        i += 1;
    }
    assert(entries@.take(i as int) =~= entries@);
    Ok(names)
}

impl OHttpSecurityLayer {
    /// Takes the headers to forward from those of a request, and writes them down for
    /// the key of a client. This fails only where the headers that are present are too
    /// many for one map.
    pub fn extract_forward_headers(
        request_headers: &HeaderMap<HeaderValue>,
        header_names: &[HeaderName],
    ) -> (extracted: Result<(HeaderMap<HeaderValue>, Vec<(String, String)>), MaxSizeReached>)
        ensures
            extracted matches Ok((map, _)) ==> headers::header_fields(map) == forwarded_fields(
                headers::header_fields(*request_headers),
                headers::name_texts(header_names@),
            ),
            extracted matches Ok((map, _)) ==> headers::header_marks(map) == forwarded_marks(
                headers::header_fields(*request_headers),
                headers::header_marks(*request_headers),
                headers::name_texts(header_names@),
            ),
            extracted matches Ok((_, pairs)) ==> pair_texts(pairs@) == key_headers(
                headers::header_fields(*request_headers),
                headers::name_texts(header_names@),
            ),
            forwarded_fields(
                headers::header_fields(*request_headers),
                headers::name_texts(header_names@),
            ).dom().len() <= headers::ALWAYS_ROOM ==> extracted is Ok,
    {
        let ghost fields = headers::header_fields(*request_headers);
        let ghost marks = headers::header_marks(*request_headers);
        let ghost names = headers::name_texts(header_names@);
        let mut forward_headers: HeaderMap<HeaderValue> = HeaderMap::new();
        let mut pairs: Vec<(String, String)> = Vec::new();
        assert(headers::header_fields(forward_headers) =~= forwarded_fields(fields, names.take(0)));
        assert(headers::header_marks(forward_headers) =~= forwarded_marks(
            fields,
            marks,
            names.take(0),
        ));
        assert(pair_texts(pairs@) =~= key_headers(fields, names.take(0)));
        let mut i: usize = 0;
        while i < header_names.len()
            invariant
                i <= header_names@.len(),
                fields == headers::header_fields(*request_headers),
                marks == headers::header_marks(*request_headers),
                names == headers::name_texts(header_names@),
                headers::header_fields(forward_headers) == forwarded_fields(
                    fields,
                    names.take(i as int),
                ),
                headers::header_marks(forward_headers) == forwarded_marks(
                    fields,
                    marks,
                    names.take(i as int),
                ),
                pair_texts(pairs@) == key_headers(fields, names.take(i as int)),
            decreases header_names.len() - i,
        {
            let name = &header_names[i];
            let ghost text = names[i as int];
            proof {
                one_name_more(fields, marks, names, i as int);
            }
            match headers::first_value(request_headers, name) {
                Some(value) => {
                    let ghost written = pairs@;
                    match headers::put_value(&mut forward_headers, name, value) {
                        Err(full) => {
                            proof {
                                forwarded_grows(fields, names, i as int);
                            }
                            return Err(full);
                        },
                        Ok(_) => {},
                    }
                    pairs.push((name.as_str().to_owned(), decode_lossy(value.as_bytes())));
                    assert(pair_texts(pairs@) =~= pair_texts(written).push(
                        (text, lossy_text(fields[text][0])),
                    ));
                },
                None => {},
            }
            i += 1;
        }
        assert(names.take(i as int) =~= names);
        Ok((forward_headers, pairs))
    }
}

/// What the next name adds to that which is forwarded.
proof fn one_name_more(
    fields: Map<Seq<char>, Seq<Seq<u8>>>,
    marks: Map<Seq<char>, Seq<bool>>,
    names: Seq<Seq<char>>,
    i: int,
)
    requires
        0 <= i < names.len(),
    ensures
        ({
            let seen = names.take(i);
            let now = names.take(i + 1);
            let name = names[i];
            if fields.contains_key(name) {
                &&& forwarded_fields(fields, now) == forwarded_fields(fields, seen).insert(
                    name,
                    seq![fields[name][0]],
                )
                &&& forwarded_marks(fields, marks, now) == forwarded_marks(
                    fields,
                    marks,
                    seen,
                ).insert(name, seq![marks[name][0]])
                &&& key_headers(fields, now) == key_headers(fields, seen).push(
                    (name, lossy_text(fields[name][0])),
                )
            } else {
                &&& forwarded_fields(fields, now) == forwarded_fields(fields, seen)
                &&& forwarded_marks(fields, marks, now) == forwarded_marks(fields, marks, seen)
                &&& key_headers(fields, now) == key_headers(fields, seen)
            }
        }),
{
    let seen = names.take(i);
    let now = names.take(i + 1);
    let name = names[i];
    assert forall|n: Seq<char>| now.contains(n) <==> seen.contains(n) || n == name by {
        contains_next(names, i, n);
    }
    assert(now.drop_last() =~= seen);
    reveal(Seq::filter);
    if fields.contains_key(name) {
        assert(present(fields, now) == present(fields, seen).push(name));
        assert(forwarded_fields(fields, now) =~= forwarded_fields(fields, seen).insert(
            name,
            seq![fields[name][0]],
        ));
        assert(forwarded_marks(fields, marks, now) =~= forwarded_marks(fields, marks, seen).insert(
            name,
            seq![marks[name][0]],
        ));
        assert(key_headers(fields, now) =~= key_headers(fields, seen).push(
            (name, lossy_text(fields[name][0])),
        ));
    } else {
        assert(present(fields, now) == present(fields, seen));
        assert(forwarded_fields(fields, now) =~= forwarded_fields(fields, seen));
        assert(forwarded_marks(fields, marks, now) =~= forwarded_marks(fields, marks, seen));
    }
}

proof fn contains_next(names: Seq<Seq<char>>, i: int, name: Seq<char>)
    requires
        0 <= i < names.len(),
    ensures
        names.take(i + 1).contains(name) <==> names.take(i).contains(name) || name == names[i],
{
    let seen = names.take(i);
    let now = names.take(i + 1);
    if now.contains(name) {
        let k = choose|k: int| 0 <= k < now.len() && now[k] == name;
        if k < i {
            assert(seen[k] == name);
        }
    }
    if seen.contains(name) {
        let k = choose|k: int| 0 <= k < seen.len() && seen[k] == name;
        assert(now[k] == name);
    }
    assert(now[i] == names[i]);
}

/// No more headers are forwarded than are named.
pub proof fn at_most_named_are_forwarded(
    fields: Map<Seq<char>, Seq<Seq<u8>>>,
    names: Seq<Seq<char>>,
)
    ensures
        forwarded_fields(fields, names).dom().finite(),
        forwarded_fields(fields, names).dom().len() <= names.len(),
{
    let forwarded = forwarded_fields(fields, names).dom();
    vstd::seq_lib::seq_to_set_is_finite(names);
    names.lemma_cardinality_of_set();
    assert forall|n: Seq<char>| forwarded.contains(n) implies names.to_set().contains(n) by {
        assert(names.contains(n));
    }
    vstd::set_lib::lemma_len_subset(forwarded, names.to_set());
}

/// With more names, no fewer headers are forwarded.
proof fn forwarded_grows(fields: Map<Seq<char>, Seq<Seq<u8>>>, names: Seq<Seq<char>>, i: int)
    requires
        0 <= i <= names.len(),
    ensures
        forwarded_fields(fields, names.take(i)).dom().len() <= forwarded_fields(
            fields,
            names,
        ).dom().len(),
{
    let seen = names.take(i);
    let some = forwarded_fields(fields, seen).dom();
    let all = forwarded_fields(fields, names).dom();
    at_most_named_are_forwarded(fields, names);
    assert forall|n: Seq<char>| some.contains(n) implies all.contains(n) by {
        let k = choose|k: int| 0 <= k < seen.len() && seen[k] == n;
        assert(names[k] == n);
    }
    vstd::set_lib::lemma_len_subset(some, all);
}

/// The list of names to forward depends only on which names are spelled: not on
/// the order of the entries, on repetitions, or on the case of letters.
pub proof fn forward_names_are_canonical(
    names: Seq<Seq<char>>,
    entries: Seq<String>,
    other_names: Seq<Seq<char>>,
    other_entries: Seq<String>,
)
    requires
        are_names_of(names, entries),
        are_names_of(other_names, other_entries),
        forall|t: Seq<char>| is_spelled_in(t, entries) <==> is_spelled_in(t, other_entries),
    ensures
        names == other_names,
{
    assert forall|t: Seq<char>| names.contains(t) <==> other_names.contains(t) by {
        assert(is_spelled_in(t, entries) <==> is_spelled_in(t, other_entries));
    }
    text::ordered_lists_agree(names, other_names);
}

/// What is present of an ordered list of names is in order.
proof fn present_is_ordered(fields: Map<Seq<char>, Seq<Seq<u8>>>, names: Seq<Seq<char>>)
    requires
        text::strictly_ordered(names),
    ensures
        text::strictly_ordered(present(fields, names)),
        forall|t: Seq<char>| #[trigger]
            present(fields, names).contains(t) <==> names.contains(t) && fields.contains_key(t),
    decreases names.len(),
{
    let kept = present(fields, names);
    present_holds(fields, names);
    if names.len() > 0 {
        let rest = names.drop_last();
        assert forall|i: int, j: int| 0 <= i < j < rest.len() implies #[trigger] text::text_before(
            rest[i],
            rest[j],
        ) by {
            assert(text::text_before(names[i], names[j]));
        }
        present_is_ordered(fields, rest);
        let kept_rest = present(fields, rest);
        reveal(Seq::filter);
        assert(kept == if fields.contains_key(names.last()) {
            kept_rest.push(names.last())
        } else {
            kept_rest
        });
        assert forall|i: int, j: int| 0 <= i < j < kept.len() implies #[trigger] text::text_before(
            kept[i],
            kept[j],
        ) by {
            if j < kept_rest.len() {
                assert(text::text_before(kept_rest[i], kept_rest[j]));
            } else {
                assert(kept_rest.contains(kept_rest[i]));
                let k = choose|k: int| 0 <= k < rest.len() && rest[k] == kept_rest[i];
                assert(text::text_before(names[k], names[names.len() - 1]));
            }
        }
    } else {
        reveal(Seq::filter);
    }
}

/// The names that are present are those of the list that have a field.
proof fn present_holds(fields: Map<Seq<char>, Seq<Seq<u8>>>, names: Seq<Seq<char>>)
    ensures
        forall|t: Seq<char>| #[trigger]
            present(fields, names).contains(t) <==> names.contains(t) && fields.contains_key(t),
    decreases names.len(),
{
    let kept = present(fields, names);
    reveal(Seq::filter);
    if names.len() > 0 {
        let rest = names.drop_last();
        let kept_rest = present(fields, rest);
        present_holds(fields, rest);
        assert(names =~= rest.push(names.last()));
        assert(kept == if fields.contains_key(names.last()) {
            kept_rest.push(names.last())
        } else {
            kept_rest
        });
        assert forall|t: Seq<char>| #[trigger] kept.contains(t) <==> names.contains(t)
            && fields.contains_key(t) by {
            assert(kept_rest.contains(t) <==> rest.contains(t) && fields.contains_key(t));
            contains_next(names, names.len() - 1, t);
            assert(names.take(names.len() - 1) =~= rest);
            assert(names.take(names.len() as int) =~= names);
            if fields.contains_key(names.last()) {
                contains_next(kept, kept.len() - 1, t);
                assert(kept.take(kept.len() - 1) =~= kept_rest);
                assert(kept.take(kept.len() as int) =~= kept);
            }
        }
    }
}

/// The headers in the key of a client are in the order of their names, and no name
/// occurs twice.
pub proof fn key_headers_are_ordered(
    fields: Map<Seq<char>, Seq<Seq<u8>>>,
    names: Seq<Seq<char>>,
    i: int,
    j: int,
)
    requires
        text::strictly_ordered(names),
        0 <= i < j < key_headers(fields, names).len(),
    ensures
        text::text_before(key_headers(fields, names)[i].0, key_headers(fields, names)[j].0),
{
    present_is_ordered(fields, names);
    assert(text::text_before(present(fields, names)[i], present(fields, names)[j]));
}

/// Requests forward nothing but the named headers, and of those all that are there.
pub proof fn only_named_headers_are_forwarded(
    fields: Map<Seq<char>, Seq<Seq<u8>>>,
    names: Seq<Seq<char>>,
    name: Seq<char>,
)
    ensures
        forwarded_fields(fields, names).contains_key(name) <==> names.contains(name)
            && fields.contains_key(name),
        forwarded_fields(fields, names).contains_key(name) ==> forwarded_fields(fields, names)[name]
            == seq![fields[name][0]],
        key_headers(fields, names).contains((name, lossy_text(fields[name][0]))) <==> names.contains(
            name,
        ) && fields.contains_key(name),
{
    let pair = (name, lossy_text(fields[name][0]));
    present_holds(fields, names);
    let kept = present(fields, names);
    let keys = key_headers(fields, names);
    assert(kept.contains(name) <==> names.contains(name) && fields.contains_key(name));
    if keys.contains(pair) {
        let k = choose|k: int| 0 <= k < keys.len() && keys[k] == pair;
        assert(kept[k] == name);
    }
    if kept.contains(name) {
        let k = choose|k: int| 0 <= k < kept.len() && kept[k] == name;
        assert(keys[k] == pair);
    }
}

/// All forwarded values are text in UTF-8.
pub open spec fn forwards_text(
    fields: Map<Seq<char>, Seq<Seq<u8>>>,
    names: Seq<Seq<char>>,
) -> bool {
    forall|n: Seq<char>| #[trigger]
        names.contains(n) && fields.contains_key(n) ==> vstd::utf8::valid_utf8(fields[n][0])
}

/// Requests that forward the same headers have the same headers in their keys.
pub proof fn same_forwarded_headers_same_key(
    fields: Map<Seq<char>, Seq<Seq<u8>>>,
    other: Map<Seq<char>, Seq<Seq<u8>>>,
    names: Seq<Seq<char>>,
)
    requires
        forwarded_fields(fields, names) == forwarded_fields(other, names),
    ensures
        key_headers(fields, names) == key_headers(other, names),
{
    let f = forwarded_fields(fields, names);
    let g = forwarded_fields(other, names);
    assert forall|n: Seq<char>| #[trigger] names.contains(n) implies fields.contains_key(n)
        == other.contains_key(n) && (fields.contains_key(n) ==> fields[n][0] == other[n][0]) by {
        assert(f.contains_key(n) == g.contains_key(n));
        if fields.contains_key(n) {
            assert(f[n][0] == fields[n][0]);
            assert(g[n][0] == other[n][0]);
        }
    }
    equal_forward_equal_keys(fields, other, names);
}

/// The key of a client depends on all that is forwarded: where the forwarded values
/// are UTF-8, requests that forward different headers have different keys.
pub proof fn key_depends_on_forwarded_headers(
    fields: Map<Seq<char>, Seq<Seq<u8>>>,
    other: Map<Seq<char>, Seq<Seq<u8>>>,
    names: Seq<Seq<char>>,
)
    requires
        forwards_text(fields, names),
        forwards_text(other, names),
        forwarded_fields(fields, names) != forwarded_fields(other, names),
    ensures
        key_headers(fields, names) != key_headers(other, names),
{
    let f = forwarded_fields(fields, names);
    let g = forwarded_fields(other, names);
    if key_headers(fields, names) == key_headers(other, names) {
        equal_keys_forward_equal(fields, other, names);
        equal_keys_forward_equal(other, fields, names);
        assert forall|n: Seq<char>| f.contains_key(n) implies f[n] == g[n] by {
            assert(g.contains_key(n));
            assert(f[n] == seq![fields[n][0]]);
            assert(g[n] == seq![other[n][0]]);
        }
        assert(f =~= g);
    }
}

proof fn equal_keys_forward_equal(
    fields: Map<Seq<char>, Seq<Seq<u8>>>,
    other: Map<Seq<char>, Seq<Seq<u8>>>,
    names: Seq<Seq<char>>,
)
    requires
        forwards_text(fields, names),
        forwards_text(other, names),
        key_headers(fields, names) == key_headers(other, names),
    ensures
        forall|n: Seq<char>| #[trigger]
            names.contains(n) && fields.contains_key(n) ==> other.contains_key(n) && fields[n][0]
                == other[n][0],
{
    let keys = key_headers(fields, names);
    assert forall|n: Seq<char>| #[trigger]
        names.contains(n) && fields.contains_key(n) implies other.contains_key(n) && fields[n][0]
        == other[n][0] by {
        only_named_headers_are_forwarded(fields, names, n);
        let k = choose|k: int|
            0 <= k < keys.len() && keys[k] == (n, lossy_text(fields[n][0]));
        assert(key_headers(other, names)[k] == keys[k]);
        present_holds(other, names);
        assert(present(other, names)[k] == n);
        assert(present(other, names).contains(n));
        vstd::utf8::decode_utf8_encode_utf8(fields[n][0]);
        vstd::utf8::decode_utf8_encode_utf8(other[n][0]);
    }
}

proof fn equal_forward_equal_keys(
    fields: Map<Seq<char>, Seq<Seq<u8>>>,
    other: Map<Seq<char>, Seq<Seq<u8>>>,
    names: Seq<Seq<char>>,
)
    requires
        forall|n: Seq<char>| #[trigger]
            names.contains(n) ==> fields.contains_key(n) == other.contains_key(n) && (
            fields.contains_key(n) ==> fields[n][0] == other[n][0]),
    ensures
        key_headers(fields, names) == key_headers(other, names),
    decreases names.len(),
{
    reveal(Seq::filter);
    if names.len() > 0 {
        let rest = names.drop_last();
        let last = names.last();
        assert(names.contains(last));
        assert forall|n: Seq<char>| #[trigger] rest.contains(n) implies names.contains(n) by {
            let k = choose|k: int| 0 <= k < rest.len() && rest[k] == n;
            assert(names[k] == n);
        }
        equal_forward_equal_keys(fields, other, rest);
        if fields.contains_key(last) {
            let pair = (last, lossy_text(fields[last][0]));
            assert(key_headers(fields, names) =~= key_headers(fields, rest).push(pair));
            assert(key_headers(other, names) =~= key_headers(other, rest).push(pair));
        } else {
            assert(present(fields, names) == present(fields, rest));
            assert(present(other, names) == present(other, rest));
            assert(key_headers(fields, names) =~= key_headers(fields, rest));
            assert(key_headers(other, names) =~= key_headers(other, rest));
        }
    } else {
        assert(key_headers(fields, names) =~= key_headers(other, names));
    }
}

/// Every entry counts: the name that it spells is one of the names to forward.
pub proof fn every_entry_is_forwarded(
    names: Seq<Seq<char>>,
    entries: Seq<String>,
    i: int,
    name: Seq<char>,
)
    requires
        are_names_of(names, entries),
        0 <= i < entries.len(),
        headers::header_name_of(entries[i]@) == Some(name),
    ensures
        names.contains(name),
{
    assert(is_spelled_in(name, entries));
}

/// Nothing else is forwarded: every name to forward is spelled by some entry.
pub proof fn every_name_has_an_entry(names: Seq<Seq<char>>, entries: Seq<String>, k: int)
    requires
        are_names_of(names, entries),
        0 <= k < names.len(),
    ensures
        exists|i: int|
            0 <= i < entries.len() && headers::header_name_of(#[trigger] entries[i]@) == Some(
                names[k],
            ),
{
    assert(names.contains(names[k]));
    assert(is_spelled_in(names[k], entries));
}

/// The names to forward are in the order of their bytes, and none occurs twice.
pub proof fn names_are_in_order(names: Seq<Seq<char>>, entries: Seq<String>, k: int, l: int)
    requires
        are_names_of(names, entries),
        0 <= k < l < names.len(),
    ensures
        names[k] != names[l],
        text::bytes_before(
            vstd::utf8::encode_utf8(names[k]),
            vstd::utf8::encode_utf8(names[l]),
        ),
{
    text::strict_order_has_no_repeats(names, k, l);
}

/// Lists of entries add up: the names of both lists together are those of the one and
/// those of the other.
pub proof fn entries_add_up(
    names: Seq<Seq<char>>,
    entries: Seq<String>,
    more_names: Seq<Seq<char>>,
    more_entries: Seq<String>,
    all_names: Seq<Seq<char>>,
    name: Seq<char>,
)
    requires
        are_names_of(names, entries),
        are_names_of(more_names, more_entries),
        are_names_of(all_names, entries + more_entries),
    ensures
        all_names.contains(name) <==> names.contains(name) || more_names.contains(name),
{
    let all = entries + more_entries;
    if all_names.contains(name) {
        let k = choose|k: int| 0 <= k < all_names.len() && all_names[k] == name;
        every_name_has_an_entry(all_names, all, k);
        let i = choose|i: int|
            0 <= i < all.len() && headers::header_name_of(#[trigger] all[i]@) == Some(name);
        if i < entries.len() {
            every_entry_is_forwarded(names, entries, i, name);
        } else {
            every_entry_is_forwarded(more_names, more_entries, i - entries.len(), name);
        }
    }
    if names.contains(name) {
        let k = choose|k: int| 0 <= k < names.len() && names[k] == name;
        every_name_has_an_entry(names, entries, k);
        let i = choose|i: int|
            0 <= i < entries.len() && headers::header_name_of(#[trigger] entries[i]@) == Some(name);
        assert(all[i] == entries[i]);
        every_entry_is_forwarded(all_names, all, i, name);
    }
    if more_names.contains(name) {
        let k = choose|k: int| 0 <= k < more_names.len() && more_names[k] == name;
        every_name_has_an_entry(more_names, more_entries, k);
        let i = choose|i: int|
            0 <= i < more_entries.len() && headers::header_name_of(
                #[trigger] more_entries[i]@,
            ) == Some(name);
        assert(all[entries.len() + i] == more_entries[i]);
        every_entry_is_forwarded(all_names, all, entries.len() + i, name);
    }
}

/// The entry that is reported spells no header name, all before it do, and there is no
/// other such entry.
pub proof fn reported_entry_is_the_first(entries: Seq<String>, i: int, j: int)
    requires
        is_first_invalid(entries, i),
    ensures
        0 <= i < entries.len(),
        headers::header_name_of(entries[i]@) is None,
        0 <= j < i ==> headers::header_name_of(entries[j]@) is Some,
        is_first_invalid(entries, j) ==> i == j,
{
    if is_first_invalid(entries, j) && i < j {
        assert(headers::header_name_of(entries[i]@) is Some);
    }
    if 0 <= j < i {
        assert(headers::header_name_of(entries[j]@) is Some);
    }
}

/// The text of a value in UTF-8 has the bytes of the value. Any other value is repaired.
pub proof fn text_values_keep_their_bytes(bytes: Seq<u8>)
    ensures
        vstd::utf8::valid_utf8(bytes) ==> vstd::utf8::encode_utf8(lossy_text(bytes)) == bytes,
        !vstd::utf8::valid_utf8(bytes) ==> lossy_text(bytes) == repaired_text(bytes),
{
    if vstd::utf8::valid_utf8(bytes) {
        vstd::utf8::decode_utf8_encode_utf8(bytes);
    }
}

/// The pairs of a list keep their number, their order and both their texts.
pub proof fn pairs_keep_their_texts(pairs: Seq<(String, String)>)
    ensures
        pair_texts(pairs).len() == pairs.len(),
        forall|i: int|
            0 <= i < pairs.len() ==> #[trigger] pair_texts(pairs)[i] == (pairs[i].0@, pairs[i].1@),
{
}

/// The marks that are forwarded are those of the first values under the names that are
/// there, each by itself.
pub proof fn marks_are_forwarded(
    fields: Map<Seq<char>, Seq<Seq<u8>>>,
    marks: Map<Seq<char>, Seq<bool>>,
    names: Seq<Seq<char>>,
    name: Seq<char>,
)
    ensures
        forwarded_marks(fields, marks, names).contains_key(name) <==> names.contains(name)
            && fields.contains_key(name),
        names.contains(name) && fields.contains_key(name) ==> forwarded_marks(
            fields,
            marks,
            names,
        )[name] == seq![marks[name][0]],
{
}

/// What the names of a list contribute to the key of a client follows from each of them by
/// itself, in their order: a name that is there adds itself with the text of its first
/// value, and one that is not adds nothing.
pub proof fn key_headers_name_by_name(
    fields: Map<Seq<char>, Seq<Seq<u8>>>,
    names: Seq<Seq<char>>,
    next: Seq<char>,
)
    ensures
        key_headers(fields, Seq::<Seq<char>>::empty()).len() == 0,
        key_headers(fields, names.push(next)) == if fields.contains_key(next) {
            key_headers(fields, names).push((next, lossy_text(fields[next][0])))
        } else {
            key_headers(fields, names)
        },
{
    let all = names.push(next);
    reveal(Seq::filter);
    one_name_more(fields, Map::<Seq<char>, Seq<bool>>::empty(), all, names.len() as int);
    assert(all.take(names.len() as int) =~= names);
    assert(all.take(names.len() as int + 1) =~= all);
}

} // verus!
