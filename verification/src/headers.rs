//! The header fields of requests and responses.
use axum::http::{HeaderMap, HeaderValue};
use vstd::prelude::*;
use vstd::string::*;
use crate::text::{same, starts_with};

verus! {

/// The multimap of header fields of the crate `http`, as `axum` hands it out.
#[verifier::external_type_specification]
#[verifier::external_body]
#[verifier::reject_recursive_types(T)]
pub struct ExHeaderMap<T>(axum::http::HeaderMap<T>);

/// The value of a header field of the crate `http`.
#[verifier::external_type_specification]
#[verifier::external_body]
pub struct ExHeaderValue(axum::http::HeaderValue);

/// What a header map holds: names and values, in the order in which
/// `HeaderMap::iter` visits them.
pub uninterp spec fn header_fields(headers: axum::http::HeaderMap) -> Seq<(Seq<char>, Seq<u8>)>;

/// A list of header fields as plain sequences.
pub open spec fn fields_of(v: Seq<(String, Vec<u8>)>) -> Seq<(Seq<char>, Seq<u8>)> {
    v.map_values(|f: (String, Vec<u8>)| (f.0@, f.1@))
}

/// The value of the first field with this name.
pub open spec fn first_value(fields: Seq<(Seq<char>, Seq<u8>)>, name: Seq<char>) -> Option<Seq<u8>>
    decreases fields.len(),
{
    if fields.len() == 0 {
        None
    } else if fields[0].0 == name {
        Some(fields[0].1)
    } else {
        first_value(fields.skip(1), name)
    }
}

/// Whether a text is a header name in lower case: letters and hyphens, at most
/// sixty-four of them.
pub open spec fn plain_name(name: Seq<char>) -> bool {
    &&& 0 < name.len() <= 64
    &&& forall|i: int| 0 <= i < name.len() ==> 'a' <= #[trigger] name[i] <= 'z' || name[i] == '-'
}

/// Whether a byte is a visible ASCII character, a space or a tab.
pub open spec fn is_visible(b: u8) -> bool {
    32 <= b < 127 || b == 9
}

/// Whether a header value can be read as text.
pub open spec fn readable(value: Seq<u8>) -> bool {
    forall|i: int| 0 <= i < value.len() ==> is_visible(#[trigger] value[i])
}

/// A header value read as text.
pub open spec fn text_of(value: Seq<u8>) -> Seq<char> {
    Seq::new(value.len(), |i: int| value[i] as char)
}

/// The first value under a name, where it can be read as text.
pub open spec fn first_text(fields: Seq<(Seq<char>, Seq<u8>)>, name: Seq<char>) -> Option<
    Seq<char>,
> {
    match first_value(fields, name) {
        Some(value) => if readable(value) {
            Some(text_of(value))
        } else {
            None
        },
        None => None,
    }
}

/// An optional byte string as a plain sequence.
pub open spec fn bytes_view(v: Option<Vec<u8>>) -> Option<Seq<u8>> {
    match v {
        Some(bytes) => Some(bytes@),
        None => None,
    }
}

/// An optional string as a plain sequence.
pub open spec fn text_view(v: Option<String>) -> Option<Seq<char>> {
    match v {
        Some(s) => Some(s@),
        None => None,
    }
}

/// `http::HeaderMap::get`, and the bytes of what it finds: the value of the
/// first field with this name. The map keeps names in lower case, so the
/// contract speaks of names in lower case only.
#[verifier::external_body]
pub(crate) fn header_value(headers: &HeaderMap, name: &str) -> (r: Option<Vec<u8>>)
    requires
        plain_name(name@),
    ensures
        bytes_view(r) == first_value(header_fields(*headers), name@),
{
    headers.get(name).map(|value| value.as_bytes().to_vec())
}

/// `http::HeaderMap::iter`: all fields, each with its name and the bytes of its
/// value.
#[verifier::external_body]
fn header_list(headers: &HeaderMap) -> (r: Vec<(String, Vec<u8>)>)
    ensures
        fields_of(r@) == header_fields(*headers),
{
    headers.iter().map(|(n, v)| (n.as_str().to_string(), v.as_bytes().to_vec())).collect()
}

/// `http::HeaderValue::to_str`: the text of a value that holds visible ASCII
/// characters, spaces and tabs only. Of another value it gives none.
#[verifier::external_body]
fn value_text(value: &Vec<u8>) -> (r: Option<String>)
    ensures
        r is Some <==> readable(value@),
        r matches Some(s) ==> s@ == text_of(value@),
{
    HeaderValue::from_bytes(value).ok().and_then(|v| v.to_str().ok().map(|s| s.to_string()))
}

/// The first value under a name, where it can be read as text.
pub fn header_text(headers: &HeaderMap, name: &str) -> (r: Option<String>)
    requires
        plain_name(name@),
    ensures
        text_view(r) == first_text(header_fields(*headers), name@),
{
    match header_value(headers, name) {
        Some(value) => value_text(&value),
        None => None,
    }
}

/// Whether a field describes the content or begins with one of the prefixes.
pub open spec fn passes(name: Seq<char>, prefixes: Seq<Seq<char>>) -> bool {
    ||| name == "content-type"@
    ||| exists|k: int| 0 <= k < prefixes.len() && (#[trigger] prefixes[k]).is_prefix_of(name)
}

/// The fields that pass, in order.
pub open spec fn passing(
    fields: Seq<(Seq<char>, Seq<u8>)>,
    prefixes: Seq<Seq<char>>,
) -> Seq<(Seq<char>, Seq<u8>)> {
    fields.filter(|f: (Seq<char>, Seq<u8>)| passes(f.0, prefixes))
}

/// Appends the fields that pass to a list.
pub fn append_passing(
    list: &mut Vec<(String, Vec<u8>)>,
    headers: &HeaderMap,
    prefixes: &Vec<&str>,
)
    ensures
        fields_of(final(list)@) == fields_of(old(list)@) + passing(
            header_fields(*headers),
            prefixes@.map_values(|p: &str| p@),
        ),
{
    let all = header_list(headers);
    let ghost fields = header_fields(*headers);
    let ghost wanted = prefixes@.map_values(|p: &str| p@);
    let ghost before = fields_of(list@);
    let mut i: usize = 0;
    proof {
        reveal(Seq::filter);
        assert(fields_of(list@) == before + passing(fields.take(0), wanted));
    }
    while i < all.len()
        invariant
            i <= all.len(),
            fields == fields_of(all@),
            wanted == prefixes@.map_values(|p: &str| p@),
            fields_of(list@) == before + passing(fields.take(i as int), wanted),
        decreases all.len() - i,
    {
        let name = all[i].0.as_str();
        let mut keep = same(name, "content-type");
        let mut k: usize = 0;
        while k < prefixes.len()
            invariant
                k <= prefixes.len(),
                wanted == prefixes@.map_values(|p: &str| p@),
                keep == (name@ == "content-type"@ || exists|j: int|
                    0 <= j < k && (#[trigger] wanted[j]).is_prefix_of(name@)),
            decreases prefixes.len() - k,
        {
            assert(wanted[k as int] == prefixes@[k as int]@);
            if starts_with(name, prefixes[k]) {
                keep = true;
            }
            k = k + 1;
        }
        proof {
            reveal(Seq::filter);
            assert(fields.take(i + 1).drop_last() == fields.take(i as int));
            assert(fields.take(i + 1).last() == fields[i as int]);
            assert(keep == passes(fields[i as int].0, wanted));
        }
        if keep {
            let field = (all[i].0.clone(), clone_bytes(&all[i].1));
            proof {
                assert(fields_of(list@.push(field)) == fields_of(list@).push(fields[i as int]));
                assert(fields_of(list@).push(fields[i as int]) == before + passing(
                    fields.take(i as int),
                    wanted,
                ).push(fields[i as int]));
            }
            list.push(field);
        }
        i = i + 1;
    }
    assert(fields.take(i as int) == fields);
}

/// A copy of a byte string.
pub(crate) fn clone_bytes(bytes: &Vec<u8>) -> (r: Vec<u8>)
    ensures
        r@ == bytes@,
{
    let r = bytes.clone();
    assert(r@ == bytes@);
    r
}

} // verus!
