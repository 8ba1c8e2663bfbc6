//! What the library has from other crates, and from the standard library where
//! no specification of it is at hand. Nothing here is proved; each contract says
//! what is relied on.

use crate::memory::embedding;
use crate::memory::embedding::{EmbeddingVector, VectorModel};
use crate::message::frame;
use crate::node::payload;
use crate::node::payload::{Field, Payload, PayloadModel};
use crate::text::model;
use vstd::prelude::*;

verus! {

/// A lower-case hexadecimal digit.
pub open spec fn is_hex_digit(c: char) -> bool {
    '0' <= c <= '9' || 'a' <= c <= 'f'
}

/// The usual notation of a random UUID: groups of 8, 4, 4, 4 and 12 lower-case
/// hexadecimal digits, the third group beginning with the version, `4`.
pub open spec fn is_uuid_text(s: Seq<char>) -> bool {
    &&& s.len() == 36
    &&& forall|i: int|
        0 <= i < 36 ==> if i == 8 || i == 13 || i == 18 || i == 23 {
            #[trigger] s[i] == '-'
        } else {
            is_hex_digit(s[i])
        }
    &&& s[14] == '4'
}

/// `uuid::Uuid::new_v4`, written with `to_string`: a random UUID. Two calls give
/// different identifiers but for an immeasurable chance, which is why nothing is
/// said of that.
#[verifier::external_body]
pub(crate) fn fresh_id() -> (r: String)
    ensures
        is_uuid_text(r@),
{
    uuid::Uuid::new_v4().to_string()
}

/// `chrono::Utc::now`, written with `to_rfc3339`: the present moment in the
/// notation of RFC 3339. It is the clock's to say which moment that is.
#[verifier::external_body]
pub(crate) fn timestamp() -> (r: String) {
    chrono::Utc::now().to_rfc3339()
}

/// `String::from_utf8`: the text that the bytes encode, if they are valid UTF-8.
#[verifier::external_body]
pub(crate) fn text_of_bytes(bytes: &Vec<u8>) -> (r: Option<String>)
    ensures
        match r {
            Some(s) => vstd::utf8::valid_utf8(bytes@) && s@ == vstd::utf8::decode_utf8(bytes@),
            None => !vstd::utf8::valid_utf8(bytes@),
        },
{
    String::from_utf8(bytes.clone()).ok()
}

/// The texts that a list of optional strings holds.
pub open spec fn opt_texts(v: Seq<Option<String>>) -> Seq<Option<Seq<char>>> {
    v.map_values(|o: Option<String>| model::opt_text(o))
}

/// The JSON object with some named fields.
pub uninterp spec fn json_of(p: PayloadModel) -> Seq<char>;

/// `serde_json::Value::to_string` of an object: named fields in JSON notation. What
/// is packed is read with `rmp_serde::from_read`, as null where that fails.
#[verifier::external_body]
pub(crate) fn json_object(p: &Payload) -> (r: String)
    ensures
        r@ == json_of(p@),
{
    let value = |f: &Field| match f {
        Field::Null => serde_json::Value::Null,
        Field::Flag(b) => serde_json::Value::Bool(*b),
        Field::Number(n) => serde_json::Value::from(*n),
        Field::Text(s) => serde_json::Value::String(s.clone()),
        Field::Packed(b) => rmp_serde::from_read(&b[..]).unwrap_or_default(),
    };
    let map = p.fields.iter().map(|f| (f.0.clone(), value(&f.1))).collect();
    serde_json::Value::Object(map).to_string()
}

/// The truth value under a name in a JSON object, if the text is such an object
/// and has such a field.
pub uninterp spec fn json_flag_of(text: Seq<char>, name: Seq<char>) -> Option<bool>;

/// `serde_json::from_str` to a `serde_json::Value`, `get` and `as_bool`: the
/// truth value under a name in a JSON object.
#[verifier::external_body]
pub(crate) fn json_flag(text: &str, name: &str) -> (r: Option<bool>)
    ensures
        r == json_flag_of(text@, name@),
{
    serde_json::from_str::<serde_json::Value>(text).ok()?.get(name)?.as_bool()
}

/// A JSON value in its shortest notation, if the text is one.
pub uninterp spec fn json_value_of(text: Seq<char>) -> Option<Seq<char>>;

/// `serde_json::from_str` to a `serde_json::Value`, written with `to_string`: the
/// value in its shortest notation, if the text is one.
#[verifier::external_body]
pub(crate) fn json_value(text: &str) -> (r: Option<String>)
    ensures
        model::opt_text(r) == json_value_of(text@),
{
    serde_json::from_str::<serde_json::Value>(text).ok().map(|v| v.to_string())
}

/// The texts under two names in each element of a JSON array, if the text is such
/// an array.
pub uninterp spec fn json_pairs_of(
    text: Seq<char>,
    first: Seq<char>,
    second: Seq<char>,
) -> Option<Seq<(Option<Seq<char>>, Option<Seq<char>>)>>;

/// The texts that a list of pairs of optional strings holds.
pub open spec fn opt_pairs(v: Option<Vec<(Option<String>, Option<String>)>>) -> Option<
    Seq<(Option<Seq<char>>, Option<Seq<char>>)>,
> {
    match v {
        Some(l) => Some(
            l@.map_values(
                |p: (Option<String>, Option<String>)| (model::opt_text(p.0), model::opt_text(p.1)),
            ),
        ),
        None => None,
    }
}

/// `serde_json::from_str` to a list of `serde_json::Value`, with `get` and
/// `as_str` for each of two names: the two texts of each element of a JSON array.
#[verifier::external_body]
pub(crate) fn json_pairs(text: &str, first: &str, second: &str) -> (r: Option<
    Vec<(Option<String>, Option<String>)>,
>)
    ensures
        opt_pairs(r) == json_pairs_of(text@, first@, second@),
{
    let items = serde_json::from_str::<Vec<serde_json::Value>>(text).ok()?;
    let text_of = |v: &serde_json::Value, name: &str| v.get(name).and_then(|f| f.as_str()).map(String::from);
    Some(items.iter().map(|v| (text_of(v, first), text_of(v, second))).collect())
}

/// The named fields of a value in MessagePack, if the bytes are one; none where
/// the value is no map.
pub uninterp spec fn unpacked(bytes: Seq<u8>) -> Option<PayloadModel>;

/// `rmp_serde::from_read` to a `serde_json::Value`, with `as_object`: the named
/// fields of a value in MessagePack. Arrays, maps and numbers that are no `u64`
/// are packed again, each on its own, with `rmp_serde::to_vec`.
#[verifier::external_body]
pub(crate) fn unpack(bytes: &Vec<u8>) -> (r: Option<Payload>)
    ensures
        payload::opt_payload(r) == unpacked(bytes@),
{
    let field = |v: &serde_json::Value| match v {
        serde_json::Value::Null => Field::Null,
        serde_json::Value::Bool(b) => Field::Flag(*b),
        serde_json::Value::String(s) => Field::Text(s.clone()),
        other => match other.as_u64() {
            Some(n) => Field::Number(n),
            None => Field::Packed(rmp_serde::to_vec(other).unwrap_or_default()),
        },
    };
    let value = rmp_serde::from_read::<_, serde_json::Value>(&bytes[..]).ok()?;
    let fields = value.as_object().into_iter().flatten().map(|f| (f.0.clone(), field(f.1)));
    Some(Payload { fields: fields.collect() })
}

/// The elements of the array under a name in a value in MessagePack, each packed
/// on its own, if there is such an array.
pub uninterp spec fn unpacked_items(bytes: Seq<u8>, name: Seq<char>) -> Option<Seq<Seq<u8>>>;

/// The lists of bytes in an optional list.
pub open spec fn opt_items(o: Option<Vec<Vec<u8>>>) -> Option<Seq<Seq<u8>>> {
    match o {
        Some(v) => Some(frame::frame_bytes(v@)),
        None => None,
    }
}

/// `rmp_serde::from_read` to a `serde_json::Value`, with `get` and `as_array`, and
/// `rmp_serde::to_vec` of each element: the elements of the array under a name.
#[verifier::external_body]
pub(crate) fn unpack_items(bytes: &Vec<u8>, name: &str) -> (r: Option<Vec<Vec<u8>>>)
    ensures
        opt_items(r) == unpacked_items(bytes@, name@),
{
    let value = rmp_serde::from_read::<_, serde_json::Value>(&bytes[..]).ok()?;
    value.get(name)?.as_array()?.iter().map(|v| rmp_serde::to_vec(v).ok()).collect()
}

/// The elements of the array under a name in a value in MessagePack, each where it
/// is a text, if there is such an array.
pub uninterp spec fn unpacked_texts(bytes: Seq<u8>, name: Seq<char>) -> Option<
    Seq<Option<Seq<char>>>,
>;

/// The texts in an optional list of optional strings.
pub open spec fn opt_text_list(o: Option<Vec<Option<String>>>) -> Option<Seq<Option<Seq<char>>>> {
    match o {
        Some(v) => Some(opt_texts(v@)),
        None => None,
    }
}

/// `rmp_serde::from_read` to a `serde_json::Value`, with `get`, `as_array` and
/// `as_str`: the texts in the array under a name.
#[verifier::external_body]
pub(crate) fn unpack_texts(bytes: &Vec<u8>, name: &str) -> (r: Option<Vec<Option<String>>>)
    ensures
        opt_text_list(r) == unpacked_texts(bytes@, name@),
{
    let value = rmp_serde::from_read::<_, serde_json::Value>(&bytes[..]).ok()?;
    let texts = value.get(name)?.as_array()?.iter().map(|v| v.as_str().map(String::from));
    Some(texts.collect())
}

/// Named fields in MessagePack.
pub uninterp spec fn packed(p: PayloadModel) -> Seq<u8>;

/// `rmp_serde::to_vec` of a `serde_json::Value` that is a map: named fields in
/// MessagePack. What is packed on its own is read with `rmp_serde::from_read`, as
/// null where that fails; there are no bytes where all of it is nested more deeply
/// than `rmp_serde` writes. Where there is nothing such, the names differ and
/// neither a text nor the number of fields is beyond 32 bits, each field is read
/// back from the bytes as it was written.
#[verifier::external_body]
pub(crate) fn pack(p: &Payload) -> (r: Vec<u8>)
    ensures
        r@ == packed(p@),
        payload::is_packable(p@) ==> payload::reads_back(p@, unpacked(r@)),
{
    let value = |f: &Field| match f {
        Field::Null => serde_json::Value::Null,
        Field::Flag(b) => serde_json::Value::Bool(*b),
        Field::Number(n) => serde_json::Value::from(*n),
        Field::Text(s) => serde_json::Value::String(s.clone()),
        Field::Packed(b) => rmp_serde::from_read(&b[..]).unwrap_or_default(),
    };
    let map = p.fields.iter().map(|f| (f.0.clone(), value(&f.1))).collect();
    rmp_serde::to_vec(&serde_json::Value::Object(map)).unwrap_or_default()
}

/// Texts in MessagePack.
pub uninterp spec fn packed_texts(texts: Seq<Seq<char>>) -> Seq<u8>;

/// `rmp_serde::to_vec` of a list of strings: the texts as an array in MessagePack.
#[verifier::external_body]
pub(crate) fn pack_texts(texts: &Vec<String>) -> (r: Vec<u8>)
    ensures
        r@ == packed_texts(model::texts(texts@)),
{
    rmp_serde::to_vec(texts).unwrap_or_default()
}

/// Values that are packed on their own, as an array in MessagePack.
pub uninterp spec fn packed_list(items: Seq<Seq<u8>>) -> Seq<u8>;

/// `rmp_serde::from_read` of each value and `rmp_serde::to_vec` of them all: the values
/// as an array in MessagePack, with null where one cannot be read, and no bytes where
/// the array is nested more deeply than `rmp_serde` writes.
#[verifier::external_body]
pub(crate) fn pack_list(items: &Vec<Vec<u8>>) -> (r: Vec<u8>)
    ensures
        r@ == packed_list(frame::frame_bytes(items@)),
{
    let read = |b: &Vec<u8>| rmp_serde::from_read(&b[..]).unwrap_or_default();
    let values: Vec<serde_json::Value> = items.iter().map(read).collect();
    rmp_serde::to_vec(&values).unwrap_or_default()
}

/// A value in JSON notation, in MessagePack.
pub uninterp spec fn packed_json(text: Seq<char>) -> Seq<u8>;

/// `serde_json::from_str` to a `serde_json::Value` and `rmp_serde::to_vec`: a value in
/// JSON notation, in MessagePack; null where the text cannot be read.
#[verifier::external_body]
pub(crate) fn pack_json(text: &str) -> (r: Vec<u8>)
    ensures
        r@ == packed_json(text@),
{
    let value: serde_json::Value = serde_json::from_str(text).unwrap_or_default();
    rmp_serde::to_vec(&value).unwrap_or_default()
}

/// The vectors, with their dimension, that bytes in the notation of bincode hold.
pub uninterp spec fn index_in(bytes: Seq<u8>) -> Option<(Seq<VectorModel>, u64)>;

/// What an optional list of vectors with their dimension holds.
pub open spec fn opt_vectors(o: Option<(Vec<EmbeddingVector>, u64)>) -> Option<
    (Seq<VectorModel>, u64),
> {
    match o {
        Some((v, d)) => Some((embedding::vector_models(v@), d)),
        None => None,
    }
}

/// `bincode::deserialize`: the vectors, with their dimension, that bytes hold.
/// bincode writes a single-precision number as it writes its bit pattern, and the
/// fields of a structure one after another, as it writes those of a tuple.
#[verifier::external_body]
pub(crate) fn read_index(bytes: &Vec<u8>) -> (r: Option<(Vec<EmbeddingVector>, u64)>)
    ensures
        opt_vectors(r) == index_in(bytes@),
{
    let vector = |v: (Vec<u32>, String, String, u64)| EmbeddingVector {
        data: v.0,
        entry_id: v.1,
        text_preview: v.2,
        created_at: v.3,
    };
    let (kept, dimension): (Vec<_>, u64) = bincode::deserialize(bytes).ok()?;
    Some((kept.into_iter().map(vector).collect(), dimension))
}

/// Vectors, with their dimension, in the notation of bincode.
pub uninterp spec fn index_bytes(vectors: Seq<VectorModel>, dimension: u64) -> Seq<u8>;

/// `bincode::serialize`: vectors, with their dimension, in the notation of bincode.
/// They are read back as they were written.
#[verifier::external_body]
pub(crate) fn write_index(vectors: &Vec<EmbeddingVector>, dimension: u64) -> (r: Vec<u8>)
    ensures
        r@ == index_bytes(embedding::vector_models(vectors@), dimension),
        index_in(r@) == Some((embedding::vector_models(vectors@), dimension)),
{
    let fields = |v: &EmbeddingVector| {
        (v.data.clone(), v.entry_id.clone(), v.text_preview.clone(), v.created_at)
    };
    let kept: Vec<(Vec<u32>, String, String, u64)> = vectors.iter().map(fields).collect();
    bincode::serialize(&(kept, dimension)).unwrap_or_default()
}

/// Texts with numbers, in order.
pub open spec fn number_pairs(v: Seq<(String, u64)>) -> Seq<(Seq<char>, u64)> {
    v.map_values(|p: (String, u64)| (p.0@, p.1))
}

/// The numbers under the first `n` of some texts; the last one counts where a text
/// is there more than once.
pub open spec fn numbers_under(v: Seq<(Seq<char>, u64)>, n: nat) -> Map<Seq<char>, u64>
    decreases n,
{
    if n == 0 {
        Map::empty()
    } else {
        numbers_under(v, (n - 1) as nat).insert(v[n - 1].0, v[n - 1].1)
    }
}

/// The numbers under texts that bytes in the notation of bincode hold.
pub uninterp spec fn numbers_in(bytes: Seq<u8>) -> Option<Map<Seq<char>, u64>>;

/// `bincode::deserialize` to a map: the numbers under texts that bytes hold.
#[verifier::external_body]
pub(crate) fn read_numbers(bytes: &Vec<u8>) -> (r: Option<Vec<(String, u64)>>)
    ensures
        match r {
            Some(v) => numbers_in(bytes@) == Some(
                numbers_under(number_pairs(v@), v@.len()),
            ),
            None => numbers_in(bytes@) is None,
        },
{
    let map: std::collections::BTreeMap<String, u64> = bincode::deserialize(bytes).ok()?;
    Some(map.into_iter().collect())
}

/// Numbers under texts in the notation of bincode.
pub uninterp spec fn number_bytes(v: Seq<(Seq<char>, u64)>) -> Seq<u8>;

/// `bincode::serialize`: numbers under texts in the notation of bincode, which
/// writes a map as it writes a list of pairs. They are read back as they were
/// written.
#[verifier::external_body]
pub(crate) fn write_numbers(pairs: &Vec<(String, u64)>) -> (r: Vec<u8>)
    ensures
        r@ == number_bytes(number_pairs(pairs@)),
        numbers_in(r@) == Some(numbers_under(number_pairs(pairs@), pairs@.len())),
{
    bincode::serialize(pairs).unwrap_or_default()
}

/// The text in lower case.
pub uninterp spec fn lower(s: Seq<char>) -> Seq<char>;

/// `str::to_lowercase`: the text in lower case, by the properties that Unicode
/// gives to its characters.
#[verifier::external_body]
pub(crate) fn to_lowercase(s: &str) -> (r: String)
    ensures
        r@ == lower(s@),
{
    s.to_lowercase()
}

/// Whether a character is an upper-case one.
pub uninterp spec fn is_upper(c: char) -> bool;

/// `char::is_uppercase`: whether the character has Unicode's property
/// `Uppercase`.
#[verifier::external_body]
pub(crate) fn is_uppercase(c: char) -> (r: bool)
    ensures
        r == is_upper(c),
{
    c.is_uppercase()
}

/// A character in upper case, which can be more than one character.
pub uninterp spec fn upper(c: char) -> Seq<char>;

/// `char::to_uppercase`: the character in upper case, by the properties that
/// Unicode gives to it.
#[verifier::external_body]
pub(crate) fn to_uppercase(c: char) -> (r: String)
    ensures
        r@ == upper(c),
{
    c.to_uppercase().to_string()
}

/// The BLAKE3 hash of a text, in hexadecimal notation.
pub uninterp spec fn hash_hex_of(text: Seq<char>) -> Seq<char>;

/// `blake3::hash` of the text's bytes, written with `to_hex`: 64 lower-case
/// hexadecimal digits.
#[verifier::external_body]
pub(crate) fn hash_hex(text: &str) -> (r: String)
    ensures
        r@ == hash_hex_of(text@),
        r@.len() == 64,
        forall|i: int| 0 <= i < 64 ==> is_hex_digit(#[trigger] r@[i]),
{
    blake3::hash(text.as_bytes()).to_hex().to_string()
}

} // verus!
