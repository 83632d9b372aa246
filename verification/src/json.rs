//! JSON, as `serde_json` reads and writes it.
use crate::fields;
use vstd::prelude::*;

verus! {

/// The error type of `serde_json`; nothing is known of its values.
#[verifier::external_type_specification]
#[verifier::external_body]
pub struct ExJsonError(serde_json::Error);

/// The bytes that `serde_json::to_vec` writes for an object of these texts, numbers and
/// flags, a later entry in place of an earlier one of its name.
pub uninterp spec fn json_object(
    texts: Seq<(Seq<char>, Seq<char>)>,
    numbers: Seq<(Seq<char>, u64)>,
    flags: Seq<(Seq<char>, bool)>,
) -> Seq<u8>;

/// What `serde_json::from_slice` reads as an object of texts, if the bytes are one.
pub uninterp spec fn json_texts(bytes: Seq<u8>) -> Option<Map<Seq<char>, Seq<char>>>;

/// What `serde_json::from_str` reads as a list, if the text is one: of each item the flag
/// and the text of two names, where it has them. Otherwise what its error says.
pub uninterp spec fn json_list(
    text: Seq<char>,
    flag: Seq<char>,
    name: Seq<char>,
) -> Result<Seq<(Option<bool>, Option<Seq<char>>)>, Seq<char>>;

/// Pairs of texts.
pub open spec fn text_pairs(v: Seq<(String, String)>) -> Seq<(Seq<char>, Seq<char>)> {
    Seq::new(v.len(), |i: int| (v[i].0@, v[i].1@))
}

/// Names with numbers.
pub open spec fn number_pairs(v: Seq<(String, u64)>) -> Seq<(Seq<char>, u64)> {
    Seq::new(v.len(), |i: int| (v[i].0@, v[i].1))
}

/// Names with flags.
pub open spec fn flag_pairs(v: Seq<(String, bool)>) -> Seq<(Seq<char>, bool)> {
    Seq::new(v.len(), |i: int| (v[i].0@, v[i].1))
}

/// Entries of a list.
pub open spec fn entry_views(v: Seq<(Option<bool>, Option<String>)>) -> Seq<
    (Option<bool>, Option<Seq<char>>),
> {
    Seq::new(
        v.len(),
        |i: int|
            (
                v[i].0,
                match v[i].1 {
                    Some(s) => Some(s@),
                    None => None,
                },
            ),
    )
}

/// `serde_json::to_vec` on a `serde_json::Map`: the object in its compact form. It fails only
/// for keys that are no texts and for values that refuse to be written, and there are none of
/// either here. Line feeds are escaped, so there is none in it. An object of texts alone is
/// read back by `serde_json::from_slice` as these texts.
#[verifier::external_body]
pub(crate) fn write_object(
    texts: &Vec<(String, String)>,
    numbers: &Vec<(String, u64)>,
    flags: &Vec<(String, bool)>,
) -> (r: Result<Vec<u8>, serde_json::Error>)
    ensures
        r is Ok,
        r->Ok_0@ == json_object(
            text_pairs(texts@),
            number_pairs(numbers@),
            flag_pairs(flags@),
        ),
        forall|i: int| 0 <= i < r->Ok_0@.len() ==> #[trigger] r->Ok_0@[i] != 10,
        numbers@.len() == 0 && flags@.len() == 0 ==> json_texts(r->Ok_0@) == Some(
            fields::map_of(texts@),
        ),
{
    let texts = texts.iter().map(|(k, v)| (k.clone(), serde_json::Value::from(v.as_str())));
    let numbers = numbers.iter().map(|(k, v)| (k.clone(), serde_json::Value::from(*v)));
    let flags = flags.iter().map(|(k, v)| (k.clone(), serde_json::Value::from(*v)));
    let map: serde_json::Map<String, serde_json::Value> = texts.chain(numbers).chain(flags).collect();
    serde_json::to_vec(&map)
}

/// `serde_json::from_slice` into a map of texts: the texts of an object, or an error for
/// anything else.
#[verifier::external_body]
pub(crate) fn read_texts(bytes: &[u8]) -> (r: Result<Vec<(String, String)>, serde_json::Error>)
    ensures
        match r {
            Ok(pairs) => json_texts(bytes@) == Some(fields::map_of(pairs@)),
            Err(_) => json_texts(bytes@) is None,
        },
{
    let map: std::collections::BTreeMap<String, String> = serde_json::from_slice(bytes)?;
    Ok(map.into_iter().collect())
}

/// `serde_json::from_str` into a list of values: of each the flag and the text of two
/// names, where it has them as a boolean and as a string, or an error where the text is no
/// list, which is taken by what it says.
#[verifier::external_body]
pub(crate) fn read_list(text: &str, flag: &str, name: &str) -> (r: Result<
    Vec<(Option<bool>, Option<String>)>,
    String,
>)
    ensures
        match json_list(text@, flag@, name@) {
            Ok(entries) => r is Ok && entry_views(r->Ok_0@) == entries,
            Err(e) => r is Err && r->Err_0@ == e,
        },
{
    let list: Vec<serde_json::Value> = serde_json::from_str(text).map_err(|e| e.to_string())?;
    let entries = list.iter().map(|v| (v[flag].as_bool(), v[name].as_str().map(str::to_owned)));
    Ok(entries.collect())
}

} // verus!
