use crate::plist_tree::{PlistTree, PlistValue};
use vstd::prelude::*;

verus! {

/// `plist::Value`: a decoded value of any kind. What it holds is
/// [`value_tree`].
#[verifier::external_type_specification]
#[verifier::external_body]
pub struct ExValue(plist::Value);

/// `plist::Dictionary`: a decoded dictionary, keyed by strings. What it
/// holds is [`dictionary_entries`].
#[verifier::external_type_specification]
#[verifier::external_body]
pub struct ExDictionary(plist::Dictionary);

/// `plist::Error`: why a byte stream did not decode.
#[verifier::external_type_specification]
#[verifier::external_body]
pub struct ExError(plist::Error);

/// The tree that a decoded value holds.
pub uninterp spec fn value_tree(v: plist::Value) -> PlistTree;

/// The entries that a decoded dictionary holds, in the order it keeps them.
pub uninterp spec fn dictionary_entries(d: plist::Dictionary) -> Seq<(Seq<char>, PlistTree)>;

/// What `plist::from_reader` makes of a byte stream: the tree of the value it
/// returns, or `None` where it reports an error.
pub uninterp spec fn decoded_plist(bytes: Seq<u8>) -> Option<PlistTree>;

/// `plist::Value::as_boolean` returns the flag of a `Boolean` value and `None`
/// for every other variant.
pub assume_specification[ plist::Value::as_boolean ](v: &plist::Value) -> (r: Option<bool>)
    ensures
        r == (match value_tree(*v) {
            PlistTree::Boolean(b) => Some(b),
            _ => None,
        }),
;

/// `plist::Value::as_string` returns the text of a `String` value and `None`
/// for every other variant.
pub assume_specification[ plist::Value::as_string ](v: &plist::Value) -> (r: Option<&str>)
    ensures
        match r {
            Some(s) => value_tree(*v) == PlistTree::String(s@),
            None => !(value_tree(*v) is String),
        },
;

/// `plist::Value::as_array` returns the items of an `Array` value and `None`
/// for every other variant.
pub assume_specification[ plist::Value::as_array ](v: &plist::Value) -> (r: Option<
    &Vec<plist::Value>,
>)
    ensures
        match r {
            Some(items) => value_tree(*v) == PlistTree::Array(
                Seq::new(items@.len(), |i: int| value_tree(items@[i])),
            ),
            None => !(value_tree(*v) is Array),
        },
;

/// `plist::Value::as_dictionary` returns the dictionary of a `Dictionary`
/// value and `None` for every other variant.
pub assume_specification[ plist::Value::as_dictionary ](v: &plist::Value) -> (r: Option<
    &plist::Dictionary,
>)
    ensures
        match r {
            Some(d) => value_tree(*v) == PlistTree::Dictionary(dictionary_entries(*d)),
            None => !(value_tree(*v) is Dictionary),
        },
;

/// `plist::Dictionary::iter` walks the entries in the order the dictionary
/// keeps them; the wrapper collects the borrowed pairs.
#[verifier::external_body]
fn dictionary_pairs(d: &plist::Dictionary) -> (r: Vec<(&String, &plist::Value)>)
    ensures
        r@.len() == dictionary_entries(*d).len(),
        forall|i: int|
            0 <= i < r@.len() ==> (r@[i].0@, value_tree(*r@[i].1)) == #[trigger] dictionary_entries(
                *d,
            )[i],
{
    d.iter().collect()
}

/// `plist::from_reader` decodes a property list of any encoding from a
/// seekable stream; here the stream is a cursor over the bytes.
#[verifier::external_body]
fn read_plist(bytes: &[u8]) -> (r: Result<plist::Value, plist::Error>)
    ensures
        match r {
            Ok(v) => decoded_plist(bytes@) == Some(value_tree(v)),
            Err(_) => decoded_plist(bytes@) is None,
        },
{
    plist::from_reader(std::io::Cursor::new(bytes))
}

/// Copies a decoded value into a [`PlistValue`].
pub fn tree_from(v: &plist::Value) -> (t: PlistValue)
    ensures
        t@ == value_tree(*v),
    decreases value_tree(*v),
{
    if let Some(b) = v.as_boolean() {
        PlistValue::Boolean(b)
    } else if let Some(s) = v.as_string() {
        PlistValue::String(s.to_owned())
    } else if let Some(items) = v.as_array() {
        let mut out: Vec<PlistValue> = Vec::new();
        let ghost trees = Seq::new(items@.len(), |i: int| value_tree(items@[i]));
        for k in 0..items.len()
            invariant
                value_tree(*v) == PlistTree::Array(trees),
                trees == Seq::new(items@.len(), |i: int| value_tree(items@[i])),
                out@.len() == k,
                forall|i: int| 0 <= i < k ==> (#[trigger] out@[i])@ == trees[i],
        {
            proof {
                assert(trees[k as int] == value_tree(items@[k as int]));
                assert(value_tree(*v)->Array_0 == trees);
            }
            let item = tree_from(&items[k]);
            out.push(item);
        }
        let t = PlistValue::Array(out);
        proof {
            assert(t@->Array_0 =~= trees);
        }
        t
    } else if let Some(d) = v.as_dictionary() {
        let pairs = dictionary_pairs(d);
        let mut out: Vec<(String, PlistValue)> = Vec::new();
        let ghost entries = dictionary_entries(*d);
        for k in 0..pairs.len()
            invariant
                value_tree(*v) == PlistTree::Dictionary(entries),
                entries == dictionary_entries(*d),
                pairs@.len() == entries.len(),
                forall|i: int|
                    0 <= i < pairs@.len() ==> (pairs@[i].0@, value_tree(*pairs@[i].1))
                        == #[trigger] entries[i],
                out@.len() == k,
                forall|i: int|
                    0 <= i < k ==> ((#[trigger] out@[i]).0@, out@[i].1@) == entries[i],
        {
            proof {
                assert(entries[k as int].1 == value_tree(*pairs@[k as int].1));
                assert(value_tree(*v)->Dictionary_0 == entries);
            }
            let key = pairs[k].0.clone();
            let item = tree_from(pairs[k].1);
            out.push((key, item));
        }
        let t = PlistValue::Dictionary(out);
        proof {
            assert(t@->Dictionary_0 =~= entries);
        }
        t
    } else {
        PlistValue::Other
    }
}

/// Decodes a property list of any encoding. The error is the decoder's own
/// description of what it could not read.
pub fn decode_plist(bytes: &[u8]) -> (r: Result<PlistValue, String>)
    ensures
        match r {
            Ok(t) => decoded_plist(bytes@) == Some(t@),
            Err(_) => decoded_plist(bytes@) is None,
        },
{
    match read_plist(bytes) {
        Ok(v) => Ok(tree_from(&v)),
        Err(e) => Err(e.to_string()),
    }
}

} // verus!
