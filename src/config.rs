//! Reading a timetable (or another key/value list) out of the bundled JSON
//! configuration document.

use vstd::prelude::*;

verus! {

/// A key and its value. In a timetable the key is a time of day, `HH:MM`,
/// and the value the label of the activity that starts then.
pub struct Entry {
    pub key: String,
    pub value: String,
}

impl View for Entry {
    type V = (Seq<char>, Seq<char>);

    open spec fn view(&self) -> (Seq<char>, Seq<char>) {
        (self.key@, self.value@)
    }
}

#[verifier::external_type_specification]
#[verifier::external_body]
pub struct ExJsonValue(serde_json::Value);

/// Relies on `serde_json::from_str` into a `serde_json::Value`, with the
/// parser's error rendered as text.
#[verifier::external_body]
fn parse_json(text: &str) -> (r: Result<serde_json::Value, String>) {
    serde_json::from_str::<serde_json::Value>(text).map_err(|e| e.to_string())
}

/// Relies on `serde_json::Value::get` with a key: the member of an object.
#[verifier::external_body]
fn json_member<'a>(v: &'a serde_json::Value, key: &str) -> (r: Option<&'a serde_json::Value>) {
    v.get(key)
}

/// Relies on `serde_json::Value::as_array`: the items of an array.
#[verifier::external_body]
fn json_items(v: &serde_json::Value) -> (r: Option<&Vec<serde_json::Value>>) {
    v.as_array()
}

/// Relies on `serde_json::Value::as_str`: the text of a string value.
#[verifier::external_body]
fn json_text(v: &serde_json::Value) -> (r: Option<&str>) {
    v.as_str()
}

/// A key/value list as a mathematical value.
pub type PairsView = Seq<(Seq<char>, Seq<char>)>;

pub open spec fn entries_view(v: Seq<Entry>) -> PairsView {
    v.map_values(|e: Entry| e@)
}

/// No key occurs twice.
pub open spec fn keys_unique(s: PairsView) -> bool {
    forall|i: int, j: int| 0 <= i < s.len() && 0 <= j < s.len() && i != j ==> s[i].0 != s[j].0
}

/// `s` with `key` bound to `value`: the binding replaces the one of the same
/// key, in its place, or is added at the end.
pub open spec fn bound(s: PairsView, key: Seq<char>, value: Seq<char>) -> PairsView {
    if exists|i: int| 0 <= i < s.len() && s[i].0 == key {
        s.update(choose|i: int| 0 <= i < s.len() && s[i].0 == key, (key, value))
    } else {
        s.push((key, value))
    }
}

/// The list that a sequence of candidate pairs gives: each pair whose key
/// and value are both present is bound in turn, so a later pair replaces an
/// earlier one of the same key.
pub open spec fn collected(pairs: Seq<(Option<Seq<char>>, Option<Seq<char>>)>) -> PairsView
    decreases pairs.len(),
{
    if pairs.len() == 0 {
        Seq::empty()
    } else {
        let rest = collected(pairs.drop_last());
        let last = pairs.last();
        match (last.0, last.1) {
            (Some(k), Some(v)) => bound(rest, k, v),
            _ => rest,
        }
    }
}

pub open spec fn pair_view(p: (Option<String>, Option<String>)) -> (
    Option<Seq<char>>,
    Option<Seq<char>>,
) {
    (
        match p.0 {
            Some(k) => Some(k@),
            None => None,
        },
        match p.1 {
            Some(v) => Some(v@),
            None => None,
        },
    )
}

pub open spec fn pairs_view(p: Seq<(Option<String>, Option<String>)>) -> Seq<
    (Option<Seq<char>>, Option<Seq<char>>),
> {
    p.map_values(|x: (Option<String>, Option<String>)| pair_view(x))
}

/// Binds `key` to `value` in `entries`.
pub fn bind(entries: &mut Vec<Entry>, key: String, value: String)
    requires
        keys_unique(entries_view(old(entries)@)),
    ensures
        entries_view(final(entries)@) == bound(entries_view(old(entries)@), key@, value@),
        keys_unique(entries_view(final(entries)@)),
{
    let ghost s = entries_view(entries@);
    let mut i: usize = 0;
    while i < entries.len()
        invariant
            0 <= i <= entries.len(),
            s == entries_view(entries@),
            s == entries_view(old(entries)@),
            keys_unique(s),
            forall|j: int| 0 <= j < i ==> s[j].0 != key@,
        decreases entries.len() - i,
    {
        assert(s[i as int] == entries@[i as int]@);
        if entries[i].key == key {
            proof {
                assert(exists|j: int| 0 <= j < s.len() && s[j].0 == key@);
                let c = choose|j: int| 0 <= j < s.len() && s[j].0 == key@;
                assert(c == i);
                assert(bound(s, key@, value@) == s.update(i as int, (key@, value@)));
            }
            let e = Entry { key, value };
            entries.set(i, e);
            proof {
                assert(entries_view(entries@) =~= s.update(i as int, (key@, value@)));
                assert forall|a: int, b: int|
                    0 <= a < entries_view(entries@).len() && 0 <= b < entries_view(
                        entries@,
                    ).len() && a != b implies entries_view(entries@)[a].0 != entries_view(
                    entries@,
                )[b].0 by {
                    let t = entries_view(entries@);
                    assert(t == s.update(i as int, (key@, value@)));
                }
            }
            return;
        }
        i = i + 1;
    }
    entries.push(Entry { key, value });
    proof {
        assert(entries_view(entries@) =~= s.push((key@, value@)));
    }
}

/// The list made of the candidate pairs whose key and value are both
/// present, a later pair replacing an earlier one of the same key.
pub fn collect_entries(pairs: &Vec<(Option<String>, Option<String>)>) -> (r: Vec<Entry>)
    ensures
        entries_view(r@) == collected(pairs_view(pairs@)),
        keys_unique(entries_view(r@)),
{
    let mut entries: Vec<Entry> = Vec::new();
    let mut i: usize = 0;
    while i < pairs.len()
        invariant
            0 <= i <= pairs.len(),
            entries_view(entries@) == collected(pairs_view(pairs@).take(i as int)),
            keys_unique(entries_view(entries@)),
        decreases pairs.len() - i,
    {
        let ghost before = pairs_view(pairs@).take(i as int);
        proof {
            assert(pairs_view(pairs@).take(i + 1).drop_last() =~= before);
        }
        match (&pairs[i].0, &pairs[i].1) {
            (Some(k), Some(v)) => {
                bind(&mut entries, k.clone(), v.clone());
            },
            _ => {},
        }
        i = i + 1;
    }
    assert(pairs_view(pairs@).take(i as int) =~= pairs_view(pairs@));
    entries
}

/// The key/value list named `object_list` in the JSON `document`: an array
/// of objects with a text `key` and a text `value`. Items that lack either
/// are passed over; a later item replaces an earlier one with the same key;
/// a missing list gives an empty one. Fails with the parser's message where
/// the document is not JSON.
pub fn load_config(document: &str, object_list: &str) -> (r: Result<Vec<Entry>, String>)
    ensures
        r matches Ok(v) ==> keys_unique(entries_view(v@)),
{
    let config = match parse_json(document) {
        Ok(v) => v,
        Err(e) => {
            return Err(e);
        },
    };
    let mut pairs: Vec<(Option<String>, Option<String>)> = Vec::new();
    if let Some(list) = json_member(&config, object_list) {
        if let Some(items) = json_items(list) {
            let mut i: usize = 0;
            while i < items.len()
                decreases items.len() - i,
            {
                let item = &items[i];
                let key = match json_member(item, "key") {
                    Some(k) => match json_text(k) {
                        Some(t) => Some(String::from_str(t)),
                        None => None,
                    },
                    None => None,
                };
                let value = match json_member(item, "value") {
                    Some(k) => match json_text(k) {
                        Some(t) => Some(String::from_str(t)),
                        None => None,
                    },
                    None => None,
                };
                pairs.push((key, value));
                i = i + 1;
            }
        }
    }
    Ok(collect_entries(&pairs))
}

} // verus!
