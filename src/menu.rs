//! The selector menu of the launchers: the keys offered, one per line in
//! ascending order, and the value that the selector's answer picks.

use crate::config::{entries_view, PairsView};
use crate::config::Entry;
use vstd::prelude::*;
use vstd::utf8::encode_utf8;

verus! {

/// `a` comes before `b` in the lexicographic order of byte sequences.
pub open spec fn bytes_below(a: Seq<u8>, b: Seq<u8>) -> bool {
    exists|i: int|
        0 <= i <= a.len() && i <= b.len() && a.take(i) == b.take(i) && ((i == a.len() && i
            < b.len()) || (i < a.len() && i < b.len() && a[i] < b[i]))
}

/// `a` comes before `b` in `String`'s order: that of their UTF-8 bytes.
pub open spec fn text_below(a: Seq<char>, b: Seq<char>) -> bool {
    bytes_below(encode_utf8(a), encode_utf8(b))
}

/// No text comes before one that precedes it.
pub open spec fn texts_sorted(s: Seq<Seq<char>>) -> bool {
    forall|i: int, j: int| 0 <= i < j < s.len() ==> !text_below(#[trigger] s[j], #[trigger] s[i])
}

pub open spec fn texts_view(v: Seq<String>) -> Seq<Seq<char>> {
    v.map_values(|t: String| t@)
}

/// The keys of a list, in the list's order.
pub open spec fn keys_of(s: PairsView) -> Seq<Seq<char>> {
    s.map_values(|p: (Seq<char>, Seq<char>)| p.0)
}

/// The texts, each followed by a newline but the last.
pub open spec fn joined_lines(s: Seq<Seq<char>>) -> Seq<char>
    decreases s.len(),
{
    if s.len() == 0 {
        Seq::empty()
    } else if s.len() == 1 {
        s[0]
    } else {
        joined_lines(s.drop_last()) + seq!['\n'] + s.last()
    }
}

/// What `str::trim_end` leaves of a text.
pub uninterp spec fn trimmed_end(s: Seq<char>) -> Seq<char>;

/// Relies on `slice::sort` on `String`s, whose order compares their UTF-8
/// bytes lexicographically: the same texts, in ascending order.
#[verifier::external_body]
fn sort_texts(v: &mut Vec<String>)
    ensures
        texts_view(final(v)@).to_multiset() == texts_view(old(v)@).to_multiset(),
        texts_sorted(texts_view(final(v)@)),
{
    v.sort();
}

/// Relies on `str::trim_end`: a leading part of the text, with its trailing
/// whitespace removed.
#[verifier::external_body]
fn trim_end_text(s: &str) -> (r: &str)
    ensures
        r@ == trimmed_end(s@),
        r@.len() <= s@.len(),
        r@ == s@.take(r@.len() as int),
{
    s.trim_end()
}

/// The keys of `entries` in ascending order.
pub fn sorted_keys(entries: &Vec<Entry>) -> (r: Vec<String>)
    ensures
        texts_view(r@).to_multiset() == keys_of(entries_view(entries@)).to_multiset(),
        texts_sorted(texts_view(r@)),
{
    let mut keys: Vec<String> = Vec::new();
    let mut i: usize = 0;
    while i < entries.len()
        invariant
            0 <= i <= entries.len(),
            keys@.len() == i,
            texts_view(keys@) =~= keys_of(entries_view(entries@)).take(i as int),
        decreases entries.len() - i,
    {
        let ghost prev = keys@;
        keys.push(entries[i].key.clone());
        i = i + 1;
        assert forall|k: int| 0 <= k < i implies texts_view(keys@)[k] == keys_of(
            entries_view(entries@),
        )[k] by {
            if k < i - 1 {
                assert(keys@[k] == prev[k]);
                assert(texts_view(prev)[k] == keys_of(entries_view(entries@)).take(i - 1)[k]);
            }
        }
        assert(texts_view(keys@) =~= keys_of(entries_view(entries@)).take(i as int));
    }
    assert(keys_of(entries_view(entries@)).take(i as int) =~= keys_of(entries_view(entries@)));
    sort_texts(&mut keys);
    keys
}

/// The selector's input: the texts, one per line.
pub fn menu_text(keys: &Vec<String>) -> (r: String)
    ensures
        r@ == joined_lines(texts_view(keys@)),
{
    let mut text = String::new();
    let mut i: usize = 0;
    while i < keys.len()
        invariant
            0 <= i <= keys.len(),
            text@ == joined_lines(texts_view(keys@).take(i as int)),
        decreases keys.len() - i,
    {
        proof {
            reveal_strlit("\n");
            assert(texts_view(keys@).take(i + 1).drop_last() =~= texts_view(keys@).take(i as int));
        }
        if i > 0 {
            text.append("\n");
        }
        text.append(keys[i].as_str());
        i = i + 1;
        proof {
            if i == 1 {
                assert(text@ =~= joined_lines(texts_view(keys@).take(i as int)));
            } else {
                assert(text@ =~= joined_lines(texts_view(keys@).take(i as int)));
            }
        }
    }
    assert(texts_view(keys@).take(i as int) =~= texts_view(keys@));
    text
}

/// The value of the first entry whose key is `key`, if any.
pub fn lookup(entries: &Vec<Entry>, key: &str) -> (r: Option<String>)
    ensures
        match r {
            Some(v) => exists|i: int|
                0 <= i < entries@.len() && entries@[i].key@ == key@ && v@ == entries@[i].value@
                    && forall|j: int| 0 <= j < i ==> entries@[j].key@ != key@,
            None => forall|j: int| 0 <= j < entries@.len() ==> entries@[j].key@ != key@,
        },
{
    let wanted = String::from_str(key);
    let mut i: usize = 0;
    while i < entries.len()
        invariant
            0 <= i <= entries.len(),
            wanted@ == key@,
            forall|j: int| 0 <= j < i ==> entries@[j].key@ != key@,
        decreases entries.len() - i,
    {
        if entries[i].key == wanted {
            return Some(entries[i].value.clone());
        }
        i = i + 1;
    }
    None
}

/// Why the selector's answer picks nothing.
#[derive(Debug, Clone, Copy, PartialEq, Eq)]
pub enum PickError {
    /// The answer is not one of the keys offered.
    UnknownKey,
}

/// The value that the selector's `answer` picks: nothing for an empty answer;
/// else the value of the key that the answer names once its trailing
/// whitespace is trimmed, or `PickError::UnknownKey` where no key matches.
pub fn pick(entries: &Vec<Entry>, answer: &str) -> (r: Result<Option<String>, PickError>)
    ensures
        answer@.len() == 0 ==> r matches Ok(None),
        answer@.len() != 0 ==> match r {
            Ok(Some(v)) => exists|i: int|
                0 <= i < entries@.len() && entries@[i].key@ == trimmed_end(answer@) && v@
                    == entries@[i].value@,
            Ok(None) => false,
            Err(e) => e == PickError::UnknownKey && forall|j: int|
                0 <= j < entries@.len() ==> entries@[j].key@ != trimmed_end(answer@),
        },
{
    if answer.is_empty() {
        return Ok(None);
    }
    let key = trim_end_text(answer);
    match lookup(entries, key) {
        Some(v) => Ok(Some(v)),
        None => Err(PickError::UnknownKey),
    }
}

} // verus!
