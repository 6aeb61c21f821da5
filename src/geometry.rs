//! The screenshot helper's texts: the monitors that `xrandr --listmonitors`
//! lists, and the crop geometry of the chosen one.

use crate::config::{bind, collected, entries_view, keys_unique};
use crate::menu::texts_view;
use crate::config::Entry;
use vstd::prelude::*;

verus! {

/// The pieces of `s` between occurrences of `sep`, in order: one more piece
/// than there are separators, empty pieces included.
pub open spec fn pieces(s: Seq<char>, sep: char) -> Seq<Seq<char>>
    decreases s.len(),
{
    if s.len() == 0 {
        seq![Seq::empty()]
    } else {
        let p = pieces(s.drop_last(), sep);
        if s.last() == sep {
            p.push(Seq::empty())
        } else {
            p.update(p.len() - 1, p.last().push(s.last()))
        }
    }
}

proof fn lemma_pieces_not_empty(s: Seq<char>, sep: char)
    ensures
        pieces(s, sep).len() >= 1,
    decreases s.len(),
{
    if s.len() > 0 {
        lemma_pieces_not_empty(s.drop_last(), sep);
    }
}

/// The pieces of `s` between occurrences of `sep`.
pub fn split_on(s: &str, sep: char) -> (r: Vec<String>)
    ensures
        texts_view(r@) == pieces(s@, sep),
{
    let n = s.unicode_len();
    let mut done: Vec<String> = Vec::new();
    let mut start: usize = 0;
    let mut i: usize = 0;
    proof {
        assert(s@.take(0) =~= Seq::<char>::empty());
        assert(texts_view(done@).push(s@.subrange(0, 0)) =~= seq![Seq::<char>::empty()]);
    }
    while i < n
        invariant
            n == s@.len(),
            0 <= start <= i <= n,
            texts_view(done@).push(s@.subrange(start as int, i as int)) == pieces(
                s@.take(i as int),
                sep,
            ),
        decreases n - i,
    {
        let c = s.get_char(i);
        proof {
            assert(s@.take(i + 1).drop_last() =~= s@.take(i as int));
            lemma_pieces_not_empty(s@.take(i as int), sep);
        }
        if c == sep {
            let piece = s.substring_char(start, i);
            let ghost before = done@;
            done.push(String::from_str(piece));
            proof {
                assert(texts_view(done@) =~= texts_view(before).push(s@.subrange(start as int, i as int)));
                assert(s@.subrange(i + 1, i + 1) =~= Seq::<char>::empty());
            }
            start = i + 1;
        } else {
            proof {
                assert(s@.subrange(start as int, i + 1) =~= s@.subrange(start as int, i as int).push(c));
                assert(texts_view(done@).push(s@.subrange(start as int, i + 1)) =~= texts_view(
                    done@,
                ).push(s@.subrange(start as int, i as int)).update(
                    texts_view(done@).len() as int,
                    s@.subrange(start as int, i as int).push(c),
                ));
            }
        }
        i = i + 1;
    }
    let last = s.substring_char(start, n);
    done.push(String::from_str(last));
    proof {
        assert(s@.take(n as int) =~= s@);
        assert(texts_view(done@) =~= texts_view(done@).drop_last().push(s@.subrange(start as int, n as int)));
    }
    done
}

/// The crop geometry `WxH+X+Y` of a monitor described as `W/mmwxH/mmh+X+Y`:
/// the width is the first `/`-piece, the height follows the `x` of the second,
/// the offsets are the second and third `+`-pieces of the third. `None` where
/// a piece is missing.
pub open spec fn crop_text(selection: Seq<char>) -> Option<Seq<char>> {
    let parts = pieces(selection, '/');
    if parts.len() < 3 {
        None
    } else {
        let hx = pieces(parts[1], 'x');
        let pos = pieces(parts[2], '+');
        if hx.len() < 2 || pos.len() < 3 {
            None
        } else {
            Some(parts[0] + seq!['x'] + hx[1] + seq!['+'] + pos[1] + seq!['+'] + pos[2])
        }
    }
}

/// The crop geometry of a monitor's description, e.g. `1920x1080+0+0` for
/// `1920/527x1080/296+0+0`.
pub fn crop_geometry(selection: &str) -> (r: Option<String>)
    ensures
        match r {
            Some(t) => crop_text(selection@) == Some(t@),
            None => crop_text(selection@) is None,
        },
{
    let parts = split_on(selection, '/');
    if parts.len() < 3 {
        return None;
    }
    let hx = split_on(parts[1].as_str(), 'x');
    let pos = split_on(parts[2].as_str(), '+');
    if hx.len() < 2 || pos.len() < 3 {
        return None;
    }
    proof {
        assert(texts_view(parts@)[1] == parts@[1]@);
        assert(texts_view(parts@)[2] == parts@[2]@);
    }
    let mut t = parts[0].clone();
    t.append("x");
    t.append(hx[1].as_str());
    t.append("+");
    t.append(pos[1].as_str());
    t.append("+");
    t.append(pos[2].as_str());
    proof {
        reveal_strlit("x");
        reveal_strlit("+");
        assert(texts_view(parts@)[0] == parts@[0]@);
        assert(texts_view(hx@)[1] == hx@[1]@);
        assert(texts_view(pos@)[1] == pos@[1]@);
        assert(texts_view(pos@)[2] == pos@[2]@);
        assert(t@ =~= crop_text(selection@).unwrap());
    }
    Some(t)
}

/// What `str::split_whitespace` yields for a text.
pub uninterp spec fn whitespace_fields(s: Seq<char>) -> Seq<Seq<char>>;

/// Relies on `str::split_whitespace`: the text's fields between runs of
/// whitespace.
#[verifier::external_body]
fn split_fields(s: &str) -> (r: Vec<String>)
    ensures
        texts_view(r@) == whitespace_fields(s@),
{
    s.split_whitespace().map(|f| f.to_string()).collect()
}

/// The monitor that a line of the listing describes: its name (the second
/// field, without its leading `+`) and its geometry (the third field).
pub open spec fn monitor_of(fields: Seq<Seq<char>>) -> Option<(Seq<char>, Seq<char>)> {
    if fields.len() >= 3 && fields[1].len() >= 1 && fields[1][0] == '+' {
        Some((fields[1].drop_first(), fields[2]))
    } else {
        None
    }
}

/// The monitor described by the fields of a line of the listing, e.g.
/// `0:`, `+*DP-4`, `2560/597x1440/336+0+0`, `DP-4`.
pub fn monitor_entry(fields: &Vec<String>) -> (r: Option<Entry>)
    ensures
        match r {
            Some(e) => monitor_of(texts_view(fields@)) == Some(e@),
            None => monitor_of(texts_view(fields@)) is None,
        },
{
    if fields.len() < 3 {
        return None;
    }
    let name_field = fields[1].as_str();
    proof {
        assert(texts_view(fields@)[1] == fields@[1]@);
        assert(texts_view(fields@)[2] == fields@[2]@);
    }
    let n = name_field.unicode_len();
    if n < 1 {
        return None;
    }
    if name_field.get_char(0) != '+' {
        return None;
    }
    let name = name_field.substring_char(1, n);
    proof {
        assert(name@ =~= fields@[1]@.drop_first());
    }
    Some(Entry { key: String::from_str(name), value: fields[2].clone() })
}

/// Why the monitor listing could not be read.
#[derive(Debug, Clone, Copy, PartialEq, Eq)]
pub enum ListingError {
    /// The listing has no line after its header.
    NoMonitorLines,
    /// A monitor line lacks a field, or its name lacks the leading `+`.
    MalformedLine,
}

/// The lines of a listing that describe monitors: all between the header
/// and the last piece (the empty text after the final newline).
pub open spec fn monitor_lines(listing: Seq<char>) -> Seq<Seq<char>> {
    let lines = pieces(listing, '\n');
    lines.subrange(1, lines.len() - 1)
}

/// Each monitor line as a candidate (name, geometry) pair.
pub open spec fn monitor_pairs(listing: Seq<char>) -> Seq<(Option<Seq<char>>, Option<Seq<char>>)> {
    monitor_lines(listing).map_values(
        |l: Seq<char>|
            match monitor_of(whitespace_fields(l)) {
                Some(m) => (Some(m.0), Some(m.1)),
                None => (None, None),
            },
    )
}

/// The monitors of `xrandr --listmonitors` output, keyed by name and holding
/// each one's geometry; a later line replaces an earlier one of the same name.
pub fn monitor_options(listing: &str) -> (r: Result<Vec<Entry>, ListingError>)
    ensures
        pieces(listing@, '\n').len() < 2 ==> r == Err::<Vec<Entry>, ListingError>(
            ListingError::NoMonitorLines,
        ),
        r matches Ok(v) ==> pieces(listing@, '\n').len() >= 2 && keys_unique(entries_view(v@))
            && entries_view(v@) == collected(monitor_pairs(listing@))
            && forall|i: int|
            0 <= i < monitor_lines(listing@).len() ==> monitor_of(
                whitespace_fields(#[trigger] monitor_lines(listing@)[i]),
            ) is Some,
        r matches Err(e) ==> (e == ListingError::NoMonitorLines && pieces(listing@, '\n').len()
            < 2) || (e == ListingError::MalformedLine && exists|i: int|
            0 <= i < monitor_lines(listing@).len() && monitor_of(
                whitespace_fields(#[trigger] monitor_lines(listing@)[i]),
            ) is None),
{
    let lines = split_on(listing, '\n');
    if lines.len() < 2 {
        return Err(ListingError::NoMonitorLines);
    }
    let ghost ml = monitor_lines(listing@);
    let mut options: Vec<Entry> = Vec::new();
    let mut i: usize = 1;
    while i + 1 < lines.len()
        invariant
            1 <= i <= lines.len() - 1,
            texts_view(lines@) == pieces(listing@, '\n'),
            ml == texts_view(lines@).subrange(1, lines@.len() - 1),
            keys_unique(entries_view(options@)),
            entries_view(options@) == collected(monitor_pairs(listing@).take(i - 1)),
            forall|k: int| 0 <= k < i - 1 ==> monitor_of(whitespace_fields(#[trigger] ml[k])) is Some,
        decreases lines.len() - i,
    {
        let fields = split_fields(lines[i].as_str());
        proof {
            assert(ml[i - 1] == lines@[i as int]@);
            assert(monitor_pairs(listing@).take(i as int).drop_last() =~= monitor_pairs(
                listing@,
            ).take(i - 1));
        }
        match monitor_entry(&fields) {
            Some(e) => {
                bind(&mut options, e.key, e.value);
            },
            None => {
                return Err(ListingError::MalformedLine);
            },
        }
        i = i + 1;
    }
    assert(monitor_pairs(listing@).take(i - 1) =~= monitor_pairs(listing@));
    Ok(options)
}

} // verus!
