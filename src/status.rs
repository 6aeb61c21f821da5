//! The published status line: how a resolved state is written, and how a
//! reader turns the channel's bytes back into text.

use crate::clock::{END_OF_DAY, SECONDS_PER_DAY};
use crate::timetable::{entry_slots, lemma_current_started_by_now, resolution, unknown_label};
use crate::config::Entry;
use crate::timetable::{ActivityState, ActivityView};
use vstd::prelude::*;
use vstd::utf8::{decode_utf8, encode_utf8, encode_utf8_decode_utf8, encode_utf8_valid_utf8, valid_utf8};

verus! {

/// The most bytes that a reader takes from the channel.
pub const READ_LIMIT: usize = 1024;

pub open spec fn digit_char(d: int) -> char {
    if d == 0 {
        '0'
    } else if d == 1 {
        '1'
    } else if d == 2 {
        '2'
    } else if d == 3 {
        '3'
    } else if d == 4 {
        '4'
    } else if d == 5 {
        '5'
    } else if d == 6 {
        '6'
    } else if d == 7 {
        '7'
    } else if d == 8 {
        '8'
    } else {
        '9'
    }
}

/// The decimal digits of `n`, most significant first, without leading zeros.
pub open spec fn decimal(n: nat) -> Seq<char>
    decreases n,
{
    if n < 10 {
        seq![digit_char(n as int)]
    } else {
        decimal(n / 10) + seq![digit_char((n % 10) as int)]
    }
}

/// The line published for a state: `<label> +<minutes done> -<minutes remaining>`.
pub open spec fn status_text(v: ActivityView) -> Seq<char> {
    v.name + seq![' ', '+'] + decimal(v.done as nat) + seq![' ', '-'] + decimal(v.remaining as nat)
}

/// The bytes written to the channel for a state.
pub open spec fn published_bytes(v: ActivityView) -> Seq<u8> {
    encode_utf8(status_text(v))
}

/// What a reader makes of the channel's bytes: the text of at most
/// `READ_LIMIT` leading bytes, or `None` where they are not UTF-8.
pub open spec fn read_text(b: Seq<u8>) -> Option<Seq<char>> {
    let p = if b.len() <= READ_LIMIT {
        b
    } else {
        b.take(READ_LIMIT as int)
    };
    if valid_utf8(p) {
        Some(decode_utf8(p))
    } else {
        None
    }
}

fn digit_text(d: u32) -> (r: &'static str)
    requires
        d < 10,
    ensures
        r@ == seq![digit_char(d as int)],
{
    let r = if d == 0 {
        "0"
    } else if d == 1 {
        "1"
    } else if d == 2 {
        "2"
    } else if d == 3 {
        "3"
    } else if d == 4 {
        "4"
    } else if d == 5 {
        "5"
    } else if d == 6 {
        "6"
    } else if d == 7 {
        "7"
    } else if d == 8 {
        "8"
    } else {
        "9"
    };
    proof {
        reveal_strlit("0");
        reveal_strlit("1");
        reveal_strlit("2");
        reveal_strlit("3");
        reveal_strlit("4");
        reveal_strlit("5");
        reveal_strlit("6");
        reveal_strlit("7");
        reveal_strlit("8");
        reveal_strlit("9");
        assert(r@ =~= seq![digit_char(d as int)]);
    }
    r
}

/// The decimal text of `n`.
pub fn decimal_text(n: u32) -> (r: String)
    ensures
        r@ == decimal(n as nat),
    decreases n,
{
    if n < 10 {
        String::from_str(digit_text(n))
    } else {
        let mut s = decimal_text(n / 10);
        s.append(digit_text(n % 10));
        s
    }
}

/// The status line for `state`, e.g. `Focus +12 -33`.
pub fn status_line(state: &ActivityState) -> (r: String)
    ensures
        r@ == status_text(state@),
{
    let mut line = state.activity_name.clone();
    line.append(" +");
    let done = decimal_text(state.time_done);
    line.append(done.as_str());
    line.append(" -");
    let remaining = decimal_text(state.time_remaining);
    line.append(remaining.as_str());
    proof {
        reveal_strlit(" +");
        reveal_strlit(" -");
        assert(line@ =~= status_text(state@));
    }
    line
}

/// The bytes that publishing `state` writes to the channel, replacing what
/// was there.
pub fn status_bytes(state: &ActivityState) -> (r: Vec<u8>)
    ensures
        r@ == published_bytes(state@),
{
    let line = status_line(state);
    line.as_str().as_bytes_vec()
}

/// Relies on `String::from_utf8`: `Ok` exactly when the bytes are valid UTF-8,
/// holding the characters that they encode.
#[verifier::external_body]
fn string_from_utf8(bytes: Vec<u8>) -> (r: Option<String>)
    ensures
        match r {
            Some(t) => valid_utf8(bytes@) && t@ == decode_utf8(bytes@),
            None => !valid_utf8(bytes@),
        },
{
    String::from_utf8(bytes).ok()
}

/// Why the channel's content could not be read as a status.
#[derive(Debug, Clone, Copy, PartialEq, Eq)]
pub enum ReadError {
    /// The bytes are not UTF-8 text.
    NotText,
}

/// The status text held by the channel's bytes: the text of the first
/// `READ_LIMIT` bytes, or `ReadError::NotText` where they are not UTF-8.
pub fn decode_status(bytes: &Vec<u8>) -> (r: Result<String, ReadError>)
    ensures
        match r {
            Ok(t) => read_text(bytes@) == Some(t@),
            Err(e) => read_text(bytes@) is None && e == ReadError::NotText,
        },
{
    let n = if bytes.len() <= READ_LIMIT {
        bytes.len()
    } else {
        READ_LIMIT
    };
    let mut head: Vec<u8> = Vec::new();
    let mut i: usize = 0;
    while i < n
        invariant
            0 <= i <= n,
            n <= bytes@.len(),
            n == (if bytes@.len() <= READ_LIMIT {
                bytes@.len()
            } else {
                READ_LIMIT as nat
            }),
            head@ =~= bytes@.take(i as int),
        decreases n - i,
    {
        head.push(bytes[i]);
        i = i + 1;
        assert(head@ =~= bytes@.take(i as int));
    }
    proof {
        if bytes@.len() <= READ_LIMIT {
            assert(head@ =~= bytes@);
        }
    }
    match string_from_utf8(head) {
        Some(t) => Ok(t),
        None => Err(ReadError::NotText),
    }
}

/// Publishing is repeatable: two states with the same content write the same
/// bytes, so publishing a state again leaves the channel's content unchanged.
pub proof fn lemma_publish_repeatable(a: ActivityState, b: ActivityState)
    requires
        a@ == b@,
    ensures
        published_bytes(a@) == published_bytes(b@),
{
}

/// A reader of the channel sees exactly the line that was published, where it
/// fits in the bytes that a reader takes.
pub proof fn lemma_reader_sees_published(v: ActivityView)
    requires
        published_bytes(v).len() <= READ_LIMIT,
    ensures
        read_text(published_bytes(v)) == Some(status_text(v)),
{
    encode_utf8_valid_utf8(status_text(v));
    encode_utf8_decode_utf8(status_text(v));
}

/// With an empty timetable the line is `Unknown +<minutes since midnight>
/// -<whole minutes until 23:59:59>`, at any time of day.
pub proof fn lemma_empty_timetable_line(now: int)
    requires
        0 <= now < SECONDS_PER_DAY,
    ensures
        status_text(resolution(entry_slots(Seq::<Entry>::empty()), now)) == unknown_label()
            + seq![' ', '+'] + decimal((now / 60) as nat) + seq![' ', '-'] + decimal(
            ((END_OF_DAY - now) / 60) as nat,
        ),
{
    lemma_current_started_by_now(Seq::<Entry>::empty(), now);
}

} // verus!
