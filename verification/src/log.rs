use crate::error::Error;
use crate::event::Event;
use crate::instruction::InstructionArgs;
use crate::wire::copy_range;
use base64::engine::general_purpose::STANDARD;
use base64::Engine;
use vstd::prelude::*;
use vstd::utf8::encode_utf8;

verus! {

/// What became of one piece of text that may hold a record.
#[derive(Clone, Copy, Debug, PartialEq, Eq)]
pub enum Decoded<T> {
    /// The line does not begin with the mark of data that a program emitted.
    Unmarked,
    /// The text is not a valid encoding of bytes.
    Malformed,
    /// The record that the text holds.
    Value(T),
    /// The text holds bytes that are no record: the error says why.
    Rejected(Error),
}

/// The mark of a log line that holds data emitted by a program: `Program data: `.
pub open spec fn data_mark() -> Seq<u8> {
    seq![80u8, 114, 111, 103, 114, 97, 109, 32, 100, 97, 116, 97, 58, 32]
}

/// Whether a line begins with the mark of emitted data.
pub open spec fn is_marked(line: Seq<u8>) -> bool {
    line.len() >= 14 && line.subrange(0, 14) == data_mark()
}

/// The bytes that a base64 text in the standard alphabet with padding stands
/// for, or `None` where the text is no such encoding.
pub uninterp spec fn base64_decoded(text: Seq<u8>) -> Option<Seq<u8>>;

/// Calls `Engine::decode` of the base64 crate on its `STANDARD` engine. The
/// result is a function of the text alone, and the contract gives it its name.
#[verifier::external_body]
fn base64_decode(text: &[u8]) -> (bytes: Option<Vec<u8>>)
    ensures
        base64_decoded(text@) == match bytes {
            Some(found) => Some(found@),
            None => None,
        },
{
    match STANDARD.decode(text) {
        Ok(found) => Some(found),
        Err(_) => None,
    }
}

/// What a decoded payload holds as an event.
pub open spec fn event_of(payload: Option<Seq<u8>>) -> Decoded<Event> {
    match payload {
        None => Decoded::Malformed,
        Some(bytes) => match Event::decoded(bytes) {
            Ok(event) => Decoded::Value(event),
            Err(e) => Decoded::Rejected(e),
        },
    }
}

/// Reads the event that a decoded payload holds, if it is one.
pub fn interpret_event(payload: Option<Vec<u8>>) -> (outcome: Decoded<Event>)
    ensures
        outcome == event_of(
            match payload {
                Some(bytes) => Some(bytes@),
                None => None,
            },
        ),
{
    match payload {
        None => Decoded::Malformed,
        Some(bytes) => match Event::decode(bytes.as_slice()) {
            Ok(event) => Decoded::Value(event),
            Err(e) => Decoded::Rejected(e),
        },
    }
}

/// What a log line holds: nothing for this decoder where it lacks the mark,
/// else the event that the base64 text behind the mark stands for.
pub open spec fn logged(line: Seq<u8>) -> Decoded<Event> {
    if !is_marked(line) {
        Decoded::Unmarked
    } else {
        event_of(base64_decoded(line.subrange(14, line.len() as int)))
    }
}

/// Whether a line begins with the mark of emitted data.
pub fn has_mark(line: &[u8]) -> (marked: bool)
    ensures
        marked == is_marked(line@),
{
    if line.len() < 14 {
        return false;
    }
    let mark: [u8; 14] = [80u8, 114, 111, 103, 114, 97, 109, 32, 100, 97, 116, 97, 58, 32];
    assert(mark@ =~= data_mark());
    let mut i: usize = 0;
    while i < 14
        invariant
            i <= 14 <= line@.len(),
            mark@ == data_mark(),
            forall|j: int| 0 <= j < i ==> line@[j] == mark@[j],
        decreases 14 - i,
    {
        if line[i] != mark[i] {
            assert(line@.subrange(0, 14)[i as int] != data_mark()[i as int]);
            return false;
        }
        i += 1;
    }
    assert(line@.subrange(0, 14) =~= data_mark());
    true
}

/// Decodes one line of a transaction's log.
pub fn decode_log_line(line: &str) -> (outcome: Decoded<Event>)
    ensures
        outcome == logged(encode_utf8(line@)),
{
    let bytes = line.as_bytes();
    if !has_mark(bytes) {
        return Decoded::Unmarked;
    }
    let text = copy_range(bytes, 14, bytes.len() - 14);
    interpret_event(base64_decode(text.as_slice()))
}

/// Decodes the lines of a transaction's log, each by itself: a line that
/// cannot be decoded does not stop the others.
pub fn decode_logs(lines: &Vec<String>) -> (outcomes: Vec<Decoded<Event>>)
    ensures
        outcomes@.len() == lines@.len(),
        forall|i: int|
            0 <= i < lines@.len() ==> #[trigger] outcomes@[i] == logged(encode_utf8(lines@[i]@)),
{
    let mut outcomes: Vec<Decoded<Event>> = Vec::new();
    let mut i: usize = 0;
    while i < lines.len()
        invariant
            i <= lines@.len(),
            outcomes@.len() == i,
            forall|j: int|
                0 <= j < i ==> #[trigger] outcomes@[j] == logged(encode_utf8(lines@[j]@)),
        decreases lines@.len() - i,
    {
        outcomes.push(decode_log_line(lines[i].as_str()));
        i += 1;
    }
    outcomes
}

/// The value of a hexadecimal digit, in either case.
pub open spec fn hex_digit(c: u8) -> Option<u8> {
    if 48 <= c <= 57 {
        Some((c - 48) as u8)
    } else if 97 <= c <= 102 {
        Some((c - 87) as u8)
    } else if 65 <= c <= 70 {
        Some((c - 55) as u8)
    } else {
        None
    }
}

/// Whether a text is made of pairs of hexadecimal digits.
pub open spec fn is_hex(text: Seq<u8>) -> bool {
    text.len() % 2 == 0 && forall|i: int| 0 <= i < text.len() ==> hex_digit(#[trigger] text[i]) is Some
}

/// The bytes that a text of pairs of hexadecimal digits stands for.
pub open spec fn hex_bytes(text: Seq<u8>) -> Seq<u8> {
    Seq::new(
        text.len() / 2,
        |i: int| (16 * hex_digit(text[2 * i])->Some_0 + hex_digit(text[2 * i + 1])->Some_0) as u8,
    )
}

/// The value of a hexadecimal digit.
fn digit_value(c: u8) -> (value: Option<u8>)
    ensures
        value == hex_digit(c),
        value matches Some(v) ==> v < 16,
{
    if 48 <= c && c <= 57 {
        Some(c - 48)
    } else if 97 <= c && c <= 102 {
        Some(c - 87)
    } else if 65 <= c && c <= 70 {
        Some(c - 55)
    } else {
        None
    }
}

/// The bytes that a hexadecimal text stands for, if it is one.
pub fn decode_hex(text: &[u8]) -> (bytes: Option<Vec<u8>>)
    ensures
        bytes is Some <==> is_hex(text@),
        bytes matches Some(found) ==> found@ == hex_bytes(text@),
{
    let n: usize = text.len();
    if n % 2 != 0 {
        return None;
    }
    let mut out: Vec<u8> = Vec::new();
    let mut i: usize = 0;
    while i < n
        invariant
            i <= n == text@.len(),
            i % 2 == 0,
            n % 2 == 0,
            out@.len() == i / 2,
            forall|j: int| 0 <= j < i ==> hex_digit(#[trigger] text@[j]) is Some,
            forall|k: int| 0 <= k < i / 2 ==> #[trigger] out@[k] == hex_bytes(text@)[k],
        decreases n - i,
    {
        let high = match digit_value(text[i]) {
            Some(v) => v,
            None => {
                return None;
            },
        };
        let low = match digit_value(text[i + 1]) {
            Some(v) => v,
            None => {
                return None;
            },
        };
        out.push(16 * high + low);
        i += 2;
    }
    assert(out@ =~= hex_bytes(text@));
    Some(out)
}

/// What a hexadecimal text holds as the data of an instruction.
pub open spec fn instruction_in_hex(text: Seq<u8>) -> Decoded<InstructionArgs> {
    if !is_hex(text) {
        Decoded::Malformed
    } else {
        match InstructionArgs::decoded(hex_bytes(text)) {
            Ok(args) => Decoded::Value(args),
            Err(e) => Decoded::Rejected(e),
        }
    }
}

/// Decodes the data of an instruction from its hexadecimal text.
pub fn decode_instruction_hex(text: &str) -> (outcome: Decoded<InstructionArgs>)
    ensures
        outcome == instruction_in_hex(encode_utf8(text@)),
{
    match decode_hex(text.as_bytes()) {
        None => Decoded::Malformed,
        Some(bytes) => match InstructionArgs::decode(bytes.as_slice()) {
            Ok(args) => Decoded::Value(args),
            Err(e) => Decoded::Rejected(e),
        },
    }
}

} // verus!
