//! The byte format of what goes over the socket.
//!
//! Integers are little-endian and of fixed width. A span of time is its
//! seconds in 8 bytes and its nanoseconds in 4. A text is the length of its
//! UTF-8 form in 8 bytes and then that form. Nothing is padded, and each
//! value has one form only.

use crate::msg::TimerInfo;
use crate::text::string_from_utf8;
use crate::time::{Duration, NANOS_PER_SEC};
use vstd::bytes::{
    lemma_auto_spec_u32_to_from_le_bytes, lemma_auto_spec_u64_to_from_le_bytes, spec_u32_from_le_bytes,
    spec_u32_to_le_bytes, spec_u64_from_le_bytes, spec_u64_to_le_bytes, u32_from_le_bytes, u32_to_le_bytes,
    u64_from_le_bytes, u64_to_le_bytes,
};
use vstd::prelude::*;
use vstd::slice::{slice_subrange, slice_to_vec};
use vstd::utf8::{
    decode_utf8, decode_utf8_encode_utf8, encode_utf8, encode_utf8_decode_utf8, encode_utf8_valid_utf8, valid_utf8,
};

verus! {

/// A name with what a client is told of its timer.
pub type EntryModel = (Seq<char>, TimerInfo);

/// The form of a 64-bit number.
pub open spec fn ser_u64(x: u64) -> Seq<u8> {
    spec_u64_to_le_bytes(x)
}

/// The form of a 32-bit number.
pub open spec fn ser_u32(x: u32) -> Seq<u8> {
    spec_u32_to_le_bytes(x)
}

/// The form of a span of time.
pub open spec fn ser_duration(d: Duration) -> Seq<u8> {
    ser_u64(d.secs_part()) + ser_u32(d.nanos_part())
}

/// The form of a text.
pub open spec fn ser_text(text: Seq<char>) -> Seq<u8> {
    ser_u64(encode_utf8(text).len() as u64) + encode_utf8(text)
}

/// The form of a timer's clock and interval.
pub open spec fn ser_info(info: TimerInfo) -> Seq<u8> {
    ser_duration(info.elapsed) + ser_duration(info.interval)
}

/// The form of one entry of a list.
pub open spec fn ser_entry(entry: EntryModel) -> Seq<u8> {
    ser_text(entry.0) + ser_info(entry.1)
}

/// The forms of the entries of a list, one after the other.
pub open spec fn ser_entries(entries: Seq<EntryModel>) -> Seq<u8>
    decreases entries.len(),
{
    if entries.len() == 0 {
        Seq::empty()
    } else {
        ser_entry(entries.first()) + ser_entries(entries.drop_first())
    }
}

/// The text is short enough for its length to be written down.
pub open spec fn text_fits(text: Seq<char>) -> bool {
    encode_utf8(text).len() <= u64::MAX
}

/// The entry is one that has a form to be read back from.
pub open spec fn entry_fits(entry: EntryModel) -> bool {
    text_fits(entry.0) && entry.1.elapsed.wf() && entry.1.interval.wf()
}

/// Reads a 64-bit number off the front: the number and what follows it.
pub open spec fn parse_u64(bytes: Seq<u8>) -> Option<(u64, Seq<u8>)> {
    if bytes.len() >= 8 {
        Some((spec_u64_from_le_bytes(bytes.take(8)), bytes.skip(8)))
    } else {
        None
    }
}

/// Reads a 32-bit number off the front.
pub open spec fn parse_u32(bytes: Seq<u8>) -> Option<(u32, Seq<u8>)> {
    if bytes.len() >= 4 {
        Some((spec_u32_from_le_bytes(bytes.take(4)), bytes.skip(4)))
    } else {
        None
    }
}

/// Reads a span of time off the front. Nanoseconds of a second or more are
/// refused.
pub open spec fn parse_duration(bytes: Seq<u8>) -> Option<(Duration, Seq<u8>)> {
    match parse_u64(bytes) {
        Some((secs, rest)) => match parse_u32(rest) {
            Some((nanos, rest)) => if nanos < NANOS_PER_SEC {
                Some((Duration::of_parts(secs, nanos), rest))
            } else {
                None
            },
            None => None,
        },
        None => None,
    }
}

/// Reads a text off the front. Bytes that are no UTF-8 are refused.
pub open spec fn parse_text(bytes: Seq<u8>) -> Option<(Seq<char>, Seq<u8>)> {
    match parse_u64(bytes) {
        Some((len, rest)) => if len <= rest.len() && valid_utf8(rest.take(len as int)) {
            Some((decode_utf8(rest.take(len as int)), rest.skip(len as int)))
        } else {
            None
        },
        None => None,
    }
}

/// Reads a timer's clock and interval off the front.
pub open spec fn parse_info(bytes: Seq<u8>) -> Option<(TimerInfo, Seq<u8>)> {
    match parse_duration(bytes) {
        Some((elapsed, rest)) => match parse_duration(rest) {
            Some((interval, rest)) => Some((TimerInfo { elapsed, interval }, rest)),
            None => None,
        },
        None => None,
    }
}

/// Reads one entry of a list off the front.
pub open spec fn parse_entry(bytes: Seq<u8>) -> Option<(EntryModel, Seq<u8>)> {
    match parse_text(bytes) {
        Some((name, rest)) => match parse_info(rest) {
            Some((info, rest)) => Some(((name, info), rest)),
            None => None,
        },
        None => None,
    }
}

/// Reads `count` entries off the front.
pub open spec fn parse_entries(bytes: Seq<u8>, count: nat) -> Option<(Seq<EntryModel>, Seq<u8>)>
    decreases count,
{
    if count == 0 {
        Some((Seq::empty(), bytes))
    } else {
        match parse_entry(bytes) {
            Some((entry, rest)) => match parse_entries(rest, (count - 1) as nat) {
                Some((entries, rest)) => Some((seq![entry] + entries, rest)),
                None => None,
            },
            None => None,
        }
    }
}

/// A number is read back from its form, whatever follows.
pub proof fn lemma_parse_ser_u64(x: u64, rest: Seq<u8>)
    ensures
        ser_u64(x).len() == 8,
        parse_u64(ser_u64(x) + rest) == Some((x, rest)),
{
    lemma_auto_spec_u64_to_from_le_bytes();
    assert((ser_u64(x) + rest).take(8) =~= ser_u64(x));
    assert((ser_u64(x) + rest).skip(8) =~= rest);
}

/// What a number is read from is its form and what follows.
pub proof fn lemma_ser_parse_u64(bytes: Seq<u8>)
    requires
        parse_u64(bytes) is Some,
    ensures
        bytes == ser_u64(parse_u64(bytes).unwrap().0) + parse_u64(bytes).unwrap().1,
{
    lemma_auto_spec_u64_to_from_le_bytes();
    assert(bytes =~= bytes.take(8) + bytes.skip(8));
}

/// A number is read back from its form, whatever follows.
pub proof fn lemma_parse_ser_u32(x: u32, rest: Seq<u8>)
    ensures
        ser_u32(x).len() == 4,
        parse_u32(ser_u32(x) + rest) == Some((x, rest)),
{
    lemma_auto_spec_u32_to_from_le_bytes();
    assert((ser_u32(x) + rest).take(4) =~= ser_u32(x));
    assert((ser_u32(x) + rest).skip(4) =~= rest);
}

/// What a number is read from is its form and what follows.
pub proof fn lemma_ser_parse_u32(bytes: Seq<u8>)
    requires
        parse_u32(bytes) is Some,
    ensures
        bytes == ser_u32(parse_u32(bytes).unwrap().0) + parse_u32(bytes).unwrap().1,
{
    lemma_auto_spec_u32_to_from_le_bytes();
    assert(bytes =~= bytes.take(4) + bytes.skip(4));
}

/// A span of time is read back from its form, whatever follows.
pub proof fn lemma_parse_ser_duration(d: Duration, rest: Seq<u8>)
    requires
        d.wf(),
    ensures
        ser_duration(d).len() == 12,
        parse_duration(ser_duration(d) + rest) == Some((d, rest)),
{
    lemma_parse_ser_u64(d.secs_part(), ser_u32(d.nanos_part()) + rest);
    lemma_parse_ser_u32(d.nanos_part(), rest);
    assert(ser_duration(d) + rest =~= ser_u64(d.secs_part()) + (ser_u32(d.nanos_part()) + rest));
}

/// What a span of time is read from is its form and what follows, and the
/// span is canonical.
pub proof fn lemma_ser_parse_duration(bytes: Seq<u8>)
    requires
        parse_duration(bytes) is Some,
    ensures
        parse_duration(bytes).unwrap().0.wf(),
        bytes == ser_duration(parse_duration(bytes).unwrap().0) + parse_duration(bytes).unwrap().1,
{
    lemma_ser_parse_u64(bytes);
    let rest = parse_u64(bytes).unwrap().1;
    lemma_ser_parse_u32(rest);
    let (d, after) = parse_duration(bytes)->0;
    assert(bytes =~= ser_duration(d) + after);
}

/// A text is read back from its form, whatever follows.
pub proof fn lemma_parse_ser_text(text: Seq<char>, rest: Seq<u8>)
    requires
        text_fits(text),
    ensures
        parse_text(ser_text(text) + rest) == Some((text, rest)),
{
    let utf8 = encode_utf8(text);
    lemma_parse_ser_u64(utf8.len() as u64, utf8 + rest);
    assert(ser_text(text) + rest =~= ser_u64(utf8.len() as u64) + (utf8 + rest));
    assert((utf8 + rest).take(utf8.len() as int) =~= utf8);
    assert((utf8 + rest).skip(utf8.len() as int) =~= rest);
    encode_utf8_valid_utf8(text);
    encode_utf8_decode_utf8(text);
}

/// What a text is read from is its form and what follows.
pub proof fn lemma_ser_parse_text(bytes: Seq<u8>)
    requires
        parse_text(bytes) is Some,
    ensures
        text_fits(parse_text(bytes).unwrap().0),
        bytes == ser_text(parse_text(bytes).unwrap().0) + parse_text(bytes).unwrap().1,
{
    lemma_ser_parse_u64(bytes);
    let (len, rest) = parse_u64(bytes)->0;
    let utf8 = rest.take(len as int);
    decode_utf8_encode_utf8(utf8);
    assert(rest =~= utf8 + rest.skip(len as int));
    let (text, after) = parse_text(bytes)->0;
    assert(bytes =~= ser_text(text) + after);
}

/// A clock and interval are read back from their form, whatever follows.
pub proof fn lemma_parse_ser_info(info: TimerInfo, rest: Seq<u8>)
    requires
        info.elapsed.wf(),
        info.interval.wf(),
    ensures
        ser_info(info).len() == 24,
        parse_info(ser_info(info) + rest) == Some((info, rest)),
{
    lemma_parse_ser_duration(info.elapsed, ser_duration(info.interval) + rest);
    lemma_parse_ser_duration(info.interval, rest);
    assert(ser_info(info) + rest =~= ser_duration(info.elapsed) + (ser_duration(info.interval) + rest));
}

/// What a clock and interval are read from is their form and what follows.
pub proof fn lemma_ser_parse_info(bytes: Seq<u8>)
    requires
        parse_info(bytes) is Some,
    ensures
        parse_info(bytes).unwrap().0.elapsed.wf(),
        parse_info(bytes).unwrap().0.interval.wf(),
        bytes == ser_info(parse_info(bytes).unwrap().0) + parse_info(bytes).unwrap().1,
{
    lemma_ser_parse_duration(bytes);
    let rest = parse_duration(bytes).unwrap().1;
    lemma_ser_parse_duration(rest);
    let (info, after) = parse_info(bytes)->0;
    assert(bytes =~= ser_info(info) + after);
}

/// An entry is read back from its form, whatever follows.
pub proof fn lemma_parse_ser_entry(entry: EntryModel, rest: Seq<u8>)
    requires
        entry_fits(entry),
    ensures
        parse_entry(ser_entry(entry) + rest) == Some((entry, rest)),
{
    lemma_parse_ser_text(entry.0, ser_info(entry.1) + rest);
    lemma_parse_ser_info(entry.1, rest);
    assert(ser_entry(entry) + rest =~= ser_text(entry.0) + (ser_info(entry.1) + rest));
}

/// What an entry is read from is its form and what follows.
pub proof fn lemma_ser_parse_entry(bytes: Seq<u8>)
    requires
        parse_entry(bytes) is Some,
    ensures
        entry_fits(parse_entry(bytes).unwrap().0),
        bytes == ser_entry(parse_entry(bytes).unwrap().0) + parse_entry(bytes).unwrap().1,
{
    lemma_ser_parse_text(bytes);
    let rest = parse_text(bytes).unwrap().1;
    lemma_ser_parse_info(rest);
    let (entry, after) = parse_entry(bytes)->0;
    assert(bytes =~= ser_entry(entry) + after);
}

/// Entries are read back from their forms, whatever follows.
pub proof fn lemma_parse_ser_entries(entries: Seq<EntryModel>, rest: Seq<u8>)
    requires
        forall|i: int| 0 <= i < entries.len() ==> entry_fits(#[trigger] entries[i]),
    ensures
        parse_entries(ser_entries(entries) + rest, entries.len()) == Some((entries, rest)),
    decreases entries.len(),
{
    if entries.len() == 0 {
        assert(ser_entries(entries) + rest =~= rest);
        assert(entries =~= Seq::<EntryModel>::empty());
    } else {
        let tail = entries.drop_first();
        assert forall|i: int| 0 <= i < tail.len() implies entry_fits(#[trigger] tail[i]) by {
            assert(tail[i] == entries[i + 1]);
        }
        lemma_parse_ser_entry(entries.first(), ser_entries(tail) + rest);
        lemma_parse_ser_entries(tail, rest);
        assert(ser_entries(entries) + rest =~= ser_entry(entries.first()) + (ser_entries(tail) + rest));
        assert(seq![entries.first()] + tail =~= entries);
    }
}

/// What entries are read from is their forms and what follows.
pub proof fn lemma_ser_parse_entries(bytes: Seq<u8>, count: nat)
    requires
        parse_entries(bytes, count) is Some,
    ensures
        parse_entries(bytes, count).unwrap().0.len() == count,
        forall|i: int| 0 <= i < count ==> entry_fits(#[trigger] parse_entries(bytes, count).unwrap().0[i]),
        bytes == ser_entries(parse_entries(bytes, count).unwrap().0) + parse_entries(bytes, count).unwrap().1,
    decreases count,
{
    if count == 0 {
        assert(bytes =~= ser_entries(Seq::<EntryModel>::empty()) + bytes);
    } else {
        lemma_ser_parse_entry(bytes);
        let (entry, rest) = parse_entry(bytes)->0;
        lemma_ser_parse_entries(rest, (count - 1) as nat);
        let (tail, after) = parse_entries(rest, (count - 1) as nat)->0;
        let entries = seq![entry] + tail;
        assert(entries.first() == entry);
        assert(entries.drop_first() =~= tail);
        assert(bytes =~= ser_entries(entries) + after);
        assert forall|i: int| 0 <= i < count implies entry_fits(#[trigger] entries[i]) by {
            if i > 0 {
                assert(entries[i] == tail[i - 1]);
            }
        }
    }
}

/// Puts bytes at the end.
pub(crate) fn write_bytes(out: &mut Vec<u8>, bytes: &[u8])
    ensures
        final(out)@ == old(out)@ + bytes@,
{
    let mut i: usize = 0;
    while i < bytes.len()
        invariant
            i <= bytes@.len(),
            out@ == old(out)@ + bytes@.take(i as int),
        decreases bytes@.len() - i,
    {
        out.push(bytes[i]);
        assert(bytes@.take(i as int + 1) =~= bytes@.take(i as int).push(bytes@[i as int]));
        i += 1;
    }
    assert(bytes@.take(i as int) =~= bytes@);
}

/// Puts the form of a 64-bit number at the end.
pub(crate) fn write_u64(out: &mut Vec<u8>, x: u64)
    ensures
        final(out)@ == old(out)@ + ser_u64(x),
{
    let bytes = u64_to_le_bytes(x);
    write_bytes(out, bytes.as_slice());
}

/// Puts the form of a 32-bit number at the end.
pub(crate) fn write_u32(out: &mut Vec<u8>, x: u32)
    ensures
        final(out)@ == old(out)@ + ser_u32(x),
{
    let bytes = u32_to_le_bytes(x);
    write_bytes(out, bytes.as_slice());
}

/// Puts the form of a span of time at the end.
pub(crate) fn write_duration(out: &mut Vec<u8>, d: &Duration)
    ensures
        final(out)@ == old(out)@ + ser_duration(*d),
{
    write_u64(out, d.as_secs());
    write_u32(out, d.subsec_nanos());
    assert(out@ =~= old(out)@ + ser_duration(*d));
}

/// Puts the form of a text at the end.
pub(crate) fn write_text(out: &mut Vec<u8>, text: &str)
    ensures
        final(out)@ == old(out)@ + ser_text(text@),
        text_fits(text@),
{
    let utf8 = text.as_bytes();
    write_u64(out, utf8.len() as u64);
    write_bytes(out, utf8);
    assert(out@ =~= old(out)@ + ser_text(text@));
}

/// Puts the form of a timer's clock and interval at the end.
pub(crate) fn write_info(out: &mut Vec<u8>, info: &TimerInfo)
    ensures
        final(out)@ == old(out)@ + ser_info(*info),
{
    write_duration(out, &info.elapsed);
    write_duration(out, &info.interval);
    assert(out@ =~= old(out)@ + ser_info(*info));
}

/// Reads a 64-bit number at `pos`: the number and where the next value
/// begins.
pub(crate) fn read_u64(bytes: &[u8], pos: usize) -> (r: Option<(u64, usize)>)
    requires
        pos <= bytes@.len(),
    ensures
        r is Some <==> parse_u64(bytes@.skip(pos as int)) is Some,
        r matches Some((x, next)) ==> pos <= next <= bytes@.len() && parse_u64(bytes@.skip(pos as int)) == Some(
            (x, bytes@.skip(next as int)),
        ),
{
    if bytes.len() - pos < 8 {
        return None;
    }
    let x = u64_from_le_bytes(slice_subrange(bytes, pos, pos + 8));
    assert(bytes@.skip(pos as int).take(8) =~= bytes@.subrange(pos as int, pos + 8));
    assert(bytes@.skip(pos as int).skip(8) =~= bytes@.skip(pos + 8));
    Some((x, pos + 8))
}

/// Reads a 32-bit number at `pos`.
pub(crate) fn read_u32(bytes: &[u8], pos: usize) -> (r: Option<(u32, usize)>)
    requires
        pos <= bytes@.len(),
    ensures
        r is Some <==> parse_u32(bytes@.skip(pos as int)) is Some,
        r matches Some((x, next)) ==> pos <= next <= bytes@.len() && parse_u32(bytes@.skip(pos as int)) == Some(
            (x, bytes@.skip(next as int)),
        ),
{
    if bytes.len() - pos < 4 {
        return None;
    }
    let x = u32_from_le_bytes(slice_subrange(bytes, pos, pos + 4));
    assert(bytes@.skip(pos as int).take(4) =~= bytes@.subrange(pos as int, pos + 4));
    assert(bytes@.skip(pos as int).skip(4) =~= bytes@.skip(pos + 4));
    Some((x, pos + 4))
}

/// Reads a span of time at `pos`.
pub(crate) fn read_duration(bytes: &[u8], pos: usize) -> (r: Option<(Duration, usize)>)
    requires
        pos <= bytes@.len(),
    ensures
        r is Some <==> parse_duration(bytes@.skip(pos as int)) is Some,
        r matches Some((d, next)) ==> pos <= next <= bytes@.len() && parse_duration(bytes@.skip(pos as int))
            == Some((d, bytes@.skip(next as int))),
{
    let (secs, next) = match read_u64(bytes, pos) {
        Some(found) => found,
        None => {
            return None;
        },
    };
    let (nanos, next) = match read_u32(bytes, next) {
        Some(found) => found,
        None => {
            return None;
        },
    };
    match Duration::from_parts(secs, nanos) {
        Some(d) => Some((d, next)),
        None => None,
    }
}

/// Reads a text at `pos`.
pub(crate) fn read_text(bytes: &[u8], pos: usize) -> (r: Option<(String, usize)>)
    requires
        pos <= bytes@.len(),
    ensures
        r is Some <==> parse_text(bytes@.skip(pos as int)) is Some,
        r matches Some((text, next)) ==> pos <= next <= bytes@.len() && parse_text(bytes@.skip(pos as int))
            == Some((text@, bytes@.skip(next as int))),
{
    let (len, start) = match read_u64(bytes, pos) {
        Some(found) => found,
        None => {
            return None;
        },
    };
    if len > (bytes.len() - start) as u64 {
        return None;
    }
    let end: usize = start + len as usize;
    let utf8 = slice_to_vec(slice_subrange(bytes, start, end));
    assert(bytes@.skip(start as int).take(len as int) =~= bytes@.subrange(start as int, end as int));
    assert(bytes@.skip(start as int).skip(len as int) =~= bytes@.skip(end as int));
    match string_from_utf8(utf8) {
        Some(text) => Some((text, end)),
        None => None,
    }
}

/// Reads a timer's clock and interval at `pos`.
pub(crate) fn read_info(bytes: &[u8], pos: usize) -> (r: Option<(TimerInfo, usize)>)
    requires
        pos <= bytes@.len(),
    ensures
        r is Some <==> parse_info(bytes@.skip(pos as int)) is Some,
        r matches Some((info, next)) ==> pos <= next <= bytes@.len() && parse_info(bytes@.skip(pos as int))
            == Some((info, bytes@.skip(next as int))),
{
    let (elapsed, next) = match read_duration(bytes, pos) {
        Some(found) => found,
        None => {
            return None;
        },
    };
    let (interval, next) = match read_duration(bytes, next) {
        Some(found) => found,
        None => {
            return None;
        },
    };
    Some((TimerInfo { elapsed, interval }, next))
}

} // verus!
