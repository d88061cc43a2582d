//! Input events as the X server records them.
//!
//! The record extension hands over the events of the core protocol in
//! their wire form, 32 bytes each, and between them replies of
//! `32 + 4 * length` bytes. The fields of an item are in the byte order of
//! the machine that runs the client.

use vstd::prelude::*;
use vstd::slice::slice_subrange;

verus! {

/// The first byte of a reply.
pub const REPLY: u8 = 0;

/// The first byte of a key press.
pub const KEY_PRESS: u8 = 2;

/// The first byte of a key release.
pub const KEY_RELEASE: u8 = 3;

/// The first byte of a button press.
pub const BUTTON_PRESS: u8 = 4;

/// The first byte of a button release.
pub const BUTTON_RELEASE: u8 = 5;

/// The first byte of a pointer motion.
pub const MOTION_NOTIFY: u8 = 6;

/// The bytes of an event of the core protocol.
pub const EVENT_LEN: usize = 32;

/// What the user did.
#[derive(Clone, Copy, Debug, PartialEq, Eq, Structural)]
pub enum InputEvent {
    KeyDown(u8),
    KeyUp(u8),
    MouseDown(u8),
    MouseUp(u8),
    MouseMove { x: i16, y: i16 },
}

/// Why recorded data is refused.
#[derive(Clone, Copy, Debug, PartialEq, Eq, Structural)]
pub enum ParseError {
    /// The data ends before the item does.
    InsufficientData,
}

/// The signed 16-bit number whose low byte is `low` and whose high byte is
/// `high`.
pub open spec fn i16_of(low: u8, high: u8) -> int {
    let unsigned = low as int + 256 * (high as int);
    if unsigned >= 32768 {
        unsigned - 65536
    } else {
        unsigned
    }
}

/// The unsigned 32-bit number of four bytes, the lowest first.
pub open spec fn u32_of(b0: u8, b1: u8, b2: u8, b3: u8) -> int {
    b0 as int + 256 * (b1 as int) + 65536 * (b2 as int) + 16777216 * (b3 as int)
}

/// `value` is the 16-bit number that the two bytes at `at` spell in one of
/// the two byte orders.
pub open spec fn spells_i16(data: Seq<u8>, at: int, value: i16, little_endian: bool) -> bool {
    if little_endian {
        value == i16_of(data[at], data[at + 1])
    } else {
        value == i16_of(data[at + 1], data[at])
    }
}

/// `value` is the 32-bit number that the four bytes at `at` spell in one
/// of the two byte orders.
pub open spec fn spells_u32(data: Seq<u8>, at: int, value: u32, little_endian: bool) -> bool {
    if little_endian {
        value == u32_of(data[at], data[at + 1], data[at + 2], data[at + 3])
    } else {
        value == u32_of(data[at + 3], data[at + 2], data[at + 1], data[at])
    }
}

/// `x11rb::protocol::xproto::KeyPressEvent::try_parse`, which also parses
/// key releases: the key code, which is the second byte, and what follows
/// the 32 bytes of the event. The crate reports `InsufficientData`, and
/// nothing else, where there are fewer than 32 bytes.
#[verifier::external_body]
fn parse_key<'a>(data: &'a [u8]) -> (r: Option<(u8, &'a [u8])>)
    ensures
        r is Some <==> data@.len() >= 32,
        r matches Some((detail, rest)) ==> detail == data@[1] && rest@ == data@.skip(32),
{
    match <x11rb::protocol::xproto::KeyPressEvent as x11rb::x11_utils::TryParse>::try_parse(data) {
        Ok((event, rest)) => Some((event.detail, rest)),
        Err(_) => None,
    }
}

/// `x11rb::protocol::xproto::ButtonPressEvent::try_parse`, which also
/// parses button releases: the button, which is the second byte, and what
/// follows the 32 bytes of the event. The crate reports `InsufficientData`,
/// and nothing else, where there are fewer than 32 bytes.
#[verifier::external_body]
fn parse_button<'a>(data: &'a [u8]) -> (r: Option<(u8, &'a [u8])>)
    ensures
        r is Some <==> data@.len() >= 32,
        r matches Some((detail, rest)) ==> detail == data@[1] && rest@ == data@.skip(32),
{
    match <x11rb::protocol::xproto::ButtonPressEvent as x11rb::x11_utils::TryParse>::try_parse(data) {
        Ok((event, rest)) => Some((event.detail, rest)),
        Err(_) => None,
    }
}

/// `x11rb::protocol::xproto::MotionNotifyEvent::try_parse`: the pointer's
/// place on the root window, which the bytes 20 to 23 spell in the
/// machine's byte order, and what follows the 32 bytes of the event. The
/// crate reports `InsufficientData`, and nothing else, where there are
/// fewer than 32 bytes.
#[verifier::external_body]
fn parse_motion<'a>(data: &'a [u8]) -> (r: Option<(i16, i16, &'a [u8])>)
    ensures
        r is Some <==> data@.len() >= 32,
        r matches Some((x, y, rest)) ==> rest@ == data@.skip(32) && exists|little_endian: bool|
            spells_i16(data@, 20, x, little_endian) && spells_i16(data@, 22, y, little_endian),
{
    match <x11rb::protocol::xproto::MotionNotifyEvent as x11rb::x11_utils::TryParse>::try_parse(data) {
        Ok((event, rest)) => Some((event.root_x, event.root_y, rest)),
        Err(_) => None,
    }
}

/// `x11rb::x11_utils::TryParse::try_parse` for `u32`: the number that the
/// first four bytes spell in the machine's byte order. The crate reports
/// `InsufficientData`, and nothing else, where there are fewer than four
/// bytes.
#[verifier::external_body]
fn parse_u32(data: &[u8]) -> (r: Option<u32>)
    ensures
        r is Some <==> data@.len() >= 4,
        r matches Some(value) ==> exists|little_endian: bool| spells_u32(data@, 0, value, little_endian),
{
    match <u32 as x11rb::x11_utils::TryParse>::try_parse(data) {
        Ok((value, _)) => Some(value),
        Err(_) => None,
    }
}

/// How many bytes a reply takes whose length field says `words`.
pub open spec fn reply_len(words: u32) -> int {
    32 + 4 * (words as int)
}

/// What follows a reply whose length field says `words`.
pub fn skip_reply<'a>(data: &'a [u8], words: u32) -> (r: Result<&'a [u8], ParseError>)
    ensures
        r is Ok <==> reply_len(words) <= data@.len(),
        r matches Ok(rest) ==> rest@ == data@.skip(reply_len(words)),
        r matches Err(e) ==> e == ParseError::InsufficientData,
{
    let total: u64 = 32 + 4 * (words as u64);
    if total <= data.len() as u64 {
        Ok(slice_subrange(data, total as usize, data.len()))
    } else {
        Err(ParseError::InsufficientData)
    }
}

/// Whether `r` is what recorded data parses to: what follows the first item
/// of the data, and the input event if that item is one.
pub open spec fn parses_to(data: Seq<u8>, r: Result<(Seq<u8>, Option<InputEvent>), ParseError>) -> bool {
    if data.len() == 0 {
        r == Err::<(Seq<u8>, Option<InputEvent>), ParseError>(ParseError::InsufficientData)
    } else if data[0] == REPLY {
        if data.len() < 8 {
            r == Err::<(Seq<u8>, Option<InputEvent>), ParseError>(ParseError::InsufficientData)
        } else {
            exists|words: u32, little_endian: bool|
                #![trigger spells_u32(data, 4, words, little_endian)]
                spells_u32(data, 4, words, little_endian) && r == (if reply_len(words) <= data.len() {
                    Ok::<(Seq<u8>, Option<InputEvent>), ParseError>((data.skip(reply_len(words)), None))
                } else {
                    Err::<(Seq<u8>, Option<InputEvent>), ParseError>(ParseError::InsufficientData)
                })
        }
    } else if data.len() < 32 {
        r == Err::<(Seq<u8>, Option<InputEvent>), ParseError>(ParseError::InsufficientData)
    } else {
        r matches Ok((rest, event)) && rest == data.skip(32) && (if data[0] == KEY_PRESS {
            event == Some(InputEvent::KeyDown(data[1]))
        } else if data[0] == KEY_RELEASE {
            event == Some(InputEvent::KeyUp(data[1]))
        } else if data[0] == BUTTON_PRESS {
            event == Some(InputEvent::MouseDown(data[1]))
        } else if data[0] == BUTTON_RELEASE {
            event == Some(InputEvent::MouseUp(data[1]))
        } else if data[0] == MOTION_NOTIFY {
            exists|x: i16, y: i16, little_endian: bool|
                #![trigger spells_i16(data, 20, x, little_endian), spells_i16(data, 22, y, little_endian)]
                spells_i16(data, 20, x, little_endian) && spells_i16(data, 22, y, little_endian) && event == Some(
                    InputEvent::MouseMove { x, y },
                )
        } else {
            event is None
        })
    }
}

/// What `parse_event` returns, with the bytes that follow as a sequence.
pub open spec fn parsed_view(r: Result<(&[u8], Option<InputEvent>), ParseError>) -> Result<
    (Seq<u8>, Option<InputEvent>),
    ParseError,
> {
    match r {
        Ok((rest, event)) => Ok((rest@, event)),
        Err(e) => Err(e),
    }
}

/// Takes the first item off recorded data. Returns what follows the item
/// and, where the item is a key, a button or a pointer motion, that event.
/// Data that ends before the item does is refused.
pub fn parse_event<'a>(data: &'a [u8]) -> (r: Result<(&'a [u8], Option<InputEvent>), ParseError>)
    ensures
        parses_to(data@, parsed_view(r)),
{
    if data.len() == 0 {
        return Err(ParseError::InsufficientData);
    }
    let kind = data[0];
    if kind == KEY_PRESS || kind == KEY_RELEASE {
        match parse_key(data) {
            Some((detail, rest)) => if kind == KEY_PRESS {
                Ok((rest, Some(InputEvent::KeyDown(detail))))
            } else {
                Ok((rest, Some(InputEvent::KeyUp(detail))))
            },
            None => Err(ParseError::InsufficientData),
        }
    } else if kind == BUTTON_PRESS || kind == BUTTON_RELEASE {
        match parse_button(data) {
            Some((detail, rest)) => if kind == BUTTON_PRESS {
                Ok((rest, Some(InputEvent::MouseDown(detail))))
            } else {
                Ok((rest, Some(InputEvent::MouseUp(detail))))
            },
            None => Err(ParseError::InsufficientData),
        }
    } else if kind == MOTION_NOTIFY {
        match parse_motion(data) {
            Some((x, y, rest)) => Ok((rest, Some(InputEvent::MouseMove { x, y }))),
            None => Err(ParseError::InsufficientData),
        }
    } else if kind == REPLY {
        if data.len() < 4 {
            return Err(ParseError::InsufficientData);
        }
        let field = slice_subrange(data, 4, data.len());
        match parse_u32(field) {
            Some(words) => {
                proof {
                    let little_endian = choose|little_endian: bool| spells_u32(field@, 0, words, little_endian);
                    assert(spells_u32(data@, 4, words, little_endian));
                }
                match skip_reply(data, words) {
                    Ok(rest) => Ok((rest, None)),
                    Err(e) => Err(e),
                }
            },
            None => Err(ParseError::InsufficientData),
        }
    } else if data.len() < EVENT_LEN {
        Err(ParseError::InsufficientData)
    } else {
        Ok((slice_subrange(data, EVENT_LEN, data.len()), None))
    }
}

} // verus!
