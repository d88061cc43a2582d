//! Frames on the socket: each message goes as its text-safe encoding
//! followed by one delimiter byte.

use crate::msg::ProtocolError;
use crate::text::{find_byte, first_index, lemma_first_index, lemma_first_index_is};
use vstd::prelude::*;
use vstd::slice::{slice_subrange, slice_to_vec};

verus! {

/// The byte that ends a frame. It is no symbol of the encoding.
pub const EOT: u8 = 4;

/// What `base64::Engine::encode` of `URL_SAFE_NO_PAD` gives for these bytes.
pub uninterp spec fn base64url(data: Seq<u8>) -> Seq<u8>;

/// What `base64::Engine::decode` of `URL_SAFE_NO_PAD` gives for this text:
/// the bytes, or nothing where it reports an error.
pub uninterp spec fn base64url_decode(text: Seq<u8>) -> Option<Seq<u8>>;

/// One of the 64 symbols of the encoding: a letter, a digit, `-` or `_`.
pub open spec fn is_symbol(byte: u8) -> bool {
    ||| 0x41 <= byte <= 0x5a
    ||| 0x61 <= byte <= 0x7a
    ||| 0x30 <= byte <= 0x39
    ||| byte == 0x2d
    ||| byte == 0x5f
}

/// How long the encoding of `len` bytes is: four symbols for every three
/// bytes, and two or three for the one or two bytes left over.
pub open spec fn encoded_len(len: nat) -> nat {
    len / 3 * 4 + if len % 3 == 0 {
        0
    } else {
        len % 3 + 1
    }
}

/// The frame that carries a payload.
pub open spec fn frame_of(payload: Seq<u8>) -> Seq<u8> {
    base64url(payload).push(EOT)
}

/// Where the first delimiter stands.
pub open spec fn first_eot(bytes: Seq<u8>) -> Option<int> {
    first_index(bytes, EOT)
}

/// `base64::Engine::encode` on `base64::engine::general_purpose::URL_SAFE_NO_PAD`:
/// the encoding of the bytes. It is made of symbols of the URL-safe alphabet
/// only, without padding, has the length that the crate's `encoded_len`
/// computes, and decodes to the bytes it was made from. The call panics
/// where that length does not fit in `usize`.
#[verifier::external_body]
fn encode_base64(data: &[u8]) -> (text: Vec<u8>)
    requires
        encoded_len(data@.len()) <= usize::MAX,
    ensures
        text@ == base64url(data@),
        text@.len() == encoded_len(data@.len()),
        forall|i: int| 0 <= i < text@.len() ==> is_symbol(#[trigger] text@[i]),
        base64url_decode(text@) == Some(data@),
{
    base64::Engine::encode(&base64::engine::general_purpose::URL_SAFE_NO_PAD, data).into_bytes()
}

/// `base64::Engine::decode` on `base64::engine::general_purpose::URL_SAFE_NO_PAD`:
/// the bytes that the text encodes, or nothing where the crate reports an
/// error. The engine takes padding and set trailing bits for errors, so
/// what it decodes is the encoding of the bytes it gives.
#[verifier::external_body]
fn decode_base64(text: &[u8]) -> (data: Option<Vec<u8>>)
    ensures
        data is Some <==> base64url_decode(text@) is Some,
        data matches Some(bytes) ==> base64url_decode(text@) == Some(bytes@) && base64url(bytes@) == text@,
{
    base64::Engine::decode(&base64::engine::general_purpose::URL_SAFE_NO_PAD, text).ok()
}

/// Whether a payload of `len` bytes has an encoding that fits in memory.
pub fn can_encode(len: usize) -> (r: bool)
    ensures
        r == (encoded_len(len as nat) <= usize::MAX),
{
    let groups: usize = len / 3;
    let rest: usize = if len % 3 == 0 { 0 } else { len % 3 + 1 };
    groups <= (usize::MAX - rest) / 4
}

/// Ends an encoded message with the delimiter.
pub fn seal(encoded: Vec<u8>) -> (frame: Vec<u8>)
    ensures
        frame@ == encoded@.push(EOT),
{
    let mut frame = encoded;
    frame.push(EOT);
    frame
}

/// The frame that carries a payload: its encoding and the delimiter. The
/// delimiter is the frame's last byte and stands nowhere else in it.
pub fn encode_frame(payload: &[u8]) -> (frame: Vec<u8>)
    requires
        encoded_len(payload@.len()) <= usize::MAX,
    ensures
        frame@ == frame_of(payload@),
        frame@.len() == encoded_len(payload@.len()) + 1,
        first_eot(frame@) == Some(frame@.len() - 1),
        base64url_decode(frame@.drop_last()) == Some(payload@),
{
    let text = encode_base64(payload);
    let frame = seal(text);
    proof {
        assert(frame@.drop_last() =~= text@);
        let last = frame@.len() - 1;
        assert(frame@[last] == EOT);
        assert forall|j: int| 0 <= j < last implies frame@[j] != EOT by {
            assert(is_symbol(text@[j]));
        }
        lemma_first_index_is(frame@, EOT, last);
    }
    frame
}

/// The frame that carries a payload, unless the payload is too long for
/// its encoding to fit in memory.
pub fn checked_encode_frame(payload: &[u8]) -> (r: Option<Vec<u8>>)
    ensures
        r is Some <==> encoded_len(payload@.len()) <= usize::MAX,
        r matches Some(frame) ==> frame@ == frame_of(payload@) && first_eot(frame@) == Some(frame@.len() - 1),
{
    if can_encode(payload.len()) {
        Some(encode_frame(payload))
    } else {
        None
    }
}

/// The payload that a frame carries, from the frame without its delimiter.
/// A frame that is no encoding is refused; one that is accepted is the
/// encoding of its payload.
pub fn decode_frame(frame: &[u8]) -> (r: Result<Vec<u8>, ProtocolError>)
    ensures
        r is Ok <==> base64url_decode(frame@) is Some,
        r matches Ok(payload) ==> base64url_decode(frame@) == Some(payload@) && base64url(payload@) == frame@,
        r matches Err(e) ==> e == ProtocolError::BadEncoding,
{
    match decode_base64(frame) {
        Some(payload) => Ok(payload),
        None => Err(ProtocolError::BadEncoding),
    }
}

/// What the server writes back: the frame of the response, or the bare
/// delimiter where there is no response.
pub fn reply_frame(response: Option<&[u8]>) -> (frame: Vec<u8>)
    requires
        response matches Some(payload) ==> encoded_len(payload@.len()) <= usize::MAX,
    ensures
        response matches Some(payload) ==> frame@ == frame_of(payload@),
        response is None ==> frame@ == seq![EOT],
        first_eot(frame@) == Some(frame@.len() - 1),
{
    match response {
        Some(payload) => encode_frame(payload),
        None => {
            let frame = seal(Vec::new());
            assert(frame@ =~= seq![EOT]);
            proof {
                lemma_first_index_is(frame@, EOT, 0);
            }
            frame
        },
    }
}

/// What was read up to and with the delimiter, without the delimiter; or
/// nothing where the bytes do not end with it.
pub fn strip_delimiter(raw: &[u8]) -> (r: Option<&[u8]>)
    ensures
        r is Some <==> raw@.len() > 0 && raw@.last() == EOT,
        r matches Some(frame) ==> frame@ == raw@.drop_last(),
{
    let len = raw.len();
    if len > 0 && raw[len - 1] == EOT {
        Some(slice_subrange(raw, 0, len - 1))
    } else {
        None
    }
}

/// What the client makes of the bytes it read up to and with the
/// delimiter: the payload of the response, or `None` where the server sent
/// the bare delimiter. Bytes that do not end with the delimiter are a frame
/// cut short, and are refused.
pub fn decode_reply(raw: &[u8]) -> (r: Result<Option<Vec<u8>>, ProtocolError>)
    ensures
        !(raw@.len() > 0 && raw@.last() == EOT) ==> r == Err::<Option<Vec<u8>>, ProtocolError>(
            ProtocolError::Truncated,
        ),
        raw@ == seq![EOT] ==> r == Ok::<Option<Vec<u8>>, ProtocolError>(None),
        raw@.len() > 1 && raw@.last() == EOT ==> (match base64url_decode(raw@.drop_last()) {
            Some(payload) => r matches Ok(Some(bytes)) && bytes@ == payload && base64url(payload) == raw@.drop_last(),
            None => r == Err::<Option<Vec<u8>>, ProtocolError>(ProtocolError::BadEncoding),
        }),
{
    match strip_delimiter(raw) {
        None => Err(ProtocolError::Truncated),
        Some(frame) => {
            if frame.len() == 0 {
                assert(raw@ =~= seq![EOT]);
                Ok(None)
            } else {
                match decode_frame(frame) {
                    Ok(payload) => Ok(Some(payload)),
                    Err(e) => Err(e),
                }
            }
        },
    }
}

/// What the client makes of the bytes it read up to and with the
/// delimiter, where it needs a response: the payload of the response. The
/// bare delimiter is refused with `NoResponse`.
pub fn expect_reply(raw: &[u8]) -> (r: Result<Vec<u8>, ProtocolError>)
    ensures
        !(raw@.len() > 0 && raw@.last() == EOT) ==> r == Err::<Vec<u8>, ProtocolError>(ProtocolError::Truncated),
        raw@ == seq![EOT] ==> r == Err::<Vec<u8>, ProtocolError>(ProtocolError::NoResponse),
        raw@.len() > 1 && raw@.last() == EOT ==> (match base64url_decode(raw@.drop_last()) {
            Some(payload) => r matches Ok(bytes) && bytes@ == payload && base64url(payload) == raw@.drop_last(),
            None => r == Err::<Vec<u8>, ProtocolError>(ProtocolError::BadEncoding),
        }),
{
    match decode_reply(raw) {
        Ok(Some(payload)) => Ok(payload),
        Ok(None) => Err(ProtocolError::NoResponse),
        Err(e) => Err(e),
    }
}

/// The complete frames among the bytes, each without its delimiter, in
/// their order.
pub open spec fn frames_in(bytes: Seq<u8>) -> Seq<Seq<u8>>
    decreases bytes.len(),
{
    match first_eot(bytes) {
        Some(i) => if 0 <= i < bytes.len() {
            seq![bytes.take(i)] + frames_in(bytes.skip(i + 1))
        } else {
            Seq::empty()
        },
        None => Seq::empty(),
    }
}

/// What follows the last complete frame: the beginning of a frame whose
/// delimiter has not come yet.
pub open spec fn left_over(bytes: Seq<u8>) -> Seq<u8>
    decreases bytes.len(),
{
    match first_eot(bytes) {
        Some(i) => if 0 <= i < bytes.len() {
            left_over(bytes.skip(i + 1))
        } else {
            bytes
        },
        None => bytes,
    }
}

/// Bytes without a delimiter hold no frame: a frame that is cut short
/// before its delimiter is kept back and handed to nobody.
pub proof fn lemma_no_delimiter_no_frame(bytes: Seq<u8>)
    requires
        !bytes.contains(EOT),
    ensures
        first_eot(bytes) is None,
        frames_in(bytes) == Seq::<Seq<u8>>::empty(),
        left_over(bytes) == bytes,
{
    lemma_first_index(bytes, EOT);
}

/// No frame holds a delimiter, and neither does what is left over.
pub proof fn lemma_frames_hold_no_delimiter(bytes: Seq<u8>)
    ensures
        forall|k: int| 0 <= k < frames_in(bytes).len() ==> !(#[trigger] frames_in(bytes)[k]).contains(EOT),
        !left_over(bytes).contains(EOT),
    decreases bytes.len(),
{
    lemma_first_index(bytes, EOT);
    match first_eot(bytes) {
        Some(i) => {
            lemma_frames_hold_no_delimiter(bytes.skip(i + 1));
            let later = frames_in(bytes.skip(i + 1));
            assert forall|k: int| 0 <= k < frames_in(bytes).len() implies !(#[trigger] frames_in(bytes)[k]).contains(
                EOT,
            ) by {
                if k > 0 {
                    assert(frames_in(bytes)[k] == later[k - 1]);
                }
            }
        },
        None => {},
    }
}

/// A frame in front of other bytes is the first frame among them.
pub proof fn lemma_frames_of_framed(frame: Seq<u8>, rest: Seq<u8>)
    requires
        !frame.contains(EOT),
    ensures
        frames_in(frame.push(EOT) + rest) == seq![frame] + frames_in(rest),
        left_over(frame.push(EOT) + rest) == left_over(rest),
{
    let bytes = frame.push(EOT) + rest;
    let at = frame.len() as int;
    assert forall|j: int| 0 <= j < at implies bytes[j] != EOT by {
        if bytes[j] == EOT {
            assert(frame[j] == EOT);
            assert(frame.contains(EOT));
        }
    }
    assert(bytes[at] == EOT);
    lemma_first_index_is(bytes, EOT, at);
    assert(bytes.take(at) =~= frame);
    assert(bytes.skip(at + 1) =~= rest);
}

/// Frames one after the other, each with its delimiter, as they go over
/// one connection.
pub open spec fn stream_of(frames: Seq<Seq<u8>>) -> Seq<u8>
    decreases frames.len(),
{
    if frames.len() == 0 {
        Seq::empty()
    } else {
        frames.first().push(EOT) + stream_of(frames.drop_first())
    }
}

/// What was sent over one connection frame after frame is taken apart into
/// the same frames, and nothing is left over.
pub proof fn lemma_frames_of_stream(frames: Seq<Seq<u8>>)
    requires
        forall|k: int| 0 <= k < frames.len() ==> !(#[trigger] frames[k]).contains(EOT),
    ensures
        frames_in(stream_of(frames)) == frames,
        left_over(stream_of(frames)) == Seq::<u8>::empty(),
    decreases frames.len(),
{
    if frames.len() == 0 {
        lemma_no_delimiter_no_frame(Seq::<u8>::empty());
        assert(frames =~= Seq::<Seq<u8>>::empty());
    } else {
        let later = frames.drop_first();
        assert forall|k: int| 0 <= k < later.len() implies !(#[trigger] later[k]).contains(EOT) by {
            assert(later[k] == frames[k + 1]);
        }
        lemma_frames_of_stream(later);
        lemma_frames_of_framed(frames.first(), stream_of(later));
        assert(seq![frames.first()] + later =~= frames);
    }
}

/// Bytes that come in two pieces hold the frames of the first piece and
/// then the frames of what that piece left over with the second.
pub proof fn lemma_frames_in_pieces(first: Seq<u8>, second: Seq<u8>)
    ensures
        frames_in(first + second) == frames_in(first) + frames_in(left_over(first) + second),
        left_over(first + second) == left_over(left_over(first) + second),
    decreases first.len(),
{
    lemma_first_index(first, EOT);
    match first_eot(first) {
        Some(i) => {
            let frame = first.take(i);
            let tail = first.skip(i + 1);
            assert(first =~= frame.push(EOT) + tail);
            assert(first + second =~= frame.push(EOT) + (tail + second));
            lemma_frames_of_framed(frame, tail);
            lemma_frames_of_framed(frame, tail + second);
            lemma_frames_in_pieces(tail, second);
            assert(seq![frame] + (frames_in(tail) + frames_in(left_over(tail) + second)) =~= (seq![frame]
                + frames_in(tail)) + frames_in(left_over(tail) + second));
        },
        None => {
            lemma_no_delimiter_no_frame(first);
            assert(frames_in(first) + frames_in(first + second) =~= frames_in(first + second));
        },
    }
}

/// The bytes that came over a connection and have not made a whole frame
/// yet.
#[derive(Debug, PartialEq, Eq)]
pub struct FrameBuffer {
    pub pending: Vec<u8>,
}

impl FrameBuffer {
    /// A buffer with nothing in it.
    pub fn new() -> (buffer: FrameBuffer)
        ensures
            buffer.pending@ == Seq::<u8>::empty(),
    {
        FrameBuffer { pending: Vec::new() }
    }

    /// Takes in bytes that were read from the connection.
    pub fn extend(&mut self, bytes: &[u8])
        ensures
            final(self).pending@ == old(self).pending@ + bytes@,
    {
        let mut i: usize = 0;
        while i < bytes.len()
            invariant
                i <= bytes@.len(),
                self.pending@ == old(self).pending@ + bytes@.take(i as int),
            decreases bytes@.len() - i,
        {
            self.pending.push(bytes[i]);
            assert(bytes@.take(i as int + 1) =~= bytes@.take(i as int).push(bytes@[i as int]));
            i += 1;
        }
        assert(bytes@.take(i as int) =~= bytes@);
    }

    /// Takes the first complete frame out of the buffer and returns it
    /// without its delimiter. Where no delimiter has come yet, the buffer
    /// stays as it is and nothing is returned.
    pub fn next_frame(&mut self) -> (r: Option<Vec<u8>>)
        ensures
            r is Some <==> first_eot(old(self).pending@) is Some,
            r is None ==> final(self).pending@ == old(self).pending@,
            r matches Some(frame) ==> {
                let at = first_eot(old(self).pending@)->0;
                &&& frame@ == old(self).pending@.take(at)
                &&& final(self).pending@ == old(self).pending@.skip(at + 1)
                &&& frames_in(old(self).pending@) == seq![frame@] + frames_in(final(self).pending@)
                &&& left_over(old(self).pending@) == left_over(final(self).pending@)
            },
    {
        proof {
            lemma_first_index(self.pending@, EOT);
        }
        match find_byte(self.pending.as_slice(), EOT) {
            Some(at) => {
                let len = self.pending.len();
                let frame = slice_to_vec(slice_subrange(self.pending.as_slice(), 0, at));
                let rest = slice_to_vec(slice_subrange(self.pending.as_slice(), at + 1, len));
                self.pending = rest;
                Some(frame)
            },
            None => None,
        }
    }
}

} // verus!
