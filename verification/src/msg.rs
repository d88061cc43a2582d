//! The messages that clients and the daemon exchange.

use crate::time::Duration;
use crate::wire::{
    entry_fits, lemma_parse_ser_duration, lemma_parse_ser_entries, lemma_parse_ser_info, lemma_parse_ser_text,
    lemma_parse_ser_u64, lemma_ser_parse_duration, lemma_ser_parse_entries, lemma_ser_parse_info,
    lemma_ser_parse_text, lemma_ser_parse_u64, parse_duration, parse_entries, parse_info, parse_text, parse_u64,
    read_duration, read_info, read_text, read_u64, ser_duration, ser_entries, ser_entry, ser_info, ser_text,
    ser_u64, text_fits, write_duration, write_info, write_text, write_u64, EntryModel,
};
use vstd::prelude::*;

verus! {

/// What a client asks of the activity daemon.
#[derive(Clone, Copy, Debug, PartialEq, Eq, Structural)]
pub enum ActivityMessage {
    /// How long ago the last input was.
    Get,
}

/// What a client asks of the timer daemon.
#[derive(Debug, PartialEq, Eq)]
pub enum Message {
    /// Every timer with its clock.
    List,
    /// The clock of the timer of this name.
    Get(String),
    /// Set the timer of this name back to zero.
    Reset(String),
    /// Set every timer back to zero.
    ResetAll,
    /// How long the daemon has been running.
    Running,
}

/// A timer's clock and the interval it counts towards.
#[derive(Clone, Copy, Debug, PartialEq, Eq, Structural)]
pub struct TimerInfo {
    pub elapsed: Duration,
    pub interval: Duration,
}

/// Why a request could not be answered.
#[derive(Clone, Copy, Debug, PartialEq, Eq, Structural)]
pub enum ResponseError {
    /// No timer has the name that the request gave.
    NotFound,
}

/// What the timer daemon answers.
#[derive(Debug, PartialEq, Eq)]
pub enum Response {
    /// The request was carried out; there is nothing to report.
    Done,
    /// A span of time.
    Duration(Duration),
    /// One timer.
    Timer(TimerInfo),
    /// Every timer by name, in the order of the configuration.
    List(Vec<(String, TimerInfo)>),
    /// The request failed.
    Error(ResponseError),
}

impl Clone for Message {
    fn clone(&self) -> (r: Message)
        ensures
            r == *self,
    {
        match self {
            Message::List => Message::List,
            Message::Get(name) => Message::Get(name.clone()),
            Message::Reset(name) => Message::Reset(name.clone()),
            Message::ResetAll => Message::ResetAll,
            Message::Running => Message::Running,
        }
    }
}

impl Clone for Response {
    fn clone(&self) -> (r: Response)
        ensures
            r@ == self@,
    {
        match self {
            Response::Done => Response::Done,
            Response::Duration(d) => Response::Duration(*d),
            Response::Timer(info) => Response::Timer(*info),
            Response::List(entries) => {
                let mut copy: Vec<(String, TimerInfo)> = Vec::new();
                let mut i: usize = 0;
                while i < entries.len()
                    invariant
                        i <= entries@.len(),
                        copy@ == entries@.take(i as int),
                    decreases entries@.len() - i,
                {
                    copy.push((entries[i].0.clone(), entries[i].1));
                    assert(entries@.take(i as int + 1) =~= entries@.take(i as int).push(entries@[i as int]));
                    i += 1;
                }
                assert(entries@.take(i as int) =~= entries@);
                Response::List(copy)
            },
            Response::Error(e) => Response::Error(*e),
        }
    }
}

/// A request with its names as sequences of characters.
pub enum MessageModel {
    List,
    Get(Seq<char>),
    Reset(Seq<char>),
    ResetAll,
    Running,
}

/// An answer with its names as sequences of characters.
pub enum ResponseModel {
    Done,
    Duration(Duration),
    Timer(TimerInfo),
    List(Seq<(Seq<char>, TimerInfo)>),
    Error(ResponseError),
}

/// The entries of a list with their names as sequences of characters.
pub open spec fn entries_view(entries: Seq<(String, TimerInfo)>) -> Seq<(Seq<char>, TimerInfo)> {
    entries.map_values(|e: (String, TimerInfo)| (e.0@, e.1))
}

impl View for Message {
    type V = MessageModel;

    open spec fn view(&self) -> MessageModel {
        match self {
            Message::List => MessageModel::List,
            Message::Get(name) => MessageModel::Get(name@),
            Message::Reset(name) => MessageModel::Reset(name@),
            Message::ResetAll => MessageModel::ResetAll,
            Message::Running => MessageModel::Running,
        }
    }
}

impl View for Response {
    type V = ResponseModel;

    open spec fn view(&self) -> ResponseModel {
        match self {
            Response::Done => ResponseModel::Done,
            Response::Duration(d) => ResponseModel::Duration(*d),
            Response::Timer(info) => ResponseModel::Timer(*info),
            Response::List(entries) => ResponseModel::List(entries_view(entries@)),
            Response::Error(e) => ResponseModel::Error(*e),
        }
    }
}

/// Why bytes that came over the socket are refused.
#[derive(Clone, Copy, Debug, PartialEq, Eq, Structural)]
pub enum ProtocolError {
    /// The frame ends before its delimiter.
    Truncated,
    /// The server sent the bare delimiter: it had no response.
    NoResponse,
    /// The frame is no text-safe encoding of anything.
    BadEncoding,
    /// The bytes are not the form of any value of the kind expected.
    BadMessage,
}

/// The form of a request: one byte that tells the kind (0 `List`, 1 `Get`,
/// 2 `Reset`, 3 `ResetAll`, 4 `Running`), then the name where there is one.
pub open spec fn ser_message(message: MessageModel) -> Seq<u8> {
    match message {
        MessageModel::List => seq![0u8],
        MessageModel::Get(name) => seq![1u8] + ser_text(name),
        MessageModel::Reset(name) => seq![2u8] + ser_text(name),
        MessageModel::ResetAll => seq![3u8],
        MessageModel::Running => seq![4u8],
    }
}

/// The form of an answer: one byte that tells the kind (0 `Done`,
/// 1 `Duration`, 2 `Timer`, 3 `List`, 4 `Error`), then what it holds. A list
/// is the number of its entries in 8 bytes and then the entries; the error
/// `NotFound` is the byte 0.
pub open spec fn ser_response(response: ResponseModel) -> Seq<u8> {
    match response {
        ResponseModel::Done => seq![0u8],
        ResponseModel::Duration(d) => seq![1u8] + ser_duration(d),
        ResponseModel::Timer(info) => seq![2u8] + ser_info(info),
        ResponseModel::List(entries) => seq![3u8] + ser_u64(entries.len() as u64) + ser_entries(entries),
        ResponseModel::Error(ResponseError::NotFound) => seq![4u8, 0u8],
    }
}

/// The request is one that has a form to be read back from.
pub open spec fn message_fits(message: MessageModel) -> bool {
    match message {
        MessageModel::Get(name) => text_fits(name),
        MessageModel::Reset(name) => text_fits(name),
        _ => true,
    }
}

/// The answer is one that has a form to be read back from: its spans of
/// time are canonical, and its names and its list are not too long to have
/// their lengths written down.
pub open spec fn response_fits(response: ResponseModel) -> bool {
    match response {
        ResponseModel::Duration(d) => d.wf(),
        ResponseModel::Timer(info) => info.elapsed.wf() && info.interval.wf(),
        ResponseModel::List(entries) => entries.len() <= u64::MAX && forall|i: int|
            0 <= i < entries.len() ==> entry_fits(#[trigger] entries[i]),
        _ => true,
    }
}

/// The request that the bytes are the form of, if they are one.
pub open spec fn decode_message(bytes: Seq<u8>) -> Option<MessageModel> {
    if bytes.len() == 0 {
        None
    } else if bytes[0] == 0 && bytes.len() == 1 {
        Some(MessageModel::List)
    } else if bytes[0] == 1 {
        match parse_text(bytes.skip(1)) {
            Some((name, rest)) => if rest.len() == 0 {
                Some(MessageModel::Get(name))
            } else {
                None
            },
            None => None,
        }
    } else if bytes[0] == 2 {
        match parse_text(bytes.skip(1)) {
            Some((name, rest)) => if rest.len() == 0 {
                Some(MessageModel::Reset(name))
            } else {
                None
            },
            None => None,
        }
    } else if bytes[0] == 3 && bytes.len() == 1 {
        Some(MessageModel::ResetAll)
    } else if bytes[0] == 4 && bytes.len() == 1 {
        Some(MessageModel::Running)
    } else {
        None
    }
}

/// The answer that the bytes are the form of, if they are one.
pub open spec fn decode_response(bytes: Seq<u8>) -> Option<ResponseModel> {
    if bytes.len() == 0 {
        None
    } else if bytes[0] == 0 && bytes.len() == 1 {
        Some(ResponseModel::Done)
    } else if bytes[0] == 1 {
        match parse_duration(bytes.skip(1)) {
            Some((d, rest)) => if rest.len() == 0 {
                Some(ResponseModel::Duration(d))
            } else {
                None
            },
            None => None,
        }
    } else if bytes[0] == 2 {
        match parse_info(bytes.skip(1)) {
            Some((info, rest)) => if rest.len() == 0 {
                Some(ResponseModel::Timer(info))
            } else {
                None
            },
            None => None,
        }
    } else if bytes[0] == 3 {
        match parse_u64(bytes.skip(1)) {
            Some((count, rest)) => match parse_entries(rest, count as nat) {
                Some((entries, rest)) => if rest.len() == 0 {
                    Some(ResponseModel::List(entries))
                } else {
                    None
                },
                None => None,
            },
            None => None,
        }
    } else if bytes[0] == 4 && bytes.len() == 2 && bytes[1] == 0 {
        Some(ResponseModel::Error(ResponseError::NotFound))
    } else {
        None
    }
}

/// A request is read back from its form.
pub proof fn lemma_message_round_trip(message: MessageModel)
    requires
        message_fits(message),
    ensures
        decode_message(ser_message(message)) == Some(message),
{
    let bytes = ser_message(message);
    match message {
        MessageModel::Get(name) => {
            lemma_parse_ser_text(name, Seq::empty());
            assert(bytes.skip(1) =~= ser_text(name) + Seq::<u8>::empty());
        },
        MessageModel::Reset(name) => {
            lemma_parse_ser_text(name, Seq::empty());
            assert(bytes.skip(1) =~= ser_text(name) + Seq::<u8>::empty());
        },
        _ => {},
    }
}

/// Bytes that a request is read from are the form of that request: no two
/// byte strings stand for the same request.
pub proof fn lemma_message_canonical(bytes: Seq<u8>)
    requires
        decode_message(bytes) is Some,
    ensures
        message_fits(decode_message(bytes).unwrap()),
        ser_message(decode_message(bytes).unwrap()) == bytes,
{
    let message = decode_message(bytes).unwrap();
    match message {
        MessageModel::Get(name) => {
            lemma_ser_parse_text(bytes.skip(1));
            assert(bytes =~= seq![1u8] + bytes.skip(1));
            assert(bytes.skip(1) =~= ser_text(name));
        },
        MessageModel::Reset(name) => {
            lemma_ser_parse_text(bytes.skip(1));
            assert(bytes =~= seq![2u8] + bytes.skip(1));
            assert(bytes.skip(1) =~= ser_text(name));
        },
        _ => {
            assert(bytes =~= ser_message(message));
        },
    }
}

/// An answer is read back from its form.
pub proof fn lemma_response_round_trip(response: ResponseModel)
    requires
        response_fits(response),
    ensures
        decode_response(ser_response(response)) == Some(response),
{
    let bytes = ser_response(response);
    match response {
        ResponseModel::Duration(d) => {
            lemma_parse_ser_duration(d, Seq::empty());
            assert(bytes.skip(1) =~= ser_duration(d) + Seq::<u8>::empty());
        },
        ResponseModel::Timer(info) => {
            lemma_parse_ser_info(info, Seq::empty());
            assert(bytes.skip(1) =~= ser_info(info) + Seq::<u8>::empty());
        },
        ResponseModel::List(entries) => {
            let count = entries.len() as u64;
            lemma_parse_ser_u64(count, ser_entries(entries));
            lemma_parse_ser_entries(entries, Seq::empty());
            assert(bytes.skip(1) =~= ser_u64(count) + ser_entries(entries));
            assert(ser_entries(entries) + Seq::<u8>::empty() =~= ser_entries(entries));
        },
        _ => {},
    }
}

/// Bytes that an answer is read from are the form of that answer: no two
/// byte strings stand for the same answer.
pub proof fn lemma_response_canonical(bytes: Seq<u8>)
    requires
        decode_response(bytes) is Some,
    ensures
        response_fits(decode_response(bytes).unwrap()),
        ser_response(decode_response(bytes).unwrap()) == bytes,
{
    let response = decode_response(bytes).unwrap();
    match response {
        ResponseModel::Duration(d) => {
            lemma_ser_parse_duration(bytes.skip(1));
            assert(bytes =~= seq![1u8] + bytes.skip(1));
            assert(bytes.skip(1) =~= ser_duration(d));
        },
        ResponseModel::Timer(info) => {
            lemma_ser_parse_info(bytes.skip(1));
            assert(bytes =~= seq![2u8] + bytes.skip(1));
            assert(bytes.skip(1) =~= ser_info(info));
        },
        ResponseModel::List(entries) => {
            lemma_ser_parse_u64(bytes.skip(1));
            let (count, rest) = parse_u64(bytes.skip(1)).unwrap();
            lemma_ser_parse_entries(rest, count as nat);
            assert(bytes =~= seq![3u8] + bytes.skip(1));
            assert(rest =~= ser_entries(entries));
            assert(bytes =~= seq![3u8] + ser_u64(entries.len() as u64) + ser_entries(entries));
        },
        _ => {
            assert(bytes =~= ser_response(response));
        },
    }
}

/// Two requests with the same form are the same request.
pub proof fn lemma_message_form_unique(a: MessageModel, b: MessageModel)
    requires
        message_fits(a),
        message_fits(b),
        ser_message(a) == ser_message(b),
    ensures
        a == b,
{
    lemma_message_round_trip(a);
    lemma_message_round_trip(b);
}

/// Two answers with the same form are the same answer.
pub proof fn lemma_response_form_unique(a: ResponseModel, b: ResponseModel)
    requires
        response_fits(a),
        response_fits(b),
        ser_response(a) == ser_response(b),
    ensures
        a == b,
{
    lemma_response_round_trip(a);
    lemma_response_round_trip(b);
}

/// Values that have a form in bytes.
pub trait Encoding<T> {
    /// The bytes that stand for the value.
    spec fn form(&self) -> Seq<u8>;

    /// The bytes are the form of this value.
    spec fn reads(bytes: Seq<u8>, value: T) -> bool;

    /// Reads the value that the bytes are the form of. Bytes that are the
    /// form of no value are refused.
    fn decode(bytes: &[u8]) -> (r: Result<T, ProtocolError>)
        ensures
            r matches Ok(value) ==> Self::reads(bytes@, value),
            r matches Err(e) ==> e == ProtocolError::BadMessage && forall|value: T| !Self::reads(bytes@, value),
    ;

    /// The bytes that stand for the value.
    fn encode(&self) -> (bytes: Vec<u8>)
        ensures
            bytes@ == self.form(),
    ;
}

impl Encoding<Duration> for Duration {
    open spec fn form(&self) -> Seq<u8> {
        ser_duration(*self)
    }

    open spec fn reads(bytes: Seq<u8>, value: Duration) -> bool {
        parse_duration(bytes) == Some((value, Seq::<u8>::empty()))
    }

    fn decode(bytes: &[u8]) -> (r: Result<Duration, ProtocolError>)
        ensures
            r is Ok <==> (parse_duration(bytes@) matches Some((_, rest)) && rest.len() == 0),
            r matches Ok(d) ==> ser_duration(d) == bytes@,
    {
        assert(bytes@.skip(0) =~= bytes@);
        proof {
            if parse_duration(bytes@) is Some {
                lemma_ser_parse_duration(bytes@);
                let (d, rest) = parse_duration(bytes@).unwrap();
                if rest.len() == 0 {
                    assert(ser_duration(d) + rest =~= ser_duration(d));
                }
            }
        }
        match read_duration(bytes, 0) {
            Some((d, next)) => {
                if next == bytes.len() {
                    assert(bytes@.skip(next as int) =~= Seq::<u8>::empty());
                    Ok(d)
                } else {
                    Err(ProtocolError::BadMessage)
                }
            },
            None => Err(ProtocolError::BadMessage),
        }
    }

    fn encode(&self) -> (bytes: Vec<u8>)
        ensures
            Self::reads(bytes@, *self),
    {
        let mut out: Vec<u8> = Vec::new();
        write_duration(&mut out, self);
        proof {
            use_type_invariant(self);
            lemma_parse_ser_duration(*self, Seq::empty());
            assert(out@ =~= ser_duration(*self) + Seq::<u8>::empty());
            assert(out@ =~= ser_duration(*self));
        }
        out
    }
}

impl Encoding<ActivityMessage> for ActivityMessage {
    /// The one request is the byte 0.
    open spec fn form(&self) -> Seq<u8> {
        seq![0u8]
    }

    open spec fn reads(bytes: Seq<u8>, value: ActivityMessage) -> bool {
        bytes == seq![0u8]
    }

    fn decode(bytes: &[u8]) -> (r: Result<ActivityMessage, ProtocolError>)
        ensures
            r is Ok <==> bytes@ == seq![0u8],
    {
        if bytes.len() == 1 && bytes[0] == 0 {
            assert(bytes@ =~= seq![0u8]);
            Ok(ActivityMessage::Get)
        } else {
            Err(ProtocolError::BadMessage)
        }
    }

    fn encode(&self) -> (bytes: Vec<u8>)
        ensures
            Self::reads(bytes@, *self),
    {
        let mut out: Vec<u8> = Vec::new();
        out.push(0u8);
        assert(out@ =~= seq![0u8]);
        out
    }
}

impl Encoding<Message> for Message {
    open spec fn form(&self) -> Seq<u8> {
        ser_message(self@)
    }

    open spec fn reads(bytes: Seq<u8>, value: Message) -> bool {
        decode_message(bytes) == Some(value@)
    }

    fn decode(bytes: &[u8]) -> (r: Result<Message, ProtocolError>)
        ensures
            r is Ok <==> decode_message(bytes@) is Some,
            r matches Ok(message) ==> ser_message(message@) == bytes@,
    {
        proof {
            if decode_message(bytes@) is Some {
                lemma_message_canonical(bytes@);
            }
        }
        if bytes.len() == 0 {
            return Err(ProtocolError::BadMessage);
        }
        let kind = bytes[0];
        if kind == 1 || kind == 2 {
            match read_text(bytes, 1) {
                Some((name, next)) => {
                    if next != bytes.len() {
                        Err(ProtocolError::BadMessage)
                    } else if kind == 1 {
                        Ok(Message::Get(name))
                    } else {
                        Ok(Message::Reset(name))
                    }
                },
                None => Err(ProtocolError::BadMessage),
            }
        } else if bytes.len() != 1 {
            Err(ProtocolError::BadMessage)
        } else if kind == 0 {
            Ok(Message::List)
        } else if kind == 3 {
            Ok(Message::ResetAll)
        } else if kind == 4 {
            Ok(Message::Running)
        } else {
            Err(ProtocolError::BadMessage)
        }
    }

    fn encode(&self) -> (bytes: Vec<u8>)
        ensures
            Self::reads(bytes@, *self),
    {
        let mut out: Vec<u8> = Vec::new();
        match self {
            Message::List => {
                out.push(0u8);
            },
            Message::Get(name) => {
                out.push(1u8);
                write_text(&mut out, name.as_str());
            },
            Message::Reset(name) => {
                out.push(2u8);
                write_text(&mut out, name.as_str());
            },
            Message::ResetAll => {
                out.push(3u8);
            },
            Message::Running => {
                out.push(4u8);
            },
        }
        proof {
            assert(out@ =~= ser_message(self@));
            lemma_message_round_trip(self@);
        }
        out
    }
}

/// Reads `count` entries of a list at `pos`.
fn read_entries(bytes: &[u8], pos: usize, count: u64) -> (r: Option<(Vec<(String, TimerInfo)>, usize)>)
    requires
        pos <= bytes@.len(),
    ensures
        r is Some <==> parse_entries(bytes@.skip(pos as int), count as nat) is Some,
        r matches Some((entries, next)) ==> pos <= next <= bytes@.len() && parse_entries(
            bytes@.skip(pos as int),
            count as nat,
        ) == Some((entries_view(entries@), bytes@.skip(next as int))),
{
    let ghost whole = parse_entries(bytes@.skip(pos as int), count as nat);
    let mut entries: Vec<(String, TimerInfo)> = Vec::new();
    let mut at: usize = pos;
    let mut done: u64 = 0;
    while done < count
        invariant
            done <= count,
            pos <= at <= bytes@.len(),
            whole == parse_entries(bytes@.skip(pos as int), count as nat),
            whole == (match parse_entries(bytes@.skip(at as int), (count - done) as nat) {
                Some((later, rest)) => Some((entries_view(entries@) + later, rest)),
                None => None,
            }),
        decreases count - done,
    {
        let ghost earlier = entries_view(entries@);
        let (name, next) = match read_text(bytes, at) {
            Some(found) => found,
            None => {
                return None;
            },
        };
        let (info, next) = match read_info(bytes, next) {
            Some(found) => found,
            None => {
                return None;
            },
        };
        let ghost entry: EntryModel = (name@, info);
        entries.push((name, info));
        proof {
            assert(entries_view(entries@) =~= earlier.push(entry));
            match parse_entries(bytes@.skip(next as int), (count - done - 1) as nat) {
                Some((later, rest)) => {
                    assert(earlier + (seq![entry] + later) =~= earlier.push(entry) + later);
                },
                None => {},
            }
        }
        at = next;
        done += 1;
    }
    proof {
        assert(entries_view(entries@) + Seq::<EntryModel>::empty() =~= entries_view(entries@));
    }
    Some((entries, at))
}

impl Encoding<Response> for Response {
    open spec fn form(&self) -> Seq<u8> {
        ser_response(self@)
    }

    open spec fn reads(bytes: Seq<u8>, value: Response) -> bool {
        decode_response(bytes) == Some(value@)
    }

    fn decode(bytes: &[u8]) -> (r: Result<Response, ProtocolError>)
        ensures
            r is Ok <==> decode_response(bytes@) is Some,
            r matches Ok(response) ==> ser_response(response@) == bytes@,
    {
        proof {
            if decode_response(bytes@) is Some {
                lemma_response_canonical(bytes@);
            }
        }
        if bytes.len() == 0 {
            return Err(ProtocolError::BadMessage);
        }
        let kind = bytes[0];
        if kind == 0 {
            if bytes.len() == 1 {
                Ok(Response::Done)
            } else {
                Err(ProtocolError::BadMessage)
            }
        } else if kind == 1 {
            match read_duration(bytes, 1) {
                Some((d, next)) => if next == bytes.len() {
                    Ok(Response::Duration(d))
                } else {
                    Err(ProtocolError::BadMessage)
                },
                None => Err(ProtocolError::BadMessage),
            }
        } else if kind == 2 {
            match read_info(bytes, 1) {
                Some((info, next)) => if next == bytes.len() {
                    Ok(Response::Timer(info))
                } else {
                    Err(ProtocolError::BadMessage)
                },
                None => Err(ProtocolError::BadMessage),
            }
        } else if kind == 3 {
            let (count, next) = match read_u64(bytes, 1) {
                Some(found) => found,
                None => {
                    return Err(ProtocolError::BadMessage);
                },
            };
            match read_entries(bytes, next, count) {
                Some((entries, next)) => if next == bytes.len() {
                    Ok(Response::List(entries))
                } else {
                    Err(ProtocolError::BadMessage)
                },
                None => Err(ProtocolError::BadMessage),
            }
        } else if kind == 4 {
            if bytes.len() == 2 && bytes[1] == 0 {
                Ok(Response::Error(ResponseError::NotFound))
            } else {
                Err(ProtocolError::BadMessage)
            }
        } else {
            Err(ProtocolError::BadMessage)
        }
    }

    fn encode(&self) -> (bytes: Vec<u8>)
        ensures
            Self::reads(bytes@, *self),
    {
        let mut out: Vec<u8> = Vec::new();
        match self {
            Response::Done => {
                out.push(0u8);
            },
            Response::Duration(d) => {
                out.push(1u8);
                write_duration(&mut out, d);
                proof {
                    use_type_invariant(d);
                }
            },
            Response::Timer(info) => {
                out.push(2u8);
                write_info(&mut out, info);
                proof {
                    use_type_invariant(&info.elapsed);
                    use_type_invariant(&info.interval);
                }
            },
            Response::List(entries) => {
                out.push(3u8);
                write_u64(&mut out, entries.len() as u64);
                let ghost head = out@;
                let ghost models = entries_view(entries@);
                assert(models.skip(0) =~= models);
                let mut i: usize = 0;
                while i < entries.len()
                    invariant
                        i <= entries@.len(),
                        models == entries_view(entries@),
                        out@ + ser_entries(models.skip(i as int)) == head + ser_entries(models),
                        forall|j: int| 0 <= j < i ==> entry_fits(#[trigger] models[j]),
                    decreases entries@.len() - i,
                {
                    let ghost before = out@;
                    let ghost rest = models.skip(i as int);
                    let info = entries[i].1;
                    write_text(&mut out, entries[i].0.as_str());
                    write_info(&mut out, &info);
                    proof {
                        use_type_invariant(&info.elapsed);
                        use_type_invariant(&info.interval);
                        assert(rest.first() == models[i as int]);
                        assert(rest.drop_first() =~= models.skip(i as int + 1));
                        assert(out@ =~= before + ser_entry(models[i as int]));
                        assert(out@ + ser_entries(models.skip(i as int + 1)) =~= before + ser_entries(rest));
                    }
                    i += 1;
                }
                proof {
                    assert(models.skip(i as int) =~= Seq::<EntryModel>::empty());
                    assert(out@ =~= head + ser_entries(models));
                }
            },
            Response::Error(e) => {
                out.push(4u8);
                out.push(0u8);
            },
        }
        proof {
            assert(out@ =~= ser_response(self@));
            lemma_response_round_trip(self@);
        }
        out
    }
}

} // verus!
