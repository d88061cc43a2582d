use movebeam::cli::CliCommand;
use movebeam::msg::{ActivityMessage, Encoding, Message, ProtocolError, Response, ResponseError, TimerInfo};
use movebeam::time::Duration;

fn info(elapsed: u64, interval: u64) -> TimerInfo {
    TimerInfo { elapsed: Duration::from_secs(elapsed), interval: Duration::from_secs(interval) }
}

fn every_message() -> Vec<Message> {
    vec![
        Message::List,
        Message::Get("move".to_string()),
        Message::Get(String::new()),
        Message::Reset("päuse ☕".to_string()),
        Message::ResetAll,
        Message::Running,
    ]
}

fn every_response() -> Vec<Response> {
    vec![
        Response::Done,
        Response::Duration(Duration::new(u64::MAX, 999_999_999)),
        Response::Duration(Duration::zero()),
        Response::Timer(info(3, 10)),
        Response::List(vec![]),
        Response::List(vec![("move".to_string(), info(3, 10)), ("break".to_string(), info(0, 7200))]),
        Response::Error(ResponseError::NotFound),
    ]
}

#[test]
fn message_forms_byte_for_byte() {
    assert_eq!(Message::List.encode(), vec![0]);
    assert_eq!(
        Message::Get("move".to_string()).encode(),
        vec![1, 4, 0, 0, 0, 0, 0, 0, 0, b'm', b'o', b'v', b'e']
    );
    assert_eq!(Message::Reset("é".to_string()).encode(), vec![2, 2, 0, 0, 0, 0, 0, 0, 0, 0xc3, 0xa9]);
    assert_eq!(Message::ResetAll.encode(), vec![3]);
    assert_eq!(Message::Running.encode(), vec![4]);
}

#[test]
fn response_forms_byte_for_byte() {
    assert_eq!(Response::Done.encode(), vec![0]);
    assert_eq!(
        Response::Duration(Duration::new(0x0102, 0x0304)).encode(),
        vec![1, 2, 1, 0, 0, 0, 0, 0, 0, 4, 3, 0, 0]
    );
    assert_eq!(
        Response::Timer(info(3, 10)).encode(),
        vec![2, 3, 0, 0, 0, 0, 0, 0, 0, 0, 0, 0, 0, 10, 0, 0, 0, 0, 0, 0, 0, 0, 0, 0, 0]
    );
    assert_eq!(Response::List(vec![]).encode(), vec![3, 0, 0, 0, 0, 0, 0, 0, 0]);
    let mut list = vec![3, 1, 0, 0, 0, 0, 0, 0, 0, 1, 0, 0, 0, 0, 0, 0, 0, b'a'];
    list.extend([3, 0, 0, 0, 0, 0, 0, 0, 0, 0, 0, 0, 10, 0, 0, 0, 0, 0, 0, 0, 0, 0, 0, 0]);
    assert_eq!(Response::List(vec![("a".to_string(), info(3, 10))]).encode(), list);
    assert_eq!(Response::Error(ResponseError::NotFound).encode(), vec![4, 0]);
}

#[test]
fn every_message_is_read_back_from_its_form() {
    for message in every_message() {
        assert_eq!(Message::decode(&message.encode()), Ok(message));
    }
}

#[test]
fn every_response_is_read_back_from_its_form() {
    for response in every_response() {
        assert_eq!(Response::decode(&response.encode()), Ok(response));
    }
}

#[test]
fn decoded_bytes_encode_to_themselves() {
    let frames: Vec<Vec<u8>> = vec![
        vec![0],
        vec![3],
        vec![4],
        vec![1, 0, 0, 0, 0, 0, 0, 0, 0],
        vec![2, 3, 0, 0, 0, 0, 0, 0, 0, 0xe2, 0x98, 0x95],
    ];
    for frame in frames {
        let message = Message::decode(&frame).unwrap();
        assert_eq!(message.encode(), frame);
    }
    let frames: Vec<Vec<u8>> = vec![vec![0], vec![4, 0], vec![1, 9, 0, 0, 0, 0, 0, 0, 0, 0xff, 0xc9, 0x9a, 0x3b]];
    for frame in frames {
        let response = Response::decode(&frame).unwrap();
        assert_eq!(response.encode(), frame);
    }
}

#[test]
fn message_decode_refuses_what_is_no_form() {
    let bad: Vec<Vec<u8>> = vec![
        vec![],
        vec![5],
        vec![255],
        vec![0, 0],
        vec![3, 0],
        vec![4, 0],
        vec![1],
        vec![1, 4, 0, 0, 0, 0, 0, 0],
        vec![1, 4, 0, 0, 0, 0, 0, 0, 0, b'm', b'o', b'v'],
        vec![1, 4, 0, 0, 0, 0, 0, 0, 0, b'm', b'o', b'v', b'e', b'!'],
        vec![1, 255, 255, 255, 255, 255, 255, 255, 255, b'm'],
        vec![2, 1, 0, 0, 0, 0, 0, 0, 0, 0xff],
        vec![2, 2, 0, 0, 0, 0, 0, 0, 0, 0xc3, 0x28],
        vec![2, 3, 0, 0, 0, 0, 0, 0, 0, 0xed, 0xa0, 0x80],
        vec![2, 2, 0, 0, 0, 0, 0, 0, 0, 0xc0, 0x80],
        vec![2, 3, 0, 0, 0, 0, 0, 0, 0, 0xe0, 0x80, 0x80],
        vec![2, 4, 0, 0, 0, 0, 0, 0, 0, 0xf0, 0x80, 0x80, 0x80],
        vec![2, 4, 0, 0, 0, 0, 0, 0, 0, 0xf4, 0x90, 0x80, 0x80],
        vec![2, 4, 0, 0, 0, 0, 0, 0, 0, 0xf5, 0x80, 0x80, 0x80],
        vec![2, 2, 0, 0, 0, 0, 0, 0, 0, 0xe2, 0x98],
        vec![2, 1, 0, 0, 0, 0, 0, 0, 0, 0x80],
    ];
    for bytes in bad {
        assert_eq!(Message::decode(&bytes), Err(ProtocolError::BadMessage));
    }
}

#[test]
fn response_decode_refuses_what_is_no_form() {
    let mut short_list = vec![3, 2, 0, 0, 0, 0, 0, 0, 0, 1, 0, 0, 0, 0, 0, 0, 0, b'a'];
    short_list.extend([0; 24]);
    let mut long_list = vec![3, 0, 0, 0, 0, 0, 0, 0, 0, 1, 0, 0, 0, 0, 0, 0, 0, b'a'];
    long_list.extend([0; 24]);
    let bad: Vec<Vec<u8>> = vec![
        vec![],
        vec![5],
        vec![0, 0],
        vec![1],
        vec![1, 0, 0, 0, 0, 0, 0, 0, 0, 0, 0, 0],
        vec![1, 0, 0, 0, 0, 0, 0, 0, 0, 0, 0xca, 0x9a, 0x3b],
        vec![1, 0, 0, 0, 0, 0, 0, 0, 0, 0, 0, 0, 0, 0],
        vec![2, 0, 0, 0, 0, 0, 0, 0, 0, 0, 0, 0, 0],
        vec![3],
        vec![3, 1, 0, 0, 0, 0, 0, 0, 0],
        vec![3, 255, 255, 255, 255, 255, 255, 255, 255],
        short_list,
        long_list,
        vec![4],
        vec![4, 1],
        vec![4, 0, 0],
    ];
    for bytes in bad {
        assert_eq!(Response::decode(&bytes), Err(ProtocolError::BadMessage));
    }
}

#[test]
fn names_at_the_edges_of_utf8_are_read_back() {
    let names =
        ["\u{7f}", "\u{80}", "\u{7ff}", "\u{800}", "\u{d7ff}", "\u{e000}", "\u{ffff}", "\u{10000}", "\u{10ffff}"];
    for name in names {
        let message = Message::Get(name.to_string());
        assert_eq!(Message::decode(&message.encode()), Ok(message));
    }
}

#[test]
fn duration_form_is_seconds_then_nanoseconds() {
    let d = Duration::new(1, 2);
    assert_eq!(d.encode(), vec![1, 0, 0, 0, 0, 0, 0, 0, 2, 0, 0, 0]);
    assert_eq!(Duration::decode(&d.encode()), Ok(d));
    assert_eq!(Duration::decode(&[1, 0, 0, 0, 0, 0, 0, 0, 2, 0, 0]), Err(ProtocolError::BadMessage));
    assert_eq!(Duration::decode(&[1, 0, 0, 0, 0, 0, 0, 0, 2, 0, 0, 0, 0]), Err(ProtocolError::BadMessage));
    assert_eq!(
        Duration::decode(&[1, 0, 0, 0, 0, 0, 0, 0, 0, 0xca, 0x9a, 0x3b]),
        Err(ProtocolError::BadMessage)
    );
}

#[test]
fn activity_message_is_one_byte() {
    assert_eq!(ActivityMessage::Get.encode(), vec![0]);
    assert_eq!(ActivityMessage::decode(&[0]), Ok(ActivityMessage::Get));
    assert_eq!(ActivityMessage::decode(&[]), Err(ProtocolError::BadMessage));
    assert_eq!(ActivityMessage::decode(&[1]), Err(ProtocolError::BadMessage));
    assert_eq!(ActivityMessage::decode(&[0, 0]), Err(ProtocolError::BadMessage));
}

#[test]
fn commands_become_requests() {
    assert_eq!(Message::from(CliCommand::List), Message::List);
    assert_eq!(Message::from(CliCommand::Get { name: "a".to_string() }), Message::Get("a".to_string()));
    let bar = CliCommand::Bar {
        name: "b".to_string(),
        size: 16,
        fill: "#".to_string(),
        empty: ".".to_string(),
        left: "[".to_string(),
        right: "]".to_string(),
        blink: true,
    };
    assert_eq!(Message::from(bar.clone()), Message::Get("b".to_string()));
    assert_eq!(bar.clone(), bar);
    assert_eq!(Message::from(CliCommand::Reset { name: "c".to_string() }), Message::Reset("c".to_string()));
    assert_eq!(Message::from(CliCommand::ResetAll), Message::ResetAll);
    let message: Message = CliCommand::Running.into();
    assert_eq!(message, Message::Running);
}
