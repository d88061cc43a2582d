use movebeam::input_listener::{parse_event, skip_reply, InputEvent, ParseError};

fn item(kind: u8, detail: u8) -> Vec<u8> {
    let mut data = vec![0u8; 32];
    data[0] = kind;
    data[1] = detail;
    data
}

#[test]
fn keys_and_buttons_give_their_code() {
    let mut data = item(2, 38);
    data.extend([7, 8, 9]);
    assert_eq!(parse_event(&data), Ok((&[7u8, 8, 9][..], Some(InputEvent::KeyDown(38)))));
    assert_eq!(parse_event(&item(3, 38)), Ok((&[][..], Some(InputEvent::KeyUp(38)))));
    assert_eq!(parse_event(&item(4, 1)), Ok((&[][..], Some(InputEvent::MouseDown(1)))));
    assert_eq!(parse_event(&item(5, 3)), Ok((&[][..], Some(InputEvent::MouseUp(3)))));
}

#[test]
fn motion_gives_the_place_on_the_root_window() {
    let mut data = item(6, 0);
    data[20..22].copy_from_slice(&(-300i16).to_ne_bytes());
    data[22..24].copy_from_slice(&(1234i16).to_ne_bytes());
    data[24..26].copy_from_slice(&(55i16).to_ne_bytes());
    data.push(99);
    assert_eq!(parse_event(&data), Ok((&[99u8][..], Some(InputEvent::MouseMove { x: -300, y: 1234 }))));
}

#[test]
fn other_events_are_passed_over() {
    let mut data = item(7, 1);
    data.extend(item(2, 5));
    let (rest, event) = parse_event(&data).unwrap();
    assert_eq!(event, None);
    assert_eq!(rest, &item(2, 5)[..]);
    assert_eq!(parse_event(&item(1, 0)), Ok((&[][..], None)));
    assert_eq!(parse_event(&item(255, 0)), Ok((&[][..], None)));
}

#[test]
fn replies_are_passed_over_by_their_length() {
    let mut data = item(0, 0);
    data[4..8].copy_from_slice(&2u32.to_ne_bytes());
    data.extend([1, 2, 3, 4, 5, 6, 7, 8]);
    data.extend([42, 43]);
    assert_eq!(parse_event(&data), Ok((&[42u8, 43][..], None)));
    assert_eq!(parse_event(&item(0, 0)), Ok((&[][..], None)));
}

#[test]
fn data_that_ends_early_is_refused() {
    assert_eq!(parse_event(&[]), Err(ParseError::InsufficientData));
    for kind in [0u8, 1, 2, 3, 4, 5, 6, 7, 200] {
        let data = item(kind, 0);
        assert_eq!(parse_event(&data[..1]), Err(ParseError::InsufficientData));
        assert_eq!(parse_event(&data[..7]), Err(ParseError::InsufficientData));
        assert_eq!(parse_event(&data[..31]), Err(ParseError::InsufficientData));
    }
    let mut reply = item(0, 0);
    reply[4..8].copy_from_slice(&1u32.to_ne_bytes());
    reply.extend([1, 2, 3]);
    assert_eq!(parse_event(&reply), Err(ParseError::InsufficientData));
    reply[4..8].copy_from_slice(&u32::MAX.to_ne_bytes());
    assert_eq!(parse_event(&reply), Err(ParseError::InsufficientData));
}

#[test]
fn skip_reply_counts_words_of_four_bytes() {
    let data: Vec<u8> = (0..40u8).collect();
    assert_eq!(skip_reply(&data, 0), Ok(&data[32..]));
    assert_eq!(skip_reply(&data, 1), Ok(&data[36..]));
    assert_eq!(skip_reply(&data, 2), Ok(&data[40..]));
    assert_eq!(skip_reply(&data, 3), Err(ParseError::InsufficientData));
    assert_eq!(skip_reply(&data, u32::MAX), Err(ParseError::InsufficientData));
    assert_eq!(skip_reply(&data[..31], 0), Err(ParseError::InsufficientData));
}

#[test]
fn events_are_taken_one_after_the_other() {
    let mut data = item(2, 10);
    data.extend(item(6, 0));
    data.extend(item(33, 0));
    data.extend(item(5, 2));
    let mut rest = &data[..];
    let mut events = vec![];
    while !rest.is_empty() {
        let (after, event) = parse_event(rest).unwrap();
        events.push(event);
        rest = after;
    }
    assert_eq!(
        events,
        vec![
            Some(InputEvent::KeyDown(10)),
            Some(InputEvent::MouseMove { x: 0, y: 0 }),
            None,
            Some(InputEvent::MouseUp(2)),
        ]
    );
}
