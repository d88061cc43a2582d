use movebeam::config::{has_distinct_names, Activity, Config, TimerConfig};
use movebeam::display::{format_duration, notification};
use movebeam::mmss::{parse_mmss, parse_number, MmssError};
use movebeam::text::{bytes_eq, find_byte, str_eq};
use movebeam::time::Duration;
use movebeam::timer::FiredTimer;
use movebeam::{
    activity_daemon_socket, app_file_in, app_file_under, config_path, daemon_socket, ACTIVITY_DAEMON_NAME, APP_NAME,
    DAEMON_NAME,
};

#[test]
fn default_configuration() {
    let config = Config::default();
    assert_eq!(
        config.activity,
        Some(Activity {
            inactivity_pause: Some(Duration::from_secs(10)),
            inactivity_reset: Some(Duration::from_secs(300)),
        })
    );
    assert_eq!(
        config.timers,
        vec![
            TimerConfig {
                name: "move".to_string(),
                interval: Duration::from_secs(10),
                suggested: None,
                duration: Some(Duration::from_secs(60)),
                notify: true,
            },
            TimerConfig {
                name: "break".to_string(),
                interval: Duration::from_secs(7200),
                suggested: Some(Duration::from_secs(3300)),
                duration: Some(Duration::from_secs(600)),
                notify: true,
            },
        ]
    );
    assert!(has_distinct_names(&config.timers));
}

#[test]
fn names_are_compared_in_pairs() {
    let named = |name: &str| TimerConfig {
        name: name.to_string(),
        interval: Duration::zero(),
        suggested: None,
        duration: None,
        notify: false,
    };
    assert!(has_distinct_names(&vec![]));
    assert!(has_distinct_names(&vec![named("a")]));
    assert!(has_distinct_names(&vec![named("a"), named("b"), named("A"), named("")]));
    assert!(!has_distinct_names(&vec![named("a"), named("b"), named("c"), named("b")]));
    assert!(!has_distinct_names(&vec![named(""), named("")]));
    assert_eq!(named("a").clone(), named("a"));
}

#[test]
fn minutes_and_seconds_are_read() {
    assert_eq!(parse_mmss("02:30"), Ok(Duration::from_secs(150)));
    assert_eq!(parse_mmss("0:0"), Ok(Duration::zero()));
    assert_eq!(parse_mmss("120:00"), Ok(Duration::from_secs(7200)));
    assert_eq!(parse_mmss("1:90"), Ok(Duration::from_secs(150)));
    assert_eq!(parse_mmss("+1:+05"), Ok(Duration::from_secs(65)));
    assert_eq!(parse_mmss("0:18446744073709551615"), Ok(Duration::from_secs(u64::MAX)));
    assert_eq!(parse_mmss("307445734561825860:15"), Ok(Duration::from_secs(u64::MAX)));
}

#[test]
fn text_without_a_colon_is_refused() {
    assert_eq!(parse_mmss(""), Err(MmssError::MissingSplitter));
    assert_eq!(parse_mmss("150"), Err(MmssError::MissingSplitter));
    assert_eq!(parse_mmss("2.30"), Err(MmssError::MissingSplitter));
}

#[test]
fn minutes_that_are_no_number_are_refused() {
    assert_eq!(parse_mmss(":30"), Err(MmssError::BadMinutes));
    assert_eq!(parse_mmss("two:30"), Err(MmssError::BadMinutes));
    assert_eq!(parse_mmss("-2:30"), Err(MmssError::BadMinutes));
    assert_eq!(parse_mmss(" 2:30"), Err(MmssError::BadMinutes));
    assert_eq!(parse_mmss("+:30"), Err(MmssError::BadMinutes));
    assert_eq!(parse_mmss("18446744073709551616:00"), Err(MmssError::BadMinutes));
    assert_eq!(parse_mmss("٢:30"), Err(MmssError::BadMinutes));
    assert_eq!(parse_mmss("x:y"), Err(MmssError::BadMinutes));
}

#[test]
fn seconds_that_are_no_number_are_refused() {
    assert_eq!(parse_mmss("2:"), Err(MmssError::BadSeconds));
    assert_eq!(parse_mmss("2:3o"), Err(MmssError::BadSeconds));
    assert_eq!(parse_mmss("1:02:03"), Err(MmssError::BadSeconds));
    assert_eq!(parse_mmss("2:30 "), Err(MmssError::BadSeconds));
    assert_eq!(parse_mmss("2:18446744073709551616"), Err(MmssError::BadSeconds));
}

#[test]
fn span_of_too_many_seconds_is_refused() {
    assert_eq!(parse_mmss("307445734561825860:16"), Err(MmssError::TooLong));
    assert_eq!(parse_mmss("307445734561825861:00"), Err(MmssError::TooLong));
    assert_eq!(parse_mmss("1:18446744073709551615"), Err(MmssError::TooLong));
}

#[test]
fn numbers_are_read_as_std_reads_them() {
    let texts = [
        "", "+", "-", "0", "00", "007", "+0", "+42", "++42", "-42", "42+", "4 2", "18446744073709551615",
        "18446744073709551616", "99999999999999999999999", "000000000000000000000000000001", "1e3", "0x10", "١",
    ];
    for text in texts {
        assert_eq!(parse_number(text.as_bytes()), text.parse::<u64>().ok(), "{:?}", text);
    }
}

#[test]
fn clocks_show_minutes_and_seconds() {
    assert_eq!(format_duration(Duration::zero()), "00:00");
    assert_eq!(format_duration(Duration::from_secs(5)), "00:05");
    assert_eq!(format_duration(Duration::from_secs(65)), "01:05");
    assert_eq!(format_duration(Duration::new(599, 999_999_999)), "09:59");
    assert_eq!(format_duration(Duration::from_secs(600)), "10:00");
    assert_eq!(format_duration(Duration::from_secs(7200)), "120:00");
    assert_eq!(format_duration(Duration::from_secs(u64::MAX)), "307445734561825860:15");
}

#[test]
fn notification_names_the_timer() {
    let fired = FiredTimer { name: "move".to_string(), notify: true };
    assert_eq!(
        notification(&fired),
        Some(("Timer move went off".to_string(), "Time to take a break!".to_string()))
    );
    let quiet = FiredTimer { name: "move".to_string(), notify: false };
    assert_eq!(notification(&quiet), None);
}

#[test]
fn texts_are_compared_by_their_characters() {
    assert!(str_eq("", ""));
    assert!(str_eq("päuse", "päuse"));
    assert!(!str_eq("pause", "päuse"));
    assert!(!str_eq("move", "move "));
    assert!(!str_eq("move", "Move"));
    assert!(bytes_eq(&[1, 2, 3], &[1, 2, 3]));
    assert!(!bytes_eq(&[1, 2, 3], &[1, 2, 4]));
    assert!(!bytes_eq(&[1, 2, 3], &[1, 2]));
}

#[test]
fn first_place_of_a_byte() {
    assert_eq!(find_byte(b"a:b:c", b':'), Some(1));
    assert_eq!(find_byte(b":", b':'), Some(0));
    assert_eq!(find_byte(b"abc", b':'), None);
    assert_eq!(find_byte(b"", b':'), None);
}

#[test]
fn sockets_stand_in_the_application_directory() {
    assert_eq!(APP_NAME, "movebeam");
    assert_eq!(DAEMON_NAME, "moved");
    assert_eq!(ACTIVITY_DAEMON_NAME, "actived");
    assert_eq!(activity_daemon_socket(), "/run/movebeam/actived.sock");
    assert_eq!(app_file_in("/run/user/1000", "moved", "sock"), "/run/user/1000/movebeam/moved.sock");
    assert_eq!(app_file_in("/run/user/1000/", "moved", "sock"), "/run/user/1000/movebeam/moved.sock");
    assert_eq!(app_file_in("", "movebeam", "toml"), "movebeam/movebeam.toml");
    assert_eq!(app_file_in("/", "movebeam", "toml"), "/movebeam/movebeam.toml");
    assert_eq!(app_file_in("/home/é", "movebeam", "toml"), "/home/é/movebeam/movebeam.toml");
}

#[test]
fn file_under_a_directory_that_may_be_missing() {
    assert_eq!(
        app_file_under(Some("/run/user/1000".to_string()), "moved", "sock"),
        Some("/run/user/1000/movebeam/moved.sock".to_string())
    );
    assert_eq!(
        app_file_under(Some("/home/a/.config/".to_string()), "movebeam", "toml"),
        Some("/home/a/.config/movebeam/movebeam.toml".to_string())
    );
    assert_eq!(app_file_under(Some(String::new()), "moved", "sock"), Some("movebeam/moved.sock".to_string()));
    assert_eq!(app_file_under(None, "moved", "sock"), None);
}

#[test]
fn paths_from_the_environment_end_as_expected() {
    if let Some(path) = daemon_socket() {
        assert!(path.ends_with("movebeam/moved.sock"));
    }
    if let Some(path) = config_path() {
        assert!(path.ends_with("movebeam/movebeam.toml"));
    }
}
