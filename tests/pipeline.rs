use barber::appointment::{to_appointments, Appointment};
use barber::clock::{clock_at, stamp, WallClock};
use barber::report::{report, TimestampError};
use barber::request::{check_status, request_headers, HeaderError, HttpStatusError, USER_AGENT};
use barber::response::{Availability, ResponseData, Segment};
use barber::settings::{ConfigError, SettingKind, Settings};

fn window(start: i64, end: i64, available: bool) -> Availability {
    Availability { start, end, available, staff_id: "staff".to_string(), segments: vec![] }
}

#[test]
fn scenario_three_windows() {
    let input = vec![
        window(1700000000, 1700003600, true),
        window(1700007200, 1700010800, false),
        window(1699996400, 1700000000, true),
    ];
    let out = to_appointments(&input);
    assert_eq!(out.len(), 2);
    assert_eq!(out[0], Appointment { id: 2, start: 1699996400, end: 1700000000 });
    assert_eq!(out[1], Appointment { id: 1, start: 1700000000, end: 1700003600 });
}

#[test]
fn scenario_empty_availability() {
    let out = to_appointments(&vec![]);
    assert!(out.is_empty());
    let lines = report(&out).unwrap();
    assert_eq!(lines, vec![String::new(), "No appointments found.".to_string()]);
}

#[test]
fn scenario_missing_token() {
    let args = vec!["c=1".to_string()];
    let r = Settings::from_sources(&args, None, None, Some("{}".to_string()));
    assert!(matches!(r, Err(ConfigError::Missing(SettingKind::Token))));
}

#[test]
fn scenario_forbidden_status() {
    assert_eq!(check_status(403), Err(HttpStatusError { code: 403 }));
}

#[test]
fn success_statuses_pass() {
    assert_eq!(check_status(200), Ok(()));
    assert_eq!(check_status(299), Ok(()));
    assert_eq!(check_status(300), Err(HttpStatusError { code: 300 }));
    assert_eq!(check_status(199), Err(HttpStatusError { code: 199 }));
}

#[test]
fn count_matches_available_windows() {
    let input = vec![
        window(5, 6, false),
        window(1, 2, true),
        window(3, 4, true),
        window(7, 8, false),
        window(0, 1, true),
    ];
    assert_eq!(to_appointments(&input).len(), 3);
}

#[test]
fn ids_follow_response_order() {
    let input = vec![window(30, 31, true), window(20, 21, false), window(10, 11, true), window(0, 1, true)];
    let out = to_appointments(&input);
    let ids: Vec<usize> = out.iter().map(|a| a.id).collect();
    assert_eq!(ids, vec![3, 2, 1]);
    let starts: Vec<i64> = out.iter().map(|a| a.start).collect();
    assert_eq!(starts, vec![0, 10, 30]);
}

#[test]
fn equal_starts_keep_response_order() {
    let input = vec![window(50, 60, true), window(10, 20, true), window(50, 70, true), window(10, 30, true)];
    let out = to_appointments(&input);
    let got: Vec<(usize, i64)> = out.iter().map(|a| (a.id, a.start)).collect();
    assert_eq!(got, vec![(2, 10), (4, 10), (1, 50), (3, 50)]);
}

#[test]
fn transforming_twice_gives_the_same_list() {
    let input = vec![window(9, 10, true), window(3, 4, true), window(9, 11, true), window(1, 2, false)];
    assert_eq!(to_appointments(&input), to_appointments(&input));
}

#[test]
fn appointment_new_keeps_bounds() {
    let a = Appointment::new(4, &window(100, 200, true));
    assert_eq!(a, Appointment { id: 4, start: 100, end: 200 });
}

#[test]
fn wall_clock_of_known_instant() {
    let w = clock_at(1700000000, 0);
    assert_eq!(w, WallClock { year: 2023, month: 11, day: 14, hour: 22, minute: 13, second: 20 });
    assert_eq!(stamp(&w), "11/14/23 10:13:20 PM");
}

#[test]
fn wall_clock_at_offset() {
    let w = clock_at(1700000000, 3600);
    assert_eq!(w, WallClock { year: 2023, month: 11, day: 14, hour: 23, minute: 13, second: 20 });
    let w = clock_at(1700000000, -23 * 3600);
    assert_eq!(w, WallClock { year: 2023, month: 11, day: 13, hour: 23, minute: 13, second: 20 });
}

#[test]
fn stamp_round_trip_fields() {
    let w = clock_at(1_234_567_890, 0);
    let text = stamp(&w);
    assert_eq!(text, "02/13/09 11:31:30 PM");
    let month: u32 = text[0..2].parse().unwrap();
    let day: u32 = text[3..5].parse().unwrap();
    let yy: i32 = text[6..8].parse().unwrap();
    let h12: u32 = text[9..11].parse().unwrap();
    let minute: u32 = text[12..14].parse().unwrap();
    let second: u32 = text[15..17].parse().unwrap();
    let hour = if &text[18..20] == "PM" { h12 % 12 + 12 } else { h12 % 12 };
    assert_eq!((month, day, yy, hour, minute, second), (w.month, w.day, w.year % 100, w.hour, w.minute, w.second));
}

#[test]
fn midnight_and_noon_on_twelve_hour_dial() {
    assert_eq!(stamp(&clock_at(0, 0)), "01/01/70 12:00:00 AM");
    assert_eq!(stamp(&clock_at(12 * 3600, 0)), "01/01/70 12:00:00 PM");
    assert_eq!(stamp(&clock_at(13 * 3600 + 61, 0)), "01/01/70 01:01:01 PM");
}

#[test]
fn leap_day_and_negative_instant() {
    assert_eq!(clock_at(951782400, 0), WallClock { year: 2000, month: 2, day: 29, hour: 0, minute: 0, second: 0 });
    assert_eq!(clock_at(-1, 0), WallClock { year: 1969, month: 12, day: 31, hour: 23, minute: 59, second: 59 });
}

#[test]
fn appointment_line_text() {
    let a = Appointment { id: 17, start: 1700000000, end: 1700003600 };
    let s = clock_at(a.start, 0);
    let e = clock_at(a.end, 0);
    assert_eq!(a.line(&s, &e), "Appointment #17: 11/14/23 10:13:20 PM - 11/14/23 11:13:20 PM");
}

#[test]
fn out_of_range_instant_is_refused() {
    let a = Appointment { id: 1, start: 0, end: i64::MAX };
    assert_eq!(a.describe(), Err(TimestampError { value: i64::MAX }));
    let b = Appointment { id: 1, start: i64::MIN, end: i64::MAX };
    assert_eq!(b.describe(), Err(TimestampError { value: i64::MIN }));
    assert_eq!(report(&vec![a]), Err(TimestampError { value: i64::MAX }));
}

#[test]
fn report_names_earliest() {
    let input = vec![window(1700000000, 1700003600, true), window(1699996400, 1700000000, true)];
    let out = to_appointments(&input);
    let lines = report(&out).unwrap();
    assert_eq!(lines.len(), 4);
    assert!(lines[0].starts_with("Appointment #2: "));
    assert!(lines[1].starts_with("Appointment #1: "));
    assert_eq!(lines[2], "");
    assert_eq!(lines[3], format!("Best option is {}", lines[0]));
    assert_eq!(lines[0].len(), "Appointment #2: ".len() + 20 + 3 + 20);
}

#[test]
fn settings_from_arguments_then_environment() {
    let args = vec!["c".to_string(), "t".to_string()];
    let s = Settings::from_sources(&args, Some("env-c".to_string()), None, Some("b".to_string())).unwrap();
    assert_eq!((s.cookie.as_str(), s.token.as_str(), s.body.as_str()), ("c", "t", "b"));
    let s = Settings::from_sources(&vec![], Some("x".to_string()), Some("y".to_string()), Some("z".to_string())).unwrap();
    assert_eq!((s.cookie.as_str(), s.token.as_str(), s.body.as_str()), ("x", "y", "z"));
}

#[test]
fn missing_cookie_and_body_are_named() {
    let r = Settings::from_sources(&vec![], None, None, None);
    assert!(matches!(r, Err(ConfigError::Missing(SettingKind::Cookie))));
    let args = vec!["c".to_string(), "t".to_string()];
    let r = Settings::from_sources(&args, None, None, None);
    assert!(matches!(r, Err(ConfigError::Missing(SettingKind::Body))));
}

fn settings(cookie: &str, token: &str) -> Settings {
    Settings { cookie: cookie.to_string(), token: token.to_string(), body: String::new() }
}

#[test]
fn header_list_in_order() {
    let h = request_headers(&settings("sid=1", "tok\tén")).unwrap();
    let expected = vec![
        ("content-type", "application/json"),
        ("user-agent", USER_AGENT),
        ("accept", "*/*"),
        ("accept-encoding", "gzip, deflate, br"),
        ("cookie", "sid=1"),
        ("x-csrf-token", "tok\tén"),
    ];
    let got: Vec<(&str, &str)> = h.iter().map(|(n, v)| (n.as_str(), v.as_str())).collect();
    assert_eq!(got, expected);
}

#[test]
fn header_values_with_control_bytes_are_refused() {
    assert_eq!(request_headers(&settings("a\nb", "ok")).err(), Some(HeaderError::Cookie));
    assert_eq!(request_headers(&settings("ok", "a\u{7f}")).err(), Some(HeaderError::Token));
    assert_eq!(request_headers(&settings("a\rb", "a\u{0}")).err(), Some(HeaderError::Cookie));
}

#[test]
fn response_types_hold_their_fields() {
    let seg = Segment { start: 1, end: 2, resource_token: serde_json::Value::Null, employee_token: "e".to_string() };
    let r = ResponseData { staff_ids: vec!["s".to_string()], availability: vec![Availability { segments: vec![seg], ..window(1, 2, true) }], resources: Default::default() };
    assert_eq!(r.availability[0].segments[0].employee_token, "e");
    assert_eq!(to_appointments(&r.availability), vec![Appointment { id: 1, start: 1, end: 2 }]);
}
