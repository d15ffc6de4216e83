use shared::dates::{date_stamp, datetime_stamp, rsvp_closed};
use shared::movie_nights::{page, page_count};
use shared::rides::ride_over;
use shared::web::urlencode;
use shared::{split_events, valid_local_datetime, Event};

fn dated(id: &str, date: Option<&str>, poll: Option<&str>) -> Event {
    Event {
        id: id.into(),
        event_type: "main".into(),
        title: id.into(),
        date: date.map(String::from),
        description: None,
        poll_embed_url: poll.map(String::from),
        poster_url: None,
        rsvp_deadline: None,
        poll_deadline: None,
        rsvp_count: 0,
        my_rsvp: false,
    }
}

#[test]
fn both_schedule_views_headline_the_same_screening() {
    let list = || {
        vec![
            dated("a", Some("2030-11-01"), None),
            dated("b", None, Some("p")),
            dated("c", Some("2030-10-31"), None),
            dated("d", Some("2030-10-31"), None),
        ]
    };
    let (f1, _) = split_events(list(), "2030-10-01");
    let (f2, _) = shared::movie_nights::split_events(list(), "2030-10-01");
    assert_eq!(f1.map(|e| e.id), Some("c".to_string()));
    assert_eq!(f2.map(|e| e.id), Some("c".to_string()));
}

#[test]
fn pages_together_hold_every_screening_once() {
    let list: Vec<Event> = (0..37).map(|i| dated(&format!("e{i}"), None, None)).collect();
    let mut seen: Vec<String> = Vec::new();
    for p in 0..page_count(list.len()) {
        seen.extend(page(&list, p).into_iter().map(|e| e.id));
    }
    let all: Vec<String> = list.iter().map(|e| e.id.clone()).collect();
    assert_eq!(seen, all);
}

#[test]
fn text_order_of_times_is_time_order() {
    assert!(ride_over("2026-07-04T09:59", "2026-07-04T10:00"));
    assert!(ride_over("2025-12-31T23:59", "2026-01-01T00:00"));
    assert!(!ride_over("2026-07-05T00:00", "2026-07-04T23:59"));
    assert!(rsvp_closed("2031-01-01", Some("2030-12-31")));
    assert!(!rsvp_closed("2030-09-30", Some("2030-10-01")));
}

#[test]
fn clock_stamps_are_well_formed_times() {
    let now = datetime_stamp(2026, 7, 4, 9, 5);
    assert!(valid_local_datetime(&now));
    assert!(ride_over("2026-07-04T09:00", &now));
    assert!(!ride_over("2026-07-04T09:05", &now));
    assert_eq!(date_stamp(987, 1, 2), "0987-01-02");
}

#[test]
fn encoded_queries_need_no_more_escaping() {
    let out = urlencode("a b+c&d=é/?#%\"<>");
    assert!(out
        .chars()
        .all(|c| c.is_ascii_alphanumeric() || "-_.~+%".contains(c)));
    assert_eq!(out, "a+b%2Bc%26d%3D%C3%A9%2F%3F%23%25%22%3C%3E");
}

/// Form-decodes a query value as a server does.
fn form_decode(s: &str) -> String {
    let b = s.as_bytes();
    let mut out: Vec<u8> = Vec::new();
    let mut i = 0;
    while i < b.len() {
        match b[i] {
            b'+' => {
                out.push(b' ');
                i += 1;
            }
            b'%' => {
                out.push(u8::from_str_radix(&s[i + 1..i + 3], 16).unwrap());
                i += 3;
            }
            c => {
                out.push(c);
                i += 1;
            }
        }
    }
    String::from_utf8(out).unwrap()
}

#[test]
fn encoded_queries_decode_to_the_input() {
    for s in ["905 NW 10th St", "A&B, #2", "Café + crêpes 🚲", "100% ~ok~"] {
        assert_eq!(form_decode(&urlencode(s)), s);
    }
    assert_eq!(urlencode("A&B, #2"), "A%26B%2C+%232");
}
