use shared::{
    classify_contact, split_events, valid_local_datetime, validate_gathering, ContactKind, Coordinate, EmailPrefs,
    Event, EventStage, GatheringPlace, CHANNEL_ANNOUNCEMENTS, CHANNEL_CHAT, CHANNEL_GENERAL,
    CHANNEL_MOUNTAIN_BIKE, CHANNEL_MOVIE_NIGHT, CHANNEL_TEST,
};

/// A pin coordinate as the form reads it: present, and whether it lies on
/// its axis's range.
fn coordinate(v: Option<f64>, limit: f64) -> Option<Coordinate> {
    v.map(|x| Coordinate { on_map: (-limit..=limit).contains(&x) })
}

fn place(address: Option<&str>, lat: Option<f64>, lng: Option<f64>) -> GatheringPlace<'_> {
    GatheringPlace { address, lat: coordinate(lat, 90.0), lng: coordinate(lng, 180.0) }
}

const START: &str = "2026-09-01T18:30";

#[test]
fn a_gathering_needs_a_place() {
    let err = validate_gathering("Potluck", START, None, place(None, None, None)).unwrap_err();
    assert!(err.contains("address or a pin"), "got: {err}");
}

#[test]
fn either_form_of_place_is_enough() {
    assert!(validate_gathering("Potluck", START, None, place(Some("905 NW 10th St"), None, None)).is_ok());
    assert!(validate_gathering("Potluck", START, None, place(None, Some(36.37), Some(-94.20))).is_ok());
    assert!(validate_gathering("Potluck", START, None, place(Some("905 NW 10th St"), Some(36.37), Some(-94.20))).is_ok());
}

#[test]
fn a_blank_address_does_not_count_as_a_place() {
    let err = validate_gathering("Potluck", START, None, place(Some("   "), None, None)).unwrap_err();
    assert!(err.contains("address or a pin"), "got: {err}");
}

#[test]
fn half_a_pin_is_rejected() {
    let err = validate_gathering("Potluck", START, None, place(Some("somewhere"), Some(36.37), None)).unwrap_err();
    assert!(err.contains("both coordinates"), "got: {err}");
}

#[test]
fn pins_must_be_on_earth() {
    let err = validate_gathering("Potluck", START, None, place(None, Some(91.0), Some(0.0))).unwrap_err();
    assert!(err.contains("off the map"), "got: {err}");
    let err = validate_gathering("Potluck", START, None, place(None, Some(0.0), Some(181.0))).unwrap_err();
    assert!(err.contains("off the map"), "got: {err}");
}

#[test]
fn start_time_is_required_and_shaped() {
    assert!(validate_gathering("Potluck", "2026-09-01", None, place(Some("x"), None, None)).is_err());
    assert!(validate_gathering("Potluck", "", None, place(Some("x"), None, None)).is_err());
    assert!(validate_gathering("Potluck", "2026-09-01T18:30", None, place(Some("x"), None, None)).is_ok());
}

#[test]
fn an_end_time_must_follow_the_start() {
    let err = validate_gathering("Potluck", START, Some("2026-09-01T17:00"), place(Some("x"), None, None)).unwrap_err();
    assert!(err.contains("end after it starts"), "got: {err}");
    assert!(validate_gathering("Potluck", START, Some("2026-09-01T21:00"), place(Some("x"), None, None)).is_ok());
    assert!(validate_gathering("Potluck", START, None, place(Some("x"), None, None)).is_ok());
    assert!(validate_gathering("Potluck", START, Some(""), place(Some("x"), None, None)).is_ok());
}

#[test]
fn a_title_is_required() {
    let err = validate_gathering("  ", START, None, place(Some("x"), None, None)).unwrap_err();
    assert!(err.contains("title"), "got: {err}");
}

#[test]
fn local_datetime_shape() {
    assert!(valid_local_datetime("2026-09-01T18:30"));
    assert!(!valid_local_datetime("2026-09-01T18:30:00"));
    assert!(!valid_local_datetime("2026-9-01T18:30"));
    assert!(!valid_local_datetime("2026-09-01 18:30"));
    assert!(!valid_local_datetime(""));
}

fn ev(id: &str, date: Option<&str>, poll: Option<&str>) -> Event {
    Event {
        id: id.into(),
        event_type: "main".into(),
        title: id.into(),
        date: date.map(String::from),
        description: None,
        poll_embed_url: poll.map(String::from),
        poster_url: None,
        rsvp_deadline: None,
        poll_deadline: None,
        rsvp_count: 0,
        my_rsvp: false,
    }
}

fn ids(list: &[Event]) -> Vec<&str> {
    list.iter().map(|e| e.id.as_str()).collect()
}

const TODAY: &str = "2026-08-07";

#[test]
fn features_the_soonest_upcoming_screening() {
    let (f, _) = split_events(
        vec![
            ev("far", Some("2026-12-01"), None),
            ev("soon", Some("2026-08-20"), None),
            ev("past", Some("2026-01-01"), None),
        ],
        TODAY,
    );
    assert_eq!(f.unwrap().id, "soon");
}

#[test]
fn features_today() {
    let (f, _) = split_events(vec![ev("today", Some(TODAY), None)], TODAY);
    assert_eq!(f.unwrap().id, "today");
}

#[test]
fn falls_back_to_the_event_being_voted_on() {
    let (f, _) = split_events(
        vec![
            ev("past", Some("2026-01-01"), None),
            ev("planned", None, None),
            ev("voting", None, Some("https://rcv123.org/p/1")),
        ],
        TODAY,
    );
    assert_eq!(f.unwrap().id, "voting");
}

#[test]
fn the_feature_is_not_repeated_in_the_list() {
    let (f, rest) = split_events(
        vec![ev("soon", Some("2026-08-20"), None), ev("past", Some("2026-01-01"), None)],
        TODAY,
    );
    assert_eq!(f.unwrap().id, "soon");
    assert_eq!(ids(&rest), ["past"]);
}

#[test]
fn undated_screenings_lead_the_list() {
    let (f, rest) = split_events(
        vec![
            ev("old", Some("2026-01-01"), None),
            ev("undated_a", None, None),
            ev("voting", None, Some("https://rcv123.org/p/1")),
            ev("recent", Some("2026-06-01"), None),
            ev("undated_b", None, None),
        ],
        TODAY,
    );
    assert_eq!(f.unwrap().id, "voting");
    assert_eq!(ids(&rest), ["undated_a", "undated_b", "recent", "old"]);
}

#[test]
fn an_empty_schedule_features_nothing() {
    let (f, rest) = split_events(vec![], TODAY);
    assert!(f.is_none());
    assert!(rest.is_empty());
}

#[test]
fn email_defaults_to_movie_night_only() {
    let p = EmailPrefs::default();
    assert!(p.movie_night);
    assert!(!p.announcements);
    assert!(!p.general);
    assert!(!p.mountain_bike);
}

#[test]
fn email_allows_maps_channels_to_flags() {
    let p = EmailPrefs { announcements: true, general: false, movie_night: true, mountain_bike: false, gatherings: true };
    assert!(p.allows(CHANNEL_ANNOUNCEMENTS));
    assert!(p.allows(CHANNEL_MOVIE_NIGHT));
    assert!(!p.allows(CHANNEL_GENERAL));
    assert!(!p.allows(CHANNEL_MOUNTAIN_BIKE));
}

#[test]
fn email_never_allows_chat_or_unknown_channels() {
    let p = EmailPrefs { announcements: true, general: true, movie_night: true, mountain_bike: true, gatherings: true };
    assert!(!p.allows(CHANNEL_CHAT));
    assert!(!p.allows(CHANNEL_TEST));
    assert!(!p.allows("something_new"));
}

fn event(date: Option<&str>, poll: Option<&str>) -> Event {
    Event {
        id: "e1".into(),
        event_type: "main".into(),
        title: "The Wicker Man".into(),
        date: date.map(String::from),
        description: None,
        poll_embed_url: poll.map(String::from),
        poster_url: None,
        poll_deadline: None,
        rsvp_deadline: None,
        rsvp_count: 0,
        my_rsvp: false,
    }
}

#[test]
fn stage_follows_the_poll_lifecycle() {
    assert_eq!(event(None, None).stage(), EventStage::Posted);
    assert_eq!(event(None, Some("https://rcv123.org/p/1")).stage(), EventStage::Voting);
    assert_eq!(event(Some("2030-10-31"), Some("https://rcv123.org/p/1")).stage(), EventStage::Scheduled);
    assert_eq!(event(Some("2030-10-31"), None).stage(), EventStage::Scheduled);
}

#[test]
fn contact_classifies_signal_and_web_links() {
    assert_eq!(classify_contact("https://signal.group/#CjQKIabc"), ContactKind::Signal);
    assert_eq!(classify_contact("https://signal.me/#p/+15550100"), ContactKind::Signal);
    assert_eq!(classify_contact("  https://signal.group/#x  "), ContactKind::Signal);
    assert_eq!(classify_contact("https://chat.example.com/room"), ContactKind::Web);
    assert_eq!(classify_contact("http://example.com"), ContactKind::Web);
}

#[test]
fn contact_classifies_email_and_phone() {
    assert_eq!(classify_contact("rider@example.com"), ContactKind::Email);
    assert_eq!(classify_contact("479-555-0142"), ContactKind::Phone("4795550142".into()));
    assert_eq!(classify_contact("+1 (479) 555-0142"), ContactKind::Phone("+14795550142".into()));
}

#[test]
fn contact_falls_back_to_plain_text() {
    assert_eq!(classify_contact(""), ContactKind::Plain);
    assert_eq!(classify_contact("   "), ContactKind::Plain);
    assert_eq!(classify_contact("ask me at the trailhead"), ContactKind::Plain);
    assert_eq!(classify_contact("javascript:alert(1)"), ContactKind::Plain);
    assert_eq!(classify_contact("ftp://files.example.com"), ContactKind::Plain);
    assert_eq!(classify_contact("@rider"), ContactKind::Plain);
    assert_eq!(classify_contact("123"), ContactKind::Plain);
}
