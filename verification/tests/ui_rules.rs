use shared::forms::{
    announcement_request, announcement_update, broadcast_request, broadcast_sent_message, data_url_payload,
    lookup_note, next_action, offers_poll, progress_line, role_update, stage_hint, toggle_disabled, StageAction,
};
use shared::contact::contact_href;
use shared::gathering::gathering_request;
use shared::rides::{create_ride_request, update_ride_request, RIDE_LOCATIONS};
use shared::labels::{bio_preview, bio_preview_defined, deadline_hint, devices_label, event_badge, gathering_going_label, invitee_name};
use shared::movie_nights::open_poll;
use shared::web::{guide_order, needs_login, Platform, ToggleSync};
use shared::{Event, EventStage};

fn event(id: &str, kind: &str, date: Option<&str>, poll: Option<&str>, deadline: Option<&str>) -> Event {
    Event {
        id: id.into(),
        event_type: kind.into(),
        title: id.into(),
        date: date.map(String::from),
        description: None,
        poll_embed_url: poll.map(String::from),
        poster_url: None,
        rsvp_deadline: deadline.map(String::from),
        poll_deadline: None,
        rsvp_count: 0,
        my_rsvp: false,
    }
}

#[test]
fn gathering_counts_are_worded() {
    assert_eq!(gathering_going_label(0), "Nobody going yet");
    assert_eq!(gathering_going_label(1), "1 person going");
    assert_eq!(gathering_going_label(7), "7 people going");
}

#[test]
fn the_deadline_line() {
    assert_eq!(deadline_hint("2030-10-30", false), "RSVP by October 30");
    assert_eq!(deadline_hint("2030-10-30", true), "RSVPs closed");
}

#[test]
fn device_counts_and_badges() {
    assert_eq!(devices_label(1), "1 device enrolled");
    assert_eq!(devices_label(0), "0 devices enrolled");
    assert_eq!(devices_label(3), "3 devices enrolled");
    assert_eq!(event_badge("main"), "Main Event");
    assert_eq!(event_badge("special"), "Special Feature");
}

#[test]
fn invitee_names_skip_a_missing_last_name() {
    assert_eq!(invitee_name("Ada", Some("Lovelace")), "Ada Lovelace");
    assert_eq!(invitee_name("Ada", Some("")), "Ada");
    assert_eq!(invitee_name("Ada", None), "Ada");
}

#[test]
fn bios_are_cut_after_a_hundred_bytes() {
    assert_eq!(bio_preview("short".into()), "short");
    let hundred = "a".repeat(100);
    assert_eq!(bio_preview(hundred.clone()), hundred);
    assert_eq!(bio_preview("a".repeat(150)), format!("{}…", "a".repeat(100)));
    assert_eq!(bio_preview("é".repeat(60)), format!("{}…", "é".repeat(50)));
}

#[test]
fn the_open_poll_is_the_first_undated_main_event_with_a_poll() {
    let list = vec![
        event("special", "special", None, Some("p0"), None),
        event("dated", "main", Some("2030-10-31"), Some("p1"), None),
        event("open", "main", None, Some("p2"), None),
        event("later", "main", None, Some("p3"), None),
    ];
    assert_eq!(open_poll(list).map(|e| e.id), Some("open".to_string()));
    assert!(open_poll(vec![event("x", "main", None, None, None)]).is_none());
}

#[test]
fn the_login_page_is_the_only_public_one() {
    assert!(needs_login(false, "/events"));
    assert!(!needs_login(false, "/login"));
    assert!(!needs_login(true, "/events"));
}

#[test]
fn a_toggle_is_written_only_after_loading_and_only_on_change() {
    let mut sync = ToggleSync::new();
    assert!(!sync.flip(true));
    sync.loaded(Some(false));
    assert!(!sync.flip(false));
    assert!(sync.flip(true));
    assert!(!sync.flip(true));
    assert!(sync.flip(false));
    let mut failed = ToggleSync::new();
    failed.loaded(None);
    assert!(failed.flip(false));
}

#[test]
fn the_stepper_walks_an_event_forward() {
    let posted = event("e", "main", None, None, None);
    assert_eq!(progress_line(&posted), "posted ✓ · poll — · date — · rsvp —");
    let done = event("e", "main", Some("2030-10-31"), Some("p"), Some("2030-10-30"));
    assert_eq!(progress_line(&done), "posted ✓ · poll ✓ · date ✓ · rsvp ✓");

    assert_eq!(next_action(EventStage::Posted, false), Some((StageAction::SetDate, "Set Date")));
    assert_eq!(next_action(EventStage::Voting, false), Some((StageAction::SetDate, "Close Poll & Set Date")));
    assert_eq!(next_action(EventStage::Scheduled, false), Some((StageAction::SetDeadline, "Set RSVP Deadline")));
    assert_eq!(next_action(EventStage::Scheduled, true), None);
    assert!(offers_poll(EventStage::Posted));
    assert!(!offers_poll(EventStage::Voting));
    assert_eq!(stage_hint(EventStage::Scheduled, true), None);
    assert_eq!(
        stage_hint(EventStage::Voting, false),
        Some("Voting open — set the winning date to close the poll.")
    );
}

#[test]
fn announcements_and_broadcasts() {
    let a = announcement_request("T".into(), "B".into(), "".into());
    assert_eq!(a.poll_embed_url, None);
    let u = announcement_update("T".into(), "B".into(), "p".into());
    assert_eq!(u.title.as_deref(), Some("T"));
    assert_eq!(u.poll_embed_url.as_deref(), Some("p"));
    assert_eq!(broadcast_request("T".into(), "B".into(), true).channel.as_deref(), Some("test"));
    assert_eq!(broadcast_request("T".into(), "B".into(), false).channel, None);
    assert_eq!(broadcast_sent_message(false), "Broadcast sent to the General channel.");
}

#[test]
fn user_updates_touch_one_field() {
    let r = role_update("admin".into());
    assert_eq!(r.role.as_deref(), Some("admin"));
    assert_eq!(r.disabled, None);
    let t = toggle_disabled(true);
    assert_eq!(t.role, None);
    assert_eq!(t.disabled, Some(false));
}

#[test]
fn address_lookups_leave_a_note() {
    assert_eq!(
        lookup_note(Ok((true, true, Some("905 NW 10th St".into())))).as_deref(),
        Some("Found: 905 NW 10th St — drag-tap the map to adjust.")
    );
    assert_eq!(lookup_note(Ok((true, true, None))).as_deref(), Some("Pin placed — tap the map to adjust."));
    assert_eq!(lookup_note(Ok((true, false, None))), None);
    assert_eq!(
        lookup_note(Ok((false, false, None))).as_deref(),
        Some("Couldn't find that address. Drop the pin on the map instead.")
    );
    assert_eq!(lookup_note(Err("timeout".into())).as_deref(), Some("Lookup failed: timeout"));
}

#[test]
fn a_data_url_yields_its_payload() {
    assert_eq!(data_url_payload("data:image/png;base64,AAAA").as_deref(), Some("AAAA"));
    assert_eq!(data_url_payload("no comma"), None);
}

#[test]
fn the_visitors_guide_comes_first() {
    assert_eq!(
        guide_order(Platform::SafariMac),
        vec![
            Platform::SafariMac,
            Platform::Ios,
            Platform::Android,
            Platform::DesktopChromium,
            Platform::Firefox,
            Platform::Other
        ]
    );
    assert_eq!(guide_order(Platform::Ios)[0], Platform::Ios);
    assert_eq!(guide_order(Platform::Ios).len(), 6);
}

#[test]
fn contact_links_use_only_safe_schemes() {
    assert_eq!(contact_href("  https://signal.group/#x  ").as_deref(), Some("https://signal.group/#x"));
    assert_eq!(contact_href("http://example.com").as_deref(), Some("http://example.com"));
    assert_eq!(contact_href("rider@example.com").as_deref(), Some("mailto:rider@example.com"));
    assert_eq!(contact_href("+1 (479) 555-0142").as_deref(), Some("tel:+14795550142"));
    assert_eq!(contact_href("javascript:alert(1)"), None);
    assert_eq!(contact_href("ask me at the trailhead"), None);
    assert_eq!(contact_href("   "), None);
}

#[test]
fn a_ride_edit_sends_every_field_and_the_whole_pin() {
    let r = update_ride_request(
        "Coler".into(),
        "2026-07-04T09:00".into(),
        "2026-07-04T11:00".into(),
        "".into(),
        " bring water ".into(),
        Some(36.37f64),
        Some(-94.2f64),
    )
    .unwrap();
    assert_eq!(r.location.as_deref(), Some("Coler"));
    assert_eq!(r.contact_info.as_deref(), Some(""));
    assert_eq!(r.notes.as_deref(), Some(" bring water "));
    assert_eq!((r.meeting_lat, r.meeting_lng, r.clear_meeting), (Some(36.37), Some(-94.2), false));
    let half = update_ride_request(
        "Coler".into(),
        "2026-07-04T09:00".into(),
        "2026-07-04T11:00".into(),
        "".into(),
        "".into(),
        Some(36.37f64),
        None,
    )
    .unwrap();
    assert_eq!((half.meeting_lat, half.meeting_lng, half.clear_meeting), (None, None, true));
    let err = update_ride_request::<f64>("Coler".into(), "".into(), "x".into(), "".into(), "".into(), None, None);
    assert_eq!(err.unwrap_err(), "Pick a start and end time.");
}

#[test]
fn a_new_ride_trims_contact_and_notes() {
    let r = create_ride_request(
        RIDE_LOCATIONS[0].to_string(),
        "2026-07-04T09:00".into(),
        "2026-07-04T11:00".into(),
        "  479-555-0142 ",
        "   ",
        None::<f64>,
        None,
    )
    .unwrap();
    assert_eq!(r.location, "Bike Park");
    assert_eq!(r.contact_info.as_deref(), Some("479-555-0142"));
    assert_eq!(r.notes, None);
    assert_eq!(
        create_ride_request::<f64>("Coler".into(), "x".into(), "".into(), "", "", None, None).unwrap_err(),
        "Pick a start and end time."
    );
    assert_eq!(RIDE_LOCATIONS.len(), 8);
}

#[test]
fn a_new_gathering_leaves_out_empty_fields() {
    let g = gathering_request(
        "Potluck".into(),
        "".into(),
        "2026-09-01T18:30".into(),
        "".into(),
        "   ".into(),
        Some(36.37f64),
        Some(-94.2f64),
        "https://cdn/x.png".into(),
    );
    assert_eq!(g.description, None);
    assert_eq!(g.ends_at, None);
    assert_eq!(g.address, None);
    assert_eq!(g.lat, Some(36.37));
    assert_eq!(g.cover_url.as_deref(), Some("https://cdn/x.png"));
}

#[test]
fn a_bio_preview_is_defined_where_a_character_ends_at_the_cut() {
    assert!(bio_preview_defined("short"));
    assert!(bio_preview_defined(&"a".repeat(150)));
    assert!(bio_preview_defined(&"é".repeat(60)));
    assert!(!bio_preview_defined(&format!("a{}", "é".repeat(60))));
}
