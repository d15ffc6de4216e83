use shared::calendar::issued_on;
use shared::dates::{
    date_stamp, datetime_stamp, hour_in_range, pretty_date, pretty_dt, pretty_md, pretty_range, pretty_when,
    rsvp_closed,
};
use shared::forms::{
    auth_user_from, chat_message, check_ride_times, create_event_request, edit_event_request, invite_code_param,
    invite_request, present_address, profile_request, stage_update, trimmed_non_empty, EventForm,
    StageAction,
};
use shared::model::default_true;
use shared::movie_nights::{feature_date_label, next_page, page, page_count, prev_page};
use shared::rides::{can_edit, ride_over, split_rides};
use shared::web::{
    address_search_url, api_base, bearer, calendar_feed_url, channel_label, detect, endpoint, failure_step,
    going_label, encode_uri_component, google_calendar_url, google_subscribe_link, outlook_calendar_url, is_session_expired, outlook_subscribe_link, key, platform_of_lowercase, riders_label, safe_to_reload,
    server_error_message, update_available, urlencode, webcal_url, FailureStep, Platform, SessionLatch,
    DEV_API, PROD_API, PUSH_TOKEN_KEY, SESSION_EXPIRED,
};
use shared::{AuthResponse, AuthUser, CookieIdentity, Event, NotificationPrefs, UserInfo};

fn user(id: &str, role: &str) -> AuthUser {
    AuthUser {
        id: id.into(),
        email: format!("{id}@example.com"),
        username: id.into(),
        role: role.into(),
        token: "tok".into(),
    }
}

fn dated(id: &str, date: Option<&str>) -> Event {
    Event {
        id: id.into(),
        event_type: "main".into(),
        title: id.into(),
        date: date.map(String::from),
        description: None,
        poll_embed_url: None,
        poster_url: None,
        rsvp_deadline: None,
        poll_deadline: None,
        rsvp_count: 0,
        my_rsvp: false,
    }
}

fn ids(list: &[Event]) -> Vec<&str> {
    list.iter().map(|e| e.id.as_str()).collect()
}

// ---- dates ----------------------------------------------------------------

#[test]
fn pretty_date_spells_out_the_month() {
    assert_eq!(pretty_date("2030-10-31"), "October 31, 2030");
    assert_eq!(pretty_date("2030-01-05"), "January 5, 2030");
}

#[test]
fn pretty_date_keeps_malformed_input() {
    assert_eq!(pretty_date("soon"), "soon");
    assert_eq!(pretty_date("2030-13-01"), "2030-13-01");
    assert_eq!(pretty_date("2030-10"), "2030-10");
}

#[test]
fn pretty_md_drops_the_year() {
    assert_eq!(pretty_md("2030-10-31"), "October 31");
    assert_eq!(pretty_md("2030-07-04"), "July 4");
    assert_eq!(pretty_md("2030-00-04"), "2030-00-04");
}

#[test]
fn pretty_when_uses_a_twelve_hour_clock() {
    assert_eq!(pretty_when("2026-09-01T18:30"), "September 1, 2026 · 6:30 PM");
    assert_eq!(pretty_when("2026-09-01T00:05"), "September 1, 2026 · 12:05 AM");
    assert_eq!(pretty_when("2026-09-01T12:00"), "September 1, 2026 · 12:00 PM");
}

#[test]
fn pretty_when_keeps_malformed_input() {
    assert_eq!(pretty_when("2026-09-01"), "2026-09-01");
    assert_eq!(pretty_when("2026-09-01T24:00"), "2026-09-01T24:00");
    assert_eq!(pretty_when("2026-13-01T10:00"), "2026-13-01T10:00");
}

#[test]
fn pretty_dt_formats_ride_times() {
    assert!(hour_in_range("2026-07-04T09:00"));
    assert_eq!(pretty_dt("2026-07-04T09:00"), "July 4 · 9:00 AM");
    assert_eq!(pretty_dt("2026-07-04T00:00"), "July 4 · 12:00 AM");
    assert_eq!(pretty_dt("2026-07-04T12:15"), "July 4 · 12:15 PM");
    assert_eq!(pretty_dt("2026-07-04T23:59"), "July 4 · 11:59 PM");
    assert_eq!(pretty_dt("2026-07-04"), "2026-07-04");
}

#[test]
fn hour_in_range_rejects_only_the_lowest_hours() {
    assert!(hour_in_range("2026-07-04T-5:00"));
    assert!(hour_in_range("no time"));
    assert!(!hour_in_range("2026-07-04T-9223372036854775808:00"));
}

#[test]
fn pretty_range_shortens_same_day_rides() {
    assert_eq!(pretty_range("2026-07-04T09:00", "2026-07-04T11:30"), "July 4 · 9:00 AM – 11:30 AM");
    assert_eq!(
        pretty_range("2026-07-04T18:00", "2026-07-05T02:00"),
        "July 4 · 6:00 PM – July 5 · 2:00 AM"
    );
}

#[test]
fn stamps_are_zero_padded() {
    assert_eq!(date_stamp(2026, 9, 1), "2026-09-01");
    assert_eq!(datetime_stamp(2026, 7, 4, 9, 5), "2026-07-04T09:05");
}

#[test]
fn rsvp_closes_after_the_deadline_day() {
    assert!(rsvp_closed("2030-11-01", Some("2030-10-31")));
    assert!(!rsvp_closed("2030-10-31", Some("2030-10-31")));
    assert!(!rsvp_closed("2030-10-30", Some("2030-10-31")));
    assert!(!rsvp_closed("2030-10-30", None));
}

#[test]
fn issued_on_reads_unix_seconds() {
    assert_eq!(issued_on(0), "1970-01-01");
    assert_eq!(issued_on(86_399), "1970-01-01");
    assert_eq!(issued_on(1_755_475_200), "2025-08-18");
    assert_eq!(issued_on(951_782_400), "2000-02-29");
    assert_eq!(issued_on(-1), "1969-12-31");
}

// ---- backend and session --------------------------------------------------

#[test]
fn the_api_base_follows_the_hostname() {
    assert_eq!(api_base(Some("hub.baphometbabes.com")), PROD_API);
    assert_eq!(api_base(Some("baphometbabes.com")), PROD_API);
    assert_eq!(api_base(Some("localhost")), DEV_API);
    assert_eq!(api_base(Some("evilbaphometbabes.com")), DEV_API);
    assert_eq!(api_base(None), DEV_API);
}

#[test]
fn requests_carry_the_path_and_token() {
    assert_eq!(endpoint(DEV_API, "/events"), "http://localhost:8080/events");
    assert_eq!(bearer("abc"), "Bearer abc");
}

#[test]
fn only_an_authed_401_ends_the_session() {
    assert_eq!(failure_step(true, 401), FailureStep::EndSession);
    assert_eq!(failure_step(false, 401), FailureStep::ReadServerError);
    assert_eq!(failure_step(true, 500), FailureStep::ReadServerError);
}

#[test]
fn a_failed_body_reads_as_unknown_error() {
    assert_eq!(server_error_message(Some("bad date".into())), "bad date");
    assert_eq!(server_error_message(None), "unknown error");
}

#[test]
fn the_session_ends_once() {
    let mut latch = SessionLatch::new();
    assert!(latch.trip());
    assert!(!latch.trip());
    assert!(!latch.trip());
}

#[test]
fn session_expiry_is_recognised_by_its_message() {
    assert!(is_session_expired(SESSION_EXPIRED));
    assert!(!is_session_expired("network down"));
}

// ---- calendar feed, updates, install guides -------------------------------

#[test]
fn the_feed_url_and_its_webcal_form() {
    let u = calendar_feed_url(PROD_API, "t0k");
    assert_eq!(u, "https://movie-night-api-r6vuubbgla-uc.a.run.app/calendar/t0k/baphomet-babes.ics");
    assert_eq!(
        webcal_url(&u),
        "webcal://movie-night-api-r6vuubbgla-uc.a.run.app/calendar/t0k/baphomet-babes.ics"
    );
    assert_eq!(webcal_url("http://localhost:8080/c.ics"), "webcal://localhost:8080/c.ics");
}

#[test]
fn subscribe_links_carry_the_encoded_feed() {
    assert_eq!(
        google_subscribe_link("webcal%3A%2F%2Fx%2Fc.ics"),
        "https://calendar.google.com/calendar/r?cid=webcal%3A%2F%2Fx%2Fc.ics"
    );
    assert_eq!(
        outlook_subscribe_link("https%3A%2F%2Fx%2Fc.ics", "Baphomet%20Babes"),
        "https://outlook.live.com/calendar/0/addfromweb?url=https%3A%2F%2Fx%2Fc.ics&name=Baphomet%20Babes"
    );
}

#[test]
fn feed_urls_are_encoded_as_browsers_do() {
    assert_eq!(encode_uri_component("Baphomet Babes"), "Baphomet%20Babes");
    assert_eq!(encode_uri_component("a!*'()~-_.é+&"), "a!*'()~-_.%C3%A9%2B%26");
    let feed = calendar_feed_url(DEV_API, "t0k");
    assert_eq!(
        google_calendar_url(&feed),
        "https://calendar.google.com/calendar/r?cid=webcal%3A%2F%2Flocalhost%3A8080%2Fcalendar%2Ft0k%2Fbaphomet-babes.ics"
    );
    assert_eq!(
        outlook_calendar_url(&feed),
        "https://outlook.live.com/calendar/0/addfromweb?url=http%3A%2F%2Flocalhost%3A8080%2Fcalendar%2Ft0k%2Fbaphomet-babes.ics&name=Baphomet%20Babes"
    );
}

#[test]
fn updates_apply_only_to_a_different_published_build() {
    assert!(update_available("abc123", Some("def456")));
    assert!(!update_available("abc123", Some("abc123")));
    assert!(!update_available("abc123", None));
    assert!(!update_available("dev", Some("def456")));
}

#[test]
fn a_reload_waits_for_typed_input() {
    assert!(safe_to_reload(&vec![]));
    assert!(safe_to_reload(&vec![String::new(), String::new()]));
    assert!(!safe_to_reload(&vec![String::new(), "half a message".into()]));
}

#[test]
fn the_install_guide_follows_the_user_agent() {
    assert_eq!(
        detect("Mozilla/5.0 (iPhone; CPU iPhone OS 17_0 like Mac OS X) AppleWebKit/605.1.15 Safari/604.1"),
        Platform::Ios
    );
    assert_eq!(
        detect("Mozilla/5.0 (Linux; Android 14) AppleWebKit/537.36 Chrome/120.0 Mobile Safari/537.36"),
        Platform::Android
    );
    assert_eq!(detect("Mozilla/5.0 (Android 14; Mobile; rv:120.0) Gecko/120.0 Firefox/120.0"), Platform::Firefox);
    assert_eq!(
        detect("Mozilla/5.0 (Windows NT 10.0) AppleWebKit/537.36 Chrome/120.0 Safari/537.36 Edg/120.0"),
        Platform::DesktopChromium
    );
    assert_eq!(
        detect("Mozilla/5.0 (Macintosh; Intel Mac OS X 14_0) AppleWebKit/605.1.15 Version/17.0 Safari/605.1.15"),
        Platform::SafariMac
    );
    assert_eq!(detect("curl/8.0"), Platform::Other);
    assert_eq!(platform_of_lowercase("IPHONE"), Platform::Other);
}

// ---- labels and keys ------------------------------------------------------

#[test]
fn channel_labels() {
    assert_eq!(channel_label("announcements"), "Announcement");
    assert_eq!(channel_label("general"), "General");
    assert_eq!(channel_label("movie_night"), "Movie Night");
    assert_eq!(channel_label("chat"), "Notice");
}

#[test]
fn counts_are_worded() {
    assert_eq!(going_label(1), "1 person going");
    assert_eq!(going_label(0), "0 going");
    assert_eq!(going_label(12), "12 going");
    assert_eq!(riders_label(1), "1 rider");
    assert_eq!(riders_label(3), "3 riders");
}

#[test]
fn storage_keys() {
    assert_eq!(key("events"), "bb-cache:events");
    assert_eq!(PUSH_TOKEN_KEY, "fcm_token");
}

#[test]
fn addresses_are_percent_encoded() {
    assert_eq!(urlencode("905 NW 10th St"), "905+NW+10th+St");
    assert_eq!(urlencode("Café & Bar"), "Caf%C3%A9+%26+Bar");
    assert_eq!(urlencode("a-b_c.d~e"), "a-b_c.d~e");
    assert_eq!(
        address_search_url("1 Main St"),
        "https://www.google.com/maps/search/?api=1&query=1+Main+St"
    );
}

// ---- accounts and preferences ---------------------------------------------

#[test]
fn roles() {
    assert!(user("a", "admin").is_admin());
    assert!(user("a", "superadmin").is_admin());
    assert!(!user("a", "member").is_admin());
    assert!(user("a", "superadmin").is_superadmin());
    assert!(!user("a", "admin").is_superadmin());
}

#[test]
fn the_cookie_identity_drops_the_token() {
    let u = user("u1", "member");
    let c = CookieIdentity::from(&u);
    assert_eq!(c.id, "u1");
    assert_eq!(c.email, "u1@example.com");
    assert_eq!(c.username, "u1");
    assert_eq!(c.role, "member");
}

#[test]
fn notification_defaults() {
    let p = NotificationPrefs::default();
    assert!(p.announcements && p.general && p.movie_night && p.test && p.gatherings);
    assert!(!p.chat && !p.mountain_bike);
    assert!(p.email.movie_night && p.email.gatherings);
    assert!(default_true());
}

// ---- movie nights ---------------------------------------------------------

#[test]
fn movie_nights_list_newest_first_with_undated_last() {
    let list = vec![
        dated("undated", None),
        dated("old", Some("2020-01-01")),
        dated("next", Some("2030-10-31")),
        dated("later", Some("2031-01-01")),
    ];
    let (f, all) = shared::movie_nights::split_events(list, "2030-06-01");
    assert_eq!(f.map(|e| e.id), Some("next".to_string()));
    assert_eq!(ids(&all), ["later", "next", "old", "undated"]);
}

#[test]
fn movie_nights_fall_back_to_an_undated_feature() {
    let (f, all) = shared::movie_nights::split_events(vec![dated("a", Some("2020-01-01")), dated("b", None)], "2030-06-01");
    assert_eq!(f.map(|e| e.id), Some("b".to_string()));
    assert_eq!(all.len(), 2);
}

#[test]
fn pages_hold_ten_screenings() {
    assert_eq!(page_count(0), 1);
    assert_eq!(page_count(10), 1);
    assert_eq!(page_count(11), 2);
    let list: Vec<Event> = (0..23).map(|i| dated(&format!("e{i}"), None)).collect();
    assert_eq!(page(&list, 0).len(), 10);
    assert_eq!(page(&list, 2).len(), 3);
    assert_eq!(page(&list, 2)[0].id, "e20");
    assert_eq!(page(&list, 5)[0].id, "e20");
    assert!(page(&vec![], 3).is_empty());
    assert_eq!(prev_page(0), 0);
    assert_eq!(prev_page(2), 1);
    assert_eq!(next_page(1, 3), 2);
    assert_eq!(next_page(2, 3), 2);
    assert_eq!(feature_date_label(Some("2030-10-31")), "October 31, 2030");
    assert_eq!(feature_date_label(None), "Date TBD");
}

// ---- rides ----------------------------------------------------------------

#[test]
fn riders_edit_their_own_rides_and_admins_any() {
    let owner = user("u1", "member");
    let other = user("u2", "member");
    let admin = user("u3", "admin");
    assert!(can_edit(Some(&owner), "u1"));
    assert!(!can_edit(Some(&other), "u1"));
    assert!(can_edit(Some(&admin), "u1"));
    assert!(!can_edit(None, "u1"));
}

#[test]
fn a_ride_is_over_after_its_end() {
    assert!(ride_over("2026-07-04T11:00", "2026-07-04T11:01"));
    assert!(!ride_over("2026-07-04T11:00", "2026-07-04T11:00"));
}

#[test]
fn rides_split_into_upcoming_and_recent_past() {
    let mut ends: Vec<String> = vec!["2030-01-01T10:00".into(), "2020-01-01T10:00".into()];
    for i in 0..12 {
        ends.push(format!("2021-01-{:02}T10:00", i + 1));
    }
    let (up, past) = split_rides(&ends, "2026-01-01T00:00");
    assert_eq!(up, vec![0]);
    assert_eq!(past, vec![13, 12, 11, 10, 9, 8, 7, 6, 5, 4]);
}

// ---- forms ----------------------------------------------------------------

fn form(scheduled: bool) -> EventForm {
    EventForm {
        event_type: "main".into(),
        title: "Suspiria".into(),
        date: "2030-10-31".into(),
        rsvp_deadline: "".into(),
        description: "".into(),
        poll_url: "https://rcv123.org/p/1".into(),
        poster_url: "".into(),
        scheduled,
    }
}

#[test]
fn a_new_event_sends_only_filled_fields() {
    let r = create_event_request(form(true));
    assert_eq!(r.title, "Suspiria");
    assert_eq!(r.date.as_deref(), Some("2030-10-31"));
    assert_eq!(r.rsvp_deadline, None);
    assert_eq!(r.description, None);
    assert_eq!(r.poll_embed_url.as_deref(), Some("https://rcv123.org/p/1"));
    let r = create_event_request(form(false));
    assert_eq!(r.date, None);
}

#[test]
fn an_edit_clears_empty_optional_text() {
    let r = edit_event_request(
        "main".into(),
        "T".into(),
        "2030-10-31".into(),
        "".into(),
        "".into(),
        "p".into(),
        "".into(),
    );
    assert_eq!(r.rsvp_deadline.as_deref(), Some(""));
    assert_eq!(r.description, None);
    assert_eq!(r.poll_embed_url.as_deref(), Some("p"));
}

#[test]
fn lifecycle_steps_need_their_field() {
    assert_eq!(
        stage_update(StageAction::AddPoll, "".into(), "".into(), "".into()).unwrap_err(),
        "Paste the poll embed URL first."
    );
    assert_eq!(
        stage_update(StageAction::SetDate, "".into(), "".into(), "".into()).unwrap_err(),
        "Pick the screening date first."
    );
    assert_eq!(
        stage_update(StageAction::SetDeadline, "".into(), "".into(), "".into()).unwrap_err(),
        "Pick the deadline first."
    );
    let r = stage_update(StageAction::SetDate, "".into(), "2030-10-31".into(), "".into()).unwrap();
    assert_eq!(r.date.as_deref(), Some("2030-10-31"));
    assert_eq!(r.rsvp_deadline.as_deref(), Some(""));
    assert_eq!(r.title, None);
}

#[test]
fn invites_need_a_first_name() {
    assert_eq!(invite_request("member".into(), "  ", "", "").unwrap_err(), "First name is required.");
    let q = invite_request("member".into(), " Ada ", "  ", " 555 ").unwrap();
    assert_eq!(q.first_name, "Ada");
    assert_eq!(q.last_name, None);
    assert_eq!(q.phone.as_deref(), Some("555"));
}

#[test]
fn chat_sends_trimmed_drafts() {
    assert_eq!(chat_message("  hi  ", false).as_deref(), Some("hi"));
    assert_eq!(chat_message("   ", false), None);
    assert_eq!(chat_message("hi", true), None);
    assert_eq!(trimmed_non_empty(" x "), Some("x".to_string()));
}

#[test]
fn rides_need_both_times() {
    assert_eq!(check_ride_times("", "2026-07-04T11:00").unwrap_err(), "Pick a start and end time.");
    assert!(check_ride_times("2026-07-04T09:00", "2026-07-04T11:00").is_ok());
}

#[test]
fn profiles_keep_complete_links() {
    let r = profile_request(
        "Ada".into(),
        "".into(),
        "".into(),
        "".into(),
        "".into(),
        vec![
            ("Site".into(), "https://a.example".into()),
            ("".into(), "https://b.example".into()),
            ("Blog".into(), "https://c.example".into()),
        ],
        true,
    );
    assert_eq!(r.display_name.as_deref(), Some("Ada"));
    assert_eq!(r.bio, None);
    assert_eq!(r.phone, None);
    let links = r.links.unwrap();
    assert_eq!(links.len(), 2);
    assert_eq!(links[0].label, "Site");
    assert_eq!(links[1].url, "https://c.example");
    assert_eq!(r.is_public, Some(true));
}

#[test]
fn blank_addresses_and_codes_are_dropped() {
    assert_eq!(present_address("  ".into()), None);
    assert_eq!(present_address(" 1 Main ".into()).as_deref(), Some(" 1 Main "));
    assert_eq!(invite_code_param(Some("".into())), None);
    assert_eq!(invite_code_param(Some("ABC".into())).as_deref(), Some("ABC"));
    assert_eq!(invite_code_param(None), None);
}

#[test]
fn a_sign_in_yields_the_user_and_token() {
    let u = auth_user_from(AuthResponse {
        token: "jwt".into(),
        user: UserInfo { id: "u1".into(), email: "a@b.c".into(), username: "ada".into(), role: "member".into() },
    });
    assert_eq!(u.id, "u1");
    assert_eq!(u.username, "ada");
    assert_eq!(u.token, "jwt");
    assert!(!u.is_admin());
}
