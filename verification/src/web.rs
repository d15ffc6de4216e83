//! The decisions the hub's browser glue makes: which backend to talk to, how
//! a failed request is reported, when a session is ended, when a new build
//! is applied, which install guide to show, and the URLs it hands out.
use vstd::prelude::*;

use crate::text::{
    chars_of, ends_with, has_suffix, push_all, push_char, push_str, replace_first,
    replace_first_chars, str_eq, string_of, contains, contains_sub,
};

verus! {

// ---------------------------------------------------------------------------
// Backend and session
// ---------------------------------------------------------------------------

/// The error every authed call returns once the backend has rejected the
/// session.
pub const SESSION_EXPIRED: &'static str = "Your session expired — please log in again.";

/// Whether an API error came from a rejected session rather than a failed
/// request.
pub fn is_session_expired(err: &str) -> (r: bool)
    ensures
        r == (err@ == SESSION_EXPIRED@),
{
    str_eq(err, SESSION_EXPIRED)
}

pub const PROD_API: &'static str = "https://movie-night-api-r6vuubbgla-uc.a.run.app";

pub const DEV_API: &'static str = "http://localhost:8080";

/// Whether the page is served from the deployed site: the domain
/// `baphometbabes.com` itself or one of its subdomains.
pub open spec fn on_prod(hostname: Option<Seq<char>>) -> bool {
    match hostname {
        Some(h) => h == "baphometbabes.com"@ || has_suffix(h, ".baphometbabes.com"@),
        None => false,
    }
}

/// The API base for the page's hostname: `baphometbabes.com` and any
/// `*.baphometbabes.com` host use the deployed backend; everything else
/// (localhost, a look-alike such as `evilbaphometbabes.com`, or no hostname
/// at all) the dev backend.
pub fn api_base(hostname: Option<&str>) -> (r: &'static str)
    ensures
        r@ == if on_prod(crate::gathering::opt_view(hostname)) {
            PROD_API@
        } else {
            DEV_API@
        },
{
    let prod = match hostname {
        Some(h) => {
            let v = chars_of(h);
            str_eq(h, "baphometbabes.com") || ends_with(&v, ".baphometbabes.com")
        },
        None => false,
    };
    if prod {
        PROD_API
    } else {
        DEV_API
    }
}

/// The URL of an API path.
pub fn endpoint(base: &str, path: &str) -> (r: String)
    ensures
        r@ == base@ + path@,
{
    let mut s = String::new();
    push_str(&mut s, base);
    push_str(&mut s, path);
    assert(s@ =~= base@ + path@);
    s
}

/// The `Authorization` header value for a session token.
pub fn bearer(token: &str) -> (r: String)
    ensures
        r@ == "Bearer "@ + token@,
{
    let mut s = String::new();
    push_str(&mut s, "Bearer ");
    push_str(&mut s, token);
    assert(s@ =~= "Bearer "@ + token@);
    s
}

/// What to do with a non-2xx response.
#[derive(Clone, Copy, Debug, PartialEq, Eq, Structural)]
pub enum FailureStep {
    /// The session is gone: end it and report `SESSION_EXPIRED`.
    EndSession,
    /// Report the backend's own error message.
    ReadServerError,
}

/// A 401 on a request that carried a token means the session is gone; 401s
/// from login and register are ordinary bad credentials.
pub fn failure_step(authed: bool, status: u16) -> (r: FailureStep)
    ensures
        r == if authed && status == 401 {
            FailureStep::EndSession
        } else {
            FailureStep::ReadServerError
        },
{
    if authed && status == 401 {
        FailureStep::EndSession
    } else {
        FailureStep::ReadServerError
    }
}

/// The message surfaced for a failed request whose body was read: the
/// backend's `error` field, or "unknown error" when the body held none.
pub fn server_error_message(parsed: Option<String>) -> (r: String)
    ensures
        r@ == match parsed {
            Some(e) => e@,
            None => "unknown error"@,
        },
{
    match parsed {
        Some(e) => e,
        None => String::from_str("unknown error"),
    }
}

/// Ends the session at most once per page load: a page has several requests
/// in flight and they all fail together, but only the first should log the
/// member out and navigate.
pub struct SessionLatch {
    ended: bool,
}

impl SessionLatch {
    /// Whether tripping the latch in this state ends the session.
    pub closed spec fn fires(self) -> bool {
        !self.ended
    }

    /// The latch after a trip.
    pub closed spec fn tripped(self) -> SessionLatch {
        SessionLatch { ended: true }
    }

    pub fn new() -> (r: SessionLatch)
        ensures
            r.fires(),
    {
        SessionLatch { ended: false }
    }

    /// Whether this call is the one that ends the session.
    pub fn trip(&mut self) -> (first: bool)
        ensures
            first == old(self).fires(),
            *final(self) == old(self).tripped(),
    {
        let first = !self.ended;
        self.ended = true;
        first
    }
}

/// Whatever state the latch is in, once it has been tripped no later trip
/// ends the session again.
pub proof fn lemma_session_ends_once(latch: SessionLatch)
    ensures
        !latch.tripped().fires(),
        latch.tripped().tripped() == latch.tripped(),
{
}

/// Without a session every page but the login page sends the visitor to
/// `/login`.
pub fn needs_login(signed_in: bool, path: &str) -> (r: bool)
    ensures
        r == (!signed_in && path@ != "/login"@),
{
    !signed_in && !str_eq(path, "/login")
}

// ---------------------------------------------------------------------------
// Notification toggles
// ---------------------------------------------------------------------------

/// Keeps a page's notification toggle in step with the member's stored
/// preference: nothing is written before the stored value has been read,
/// and a value is never written twice in a row.
pub struct ToggleSync {
    loaded: bool,
    saved: Option<bool>,
}

impl ToggleSync {
    /// Whether the stored preference has been read.
    pub closed spec fn is_loaded(self) -> bool {
        self.loaded
    }

    /// Whether setting the toggle to `want` in this state writes it.
    pub closed spec fn writes(self, want: bool) -> bool {
        self.loaded && self.saved != Some(want)
    }

    /// The state after the toggle is set to `want`.
    pub closed spec fn after_flip(self, want: bool) -> ToggleSync {
        if self.writes(want) {
            ToggleSync { loaded: self.loaded, saved: Some(want) }
        } else {
            self
        }
    }

    /// The state once the stored preference has been read (`None` when the
    /// read failed).
    pub closed spec fn after_load(self, stored: Option<bool>) -> ToggleSync {
        ToggleSync { loaded: true, saved: stored }
    }

    pub fn new() -> (r: ToggleSync)
        ensures
            !r.is_loaded(),
    {
        ToggleSync { loaded: false, saved: None }
    }

    /// The stored preference has been read: its value when the read
    /// succeeded, `None` when it failed.
    pub fn loaded(&mut self, stored: Option<bool>)
        ensures
            *final(self) == old(self).after_load(stored),
    {
        self.loaded = true;
        self.saved = stored;
    }

    /// The member set the toggle to `want`; whether to write it.
    pub fn flip(&mut self, want: bool) -> (write: bool)
        ensures
            write == old(self).writes(want),
            *final(self) == old(self).after_flip(want),
    {
        if !self.loaded {
            return false;
        }
        match self.saved {
            Some(v) => {
                if v == want {
                    return false;
                }
            },
            None => {},
        }
        self.saved = Some(want);
        true
    }
}

/// Nothing is written before the stored preference has been read.
pub proof fn lemma_toggle_waits_for_load(sync: ToggleSync, want: bool)
    requires
        !sync.is_loaded(),
    ensures
        !sync.writes(want),
{
}

/// Once the preference is read, a value is written exactly when it differs
/// from the stored one; and setting the toggle to the value it was just set
/// to never writes again.
pub proof fn lemma_toggle_writes_changes_once(sync: ToggleSync, stored: Option<bool>, want: bool)
    ensures
        sync.after_load(stored).writes(want) == (stored != Some(want)),
        !sync.after_flip(want).writes(want),
{
}

// ---------------------------------------------------------------------------
// Calendar feed
// ---------------------------------------------------------------------------

/// Public URL of the member's .ics feed under the API base.
pub fn calendar_feed_url(api_base: &str, feed_token: &str) -> (r: String)
    ensures
        r@ == api_base@ + "/calendar/"@ + feed_token@ + "/baphomet-babes.ics"@,
{
    let mut s = String::new();
    push_str(&mut s, api_base);
    push_str(&mut s, "/calendar/");
    push_str(&mut s, feed_token);
    push_str(&mut s, "/baphomet-babes.ics");
    assert(s@ =~= api_base@ + "/calendar/"@ + feed_token@ + "/baphomet-babes.ics"@);
    s
}

/// The `webcal://` form of a feed URL, which Apple and most desktop calendar
/// apps subscribe from.
pub open spec fn webcal_of(u: Seq<char>) -> Seq<char> {
    replace_first(replace_first(u, "https://"@, "webcal://"@), "http://"@, "webcal://"@)
}

pub fn webcal_url(u: &str) -> (r: String)
    ensures
        r@ == webcal_of(u@),
{
    let v = chars_of(u);
    let once = replace_first_chars(&v, "https://", "webcal://");
    let twice = replace_first_chars(&once, "http://", "webcal://");
    string_of(&twice)
}

/// Characters `encodeURIComponent` leaves as they are: ASCII letters and
/// digits and `- _ . ! ~ * ' ( )`.
pub open spec fn uri_unreserved(c: char) -> bool {
    url_safe(c) || c == '!' || c == '*' || c == '\'' || c == '(' || c == ')'
}

/// What JavaScript's `encodeURIComponent` returns for a string: unreserved
/// characters as they are, every other character as the `%XX` escapes
/// (upper-case hex) of its UTF-8 bytes.
pub open spec fn uri_component(s: Seq<char>) -> Seq<char>
    decreases s.len(),
{
    if s.len() == 0 {
        seq![]
    } else {
        uri_component(s.drop_last()) + if uri_unreserved(s.last()) {
            seq![s.last()]
        } else {
            percent_encoded(vstd::utf8::encode_scalar(s.last() as u32))
        }
    }
}

/// `encodeURIComponent`, as JavaScript computes it (ECMAScript's `Encode`):
/// unreserved characters as they are, every other one as the upper-case
/// `%XX` escapes of its UTF-8 bytes. A Rust string holds no lone surrogate,
/// so every input has an encoding. Written here rather than called through
/// `js_sys`, whose import only runs inside a JavaScript host.
pub fn encode_uri_component(s: &str) -> (r: String)
    ensures
        r@ == uri_component(s@),
{
    let v = chars_of(s);
    let mut out = String::new();
    let mut i: usize = 0;
    assert(v@.take(0) =~= seq![]);
    while i < v.len()
        invariant
            i <= v.len(),
            v@ == s@,
            out@ == uri_component(v@.take(i as int)),
        decreases v.len() - i,
    {
        let c = v[i];
        let ghost before = out@;
        let keep = ('A' <= c && c <= 'Z') || ('a' <= c && c <= 'z') || ('0' <= c && c <= '9') || c == '-'
            || c == '_' || c == '.' || c == '~' || c == '!' || c == '*' || c == '\'' || c == '(' || c == ')';
        if keep {
            push_char(&mut out, c);
        } else {
            let bytes = utf8_bytes(c);
            push_percent(&mut out, &bytes);
        }
        assert(v@.take(i + 1).drop_last() =~= v@.take(i as int));
        assert(v@.take(i + 1).last() == c);
        i += 1;
        assert(out@ =~= uri_component(v@.take(i as int)));
    }
    assert(v@.take(v.len() as int) =~= v@);
    out
}

/// Google Calendar's subscribe link for an already encoded `webcal://` URL.
pub fn google_subscribe_link(encoded_webcal: &str) -> (r: String)
    ensures
        r@ == "https://calendar.google.com/calendar/r?cid="@ + encoded_webcal@,
{
    let mut s = String::from_str("https://calendar.google.com/calendar/r?cid=");
    push_str(&mut s, encoded_webcal);
    s
}

/// The Google Calendar link that subscribes to a feed.
pub fn google_calendar_url(feed_url: &str) -> (r: String)
    ensures
        r@ == "https://calendar.google.com/calendar/r?cid="@ + uri_component(webcal_of(feed_url@)),
{
    let webcal = webcal_url(feed_url);
    let encoded = encode_uri_component(webcal.as_str());
    google_subscribe_link(encoded.as_str())
}

/// Outlook's add-from-web link for an already encoded feed URL and
/// calendar name.
pub fn outlook_subscribe_link(encoded_url: &str, encoded_name: &str) -> (r: String)
    ensures
        r@ == "https://outlook.live.com/calendar/0/addfromweb?url="@ + encoded_url@ + "&name="@ + encoded_name@,
{
    let mut s = String::from_str("https://outlook.live.com/calendar/0/addfromweb?url=");
    push_str(&mut s, encoded_url);
    push_str(&mut s, "&name=");
    push_str(&mut s, encoded_name);
    assert(s@ =~= "https://outlook.live.com/calendar/0/addfromweb?url="@ + encoded_url@ + "&name="@ + encoded_name@);
    s
}

/// The calendar's name in subscribe links.
pub const CALENDAR_NAME: &'static str = "Baphomet Babes";

/// The Outlook link that subscribes to a feed under the club's calendar name.
pub fn outlook_calendar_url(feed_url: &str) -> (r: String)
    ensures
        r@ == "https://outlook.live.com/calendar/0/addfromweb?url="@ + uri_component(feed_url@) + "&name="@
            + uri_component(CALENDAR_NAME@),
{
    let url = encode_uri_component(feed_url);
    let name = encode_uri_component(CALENDAR_NAME);
    outlook_subscribe_link(url.as_str(), name.as_str())
}

// ---------------------------------------------------------------------------
// Updates
// ---------------------------------------------------------------------------

/// A newer build is live when the published version differs from the one
/// this bundle was built from; "dev" builds never compare.
pub fn update_available(build_sha: &str, published: Option<&str>) -> (r: bool)
    ensures
        r == (build_sha@ != "dev"@ && match published {
            Some(p) => p@ != build_sha@,
            None => false,
        }),
{
    if str_eq(build_sha, "dev") {
        return false;
    }
    match published {
        Some(p) => !str_eq(p, build_sha),
        None => false,
    }
}

/// An immediate reload loses nothing when no text field holds input.
pub fn safe_to_reload(field_values: &Vec<String>) -> (r: bool)
    ensures
        r == forall|i: int| 0 <= i < field_values.len() ==> (#[trigger] field_values@[i])@.len() == 0,
{
    let mut i: usize = 0;
    while i < field_values.len()
        invariant
            i <= field_values.len(),
            forall|j: int| 0 <= j < i ==> (#[trigger] field_values@[j])@.len() == 0,
        decreases field_values.len() - i,
    {
        if !field_values[i].as_str().is_empty() {
            return false;
        }
        i += 1;
    }
    true
}

// ---------------------------------------------------------------------------
// Install guides
// ---------------------------------------------------------------------------

#[derive(Clone, Copy, Debug, PartialEq, Eq, Structural)]
pub enum Platform {
    Ios,
    Android,
    DesktopChromium,
    SafariMac,
    Firefox,
    Other,
}

/// The install guides, in the order the page lists them.
pub open spec fn all_guides() -> Seq<Platform> {
    seq![
        Platform::Ios,
        Platform::Android,
        Platform::DesktopChromium,
        Platform::SafariMac,
        Platform::Firefox,
        Platform::Other,
    ]
}

pub open spec fn guide_position(p: Platform) -> int {
    match p {
        Platform::Ios => 0,
        Platform::Android => 1,
        Platform::DesktopChromium => 2,
        Platform::SafariMac => 3,
        Platform::Firefox => 4,
        Platform::Other => 5,
    }
}

/// The order the install page shows its guides in: the visitor's platform
/// first, then every other one in the page's order.
pub fn guide_order(platform: Platform) -> (r: Vec<Platform>)
    ensures
        r@ == seq![platform] + all_guides().remove(guide_position(platform)),
{
    let mut r: Vec<Platform> = Vec::new();
    r.push(platform);
    if platform != Platform::Ios {
        r.push(Platform::Ios);
    }
    if platform != Platform::Android {
        r.push(Platform::Android);
    }
    if platform != Platform::DesktopChromium {
        r.push(Platform::DesktopChromium);
    }
    if platform != Platform::SafariMac {
        r.push(Platform::SafariMac);
    }
    if platform != Platform::Firefox {
        r.push(Platform::Firefox);
    }
    if platform != Platform::Other {
        r.push(Platform::Other);
    }
    assert(r@ =~= seq![platform] + all_guides().remove(guide_position(platform)));
    r
}

/// Every guide stays reachable whatever the visitor's platform: each one
/// is listed, and exactly once, so a wrong guess is harmless.
pub proof fn lemma_every_guide_listed(platform: Platform, g: Platform)
    ensures
        (seq![platform] + all_guides().remove(guide_position(platform))).contains(g),
        (seq![platform] + all_guides().remove(guide_position(platform))).len() == 6,
        (seq![platform] + all_guides().remove(guide_position(platform))).no_duplicates(),
{
    let order = seq![platform] + all_guides().remove(guide_position(platform));
    let all = all_guides();
    assert(order.len() == 6);
    if g == platform {
        assert(order[0] == g);
    } else {
        let k = guide_position(g);
        let p = guide_position(platform);
        let at = if k < p { k + 1 } else { k };
        assert(order[at] == g);
    }
    assert forall|i: int, j: int| 0 <= i < order.len() && 0 <= j < order.len() && i != j implies order[i]
        != order[j] by {
        let p = guide_position(platform);
        assert(all[p] == platform);
    }
}

/// The platform a lower-cased user agent names. Chromium user agents also
/// say "safari", so they are recognised first.
pub open spec fn platform_for(ua: Seq<char>) -> Platform {
    let has = |t: Seq<char>| contains_sub(ua, t);
    if has("iphone"@) || has("ipad"@) || has("ipod"@) {
        Platform::Ios
    } else if has("android"@) {
        if has("firefox"@) || has("fxios"@) {
            Platform::Firefox
        } else {
            Platform::Android
        }
    } else if has("firefox"@) || has("fxios"@) {
        Platform::Firefox
    } else if has("edg"@) || has("chrome"@) || has("chromium"@) {
        Platform::DesktopChromium
    } else if has("safari"@) && has("macintosh"@) {
        Platform::SafariMac
    } else {
        Platform::Other
    }
}

/// Which guide a lower-cased user agent gets: an iPhone, iPad or iPod is
/// iOS whatever else it says; Android is Android unless it is Firefox; any
/// other Firefox is Firefox; a Chromium browser (Chrome, Edge, Chromium) is
/// desktop Chromium even though it also says "safari"; Safari on a Mac is
/// Safari; anything else gets the general guide.
pub proof fn lemma_platform_rules(ua: Seq<char>)
    ensures
        ({
            let ios = contains_sub(ua, "iphone"@) || contains_sub(ua, "ipad"@) || contains_sub(ua, "ipod"@);
            let android = contains_sub(ua, "android"@);
            let firefox = contains_sub(ua, "firefox"@) || contains_sub(ua, "fxios"@);
            let chromium = contains_sub(ua, "chrome"@) || contains_sub(ua, "edg"@) || contains_sub(ua, "chromium"@);
            let mac_safari = contains_sub(ua, "safari"@) && contains_sub(ua, "macintosh"@);
            &&& ios ==> platform_for(ua) == Platform::Ios
            &&& !ios && android && !firefox ==> platform_for(ua) == Platform::Android
            &&& !ios && firefox ==> platform_for(ua) == Platform::Firefox
            &&& !ios && !android && !firefox && chromium ==> platform_for(ua) == Platform::DesktopChromium
            &&& !ios && !android && !firefox && !chromium && mac_safari ==> platform_for(ua) == Platform::SafariMac
            &&& !ios && !android && !firefox && !chromium && !mac_safari ==> platform_for(ua) == Platform::Other
        }),
{
}

/// The platform named by a user agent that is already lower-cased.
pub fn platform_of_lowercase(ua: &str) -> (r: Platform)
    ensures
        r == platform_for(ua@),
{
    let v = chars_of(ua);
    if contains(&v, "iphone") || contains(&v, "ipad") || contains(&v, "ipod") {
        return Platform::Ios;
    }
    if contains(&v, "android") {
        if contains(&v, "firefox") || contains(&v, "fxios") {
            return Platform::Firefox;
        }
        return Platform::Android;
    }
    if contains(&v, "firefox") || contains(&v, "fxios") {
        return Platform::Firefox;
    }
    if contains(&v, "edg") || contains(&v, "chrome") || contains(&v, "chromium") {
        return Platform::DesktopChromium;
    }
    if contains(&v, "safari") && contains(&v, "macintosh") {
        return Platform::SafariMac;
    }
    Platform::Other
}

/// What `str::to_lowercase` returns for a string.
pub uninterp spec fn lowercase(s: Seq<char>) -> Seq<char>;

/// `str::to_lowercase`: the Unicode lower-case mapping of `s`, a function of
/// `s` alone. What that mapping is (the Unicode tables) is not stated here.
#[verifier::external_body]
fn to_lowercase(s: &str) -> (r: String)
    ensures
        r@ == lowercase(s@),
{
    s.to_lowercase()
}

/// Best-effort platform sniff from a user agent; it only decides which
/// install guide shows first.
pub fn detect(user_agent: &str) -> (r: Platform)
    ensures
        r == platform_for(lowercase(user_agent@)),
{
    let lower = to_lowercase(user_agent);
    platform_of_lowercase(lower.as_str())
}

// ---------------------------------------------------------------------------
// Labels
// ---------------------------------------------------------------------------

pub open spec fn channel_label_of(c: Seq<char>) -> Seq<char> {
    if c == "announcements"@ {
        "Announcement"@
    } else if c == "general"@ {
        "General"@
    } else if c == "movie_night"@ {
        "Movie Night"@
    } else {
        "Notice"@
    }
}

/// The inbox label of a notification channel.
pub fn channel_label(c: &str) -> (r: &'static str)
    ensures
        r@ == channel_label_of(c@),
{
    if str_eq(c, "announcements") {
        "Announcement"
    } else if str_eq(c, "general") {
        "General"
    } else if str_eq(c, "movie_night") {
        "Movie Night"
    } else {
        "Notice"
    }
}

/// "1 person going", or "{n} going".
pub fn going_label(n: i64) -> (r: String)
    ensures
        r@ == if n == 1 {
            "1 person going"@
        } else {
            crate::fmt::fmt_int(n as int, 0) + " going"@
        },
{
    if n == 1 {
        String::from_str("1 person going")
    } else {
        let mut s = String::new();
        crate::fmt::push_int(&mut s, n, 0);
        push_str(&mut s, " going");
        assert(s@ =~= crate::fmt::fmt_int(n as int, 0) + " going"@);
        s
    }
}

/// "1 rider", or "{n} riders".
pub fn riders_label(n: u64) -> (r: String)
    ensures
        r@ == if n == 1 {
            "1 rider"@
        } else {
            crate::fmt::decimal(n as nat) + " riders"@
        },
{
    if n == 1 {
        String::from_str("1 rider")
    } else {
        let mut s = String::new();
        crate::fmt::push_decimal(&mut s, n);
        push_str(&mut s, " riders");
        assert(s@ =~= crate::fmt::decimal(n as nat) + " riders"@);
        s
    }
}

// ---------------------------------------------------------------------------
// Local storage keys
// ---------------------------------------------------------------------------

/// Where this device's push token is remembered.
pub const PUSH_TOKEN_KEY: &'static str = "fcm_token";

/// Namespaced key so stashed payloads don't collide with auth keys.
pub fn key(name: &str) -> (r: String)
    ensures
        r@ == "bb-cache:"@ + name@,
{
    let mut s = String::new();
    push_str(&mut s, "bb-cache:");
    push_str(&mut s, name);
    assert(s@ =~= "bb-cache:"@ + name@);
    s
}

// ---------------------------------------------------------------------------
// Links out to maps
// ---------------------------------------------------------------------------

/// Characters a query value keeps as they are.
pub open spec fn url_safe(c: char) -> bool {
    ||| ('A' <= c && c <= 'Z')
    ||| ('a' <= c && c <= 'z')
    ||| ('0' <= c && c <= '9')
    ||| c == '-'
    ||| c == '_'
    ||| c == '.'
    ||| c == '~'
}

pub open spec fn hex_upper(n: int) -> char {
    if n < 10 {
        (n + '0' as int) as char
    } else {
        (n - 10 + 'A' as int) as char
    }
}

/// Each byte as `%XX`, upper-case hex.
pub open spec fn percent_encoded(bytes: Seq<u8>) -> Seq<char>
    decreases bytes.len(),
{
    if bytes.len() == 0 {
        seq![]
    } else {
        let b = bytes.last();
        percent_encoded(bytes.drop_last()) + seq!['%', hex_upper((b / 16) as int), hex_upper((b % 16) as int)]
    }
}

pub open spec fn url_piece(c: char) -> Seq<char> {
    if url_safe(c) {
        seq![c]
    } else if c == ' ' {
        seq!['+']
    } else {
        percent_encoded(vstd::utf8::encode_scalar(c as u32))
    }
}

/// Minimal percent-encoding for a query value: unreserved characters stay,
/// a space becomes `+`, everything else is its UTF-8 bytes as `%XX`.
pub open spec fn urlencoded(s: Seq<char>) -> Seq<char>
    decreases s.len(),
{
    if s.len() == 0 {
        seq![]
    } else {
        urlencoded(s.drop_last()) + url_piece(s.last())
    }
}

/// Characters a percent-encoded query value is made of.
pub open spec fn query_char(c: char) -> bool {
    url_safe(c) || c == '+' || c == '%'
}

proof fn lemma_hex_upper_is_safe(n: int)
    requires
        0 <= n < 16,
    ensures
        url_safe(hex_upper(n)),
{
}

proof fn lemma_percent_encoded_is_safe(bytes: Seq<u8>)
    ensures
        forall|i: int| 0 <= i < percent_encoded(bytes).len() ==> query_char(#[trigger] percent_encoded(bytes)[i]),
    decreases bytes.len(),
{
    if bytes.len() > 0 {
        let b = bytes.last();
        lemma_percent_encoded_is_safe(bytes.drop_last());
        lemma_hex_upper_is_safe((b / 16) as int);
        lemma_hex_upper_is_safe((b % 16) as int);
        let rest = percent_encoded(bytes.drop_last());
        let tail = seq!['%', hex_upper((b / 16) as int), hex_upper((b % 16) as int)];
        assert forall|i: int| 0 <= i < percent_encoded(bytes).len() implies query_char(
            #[trigger] percent_encoded(bytes)[i],
        ) by {
            if i < rest.len() {
                assert(percent_encoded(bytes)[i] == rest[i]);
            } else {
                assert(percent_encoded(bytes)[i] == tail[i - rest.len()]);
            }
        }
    }
}

/// An encoded query value is made only of unreserved characters, `+` and
/// `%` escapes: nothing in it needs escaping again.
pub proof fn lemma_urlencoded_is_query_safe(s: Seq<char>)
    ensures
        forall|i: int| 0 <= i < urlencoded(s).len() ==> query_char(#[trigger] urlencoded(s)[i]),
    decreases s.len(),
{
    if s.len() > 0 {
        let c = s.last();
        lemma_urlencoded_is_query_safe(s.drop_last());
        lemma_percent_encoded_is_safe(vstd::utf8::encode_scalar(c as u32));
        let rest = urlencoded(s.drop_last());
        let piece = url_piece(c);
        assert forall|i: int| 0 <= i < urlencoded(s).len() implies query_char(#[trigger] urlencoded(s)[i]) by {
            if i < rest.len() {
                assert(urlencoded(s)[i] == rest[i]);
            } else {
                assert(urlencoded(s)[i] == piece[i - rest.len()]);
            }
        }
    }
}

/// The value of an upper-case hex digit.
pub open spec fn hex_value(c: char) -> int {
    if '0' <= c && c <= '9' {
        c as int - '0' as int
    } else {
        c as int - 'A' as int + 10
    }
}

/// Form-decoding of a query value, as a server reads it: `+` is a space
/// byte, `%XY` the byte `XY`, any other character the byte of its code.
pub open spec fn form_decoded(s: Seq<char>) -> Seq<u8>
    decreases s.len(),
{
    if s.len() == 0 {
        seq![]
    } else if s[0] == '%' && s.len() >= 3 {
        seq![(hex_value(s[1]) * 16 + hex_value(s[2])) as u8] + form_decoded(s.subrange(3, s.len() as int))
    } else if s[0] == '+' {
        seq![32u8] + form_decoded(s.drop_first())
    } else {
        seq![(s[0] as u32) as u8] + form_decoded(s.drop_first())
    }
}

proof fn lemma_urlencoded_concat(a: Seq<char>, b: Seq<char>)
    ensures
        urlencoded(a + b) == urlencoded(a) + urlencoded(b),
    decreases b.len(),
{
    if b.len() == 0 {
        assert(a + b =~= a);
        assert(urlencoded(a) + urlencoded(b) =~= urlencoded(a));
    } else {
        lemma_urlencoded_concat(a, b.drop_last());
        assert((a + b).drop_last() =~= a + b.drop_last());
        assert((a + b).last() == b.last());
        assert(urlencoded(a) + urlencoded(b) =~= urlencoded(a) + urlencoded(b.drop_last()) + url_piece(b.last()));
    }
}

proof fn lemma_hex_value(n: int)
    requires
        0 <= n < 16,
    ensures
        hex_value(hex_upper(n)) == n,
{
}

proof fn lemma_percent_decodes(bytes: Seq<u8>, rest: Seq<char>)
    ensures
        form_decoded(percent_encoded(bytes) + rest) == bytes + form_decoded(rest),
    decreases bytes.len(),
{
    if bytes.len() == 0 {
        assert(percent_encoded(bytes) + rest =~= rest);
        assert(bytes + form_decoded(rest) =~= form_decoded(rest));
    } else {
        let b = bytes.last();
        let hi = (b / 16) as int;
        let lo = (b % 16) as int;
        let tail = seq!['%', hex_upper(hi), hex_upper(lo)] + rest;
        assert(percent_encoded(bytes) + rest =~= percent_encoded(bytes.drop_last()) + tail);
        lemma_percent_decodes(bytes.drop_last(), tail);
        lemma_hex_value(hi);
        lemma_hex_value(lo);
        assert(tail.subrange(3, tail.len() as int) =~= rest);
        assert((hi * 16 + lo) as u8 == b);
        assert(form_decoded(tail) == seq![b] + form_decoded(rest));
        assert(bytes =~= bytes.drop_last() + seq![b]);
        assert(bytes.drop_last() + (seq![b] + form_decoded(rest)) =~= bytes + form_decoded(rest));
    }
}

proof fn lemma_piece_decodes(c: char, rest: Seq<char>)
    ensures
        form_decoded(url_piece(c) + rest) == vstd::utf8::encode_scalar(c as u32) + form_decoded(rest),
{
    let x = c as u32;
    if url_safe(c) || c == ' ' {
        assert(x < 128);
        assert((x & 0x7F) as u8 == x as u8) by (bit_vector)
            requires
                x < 128,
        ;
        let t = url_piece(c) + rest;
        assert(t.drop_first() =~= rest);
        if c == ' ' {
            assert(x == 32);
        }
    } else {
        lemma_percent_decodes(vstd::utf8::encode_scalar(x), rest);
    }
}

/// Form-decoding the bytes of an encoded query value gives its UTF-8
/// encoding back, so the server reads exactly the text that was encoded.
pub proof fn lemma_urlencoded_round_trip(s: Seq<char>)
    ensures
        form_decoded(urlencoded(s)) == vstd::utf8::encode_utf8(s),
        vstd::utf8::decode_utf8(form_decoded(urlencoded(s))) == s,
    decreases s.len(),
{
    if s.len() > 0 {
        let rest = s.drop_first();
        assert(s =~= seq![s[0]] + rest);
        lemma_urlencoded_concat(seq![s[0]], rest);
        let one = seq![s[0]];
        assert(one.drop_last() =~= Seq::<char>::empty());
        assert(one.last() == s[0]);
        assert(urlencoded(one.drop_last()) =~= Seq::<char>::empty());
        assert(urlencoded(one) =~= url_piece(s[0]));
        lemma_piece_decodes(s[0], urlencoded(rest));
        lemma_urlencoded_round_trip(rest);
    }
    vstd::utf8::encode_utf8_decode_utf8(s);
}

fn utf8_bytes(c: char) -> (r: Vec<u8>)
    ensures
        r@ == vstd::utf8::encode_scalar(c as u32),
{
    let scalar = c as u32;
    if scalar <= 0x7F {
        vec![(scalar & 0x7F) as u8]
    } else if 0x80 <= scalar && scalar <= 0x7FF {
        vec![0xC0 | ((scalar >> 6) & 0x1F) as u8, 0x80 | (scalar & 0x3F) as u8]
    } else if 0x800 <= scalar && scalar <= 0xFFFF && !(0xD800 <= scalar && scalar <= 0xDFFF) {
        vec![
            0xE0 | ((scalar >> 12) & 0x0F) as u8,
            0x80 | ((scalar >> 6) & 0x3F) as u8,
            0x80 | (scalar & 0x3F) as u8,
        ]
    } else {
        vec![
            0xF0 | ((scalar >> 18) & 0x7) as u8,
            0x80 | ((scalar >> 12) & 0x3F) as u8,
            0x80 | ((scalar >> 6) & 0x3F) as u8,
            0x80 | (scalar & 0x3F) as u8,
        ]
    }
}

fn hex_char(n: u8) -> (c: char)
    requires
        n < 16,
    ensures
        c == hex_upper(n as int),
{
    if n < 10 {
        (n + 48) as char
    } else {
        (n - 10 + 65) as char
    }
}

fn push_percent(s: &mut String, bytes: &Vec<u8>)
    ensures
        final(s)@ == old(s)@ + percent_encoded(bytes@),
{
    let ghost s0 = s@;
    let mut i: usize = 0;
    assert(bytes@.take(0) =~= seq![]);
    while i < bytes.len()
        invariant
            i <= bytes.len(),
            s@ == s0 + percent_encoded(bytes@.take(i as int)),
        decreases bytes.len() - i,
    {
        let b = bytes[i];
        push_char(s, '%');
        push_char(s, hex_char(b / 16));
        push_char(s, hex_char(b % 16));
        assert(bytes@.take(i + 1).drop_last() =~= bytes@.take(i as int));
        assert(bytes@.take(i + 1).last() == b);
        i += 1;
        assert(s@ =~= s0 + percent_encoded(bytes@.take(i as int)));
    }
    assert(bytes@.take(bytes.len() as int) =~= bytes@);
}

/// Percent-encode a query value.
pub fn urlencode(s: &str) -> (r: String)
    ensures
        r@ == urlencoded(s@),
{
    let v = chars_of(s);
    let mut out = String::new();
    let mut i: usize = 0;
    assert(v@.take(0) =~= seq![]);
    while i < v.len()
        invariant
            i <= v.len(),
            v@ == s@,
            out@ == urlencoded(v@.take(i as int)),
        decreases v.len() - i,
    {
        let c = v[i];
        let ghost before = out@;
        let safe = ('A' <= c && c <= 'Z') || ('a' <= c && c <= 'z') || ('0' <= c && c <= '9') || c == '-'
            || c == '_' || c == '.' || c == '~';
        if safe {
            push_char(&mut out, c);
        } else if c == ' ' {
            push_char(&mut out, '+');
        } else {
            let bytes = utf8_bytes(c);
            push_percent(&mut out, &bytes);
        }
        assert(v@.take(i + 1).drop_last() =~= v@.take(i as int));
        assert(v@.take(i + 1).last() == c);
        i += 1;
        assert(out@ =~= before + url_piece(c));
    }
    assert(v@.take(v.len() as int) =~= v@);
    out
}

/// A maps search for a written address.
pub fn address_search_url(address: &str) -> (r: String)
    ensures
        r@ == "https://www.google.com/maps/search/?api=1&query="@ + urlencoded(address@),
{
    let mut s = String::from_str("https://www.google.com/maps/search/?api=1&query=");
    let q = urlencode(address);
    push_str(&mut s, q.as_str());
    s
}

} // verus!
