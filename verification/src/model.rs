//! The records that the hub and its backend exchange: accounts, profiles,
//! invites, announcements, notifications and their preferences.
use vstd::prelude::*;

use crate::text::str_eq;

verus! {

// ---------------------------------------------------------------------------
// Accounts
// ---------------------------------------------------------------------------

#[derive(Clone, Debug, PartialEq)]
pub struct AuthUser {
    pub id: String,
    pub email: String,
    pub username: String,
    pub role: String,
    pub token: String,
}

pub open spec fn role_is_admin(role: Seq<char>) -> bool {
    role == "admin"@ || role == "superadmin"@
}

pub open spec fn role_is_superadmin(role: Seq<char>) -> bool {
    role == "superadmin"@
}

impl AuthUser {
    /// Admins and superadmins.
    pub fn is_admin(&self) -> (r: bool)
        ensures
            r == role_is_admin(self.role@),
    {
        str_eq(self.role.as_str(), "admin") || str_eq(self.role.as_str(), "superadmin")
    }

    pub fn is_superadmin(&self) -> (r: bool)
        ensures
            r == role_is_superadmin(self.role@),
    {
        str_eq(self.role.as_str(), "superadmin")
    }
}

/// Stored in a cross-domain cookie: the identity without the session token.
#[derive(Clone, Debug, PartialEq)]
pub struct CookieIdentity {
    pub id: String,
    pub email: String,
    pub username: String,
    pub role: String,
}

/// The identity of a signed-in user, without the token.
impl<'a> From<&'a AuthUser> for CookieIdentity {
    fn from(u: &'a AuthUser) -> (c: CookieIdentity) {
        CookieIdentity {
            id: u.id.clone(),
            email: u.email.clone(),
            username: u.username.clone(),
            role: u.role.clone(),
        }
    }
}

impl<'a> vstd::std_specs::convert::FromSpecImpl<&'a AuthUser> for CookieIdentity {
    open spec fn obeys_from_spec() -> bool {
        true
    }

    open spec fn from_spec(u: &'a AuthUser) -> CookieIdentity {
        CookieIdentity { id: u.id, email: u.email, username: u.username, role: u.role }
    }
}

#[derive(Clone, Debug)]
pub struct LoginRequest {
    pub email: String,
    pub password: String,
}

#[derive(Clone, Debug)]
pub struct RegisterRequest {
    pub email: String,
    pub username: String,
    pub password: String,
    pub invite_code: String,
}

#[derive(Clone, Debug)]
pub struct UserInfo {
    pub id: String,
    pub email: String,
    pub username: String,
    pub role: String,
}

#[derive(Clone, Debug)]
pub struct AuthResponse {
    pub token: String,
    pub user: UserInfo,
}

// ---------------------------------------------------------------------------
// Events, RSVPs, uploads
// ---------------------------------------------------------------------------

#[derive(Clone, Debug)]
pub struct CreateEventRequest {
    pub event_type: String,
    pub title: String,
    pub date: Option<String>,
    pub description: Option<String>,
    pub poll_embed_url: Option<String>,
    pub poster_url: Option<String>,
    pub rsvp_deadline: Option<String>,
    pub poll_deadline: Option<String>,
}

#[derive(Clone, Debug, Default)]
pub struct UpdateEventRequest {
    pub event_type: Option<String>,
    pub title: Option<String>,
    pub date: Option<String>,
    pub description: Option<String>,
    pub poll_embed_url: Option<String>,
    pub poster_url: Option<String>,
    pub rsvp_deadline: Option<String>,
    pub poll_deadline: Option<String>,
}

/// Cover image upload, the bytes as base64.
#[derive(Clone, Debug)]
pub struct UploadImageRequest {
    pub content_type: String,
    pub data_base64: String,
}

#[derive(Clone, Debug)]
pub struct UploadImageResponse {
    pub url: String,
}

#[derive(Clone, Debug)]
pub struct GeocodeRequest {
    pub query: String,
}

/// A member's RSVP action: going (true) or cancel (false).
#[derive(Clone, Debug)]
pub struct RsvpRequest {
    pub going: bool,
}

/// One "going" RSVP, as shown to admins.
#[derive(Clone, Debug)]
pub struct Rsvp {
    pub user_id: String,
    pub author: String,
    pub created_at: i64,
}

// ---------------------------------------------------------------------------
// Announcements, profiles, invites, users
// ---------------------------------------------------------------------------

#[derive(Clone, Debug)]
pub struct Announcement {
    pub id: String,
    pub title: String,
    pub body: String,
    pub poll_embed_url: Option<String>,
    pub created_at: i64,
}

#[derive(Clone, Debug)]
pub struct CreateAnnouncementRequest {
    pub title: String,
    pub body: String,
    pub poll_embed_url: Option<String>,
}

#[derive(Clone, Debug, Default)]
pub struct UpdateAnnouncementRequest {
    pub title: Option<String>,
    pub body: Option<String>,
    pub poll_embed_url: Option<String>,
}

#[derive(Clone, Debug)]
pub struct ProfileLink {
    pub label: String,
    pub url: String,
}

#[derive(Clone, Debug)]
pub struct Profile {
    pub user_id: String,
    pub username: String,
    pub display_name: Option<String>,
    pub bio: Option<String>,
    pub pronouns: Option<String>,
    pub avatar_url: Option<String>,
    pub email: Option<String>,
    pub phone: Option<String>,
    pub links: Vec<ProfileLink>,
    pub is_public: bool,
    pub updated_at: i64,
}

#[derive(Clone, Debug, Default)]
pub struct UpdateProfileRequest {
    pub display_name: Option<String>,
    pub bio: Option<String>,
    pub pronouns: Option<String>,
    pub avatar_url: Option<String>,
    pub email: Option<String>,
    pub phone: Option<String>,
    pub links: Option<Vec<ProfileLink>>,
    pub is_public: Option<bool>,
}

#[derive(Clone, Debug)]
pub struct InviteCode {
    pub id: String,
    pub code: String,
    pub role: String,
    /// The person this code was minted for; empty on codes older than the field.
    pub first_name: String,
    pub last_name: Option<String>,
    pub phone: Option<String>,
    pub created_by: String,
    pub used: bool,
    pub created_at: i64,
}

#[derive(Clone, Debug)]
pub struct CreateInviteRequest {
    pub role: String,
    pub first_name: String,
    pub last_name: Option<String>,
    pub phone: Option<String>,
}

#[derive(Clone, Debug, PartialEq)]
pub struct UserSummary {
    pub id: String,
    pub email: String,
    pub username: String,
    pub role: String,
    pub disabled: bool,
    pub created_at: i64,
    /// How many devices this user has enrolled for push notifications.
    pub device_count: i64,
}

#[derive(Clone, Debug, Default)]
pub struct UpdateUserRequest {
    pub role: Option<String>,
    pub disabled: Option<bool>,
}

// ---------------------------------------------------------------------------
// Notifications
// ---------------------------------------------------------------------------

pub const CHANNEL_ANNOUNCEMENTS: &'static str = "announcements";

pub const CHANNEL_GENERAL: &'static str = "general";

pub const CHANNEL_MOVIE_NIGHT: &'static str = "movie_night";

pub const CHANNEL_CHAT: &'static str = "chat";

pub const CHANNEL_MOUNTAIN_BIKE: &'static str = "mountain_bike";

pub const CHANNEL_GATHERINGS: &'static str = "gatherings";

/// Admin-only channel for exercising the push pipeline.
pub const CHANNEL_TEST: &'static str = "test";

/// A delivered notification, as shown in the inbox.
#[derive(Clone, Debug, PartialEq)]
pub struct Notification {
    pub id: String,
    pub channel: String,
    pub title: String,
    pub body: String,
    pub url: Option<String>,
    pub created_at: i64,
}

/// Per-channel email delivery, parallel to the push flags.
#[derive(Clone, Copy, Debug, PartialEq, Eq)]
pub struct EmailPrefs {
    pub announcements: bool,
    pub general: bool,
    pub movie_night: bool,
    pub mountain_bike: bool,
    pub gatherings: bool,
}

/// The flag that governs email on `channel`; a channel that is not listed
/// never gets email.
pub open spec fn email_allowed(p: EmailPrefs, channel: Seq<char>) -> bool {
    if channel == "announcements"@ {
        p.announcements
    } else if channel == "general"@ {
        p.general
    } else if channel == "movie_night"@ {
        p.movie_night
    } else if channel == "mountain_bike"@ {
        p.mountain_bike
    } else if channel == "gatherings"@ {
        p.gatherings
    } else {
        false
    }
}

/// Chat, the admin test channel and any channel added later never get
/// email, whatever the member chose: a channel has to be listed to get it.
pub proof fn lemma_unlisted_channels_get_no_email(p: EmailPrefs, channel: Seq<char>)
    requires
        channel != CHANNEL_ANNOUNCEMENTS@,
        channel != CHANNEL_GENERAL@,
        channel != CHANNEL_MOVIE_NIGHT@,
        channel != CHANNEL_MOUNTAIN_BIKE@,
        channel != CHANNEL_GATHERINGS@,
    ensures
        !email_allowed(p, channel),
{
    reveal_strlit("announcements");
    reveal_strlit("general");
    reveal_strlit("movie_night");
    reveal_strlit("mountain_bike");
    reveal_strlit("gatherings");
}

impl EmailPrefs {
    /// Whether this member wants email for `channel`.
    pub fn allows(&self, channel: &str) -> (r: bool)
        ensures
            r == email_allowed(*self, channel@),
    {
        if str_eq(channel, "announcements") {
            self.announcements
        } else if str_eq(channel, "general") {
            self.general
        } else if str_eq(channel, "movie_night") {
            self.movie_night
        } else if str_eq(channel, "mountain_bike") {
            self.mountain_bike
        } else if str_eq(channel, "gatherings") {
            self.gatherings
        } else {
            false
        }
    }
}

impl Default for EmailPrefs {
    /// Movie nights and gatherings by email; everything else is opt-in.
    fn default() -> (p: Self)
        ensures
            !p.announcements,
            !p.general,
            p.movie_night,
            !p.mountain_bike,
            p.gatherings,
    {
        EmailPrefs {
            announcements: false,
            general: false,
            movie_night: true,
            gatherings: true,
            mountain_bike: false,
        }
    }
}

/// Per-user channel subscriptions.
#[derive(Clone, Copy, Debug, PartialEq, Eq)]
pub struct NotificationPrefs {
    pub announcements: bool,
    pub general: bool,
    pub movie_night: bool,
    pub chat: bool,
    pub mountain_bike: bool,
    pub test: bool,
    pub gatherings: bool,
    pub email: EmailPrefs,
}

/// The value a missing on/off flag takes when a stored record predates it.
pub fn default_true() -> (r: bool)
    ensures
        r,
{
    true
}

impl Default for NotificationPrefs {
    /// Every channel on but chat and mountain biking, which are opt-in.
    fn default() -> (p: Self)
        ensures
            p.announcements,
            p.general,
            p.movie_night,
            !p.chat,
            !p.mountain_bike,
            p.test,
            p.gatherings,
            !p.email.announcements,
            !p.email.general,
            p.email.movie_night,
            !p.email.mountain_bike,
            p.email.gatherings,
    {
        NotificationPrefs {
            announcements: true,
            general: true,
            movie_night: true,
            chat: false,
            mountain_bike: false,
            test: true,
            gatherings: true,
            email: EmailPrefs::default(),
        }
    }
}

#[derive(Clone, Copy, Debug, Default)]
pub struct UpdateEmailPrefs {
    pub announcements: Option<bool>,
    pub general: Option<bool>,
    pub movie_night: Option<bool>,
    pub mountain_bike: Option<bool>,
    pub gatherings: Option<bool>,
}

#[derive(Clone, Copy, Debug, Default)]
pub struct UpdateNotificationPrefs {
    pub announcements: Option<bool>,
    pub general: Option<bool>,
    pub movie_night: Option<bool>,
    pub chat: Option<bool>,
    pub mountain_bike: Option<bool>,
    pub test: Option<bool>,
    pub gatherings: Option<bool>,
    pub email: Option<UpdateEmailPrefs>,
}

/// Register (or refresh) a push token for the current user.
#[derive(Clone, Debug)]
pub struct RegisterPushTokenRequest {
    pub token: String,
}

/// Result of a self-serve test push.
#[derive(Clone, Debug, PartialEq)]
pub struct TestPushResponse {
    pub devices: usize,
    pub sent: usize,
    pub detail: Option<String>,
}

// ---------------------------------------------------------------------------
// Chat, broadcasts, calendar feed, errors
// ---------------------------------------------------------------------------

#[derive(Clone, Debug, PartialEq)]
pub struct ChatMessage {
    pub id: String,
    pub user_id: String,
    pub author: String,
    pub body: String,
    pub created_at: i64,
}

#[derive(Clone, Debug)]
pub struct SendChatRequest {
    pub body: String,
}

/// Admin broadcast; `channel` is General by default, or Test.
#[derive(Clone, Debug)]
pub struct BroadcastRequest {
    pub title: String,
    pub body: String,
    pub channel: Option<String>,
}

#[derive(Clone, Debug, PartialEq)]
pub struct CalendarToken {
    pub token: String,
}

#[derive(Clone, Debug)]
pub struct ErrorResponse {
    pub error: String,
}

} // verus!
