//! The hub's logic: the records it exchanges with its backend, the rules for
//! gatherings and ride contacts, the movie-night schedule, date and time
//! formatting, and the decisions its browser glue makes.
use vstd::prelude::*;

pub mod text;
pub mod fmt;
pub mod model;
pub mod contact;
pub mod gathering;
pub mod schedule;
pub mod movie_nights;
pub mod rides;
pub mod forms;
pub mod dates;
pub mod calendar;
pub mod web;
pub mod labels;

pub use contact::{classify_contact, ContactKind};
pub use gathering::{valid_local_datetime, validate_gathering, Coordinate, GatheringPlace};
pub use model::{
    Announcement, AuthResponse, AuthUser, BroadcastRequest, CalendarToken, ChatMessage, CookieIdentity,
    CreateAnnouncementRequest, CreateEventRequest, CreateInviteRequest, EmailPrefs, ErrorResponse,
    GeocodeRequest, InviteCode, LoginRequest, Notification, NotificationPrefs, Profile, ProfileLink,
    RegisterPushTokenRequest, RegisterRequest, Rsvp, RsvpRequest, SendChatRequest, TestPushResponse,
    UpdateAnnouncementRequest, UpdateEmailPrefs, UpdateEventRequest, UpdateNotificationPrefs,
    UpdateProfileRequest, UpdateUserRequest, UploadImageRequest, UploadImageResponse, UserInfo,
    UserSummary, CHANNEL_ANNOUNCEMENTS, CHANNEL_CHAT, CHANNEL_GATHERINGS, CHANNEL_GENERAL,
    CHANNEL_MOUNTAIN_BIKE, CHANNEL_MOVIE_NIGHT, CHANNEL_TEST,
};
pub use schedule::{split_events, Event, EventStage};

verus! {

} // verus!
