//! What the hub's forms send: each page turns its input fields into a
//! request, or into the message that stops it.
use vstd::prelude::*;

use crate::model::{
    AuthResponse, AuthUser, BroadcastRequest, CreateAnnouncementRequest, CreateEventRequest, CreateInviteRequest,
    ProfileLink, UpdateAnnouncementRequest, UpdateEventRequest, UpdateProfileRequest, UpdateUserRequest, CHANNEL_TEST,
};
use crate::schedule::{stage_of, Event, EventStage};
use crate::text::{chars_of, first_index, push_str, string_of, trim, trim_chars};

verus! {

/// `Some(s)` unless `s` is empty.
pub fn non_empty(s: String) -> (r: Option<String>)
    ensures
        r == if s@.len() == 0 {
            None
        } else {
            Some(s)
        },
{
    if s.as_str().is_empty() {
        None
    } else {
        Some(s)
    }
}

/// The trimmed text, or `None` when nothing is left of it.
pub fn trimmed_non_empty(s: &str) -> (r: Option<String>)
    ensures
        match r {
            Some(t) => t@ == trim(s@) && t@.len() > 0,
            None => trim(s@).len() == 0,
        },
{
    let v = chars_of(s);
    let t = trim_chars(&v);
    if t.len() == 0 {
        None
    } else {
        Some(string_of(&t))
    }
}

/// An address as typed, unless it is blank.
pub fn present_address(addr: String) -> (r: Option<String>)
    ensures
        r == if trim(addr@).len() == 0 {
            None
        } else {
            Some(addr)
        },
{
    if crate::text::is_blank(addr.as_str()) {
        None
    } else {
        Some(addr)
    }
}

// ---------------------------------------------------------------------------
// Movie nights (admin)
// ---------------------------------------------------------------------------

/// The "post a movie" form. The date and RSVP deadline only count when the
/// "already scheduled" section is open.
pub struct EventForm {
    pub event_type: String,
    pub title: String,
    pub date: String,
    pub rsvp_deadline: String,
    pub description: String,
    pub poll_url: String,
    pub poster_url: String,
    pub scheduled: bool,
}

pub open spec fn opt_if(keep: bool, s: String) -> Option<String> {
    if keep {
        Some(s)
    } else {
        None
    }
}

pub fn create_event_request(form: EventForm) -> (r: CreateEventRequest)
    ensures
        r.event_type == form.event_type,
        r.title == form.title,
        r.date == opt_if(form.scheduled && form.date@.len() > 0, form.date),
        r.rsvp_deadline == opt_if(form.scheduled && form.rsvp_deadline@.len() > 0, form.rsvp_deadline),
        r.description == opt_if(form.description@.len() > 0, form.description),
        r.poll_embed_url == opt_if(form.poll_url@.len() > 0, form.poll_url),
        r.poster_url == opt_if(form.poster_url@.len() > 0, form.poster_url),
        r.poll_deadline is None,
{
    let scheduled = form.scheduled;
    let date = if scheduled && !form.date.as_str().is_empty() {
        Some(form.date)
    } else {
        None
    };
    let rsvp_deadline = if scheduled && !form.rsvp_deadline.as_str().is_empty() {
        Some(form.rsvp_deadline)
    } else {
        None
    };
    CreateEventRequest {
        event_type: form.event_type,
        title: form.title,
        date,
        description: non_empty(form.description),
        poll_embed_url: non_empty(form.poll_url),
        poster_url: non_empty(form.poster_url),
        rsvp_deadline,
        poll_deadline: None,
    }
}

/// The edit form of an existing event: every field is sent; empty optional
/// text clears it.
pub fn edit_event_request(
    event_type: String,
    title: String,
    date: String,
    rsvp_deadline: String,
    description: String,
    poll_url: String,
    poster_url: String,
) -> (r: UpdateEventRequest)
    ensures
        r.event_type == Some(event_type),
        r.title == Some(title),
        r.date == Some(date),
        r.rsvp_deadline == Some(rsvp_deadline),
        r.description == opt_if(description@.len() > 0, description),
        r.poll_embed_url == opt_if(poll_url@.len() > 0, poll_url),
        r.poster_url == opt_if(poster_url@.len() > 0, poster_url),
        r.poll_deadline is None,
{
    UpdateEventRequest {
        event_type: Some(event_type),
        title: Some(title),
        date: Some(date),
        rsvp_deadline: Some(rsvp_deadline),
        description: non_empty(description),
        poll_embed_url: non_empty(poll_url),
        poster_url: non_empty(poster_url),
        poll_deadline: None,
    }
}

/// The next step in an event's lifecycle, as the admin stepper offers it.
#[derive(Clone, Copy, Debug, PartialEq, Eq, Structural)]
pub enum StageAction {
    AddPoll,
    SetDate,
    SetDeadline,
}

pub open spec fn no_update() -> UpdateEventRequest {
    UpdateEventRequest {
        event_type: None,
        title: None,
        date: None,
        description: None,
        poll_embed_url: None,
        poster_url: None,
        rsvp_deadline: None,
        poll_deadline: None,
    }
}

/// The update one lifecycle step sends. Setting the date also sets the RSVP
/// deadline, where an empty deadline clears it.
pub fn stage_update(action: StageAction, poll: String, date: String, deadline: String) -> (r: Result<
    UpdateEventRequest,
    String,
>)
    ensures
        match action {
            StageAction::AddPoll => if poll@.len() == 0 {
                r matches Err(e) && e@ == "Paste the poll embed URL first."@
            } else {
                r == Ok::<UpdateEventRequest, String>(
                    UpdateEventRequest { poll_embed_url: Some(poll), ..no_update() },
                )
            },
            StageAction::SetDate => if date@.len() == 0 {
                r matches Err(e) && e@ == "Pick the screening date first."@
            } else {
                r == Ok::<UpdateEventRequest, String>(
                    UpdateEventRequest { date: Some(date), rsvp_deadline: Some(deadline), ..no_update() },
                )
            },
            StageAction::SetDeadline => if deadline@.len() == 0 {
                r matches Err(e) && e@ == "Pick the deadline first."@
            } else {
                r == Ok::<UpdateEventRequest, String>(
                    UpdateEventRequest { rsvp_deadline: Some(deadline), ..no_update() },
                )
            },
        },
{
    let none = UpdateEventRequest {
        event_type: None,
        title: None,
        date: None,
        description: None,
        poll_embed_url: None,
        poster_url: None,
        rsvp_deadline: None,
        poll_deadline: None,
    };
    match action {
        StageAction::AddPoll => {
            if poll.as_str().is_empty() {
                return Err(String::from_str("Paste the poll embed URL first."));
            }
            Ok(UpdateEventRequest { poll_embed_url: Some(poll), ..none })
        },
        StageAction::SetDate => {
            if date.as_str().is_empty() {
                return Err(String::from_str("Pick the screening date first."));
            }
            Ok(UpdateEventRequest { date: Some(date), rsvp_deadline: Some(deadline), ..none })
        },
        StageAction::SetDeadline => {
            if deadline.as_str().is_empty() {
                return Err(String::from_str("Pick the deadline first."));
            }
            Ok(UpdateEventRequest { rsvp_deadline: Some(deadline), ..none })
        },
    }
}

/// One step of an event's lifecycle line: "{label} ✓" when done, else
/// "{label} —".
pub open spec fn step_text(done: bool, label: Seq<char>) -> Seq<char> {
    label + if done {
        " ✓"@
    } else {
        " —"@
    }
}

fn push_step(s: &mut String, done: bool, label: &str)
    ensures
        final(s)@ == old(s)@ + step_text(done, label@),
{
    push_str(s, label);
    if done {
        push_str(s, " ✓");
    } else {
        push_str(s, " —");
    }
}

/// An event's lifecycle line on the admin page, such as
/// "posted ✓ · poll ✓ · date — · rsvp —".
pub fn progress_line(e: &Event) -> (r: String)
    ensures
        r@ == step_text(true, "posted"@) + " · "@ + step_text(e.poll_embed_url is Some, "poll"@) + " · "@
            + step_text(stage_of(*e) == EventStage::Scheduled, "date"@) + " · "@ + step_text(
            e.rsvp_deadline is Some,
            "rsvp"@,
        ),
{
    let mut s = String::new();
    push_step(&mut s, true, "posted");
    push_str(&mut s, " · ");
    push_step(&mut s, e.poll_embed_url.is_some(), "poll");
    push_str(&mut s, " · ");
    let scheduled = match e.stage() {
        EventStage::Scheduled => true,
        _ => false,
    };
    push_step(&mut s, scheduled, "date");
    push_str(&mut s, " · ");
    push_step(&mut s, e.rsvp_deadline.is_some(), "rsvp");
    s
}

/// What the admin is told about an event's stage; nothing once it is
/// scheduled with an RSVP deadline.
pub fn stage_hint(stage: EventStage, has_deadline: bool) -> (r: Option<&'static str>)
    ensures
        match stage {
            EventStage::Posted => r matches Some(h) && h@
                == "No date yet — add the poll, or set the date to skip voting."@,
            EventStage::Voting => r matches Some(h) && h@ == "Voting open — set the winning date to close the poll."@,
            EventStage::Scheduled => if has_deadline {
                r is None
            } else {
                r matches Some(h) && h@ == "Scheduled. RSVPs stay open — set a deadline to close them."@
            },
        },
{
    match stage {
        EventStage::Posted => Some("No date yet — add the poll, or set the date to skip voting."),
        EventStage::Voting => Some("Voting open — set the winning date to close the poll."),
        EventStage::Scheduled => {
            if has_deadline {
                None
            } else {
                Some("Scheduled. RSVPs stay open — set a deadline to close them.")
            }
        },
    }
}

/// The step the stepper offers next, with its button label: setting the
/// date (which closes a poll), then the RSVP deadline; nothing once both
/// are set. Adding a poll is offered beside it while the event is only
/// posted (see `offers_poll`).
pub fn next_action(stage: EventStage, has_deadline: bool) -> (r: Option<(StageAction, &'static str)>)
    ensures
        match stage {
            EventStage::Posted => r matches Some((a, l)) && a == StageAction::SetDate && l@ == "Set Date"@,
            EventStage::Voting => r matches Some((a, l)) && a == StageAction::SetDate && l@
                == "Close Poll & Set Date"@,
            EventStage::Scheduled => if has_deadline {
                r is None
            } else {
                r matches Some((a, l)) && a == StageAction::SetDeadline && l@ == "Set RSVP Deadline"@
            },
        },
{
    match stage {
        EventStage::Posted => Some((StageAction::SetDate, "Set Date")),
        EventStage::Voting => Some((StageAction::SetDate, "Close Poll & Set Date")),
        EventStage::Scheduled => {
            if has_deadline {
                None
            } else {
                Some((StageAction::SetDeadline, "Set RSVP Deadline"))
            }
        },
    }
}

/// A poll can be added only to an event that is just posted.
pub fn offers_poll(stage: EventStage) -> (r: bool)
    ensures
        r == (stage == EventStage::Posted),
{
    match stage {
        EventStage::Posted => true,
        _ => false,
    }
}

// ---------------------------------------------------------------------------
// Announcements and broadcasts (admin)
// ---------------------------------------------------------------------------

/// A new announcement; an empty poll URL is left out.
pub fn announcement_request(title: String, body: String, poll_url: String) -> (r: CreateAnnouncementRequest)
    ensures
        r.title == title,
        r.body == body,
        r.poll_embed_url == opt_if(poll_url@.len() > 0, poll_url),
{
    CreateAnnouncementRequest { title, body, poll_embed_url: non_empty(poll_url) }
}

/// An edited announcement: title and body are always sent; an empty poll
/// URL is sent as `None`.
pub fn announcement_update(title: String, body: String, poll_url: String) -> (r: UpdateAnnouncementRequest)
    ensures
        r.title == Some(title),
        r.body == Some(body),
        r.poll_embed_url == opt_if(poll_url@.len() > 0, poll_url),
{
    UpdateAnnouncementRequest { title: Some(title), body: Some(body), poll_embed_url: non_empty(poll_url) }
}

/// A broadcast goes to the General channel, or, as a test, to the admins'
/// Test channel.
pub fn broadcast_request(title: String, body: String, to_test: bool) -> (r: BroadcastRequest)
    ensures
        r.title == title,
        r.body == body,
        match r.channel {
            Some(c) => to_test && c@ == CHANNEL_TEST@,
            None => !to_test,
        },
{
    let channel = if to_test {
        Some(String::from_str(CHANNEL_TEST))
    } else {
        None
    };
    BroadcastRequest { title, body, channel }
}

/// What the admin is told once a broadcast is out.
pub fn broadcast_sent_message(to_test: bool) -> (r: &'static str)
    ensures
        r@ == if to_test {
            "Test broadcast sent — only admins receive it."@
        } else {
            "Broadcast sent to the General channel."@
        },
{
    if to_test {
        "Test broadcast sent — only admins receive it."
    } else {
        "Broadcast sent to the General channel."
    }
}

// ---------------------------------------------------------------------------
// Users (superadmin)
// ---------------------------------------------------------------------------

/// Saving a member's role changes the role and nothing else.
pub fn role_update(role: String) -> (r: UpdateUserRequest)
    ensures
        r.role == Some(role),
        r.disabled is None,
{
    UpdateUserRequest { role: Some(role), disabled: None }
}

/// The Enable / Disable button flips the account's state and nothing else.
pub fn toggle_disabled(disabled: bool) -> (r: UpdateUserRequest)
    ensures
        r.role is None,
        r.disabled == Some(!disabled),
{
    UpdateUserRequest { role: None, disabled: Some(!disabled) }
}

// ---------------------------------------------------------------------------
// Gatherings (admin)
// ---------------------------------------------------------------------------

/// The note after an address lookup that got an answer: whether the
/// address was found, whether the answer held a pin, and the place's name.
/// `None` leaves the current note alone (a hit without a pin).
pub open spec fn lookup_answer_note(found: bool, has_pin: bool, name: Option<Seq<char>>) -> Option<Seq<char>> {
    if !found {
        Some("Couldn't find that address. Drop the pin on the map instead."@)
    } else if !has_pin {
        None
    } else {
        match name {
            Some(n) => if n.len() > 0 {
                Some("Found: "@ + n + " — drag-tap the map to adjust."@)
            } else {
                Some("Pin placed — tap the map to adjust."@)
            },
            None => Some("Pin placed — tap the map to adjust."@),
        }
    }
}

/// The note shown after looking an address up: what was found, that
/// nothing was, or why the lookup failed. `Ok` carries whether the address
/// was found, whether the answer held a pin, and the place's display name.
pub fn lookup_note(reply: Result<(bool, bool, Option<String>), String>) -> (r: Option<String>)
    ensures
        opt_string_view(r) == match reply {
            Ok((found, has_pin, name)) => lookup_answer_note(found, has_pin, opt_string_view(name)),
            Err(e) => Some("Lookup failed: "@ + e@),
        },
{
    match reply {
        Ok((found, has_pin, name)) => {
            if !found {
                Some(String::from_str("Couldn't find that address. Drop the pin on the map instead."))
            } else if !has_pin {
                None
            } else {
                match name {
                    Some(n) => {
                        if n.as_str().is_empty() {
                            Some(String::from_str("Pin placed — tap the map to adjust."))
                        } else {
                            let mut s = String::from_str("Found: ");
                            push_str(&mut s, n.as_str());
                            push_str(&mut s, " — drag-tap the map to adjust.");
                            assert(s@ =~= "Found: "@ + n@ + " — drag-tap the map to adjust."@);
                            Some(s)
                        }
                    },
                    None => Some(String::from_str("Pin placed — tap the map to adjust.")),
                }
            }
        },
        Err(e) => {
            let mut s = String::from_str("Lookup failed: ");
            push_str(&mut s, e.as_str());
            Some(s)
        },
    }
}

/// The base64 payload of a `data:` URL: everything after its first comma.
pub fn data_url_payload(data_url: &str) -> (r: Option<String>)
    ensures
        match first_index(data_url@, ',') {
            Some(k) => r matches Some(p) && p@ == data_url@.subrange(k + 1, data_url@.len() as int),
            None => r is None,
        },
{
    let v = chars_of(data_url);
    match crate::text::find_char(&v, ',') {
        Some(k) => Some(string_of(&crate::text::slice_chars(&v, k + 1, v.len()))),
        None => None,
    }
}

// ---------------------------------------------------------------------------
// Invites, chat, rides
// ---------------------------------------------------------------------------

pub open spec fn trimmed_opt(s: Seq<char>) -> Option<Seq<char>> {
    if trim(s).len() == 0 {
        None
    } else {
        Some(trim(s))
    }
}

pub open spec fn opt_string_view(o: Option<String>) -> Option<Seq<char>> {
    match o {
        Some(s) => Some(s@),
        None => None,
    }
}

/// A new invite code request: a first name is required; every name and
/// the phone are trimmed, and blank optional ones are left out.
pub fn invite_request(role: String, first: &str, last: &str, phone: &str) -> (r: Result<
    CreateInviteRequest,
    String,
>)
    ensures
        trim(first@).len() == 0 ==> (r matches Err(e) && e@ == "First name is required."@),
        trim(first@).len() > 0 ==> (r matches Ok(q) && q.role == role && q.first_name@ == trim(first@)
            && opt_string_view(q.last_name) == trimmed_opt(last@) && opt_string_view(q.phone)
            == trimmed_opt(phone@)),
{
    let first_name = match trimmed_non_empty(first) {
        Some(f) => f,
        None => return Err(String::from_str("First name is required.")),
    };
    Ok(CreateInviteRequest {
        role,
        first_name,
        last_name: trimmed_non_empty(last),
        phone: trimmed_non_empty(phone),
    })
}

/// The chat message to send from a draft: nothing while a send is in flight
/// or when the trimmed draft is empty.
pub fn chat_message(draft: &str, sending: bool) -> (r: Option<String>)
    ensures
        match r {
            Some(b) => !sending && b@ == trim(draft@) && b@.len() > 0,
            None => sending || trim(draft@).len() == 0,
        },
{
    if sending {
        return None;
    }
    trimmed_non_empty(draft)
}

/// A ride needs both a start and an end time before it is posted.
pub fn check_ride_times(start_at: &str, end_at: &str) -> (r: Result<(), String>)
    ensures
        (start_at@.len() == 0 || end_at@.len() == 0) ==> (r matches Err(e) && e@ == "Pick a start and end time."@),
        (start_at@.len() > 0 && end_at@.len() > 0) ==> r is Ok,
{
    if start_at.is_empty() || end_at.is_empty() {
        Err(String::from_str("Pick a start and end time."))
    } else {
        Ok(())
    }
}

// ---------------------------------------------------------------------------
// Profile and sign-in
// ---------------------------------------------------------------------------

/// The link rows that are filled in on both sides, in order.
pub open spec fn complete_links(pairs: Seq<(String, String)>) -> Seq<(String, String)>
    decreases pairs.len(),
{
    if pairs.len() == 0 {
        seq![]
    } else {
        let rest = complete_links(pairs.drop_last());
        let p = pairs.last();
        if p.0@.len() > 0 && p.1@.len() > 0 {
            rest.push(p)
        } else {
            rest
        }
    }
}

/// Profile links from the editor's rows, dropping rows with an empty label
/// or URL.
pub fn profile_links(pairs: Vec<(String, String)>) -> (r: Vec<ProfileLink>)
    ensures
        r.len() == complete_links(pairs@).len(),
        forall|i: int|
            0 <= i < r.len() ==> (#[trigger] r@[i]).label == complete_links(pairs@)[i].0 && r@[i].url
                == complete_links(pairs@)[i].1,
{
    let ghost all = pairs@;
    let mut pairs = pairs;
    // Take the rows from the back, then put the kept ones in order.
    let mut kept_rev: Vec<ProfileLink> = Vec::new();
    let mut n = pairs.len();
    let ghost mut tail: Seq<(String, String)> = seq![];
    assert(all.take(n as int) =~= all);
    assert(complete_links(all) =~= complete_links(all.take(n as int)) + tail);
    while n > 0
        invariant
            n == pairs.len(),
            n <= all.len(),
            pairs@ == all.take(n as int),
            complete_links(all) == complete_links(all.take(n as int)) + tail,
            kept_rev.len() == tail.len(),
            forall|i: int|
                0 <= i < kept_rev.len() ==> (#[trigger] kept_rev@[i]).label == tail[tail.len() - 1 - i].0
                    && kept_rev@[i].url == tail[tail.len() - 1 - i].1,
        decreases n,
    {
        let ghost before = all.take(n as int);
        let (label, url) = match pairs.pop() {
            Some(p) => p,
            None => {
                return Vec::new();
            },
        };
        n -= 1;
        assert(before.drop_last() =~= all.take(n as int));
        assert(before.last() == (label, url));
        if !label.as_str().is_empty() && !url.as_str().is_empty() {
            proof {
                assert(complete_links(before) == complete_links(all.take(n as int)).push((label, url)));
                assert(complete_links(all) =~= complete_links(all.take(n as int)) + (seq![(label, url)] + tail));
                tail = seq![(label, url)] + tail;
            }
            kept_rev.push(ProfileLink { label, url });
        } else {
            assert(complete_links(before) == complete_links(all.take(n as int)));
        }
    }
    assert(all.take(0) =~= seq![]);
    assert(complete_links(all) =~= tail);
    let mut out: Vec<ProfileLink> = Vec::new();
    let total = kept_rev.len();
    while kept_rev.len() > 0
        invariant
            out.len() + kept_rev.len() == total,
            total == tail.len(),
            forall|i: int|
                0 <= i < kept_rev.len() ==> (#[trigger] kept_rev@[i]).label == tail[total - 1 - i].0
                    && kept_rev@[i].url == tail[total - 1 - i].1,
            forall|i: int|
                0 <= i < out.len() ==> (#[trigger] out@[i]).label == tail[i].0 && out@[i].url == tail[i].1,
        decreases kept_rev.len(),
    {
        let link = match kept_rev.pop() {
            Some(l) => l,
            None => {
                return Vec::new();
            },
        };
        out.push(link);
    }
    out
}

/// What the profile editor saves. Empty text fields are sent as `None`;
/// the phone is not edited here.
pub fn profile_request(
    display_name: String,
    bio: String,
    pronouns: String,
    avatar_url: String,
    email: String,
    links: Vec<(String, String)>,
    is_public: bool,
) -> (r: UpdateProfileRequest)
    ensures
        r.display_name == opt_if(display_name@.len() > 0, display_name),
        r.bio == opt_if(bio@.len() > 0, bio),
        r.pronouns == opt_if(pronouns@.len() > 0, pronouns),
        r.avatar_url == opt_if(avatar_url@.len() > 0, avatar_url),
        r.email == opt_if(email@.len() > 0, email),
        r.phone is None,
        r.links matches Some(ls) && ls.len() == complete_links(links@).len() && forall|i: int|
            0 <= i < ls.len() ==> (#[trigger] ls@[i]).label == complete_links(links@)[i].0 && ls@[i].url
                == complete_links(links@)[i].1,
        r.is_public == Some(is_public),
{
    UpdateProfileRequest {
        display_name: non_empty(display_name),
        bio: non_empty(bio),
        pronouns: non_empty(pronouns),
        avatar_url: non_empty(avatar_url),
        email: non_empty(email),
        phone: None,
        links: Some(profile_links(links)),
        is_public: Some(is_public),
    }
}

/// The signed-in user a successful login or registration yields.
pub fn auth_user_from(resp: AuthResponse) -> (u: AuthUser)
    ensures
        u.id == resp.user.id,
        u.email == resp.user.email,
        u.username == resp.user.username,
        u.role == resp.user.role,
        u.token == resp.token,
{
    AuthUser {
        id: resp.user.id,
        email: resp.user.email,
        username: resp.user.username,
        role: resp.user.role,
        token: resp.token,
    }
}

/// A `?code=` invite link prefills the code and opens the register tab; an
/// empty code is ignored.
pub fn invite_code_param(code: Option<String>) -> (r: Option<String>)
    ensures
        r == match code {
            Some(c) => opt_if(c@.len() > 0, c),
            None => None,
        },
{
    match code {
        Some(c) => non_empty(c),
        None => None,
    }
}

} // verus!
