//! Mountain-bike rides: who may edit a ride, whether it is over, and how the
//! list splits into upcoming and past rides. Times are naive local
//! "YYYY-MM-DDTHH:MM" strings, whose dictionary order is chronological.
use vstd::prelude::*;

use crate::forms::{opt_string_view, trimmed_non_empty, trimmed_opt};
use crate::model::{role_is_admin, AuthUser};
use crate::text::{lex_lt, str_eq, str_lt};

verus! {

/// The trailheads a ride can set out from, in the order the form offers
/// them.
pub const RIDE_LOCATIONS: [&'static str; 8] = [
    "Bike Park",
    "Slaughter Pen",
    "Coler",
    "Blowing Springs",
    "Railyard",
    "Little Sugar",
    "Back 40",
    "Handcut Hollow",
];

/// A new ride, as the post form sends it. `C` is the type of a pin
/// coordinate, which the library only carries.
#[derive(Clone, Debug)]
pub struct CreateRideRequest<C> {
    pub location: String,
    pub start_at: String,
    pub end_at: String,
    pub meeting_lat: Option<C>,
    pub meeting_lng: Option<C>,
    pub contact_info: Option<String>,
    pub notes: Option<String>,
}

/// An edit of a ride: `Some` replaces, `None` keeps; `clear_meeting` drops
/// the meeting pin.
#[derive(Clone, Debug)]
pub struct UpdateRideRequest<C> {
    pub location: Option<String>,
    pub start_at: Option<String>,
    pub end_at: Option<String>,
    pub meeting_lat: Option<C>,
    pub meeting_lng: Option<C>,
    pub clear_meeting: bool,
    pub contact_info: Option<String>,
    pub notes: Option<String>,
}

/// The message that stops a ride without both times.
pub open spec fn missing_times(start_at: Seq<char>, end_at: Seq<char>) -> bool {
    start_at.len() == 0 || end_at.len() == 0
}

/// A new ride from the post form: both times are needed; contact and notes
/// are trimmed and left out when blank; the pin is sent as it stands.
pub fn create_ride_request<C>(
    location: String,
    start_at: String,
    end_at: String,
    contact: &str,
    notes: &str,
    lat: Option<C>,
    lng: Option<C>,
) -> (r: Result<CreateRideRequest<C>, String>)
    ensures
        missing_times(start_at@, end_at@) ==> (r matches Err(e) && e@ == "Pick a start and end time."@),
        !missing_times(start_at@, end_at@) ==> (r matches Ok(q) && q.location == location && q.start_at
            == start_at && q.end_at == end_at && q.meeting_lat == lat && q.meeting_lng == lng
            && opt_string_view(q.contact_info) == trimmed_opt(contact@) && opt_string_view(q.notes)
            == trimmed_opt(notes@)),
{
    if start_at.as_str().is_empty() || end_at.as_str().is_empty() {
        return Err(String::from_str("Pick a start and end time."));
    }
    Ok(CreateRideRequest {
        location,
        start_at,
        end_at,
        meeting_lat: lat,
        meeting_lng: lng,
        contact_info: trimmed_non_empty(contact),
        notes: trimmed_non_empty(notes),
    })
}

/// A ride's edit form on save: both times are needed; every text field is
/// sent as it stands (an empty contact or note clears it); the pin is moved
/// when both coordinates are set and dropped otherwise.
pub fn update_ride_request<C>(
    location: String,
    start_at: String,
    end_at: String,
    contact: String,
    notes: String,
    lat: Option<C>,
    lng: Option<C>,
) -> (r: Result<UpdateRideRequest<C>, String>)
    ensures
        missing_times(start_at@, end_at@) ==> (r matches Err(e) && e@ == "Pick a start and end time."@),
        !missing_times(start_at@, end_at@) ==> (r matches Ok(q) && q.location == Some(location) && q.start_at
            == Some(start_at) && q.end_at == Some(end_at) && q.contact_info == Some(contact) && q.notes == Some(
            notes,
        ) && if lat is Some && lng is Some {
            q.meeting_lat == lat && q.meeting_lng == lng && !q.clear_meeting
        } else {
            q.meeting_lat is None && q.meeting_lng is None && q.clear_meeting
        }),
{
    if start_at.as_str().is_empty() || end_at.as_str().is_empty() {
        return Err(String::from_str("Pick a start and end time."));
    }
    let (meeting_lat, meeting_lng, clear_meeting) = match (lat, lng) {
        (Some(la), Some(ln)) => (Some(la), Some(ln), false),
        _ => (None, None, true),
    };
    Ok(UpdateRideRequest {
        location: Some(location),
        start_at: Some(start_at),
        end_at: Some(end_at),
        meeting_lat,
        meeting_lng,
        clear_meeting,
        contact_info: Some(contact),
        notes: Some(notes),
    })
}

/// Rides shown under "Past Rides".
pub const PAST_SHOWN: usize = 10;

/// The signed-in member may edit or delete a ride they created, and an
/// admin may edit or delete any ride.
pub fn can_edit(user: Option<&AuthUser>, created_by: &str) -> (r: bool)
    ensures
        r == match user {
            Some(u) => u.id@ == created_by@ || role_is_admin(u.role@),
            None => false,
        },
{
    match user {
        Some(u) => str_eq(u.id.as_str(), created_by) || u.is_admin(),
        None => false,
    }
}

/// A ride is over once its end time is before now.
pub fn ride_over(end_at: &str, now: &str) -> (r: bool)
    ensures
        r == lex_lt(end_at@, now@),
{
    str_lt(end_at, now)
}

/// Indices, in list order, of the rides among the first `n` whose end time
/// is not before `now` (when `upcoming`), or is before it (otherwise).
pub open spec fn rides_where(ends: Seq<String>, now: Seq<char>, upcoming: bool, n: int) -> Seq<usize>
    decreases n,
{
    if n <= 0 {
        seq![]
    } else {
        let rest = rides_where(ends, now, upcoming, n - 1);
        if lex_lt(ends[n - 1]@, now) != upcoming {
            rest.push((n - 1) as usize)
        } else {
            rest
        }
    }
}

/// The rides picked by `rides_where` are, in increasing list order, exactly
/// the rides among the first `n` that are upcoming (when `upcoming`) or
/// past (otherwise).
pub proof fn lemma_rides_where(ends: Seq<String>, now: Seq<char>, upcoming: bool, n: int)
    requires
        0 <= n <= ends.len(),
        ends.len() <= usize::MAX,
    ensures
        forall|a: int, b: int|
            0 <= a < b < rides_where(ends, now, upcoming, n).len() ==> rides_where(ends, now, upcoming, n)[a]
                < rides_where(ends, now, upcoming, n)[b],
        forall|k: int|
            0 <= k < rides_where(ends, now, upcoming, n).len() ==> {
                let i = #[trigger] rides_where(ends, now, upcoming, n)[k] as int;
                0 <= i < n && lex_lt(ends[i]@, now) != upcoming
            },
        forall|i: int|
            0 <= i < n && lex_lt(ends[i]@, now) != upcoming ==> #[trigger] rides_where(ends, now, upcoming, n).contains(
                i as usize,
            ),
    decreases n,
{
    if n > 0 {
        lemma_rides_where(ends, now, upcoming, n - 1);
        let rest = rides_where(ends, now, upcoming, n - 1);
        let r = rides_where(ends, now, upcoming, n);
        if lex_lt(ends[n - 1]@, now) != upcoming {
            assert(r == rest.push((n - 1) as usize));
            assert forall|i: int| 0 <= i < n && lex_lt(ends[i]@, now) != upcoming implies #[trigger] r.contains(
                i as usize,
            ) by {
                if i < n - 1 {
                    assert(rest.contains(i as usize));
                    let k = choose|k: int| 0 <= k < rest.len() && rest[k] == i as usize;
                    assert(r[k] == rest[k]);
                } else {
                    assert(r[rest.len() as int] == i as usize);
                }
            }
        } else {
            assert forall|i: int| 0 <= i < n && lex_lt(ends[i]@, now) != upcoming implies #[trigger] r.contains(
                i as usize,
            ) by {
                assert(i < n - 1);
            }
        }
    }
}

/// The upcoming rides in list order, and the ten most recent past rides,
/// the last listed first.
pub fn split_rides(end_times: &Vec<String>, now: &str) -> (r: (Vec<usize>, Vec<usize>))
    ensures
        r.0@ == rides_where(end_times@, now@, true, end_times.len() as int),
        ({
            let past = rides_where(end_times@, now@, false, end_times.len() as int).reverse();
            r.1@ == past.take(if past.len() < 10 { past.len() as int } else { 10 })
        }),
        forall|a: int, b: int| 0 <= a < b < r.0.len() ==> r.0@[a] < r.0@[b],
        forall|i: int|
            0 <= i < end_times.len() ==> (!lex_lt(end_times@[i]@, now@) <==> #[trigger] r.0@.contains(i as usize)),
        forall|k: int| 0 <= k < r.0.len() ==> #[trigger] r.0@[k] < end_times.len(),
        forall|a: int, b: int| 0 <= a < b < r.1.len() ==> r.1@[a] > r.1@[b],
        r.1.len() <= 10,
        forall|k: int| 0 <= k < r.1.len() ==> #[trigger] r.1@[k] < end_times.len() && lex_lt(end_times@[r.1@[k] as int]@, now@),
        forall|i: int|
            0 <= i < end_times.len() && lex_lt(end_times@[i]@, now@) && !(#[trigger] r.1@.contains(i as usize)) ==> r.1.len()
                == 10 && i < r.1@[9],
{
    let mut upcoming: Vec<usize> = Vec::new();
    let mut past: Vec<usize> = Vec::new();
    let mut i: usize = 0;
    while i < end_times.len()
        invariant
            i <= end_times.len(),
            upcoming@ == rides_where(end_times@, now@, true, i as int),
            past@ == rides_where(end_times@, now@, false, i as int),
        decreases end_times.len() - i,
    {
        if str_lt(end_times[i].as_str(), now) {
            past.push(i);
        } else {
            upcoming.push(i);
        }
        i += 1;
    }
    let ghost all_past = past@;
    let mut recent: Vec<usize> = Vec::new();
    let mut k: usize = past.len();
    while k > 0 && recent.len() < PAST_SHOWN
        invariant
            k <= past.len(),
            past@ == all_past,
            recent.len() == past.len() - k,
            recent.len() <= 10,
            recent@ == all_past.reverse().take(recent.len() as int),
        decreases k,
    {
        k -= 1;
        recent.push(past[k]);
        assert(recent@ =~= all_past.reverse().take(recent.len() as int));
    }
    assert(recent@ =~= all_past.reverse().take(
        if all_past.len() < 10 {
            all_past.len() as int
        } else {
            10
        },
    ));
    proof {
        let n = end_times.len() as int;
        lemma_rides_where(end_times@, now@, true, n);
        lemma_rides_where(end_times@, now@, false, n);
        let p = all_past;
        let m = recent.len() as int;
        assert forall|k: int| 0 <= k < m implies recent@[k] == p[p.len() - 1 - k] by {}
        assert forall|a: int, b: int| 0 <= a < b < m implies recent@[a] > recent@[b] by {
            assert(recent@[a] == p[p.len() - 1 - a]);
            assert(recent@[b] == p[p.len() - 1 - b]);
        }
        assert forall|k: int| 0 <= k < m implies #[trigger] recent@[k] < n && lex_lt(end_times@[recent@[k] as int]@, now@) by {
            assert(recent@[k] == p[p.len() - 1 - k]);
        }
        assert forall|i: int|
            0 <= i < n && lex_lt(end_times@[i]@, now@) && !(#[trigger] recent@.contains(i as usize)) implies m == 10
                && i < recent@[9] by {
            assert(p.contains(i as usize));
            let j = choose|j: int| 0 <= j < p.len() && p[j] == i as usize;
            if j >= p.len() - m {
                assert(recent@[p.len() - 1 - j] == i as usize);
            }
            assert(recent@[m - 1] == p[p.len() - m]);
        }
        assert forall|i: int| 0 <= i < n implies (!lex_lt(end_times@[i]@, now@) <==> #[trigger] upcoming@.contains(i as usize)) by {
            if upcoming@.contains(i as usize) {
                let k = choose|k: int| 0 <= k < upcoming@.len() && upcoming@[k] == i as usize;
                assert(upcoming@[k] == i as usize);
            }
        }
    }
    (upcoming, recent)
}

} // verus!
