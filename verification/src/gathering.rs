//! Gatherings: club get-togethers with a stated date, time and place, and
//! the shape of the naive local datetimes ("YYYY-MM-DDTHH:MM") they use.
use vstd::prelude::*;

use crate::fmt::{all_digits, digits_value, lemma_digits_lex};
use crate::text::{
    chars_of, is_ascii_digit, is_blank, is_digit, lemma_lex_irreflexive, lemma_lex_split, lex_le, lex_lt, str_lt, trim,
};

verus! {

/// "YYYY-MM-DDTHH:MM": sixteen characters, separators at 4, 7, 10 and 13,
/// ASCII digits everywhere else.
pub open spec fn local_datetime_shaped(s: Seq<char>) -> bool {
    &&& s.len() == 16
    &&& s[4] == '-'
    &&& s[7] == '-'
    &&& s[10] == 'T'
    &&& s[13] == ':'
    &&& forall|i: int|
        0 <= i < 16 && i != 4 && i != 7 && i != 10 && i != 13 ==> is_digit(#[trigger] s[i])
}

/// The value of the digits `s[from..to]`.
pub open spec fn stamp_field(s: Seq<char>, from: int, to: int) -> int {
    digits_value(s.subrange(from, to))
}

/// `a` is earlier than `b`: by year, then month, day, hour and minute.
pub open spec fn earlier(a: Seq<char>, b: Seq<char>) -> bool {
    let (ya, yb) = (stamp_field(a, 0, 4), stamp_field(b, 0, 4));
    let (ma, mb) = (stamp_field(a, 5, 7), stamp_field(b, 5, 7));
    let (da, db) = (stamp_field(a, 8, 10), stamp_field(b, 8, 10));
    let (ha, hb) = (stamp_field(a, 11, 13), stamp_field(b, 11, 13));
    let (ia, ib) = (stamp_field(a, 14, 16), stamp_field(b, 14, 16));
    ya < yb || (ya == yb && (ma < mb || (ma == mb && (da < db || (da == db && (ha < hb || (ha == hb
        && ia < ib)))))))
}

/// "YYYY-MM-DD": ten characters, dashes at 4 and 7, ASCII digits elsewhere.
pub open spec fn local_date_shaped(s: Seq<char>) -> bool {
    &&& s.len() == 10
    &&& s[4] == '-'
    &&& s[7] == '-'
    &&& forall|i: int| 0 <= i < 10 && i != 4 && i != 7 ==> is_digit(#[trigger] s[i])
}

/// `a` is an earlier day than `b`: by year, then month, then day.
pub open spec fn earlier_day(a: Seq<char>, b: Seq<char>) -> bool {
    let (ya, yb) = (stamp_field(a, 0, 4), stamp_field(b, 0, 4));
    let (ma, mb) = (stamp_field(a, 5, 7), stamp_field(b, 5, 7));
    let (da, db) = (stamp_field(a, 8, 10), stamp_field(b, 8, 10));
    ya < yb || (ya == yb && (ma < mb || (ma == mb && da < db)))
}

proof fn lemma_digits_between(s: Seq<char>, from: int, to: int)
    requires
        0 <= from <= to <= s.len(),
        forall|i: int| from <= i < to ==> is_digit(#[trigger] s[i]),
    ensures
        all_digits(s.subrange(from, to)),
{
    assert forall|k: int| 0 <= k < to - from implies is_digit(#[trigger] s.subrange(from, to)[k]) by {
        assert(s.subrange(from, to)[k] == s[from + k]);
    }
}

/// One digit field of two texts of one length, then the rest after it.
proof fn lemma_field_step(a: Seq<char>, b: Seq<char>, from: int, to: int)
    requires
        a.len() == b.len(),
        0 <= from <= to <= a.len(),
        all_digits(a.subrange(from, to)),
        all_digits(b.subrange(from, to)),
    ensures
        lex_lt(a.subrange(from, a.len() as int), b.subrange(from, b.len() as int)) == (stamp_field(a, from, to)
            < stamp_field(b, from, to) || (stamp_field(a, from, to) == stamp_field(b, from, to) && lex_lt(
            a.subrange(to, a.len() as int),
            b.subrange(to, b.len() as int),
        ))),
{
    lemma_lex_split(a, b, from, to);
    lemma_digits_lex(a.subrange(from, to), b.subrange(from, to));
}

/// A separator two texts of one length share, then the rest after it.
proof fn lemma_separator_step(a: Seq<char>, b: Seq<char>, at: int)
    requires
        a.len() == b.len(),
        0 <= at < a.len(),
        a[at] == b[at],
    ensures
        lex_lt(a.subrange(at, a.len() as int), b.subrange(at, b.len() as int)) == lex_lt(
            a.subrange(at + 1, a.len() as int),
            b.subrange(at + 1, b.len() as int),
        ),
{
    lemma_lex_split(a, b, at, at + 1);
    assert(a.subrange(at, at + 1) =~= b.subrange(at, at + 1));
    lemma_lex_irreflexive(a.subrange(at, at + 1));
}

/// Dictionary order on well-formed local datetimes is chronological order:
/// comparing the text, as ride and gathering times are compared, compares
/// the moments.
pub proof fn lemma_text_order_is_chronological(a: Seq<char>, b: Seq<char>)
    requires
        local_datetime_shaped(a),
        local_datetime_shaped(b),
    ensures
        lex_lt(a, b) == earlier(a, b),
{
    assert(a.subrange(0, 16) =~= a);
    assert(b.subrange(0, 16) =~= b);
    assert(a.subrange(16, 16) =~= b.subrange(16, 16));
    lemma_lex_irreflexive(a.subrange(16, 16));
    lemma_digits_between(a, 0, 4);
    lemma_digits_between(b, 0, 4);
    lemma_field_step(a, b, 0, 4);
    lemma_separator_step(a, b, 4);
    lemma_digits_between(a, 5, 7);
    lemma_digits_between(b, 5, 7);
    lemma_field_step(a, b, 5, 7);
    lemma_separator_step(a, b, 7);
    lemma_digits_between(a, 8, 10);
    lemma_digits_between(b, 8, 10);
    lemma_field_step(a, b, 8, 10);
    lemma_separator_step(a, b, 10);
    lemma_digits_between(a, 11, 13);
    lemma_digits_between(b, 11, 13);
    lemma_field_step(a, b, 11, 13);
    lemma_separator_step(a, b, 13);
    lemma_digits_between(a, 14, 16);
    lemma_digits_between(b, 14, 16);
    lemma_field_step(a, b, 14, 16);
}

/// The same for well-formed dates: comparing "YYYY-MM-DD" text, as RSVP
/// deadlines and screening dates are compared with today, compares the
/// days.
pub proof fn lemma_date_order_is_chronological(a: Seq<char>, b: Seq<char>)
    requires
        local_date_shaped(a),
        local_date_shaped(b),
    ensures
        lex_lt(a, b) == earlier_day(a, b),
{
    assert(a.subrange(0, 10) =~= a);
    assert(b.subrange(0, 10) =~= b);
    assert(a.subrange(10, 10) =~= b.subrange(10, 10));
    lemma_lex_irreflexive(a.subrange(10, 10));
    lemma_digits_between(a, 0, 4);
    lemma_digits_between(b, 0, 4);
    lemma_field_step(a, b, 0, 4);
    lemma_separator_step(a, b, 4);
    lemma_digits_between(a, 5, 7);
    lemma_digits_between(b, 5, 7);
    lemma_field_step(a, b, 5, 7);
    lemma_separator_step(a, b, 7);
    lemma_digits_between(a, 8, 10);
    lemma_digits_between(b, 8, 10);
    lemma_field_step(a, b, 8, 10);
}

/// Validate a "YYYY-MM-DDTHH:MM" naive local datetime, what
/// `<input type="datetime-local">` produces.
pub fn valid_local_datetime(s: &str) -> (r: bool)
    ensures
        r == local_datetime_shaped(s@),
{
    let v = chars_of(s);
    if v.len() != 16 || v[4] != '-' || v[7] != '-' || v[10] != 'T' || v[13] != ':' {
        return false;
    }
    let mut i: usize = 0;
    while i < 16
        invariant
            i <= 16,
            v@ == s@,
            v.len() == 16,
            forall|j: int| 0 <= j < i && j != 4 && j != 7 && j != 10 && j != 13 ==> is_digit(#[trigger] v@[j]),
        decreases 16 - i,
    {
        if i != 4 && i != 7 && i != 10 && i != 13 && !is_ascii_digit(v[i]) {
            return false;
        }
        i += 1;
    }
    true
}

/// One coordinate of a map pin, as validation sees it: whether it lies in the
/// range of its axis (latitude -90..=90, longitude -180..=180).
#[derive(Clone, Copy, Debug, PartialEq, Eq)]
pub struct Coordinate {
    pub on_map: bool,
}

/// Where a gathering will be. At least one form is required.
#[derive(Clone, Copy, Debug)]
pub struct GatheringPlace<'a> {
    pub address: Option<&'a str>,
    pub lat: Option<Coordinate>,
    pub lng: Option<Coordinate>,
}

/// The view of an optional string.
pub open spec fn opt_view(o: Option<&str>) -> Option<Seq<char>> {
    match o {
        Some(s) => Some(s@),
        None => None,
    }
}

/// What is wrong with a gathering, first problem first; `None` when it is
/// valid.
pub open spec fn gathering_problem(
    title: Seq<char>,
    starts_at: Seq<char>,
    ends_at: Option<Seq<char>>,
    address: Option<Seq<char>>,
    lat: Option<Coordinate>,
    lng: Option<Coordinate>,
) -> Option<Seq<char>> {
    let end = match ends_at {
        Some(e) => if e.len() > 0 { Some(e) } else { None },
        None => None,
    };
    let has_address = match address {
        Some(a) => trim(a).len() > 0,
        None => false,
    };
    if trim(title).len() == 0 {
        Some("a gathering needs a title"@)
    } else if !local_datetime_shaped(starts_at) {
        Some("start must be YYYY-MM-DDTHH:MM"@)
    } else if end is Some && !local_datetime_shaped(end->0) {
        Some("end must be YYYY-MM-DDTHH:MM"@)
    } else if end is Some && lex_le(end->0, starts_at) {
        Some("the gathering must end after it starts"@)
    } else if lat is Some && lng is Some && !(lat->0.on_map && lng->0.on_map) {
        Some("that pin is off the map"@)
    } else if lat is Some != lng is Some {
        Some("a pin needs both coordinates"@)
    } else if !has_address && lat is None {
        Some("a gathering needs an address or a pin on the map"@)
    } else {
        None
    }
}

/// A gathering that passes validation has somewhere to go: a non-blank
/// address, or a pin with both coordinates on the map.
pub proof fn lemma_valid_gathering_has_a_place(
    title: Seq<char>,
    starts_at: Seq<char>,
    ends_at: Option<Seq<char>>,
    address: Option<Seq<char>>,
    lat: Option<Coordinate>,
    lng: Option<Coordinate>,
)
    requires
        gathering_problem(title, starts_at, ends_at, address, lat, lng) is None,
    ensures
        (address matches Some(a) && trim(a).len() > 0) || (lat matches Some(x) && lng matches Some(y) && x.on_map
            && y.on_map),
{
}

/// Every gathering that keeps the rules passes: a non-blank title, a
/// well-formed start, an end (when given) that is well-formed and later
/// than the start in full date and time (an overnight gathering included),
/// either no pin or both coordinates on the map, and a non-blank address or
/// a pin.
pub proof fn lemma_rule_abiding_gathering_passes(
    title: Seq<char>,
    starts_at: Seq<char>,
    ends_at: Option<Seq<char>>,
    address: Option<Seq<char>>,
    lat: Option<Coordinate>,
    lng: Option<Coordinate>,
)
    requires
        trim(title).len() > 0,
        local_datetime_shaped(starts_at),
        match ends_at {
            Some(e) => e.len() > 0 ==> local_datetime_shaped(e) && lex_lt(starts_at, e),
            None => true,
        },
        match (lat, lng) {
            (Some(x), Some(y)) => x.on_map && y.on_map,
            (None, None) => true,
            _ => false,
        },
        (address matches Some(a) && trim(a).len() > 0) || (lat is Some && lng is Some),
    ensures
        gathering_problem(title, starts_at, ends_at, address, lat, lng) is None,
{
    if let Some(e) = ends_at {
        crate::text::lemma_lex_trichotomy(starts_at, e);
        lemma_lex_irreflexive(e);
    }
}

/// A gathering that passes validation has a title and a well-formed start,
/// and an end, when one is given, that is well-formed and after the start.
pub proof fn lemma_valid_gathering_times(
    title: Seq<char>,
    starts_at: Seq<char>,
    ends_at: Option<Seq<char>>,
    address: Option<Seq<char>>,
    lat: Option<Coordinate>,
    lng: Option<Coordinate>,
)
    requires
        gathering_problem(title, starts_at, ends_at, address, lat, lng) is None,
    ensures
        trim(title).len() > 0,
        local_datetime_shaped(starts_at),
        match ends_at {
            Some(e) => e.len() > 0 ==> local_datetime_shaped(e) && lex_lt(starts_at, e),
            None => true,
        },
{
    if let Some(e) = ends_at {
        crate::text::lemma_lex_trichotomy(starts_at, e);
    }
}

/// A new gathering, as the admin form sends it. `C` is the type of a pin
/// coordinate, which the library only carries.
#[derive(Clone, Debug)]
pub struct CreateGatheringRequest<C> {
    pub title: String,
    pub description: Option<String>,
    pub starts_at: String,
    pub ends_at: Option<String>,
    pub address: Option<String>,
    pub lat: Option<C>,
    pub lng: Option<C>,
    pub cover_url: Option<String>,
}

/// The gathering form's request: empty description, end and cover are left
/// out, so is a blank address; title, start and pin go as they stand.
pub fn gathering_request<C>(
    title: String,
    description: String,
    starts_at: String,
    ends_at: String,
    address: String,
    lat: Option<C>,
    lng: Option<C>,
    cover_url: String,
) -> (r: CreateGatheringRequest<C>)
    ensures
        r.title == title,
        r.description == crate::forms::opt_if(description@.len() > 0, description),
        r.starts_at == starts_at,
        r.ends_at == crate::forms::opt_if(ends_at@.len() > 0, ends_at),
        r.address == crate::forms::opt_if(trim(address@).len() > 0, address),
        r.lat == lat,
        r.lng == lng,
        r.cover_url == crate::forms::opt_if(cover_url@.len() > 0, cover_url),
{
    CreateGatheringRequest {
        title,
        description: crate::forms::non_empty(description),
        starts_at,
        ends_at: crate::forms::non_empty(ends_at),
        address: crate::forms::present_address(address),
        lat,
        lng,
        cover_url: crate::forms::non_empty(cover_url),
    }
}

/// Validate the parts of a gathering that don't need a database.
pub fn validate_gathering(
    title: &str,
    starts_at: &str,
    ends_at: Option<&str>,
    place: GatheringPlace<'_>,
) -> (r: Result<(), String>)
    ensures
        match gathering_problem(
            title@,
            starts_at@,
            opt_view(ends_at),
            opt_view(place.address),
            place.lat,
            place.lng,
        ) {
            None => r is Ok,
            Some(m) => r matches Err(e) && e@ == m,
        },
{
    if is_blank(title) {
        return Err(String::from_str("a gathering needs a title"));
    }
    if !valid_local_datetime(starts_at) {
        return Err(String::from_str("start must be YYYY-MM-DDTHH:MM"));
    }
    if let Some(end) = ends_at {
        if !end.is_empty() {
            if !valid_local_datetime(end) {
                return Err(String::from_str("end must be YYYY-MM-DDTHH:MM"));
            }
            if !str_lt(starts_at, end) {
                proof {
                    crate::text::lemma_lex_trichotomy(starts_at@, end@);
                }
                return Err(String::from_str("the gathering must end after it starts"));
            }
            proof {
                crate::text::lemma_lex_trichotomy(starts_at@, end@);
                crate::text::lemma_lex_irreflexive(end@);
            }
        }
    }
    match (place.lat, place.lng) {
        (Some(lat), Some(lng)) => {
            if !lat.on_map || !lng.on_map {
                return Err(String::from_str("that pin is off the map"));
            }
        },
        (None, None) => {},
        _ => {
            return Err(String::from_str("a pin needs both coordinates"));
        },
    }
    let has_address = match place.address {
        Some(a) => !is_blank(a),
        None => false,
    };
    let has_pin = place.lat.is_some() && place.lng.is_some();
    if !has_address && !has_pin {
        return Err(String::from_str("a gathering needs an address or a pin on the map"));
    }
    Ok(())
}

} // verus!
