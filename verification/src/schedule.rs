//! Movie-night events: their lifecycle stage, and how a schedule is split
//! into the headline "next feature" and the rest of the list.
use vstd::prelude::*;

use crate::text::{chars_of, chars_lt, lemma_lex_irreflexive, lemma_lex_transitive, lemma_lex_trichotomy, lex_lt, str_eq, str_lt};

verus! {

#[derive(Debug)]
pub struct Event {
    pub id: String,
    /// "main" or "special".
    pub event_type: String,
    pub title: String,
    /// "YYYY-MM-DD", once known.
    pub date: Option<String>,
    pub description: Option<String>,
    pub poll_embed_url: Option<String>,
    pub poster_url: Option<String>,
    /// RSVP cutoff ("YYYY-MM-DD"); `None` means RSVPs never close.
    pub rsvp_deadline: Option<String>,
    /// Voting cutoff ("YYYY-MM-DD").
    pub poll_deadline: Option<String>,
    /// How many members have RSVP'd "going".
    pub rsvp_count: i64,
    /// Whether the requesting member has RSVP'd "going".
    pub my_rsvp: bool,
}

fn clone_opt(o: &Option<String>) -> (r: Option<String>)
    ensures
        r == *o,
{
    match o {
        Some(s) => Some(s.clone()),
        None => None,
    }
}

impl Clone for Event {
    fn clone(&self) -> (r: Self)
        ensures
            r == *self,
    {
        Event {
            id: self.id.clone(),
            event_type: self.event_type.clone(),
            title: self.title.clone(),
            date: clone_opt(&self.date),
            description: clone_opt(&self.description),
            poll_embed_url: clone_opt(&self.poll_embed_url),
            poster_url: clone_opt(&self.poster_url),
            rsvp_deadline: clone_opt(&self.rsvp_deadline),
            poll_deadline: clone_opt(&self.poll_deadline),
            rsvp_count: self.rsvp_count,
            my_rsvp: self.my_rsvp,
        }
    }
}

/// Where an event sits in its lifecycle: posted (title only), voting (poll
/// set, date unknown), scheduled (date set).
#[derive(Clone, Copy, Debug, PartialEq, Eq, Structural)]
pub enum EventStage {
    Posted,
    Voting,
    Scheduled,
}

pub open spec fn stage_of(e: Event) -> EventStage {
    if e.date is Some {
        EventStage::Scheduled
    } else if e.poll_embed_url is Some {
        EventStage::Voting
    } else {
        EventStage::Posted
    }
}

impl Event {
    pub fn stage(&self) -> (s: EventStage)
        ensures
            s == stage_of(*self),
    {
        if self.date.is_some() {
            EventStage::Scheduled
        } else if self.poll_embed_url.is_some() {
            EventStage::Voting
        } else {
            EventStage::Posted
        }
    }
}

// ---------------------------------------------------------------------------
// The headline feature
// ---------------------------------------------------------------------------

/// The date of a dated event.
pub open spec fn day(e: Event) -> Seq<char> {
    e.date->0@
}

/// Dated today or later.
pub open spec fn is_upcoming(e: Event, today: Seq<char>) -> bool {
    e.date is Some && !lex_lt(day(e), today)
}

/// Undated, with its poll open.
pub open spec fn is_voting(e: Event) -> bool {
    e.date is None && e.poll_embed_url is Some
}

/// `l[f]` is the soonest upcoming event; among several on that day, the
/// first in the list.
pub open spec fn soonest_upcoming(l: Seq<Event>, today: Seq<char>, f: int) -> bool {
    &&& 0 <= f < l.len()
    &&& is_upcoming(l[f], today)
    &&& forall|j: int|
        0 <= j < l.len() && is_upcoming(#[trigger] l[j], today) ==> lex_lt(day(l[f]), day(l[j])) || (
        day(l[f]) == day(l[j]) && f <= j)
}

pub open spec fn first_voting(l: Seq<Event>, f: int) -> bool {
    0 <= f < l.len() && is_voting(l[f]) && forall|j: int| 0 <= j < f ==> !is_voting(#[trigger] l[j])
}

pub open spec fn first_undated(l: Seq<Event>, f: int) -> bool {
    0 <= f < l.len() && l[f].date is None && forall|j: int| 0 <= j < f ==> (#[trigger] l[j]).date is Some
}

pub open spec fn any_upcoming(l: Seq<Event>, today: Seq<char>) -> bool {
    exists|i: int| 0 <= i < l.len() && is_upcoming(#[trigger] l[i], today)
}

pub open spec fn any_voting(l: Seq<Event>) -> bool {
    exists|i: int| 0 <= i < l.len() && is_voting(#[trigger] l[i])
}

pub open spec fn any_undated(l: Seq<Event>) -> bool {
    exists|i: int| 0 <= i < l.len() && (#[trigger] l[i]).date is None
}

/// `l[f]` headlines the schedule: the soonest screening today or later; with
/// none, the first undated one with an open poll; with none, the first
/// undated one.
pub open spec fn featured_at(l: Seq<Event>, today: Seq<char>, f: int) -> bool {
    if any_upcoming(l, today) {
        soonest_upcoming(l, today, f)
    } else if any_voting(l) {
        first_voting(l, f)
    } else {
        first_undated(l, f)
    }
}

/// Whether anything can headline.
pub open spec fn has_feature(l: Seq<Event>, today: Seq<char>) -> bool {
    any_upcoming(l, today) || any_undated(l)
}

/// The headline is fixed by the list and today's date: at most one index
/// can hold it, so every view of the schedule headlines the same screening.
pub proof fn lemma_featured_at_unique(l: Seq<Event>, today: Seq<char>, f: int, g: int)
    requires
        featured_at(l, today, f),
        featured_at(l, today, g),
    ensures
        f == g,
{
    if any_upcoming(l, today) {
        let df = day(l[f]);
        let dg = day(l[g]);
        assert(is_upcoming(l[g], today));
        assert(is_upcoming(l[f], today));
        lemma_lex_trichotomy(df, dg);
        lemma_lex_irreflexive(df);
    } else if any_voting(l) {
        if f < g {
            assert(!is_voting(l[f]));
        } else if g < f {
            assert(!is_voting(l[g]));
        }
    } else {
        if f < g {
            assert(l[f].date is Some);
        } else if g < f {
            assert(l[g].date is Some);
        }
    }
}

/// Two headlines picked from the same list on the same day are the same
/// screening; so the schedule's split and the movie-nights page agree.
pub proof fn lemma_same_headline(l: Seq<Event>, today: Seq<char>, a: Event, b: Event)
    requires
        exists|f: int| featured_at(l, today, f) && a == l[f],
        exists|g: int| featured_at(l, today, g) && b == l[g],
    ensures
        a == b,
{
    let f = choose|f: int| featured_at(l, today, f) && a == l[f];
    let g = choose|g: int| featured_at(l, today, g) && b == l[g];
    lemma_featured_at_unique(l, today, f, g);
}

// ---------------------------------------------------------------------------
// The order of the remainder
// ---------------------------------------------------------------------------

/// `l[i]` comes before `l[j]`: dated events newest first, ties in list
/// order; undated ones in list order, ahead of every dated one when
/// `undated_first`, after them otherwise.
pub open spec fn ordered_before(l: Seq<Event>, undated_first: bool, i: int, j: int) -> bool {
    match (l[i].date, l[j].date) {
        (None, None) => i < j,
        (None, Some(_)) => undated_first,
        (Some(_), None) => !undated_first,
        (Some(a), Some(b)) => lex_lt(b@, a@) || (a@ == b@ && i < j),
    }
}

/// The order of the remainder: undated events first, in list order; then
/// dated ones newest first, ties in list order.
pub open spec fn listed_before(l: Seq<Event>, i: int, j: int) -> bool {
    ordered_before(l, true, i, j)
}

/// Whether `l[i]` stays in the remainder once the feature with id `fid` (if
/// any) is taken out: every event that shares its id goes.
pub open spec fn kept(l: Seq<Event>, fid: Option<Seq<char>>, i: int) -> bool {
    match fid {
        Some(id) => l[i].id@ != id,
        None => true,
    }
}

/// The id of the feature, if there is one.
pub open spec fn feature_id(f: Option<Event>) -> Option<Seq<char>> {
    match f {
        Some(e) => Some(e.id@),
        None => None,
    }
}

/// `p` lists, in `ordered_before` order, exactly the indices of `l` that
/// are kept.
pub open spec fn arranged(l: Seq<Event>, fid: Option<Seq<char>>, undated_first: bool, p: Seq<int>) -> bool {
    &&& forall|k: int| 0 <= k < p.len() ==> 0 <= #[trigger] p[k] < l.len() && kept(l, fid, p[k])
    &&& forall|i: int| 0 <= i < l.len() && kept(l, fid, i) ==> exists|k: int| 0 <= k < p.len() && #[trigger] p[k] == i
    &&& forall|a: int, b: int| 0 <= a < b < p.len() ==> ordered_before(l, undated_first, #[trigger] p[a], #[trigger] p[b])
}

/// `p` lists, in `listed_before` order, exactly the indices of `l` that are
/// kept.
pub open spec fn arranges(l: Seq<Event>, fid: Option<Seq<char>>, p: Seq<int>) -> bool {
    arranged(l, fid, true, p)
}

/// The list order is a strict total order on the events of a list: no
/// event comes before itself, of two different events one comes first, and
/// the order is transitive.
pub proof fn lemma_ordered_before_irreflexive(l: Seq<Event>, u: bool, i: int)
    requires
        0 <= i < l.len(),
    ensures
        !ordered_before(l, u, i, i),
{
    if l[i].date is Some {
        lemma_lex_irreflexive(l[i].date->0@);
    }
}

/// Of two different events of a list, one comes before the other.
pub proof fn lemma_ordered_before_total(l: Seq<Event>, u: bool, i: int, j: int)
    requires
        0 <= i < l.len(),
        0 <= j < l.len(),
        i != j,
    ensures
        ordered_before(l, u, i, j) || ordered_before(l, u, j, i),
{
    if l[i].date is Some && l[j].date is Some {
        lemma_lex_trichotomy(l[i].date->0@, l[j].date->0@);
    }
}

/// The list order is transitive.
pub proof fn lemma_ordered_before_transitive(l: Seq<Event>, u: bool, i: int, j: int, k: int)
    requires
        0 <= i < l.len(),
        0 <= j < l.len(),
        0 <= k < l.len(),
        ordered_before(l, u, i, j),
        ordered_before(l, u, j, k),
    ensures
        ordered_before(l, u, i, k),
{
    if l[i].date is Some && l[j].date is Some && l[k].date is Some {
        let a = l[i].date->0@;
        let b = l[j].date->0@;
        let c = l[k].date->0@;
        if lex_lt(c, b) && lex_lt(b, a) {
            lemma_lex_transitive(c, b, a);
        }
    }
}

// ---------------------------------------------------------------------------
// Executable comparisons
// ---------------------------------------------------------------------------

fn date_chars(e: &Event) -> (r: Vec<char>)
    requires
        e.date is Some,
    ensures
        r@ == day(*e),
{
    match &e.date {
        Some(d) => chars_of(d.as_str()),
        None => Vec::new(),
    }
}

fn ordered_before_exec(l: &Vec<Event>, undated_first: bool, i: usize, j: usize) -> (r: bool)
    requires
        i < l.len(),
        j < l.len(),
    ensures
        r == ordered_before(l@, undated_first, i as int, j as int),
{
    match (&l[i].date, &l[j].date) {
        (None, None) => i < j,
        (None, Some(_)) => undated_first,
        (Some(_), None) => !undated_first,
        (Some(a), Some(b)) => {
            let av = chars_of(a.as_str());
            let bv = chars_of(b.as_str());
            if chars_lt(&bv, &av) {
                true
            } else if i < j {
                let r = !chars_lt(&av, &bv);
                proof {
                    lemma_lex_trichotomy(a@, b@);
                }
                r
            } else {
                false
            }
        },
    }
}

/// Index of the headline event in `l`, if anything can headline.
pub(crate) fn featured_index(l: &Vec<Event>, today: &str) -> (r: Option<usize>)
    ensures
        match r {
            Some(f) => f < l.len() && featured_at(l@, today@, f as int),
            None => !has_feature(l@, today@),
        },
{
    let ghost s = l@;
    let mut best: Option<usize> = None;
    let mut voting: Option<usize> = None;
    let mut undated: Option<usize> = None;
    let mut i: usize = 0;
    while i < l.len()
        invariant
            i <= l.len(),
            s == l@,
            match best {
                Some(b) => b < i && soonest_upcoming(s.take(i as int), today@, b as int),
                None => forall|j: int| 0 <= j < i ==> !is_upcoming(#[trigger] s[j], today@),
            },
            match voting {
                Some(v) => v < i && first_voting(s, v as int),
                None => forall|j: int| 0 <= j < i ==> !is_voting(#[trigger] s[j]),
            },
            match undated {
                Some(u) => u < i && first_undated(s, u as int),
                None => forall|j: int| 0 <= j < i ==> (#[trigger] s[j]).date is Some,
            },
        decreases l.len() - i,
    {
        let e = &l[i];
        assert(s.take(i + 1)[i as int] == s[i as int]);
        match &e.date {
            Some(d) => {
                if !str_lt(d.as_str(), today) {
                    let replace = match best {
                        None => true,
                        Some(b) => {
                            let bd = date_chars(&l[b]);
                            let ed = chars_of(d.as_str());
                            chars_lt(&ed, &bd)
                        },
                    };
                    proof {
                        let t = s.take(i + 1);
                        match best {
                            Some(b) => {
                                assert(t[b as int] == s[b as int]);
                                lemma_lex_trichotomy(day(s[i as int]), day(s[b as int]));
                                if replace {
                                    assert forall|j: int|
                                        0 <= j < t.len() && is_upcoming(#[trigger] t[j], today@) implies lex_lt(
                                        day(t[i as int]),
                                        day(t[j]),
                                    ) || (day(t[i as int]) == day(t[j]) && i <= j) by {
                                        if j < i {
                                            assert(s.take(i as int)[j] == t[j]);
                                            if lex_lt(day(t[b as int]), day(t[j])) {
                                                lemma_lex_transitive(day(t[i as int]), day(t[b as int]), day(t[j]));
                                            }
                                        }
                                    }
                                } else {
                                    assert forall|j: int|
                                        0 <= j < t.len() && is_upcoming(#[trigger] t[j], today@) implies lex_lt(
                                        day(t[b as int]),
                                        day(t[j]),
                                    ) || (day(t[b as int]) == day(t[j]) && b <= j) by {
                                        if j < i {
                                            assert(s.take(i as int)[j] == t[j]);
                                        }
                                    }
                                }
                            },
                            None => {
                                assert forall|j: int|
                                    0 <= j < t.len() && is_upcoming(#[trigger] t[j], today@) implies lex_lt(
                                    day(t[i as int]),
                                    day(t[j]),
                                ) || (day(t[i as int]) == day(t[j]) && i <= j) by {
                                    if j < i {
                                        assert(t[j] == s[j]);
                                    }
                                }
                            },
                        }
                    }
                    if replace {
                        best = Some(i);
                    }
                } else {
                    proof {
                        let t = s.take(i + 1);
                        match best {
                            Some(b) => {
                                assert(t[b as int] == s[b as int]);
                                assert forall|j: int|
                                    0 <= j < t.len() && is_upcoming(#[trigger] t[j], today@) implies lex_lt(
                                    day(t[b as int]),
                                    day(t[j]),
                                ) || (day(t[b as int]) == day(t[j]) && b <= j) by {
                                    if j < i {
                                        assert(s.take(i as int)[j] == t[j]);
                                    }
                                }
                            },
                            None => {},
                        }
                    }
                }
            },
            None => {
                proof {
                    let t = s.take(i + 1);
                    match best {
                        Some(b) => {
                            assert(t[b as int] == s[b as int]);
                            assert forall|j: int|
                                0 <= j < t.len() && is_upcoming(#[trigger] t[j], today@) implies lex_lt(
                                day(t[b as int]),
                                day(t[j]),
                            ) || (day(t[b as int]) == day(t[j]) && b <= j) by {
                                if j < i {
                                    assert(s.take(i as int)[j] == t[j]);
                                }
                            }
                        },
                        None => {},
                    }
                }
                if voting.is_none() && e.poll_embed_url.is_some() {
                    voting = Some(i);
                }
                if undated.is_none() {
                    undated = Some(i);
                }
            },
        }
        i += 1;
    }
    assert(s.take(l.len() as int) =~= s);
    match best {
        Some(b) => Some(b),
        None => match voting {
            Some(v) => Some(v),
            None => undated,
        },
    }
}

/// Indices of the events of `l` whose id is not `fid`, in `ordered_before`
/// order.
pub(crate) fn arrange(l: &Vec<Event>, fid_exec: Option<&str>, undated_first: bool) -> (order: Vec<usize>)
    ensures
        arranged(l@, crate::gathering::opt_view(fid_exec), undated_first, order@.map_values(|j: usize| j as int)),
{
    let ghost fid = crate::gathering::opt_view(fid_exec);
    // Indices of the remainder, kept in `ordered_before` order.
    let mut order: Vec<usize> = Vec::new();
    let mut i: usize = 0;
    while i < l.len()
        invariant
            i <= l.len(),
            fid == crate::gathering::opt_view(fid_exec),
            forall|k: int| 0 <= k < order.len() ==> #[trigger] order@[k] < i && kept(l@, fid, order@[k] as int),
            forall|j: int|
                0 <= j < i && kept(l@, fid, j) ==> exists|k: int| 0 <= k < order.len() && #[trigger] order@[k] == j,
            forall|a: int, b: int|
                0 <= a < b < order.len() ==> ordered_before(l@, undated_first, #[trigger] order@[a] as int, #[trigger] order@[b] as int),
        decreases l.len() - i,
    {
        let keep = match fid_exec {
            Some(f) => !str_eq(l[i].id.as_str(), f),
            None => true,
        };
        if keep {
            // Insert before the first entry that `i` must precede.
            let mut k: usize = 0;
            while k < order.len() && !ordered_before_exec(l, undated_first, i, order[k])
                invariant
                    i < l.len(),
                    k <= order.len(),
                    forall|m: int| 0 <= m < order.len() ==> #[trigger] order@[m] < i,
                    forall|m: int| 0 <= m < k ==> !ordered_before(l@, undated_first, i as int, #[trigger] order@[m] as int),
                decreases order.len() - k,
            {
                k += 1;
            }
            let ghost old_order = order@;
            proof {
                assert forall|m: int| 0 <= m < k implies ordered_before(l@, undated_first, #[trigger] old_order[m] as int, i as int) by {
                    lemma_ordered_before_total(l@, undated_first, old_order[m] as int, i as int);
                }
                assert forall|m: int| k <= m < old_order.len() implies ordered_before(l@, undated_first, i as int, #[trigger] old_order[m] as int) by {
                    if m > k {
                        lemma_ordered_before_transitive(l@, undated_first, i as int, old_order[k as int] as int, old_order[m] as int);
                    }
                }
            }
            order.insert(k, i);
            proof {
                assert(order@ == old_order.insert(k as int, i));
                assert forall|a: int, b: int|
                    0 <= a < b < order.len() implies ordered_before(l@, undated_first, #[trigger] order@[a] as int, #[trigger] order@[b] as int) by {
                    if a < k && b < k {
                    } else if a < k && b == k {
                    } else if a < k && b > k {
                        assert(order@[b] == old_order[b - 1]);
                    } else if a == k {
                        assert(order@[b] == old_order[b - 1]);
                    } else {
                        assert(order@[a] == old_order[a - 1]);
                        assert(order@[b] == old_order[b - 1]);
                    }
                }
                assert forall|j: int|
                    0 <= j < i + 1 && kept(l@, fid, j) implies exists|m: int| 0 <= m < order.len() && #[trigger] order@[m] == j by {
                    if j == i {
                        assert(order@[k as int] == j);
                    } else {
                        let m0 = choose|m: int| 0 <= m < old_order.len() && #[trigger] old_order[m] == j;
                        if m0 < k {
                            assert(order@[m0] == j);
                        } else {
                            assert(order@[m0 + 1] == j);
                        }
                    }
                }
                assert forall|m: int| 0 <= m < order.len() implies #[trigger] order@[m] < i + 1 && kept(l@, fid, order@[m] as int) by {
                    if m < k {
                    } else if m > k {
                        assert(order@[m] == old_order[m - 1]);
                    }
                }
            }
        } else {
            proof {
                assert(!kept(l@, fid, i as int));
            }
        }
        i += 1;
    }
    let ghost p = order@.map_values(|j: usize| j as int);
    proof {
        assert forall|j: int| 0 <= j < l.len() && kept(l@, fid, j) implies exists|m: int| 0 <= m < p.len() && #[trigger] p[m] == j by {
            let m0 = choose|m: int| 0 <= m < order.len() && #[trigger] order@[m] == j;
            assert(p[m0] == j);
        }
        assert forall|a: int, b: int| 0 <= a < b < p.len() implies ordered_before(l@, undated_first, #[trigger] p[a], #[trigger] p[b]) by {
            assert(p[a] == order@[a] as int && p[b] == order@[b] as int);
        }
    }
    order
}

/// Copies of the events of `l` at the indices `order`, in that order.
pub(crate) fn pick(l: &Vec<Event>, order: &Vec<usize>) -> (rest: Vec<Event>)
    requires
        forall|m: int| 0 <= m < order.len() ==> #[trigger] order@[m] < l.len(),
    ensures
        rest@ == order@.map_values(|j: usize| j as int).map_values(|j: int| l@[j]),
{
    let mut rest: Vec<Event> = Vec::new();
    let mut k: usize = 0;
    while k < order.len()
        invariant
            k <= order.len(),
            forall|m: int| 0 <= m < order.len() ==> #[trigger] order@[m] < l.len(),
            rest@ == order@.take(k as int).map_values(|j: usize| l@[j as int]),
        decreases order.len() - k,
    {
        let e = l[order[k]].clone();
        rest.push(e);
        k += 1;
        assert(rest@ =~= order@.take(k as int).map_values(|j: usize| l@[j as int]));
    }
    assert(order@.take(order.len() as int) =~= order@);
    assert(rest@ =~= order@.map_values(|j: usize| j as int).map_values(|j: int| l@[j]));
    rest
}

/// Split the schedule into the headline "next feature" and the rest of the
/// list.
///
/// The feature is the soonest dated screening today-or-later; with nothing
/// dated ahead, an undated pick, preferring one with an open poll. The rest
/// leads with undated screenings in list order, then dated ones newest-first
/// (ties in list order); every event that shares the feature's id is left out
/// of it.
pub fn split_events(list: Vec<Event>, today: &str) -> (r: (Option<Event>, Vec<Event>))
    ensures
        r.0 is None <==> !has_feature(list@, today@),
        r.0 matches Some(e) ==> exists|f: int| featured_at(list@, today@, f) && e == list@[f],
        exists|p: Seq<int>|
            #![trigger arranges(list@, feature_id(r.0), p)]
            arranges(list@, feature_id(r.0), p) && r.1@ == p.map_values(|i: int| list@[i]),
{
    let l = list;
    let fi = featured_index(&l, today);
    let featured: Option<Event> = match fi {
        Some(f) => Some(l[f].clone()),
        None => None,
    };
    let ghost fid = feature_id(featured);
    let fid_exec: Option<&str> = match &featured {
        Some(f) => Some(f.id.as_str()),
        None => None,
    };
    let order = arrange(&l, fid_exec, true);
    let ghost p = order@.map_values(|j: usize| j as int);
    proof {
        assert forall|m: int| 0 <= m < order.len() implies #[trigger] order@[m] < l.len() by {
            assert(p[m] == order@[m] as int);
        }
    }
    let rest = pick(&l, &order);
    proof {
        assert(crate::gathering::opt_view(fid_exec) == fid);
        assert(arranges(l@, feature_id(featured), p));
        assert(rest@ == p.map_values(|i: int| l@[i]));
        match fi {
            Some(f) => {
                assert(featured_at(l@, today@, f as int));
            },
            None => {},
        }
    }
    (featured, rest)
}

} // verus!
