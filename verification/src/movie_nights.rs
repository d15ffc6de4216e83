//! The movie-nights page: the whole screening list, newest first, with the
//! next feature headlined, ten screenings to a page.
use vstd::prelude::*;

use crate::schedule::{arranged, featured_at, has_feature, Event};

verus! {

/// Screenings shown per page.
pub const PER_PAGE: usize = 10;

/// The headline screening, and every screening dated newest first (ties in
/// list order) with the undated ones, in list order, at the end. Unlike the
/// schedule's split, the feature stays in the list.
pub fn split_events(list: Vec<Event>, today: &str) -> (r: (Option<Event>, Vec<Event>))
    ensures
        r.0 is None <==> !has_feature(list@, today@),
        r.0 matches Some(e) ==> exists|f: int| featured_at(list@, today@, f) && e == list@[f],
        exists|p: Seq<int>|
            #![trigger arranged(list@, None, false, p)]
            arranged(list@, None, false, p) && r.1@ == p.map_values(|i: int| list@[i]),
{
    let l = list;
    let fi = crate::schedule::featured_index(&l, today);
    let featured: Option<Event> = match fi {
        Some(f) => Some(l[f].clone()),
        None => None,
    };
    let order = crate::schedule::arrange(&l, None, false);
    let ghost p = order@.map_values(|j: usize| j as int);
    proof {
        assert forall|m: int| 0 <= m < order.len() implies #[trigger] order@[m] < l.len() by {
            assert(p[m] == order@[m] as int);
        }
    }
    let rest = crate::schedule::pick(&l, &order);
    proof {
        assert(crate::gathering::opt_view(None) == None::<Seq<char>>);
        assert(arranged(l@, None, false, p));
        assert(rest@ == p.map_values(|i: int| l@[i]));
        match fi {
            Some(f) => {
                assert(featured_at(l@, today@, f as int));
            },
            None => {},
        }
    }
    (featured, rest)
}

/// A main event still being voted on: its poll is set and its date is not
/// (a dated event's poll is closed).
pub open spec fn is_open_poll(e: Event) -> bool {
    e.event_type@ == "main"@ && e.poll_embed_url is Some && e.date is None
}

/// The poll the vote page embeds: the first main event still being voted
/// on.
pub fn open_poll(list: Vec<Event>) -> (r: Option<Event>)
    ensures
        match r {
            Some(e) => exists|i: int|
                0 <= i < list.len() && is_open_poll(#[trigger] list@[i]) && e == list@[i] && forall|j: int|
                    0 <= j < i ==> !is_open_poll(#[trigger] list@[j]),
            None => forall|j: int| 0 <= j < list.len() ==> !is_open_poll(#[trigger] list@[j]),
        },
{
    let mut i: usize = 0;
    while i < list.len()
        invariant
            i <= list.len(),
            forall|j: int| 0 <= j < i ==> !is_open_poll(#[trigger] list@[j]),
        decreases list.len() - i,
    {
        let e = &list[i];
        if crate::text::str_eq(e.event_type.as_str(), "main") && e.poll_embed_url.is_some() && e.date.is_none() {
            assert(is_open_poll(list@[i as int]));
            return Some(e.clone());
        }
        i += 1;
    }
    None
}

/// How many pages `n` screenings take: ten to a page, never fewer than one.
pub open spec fn pages_for(n: int) -> int {
    if n == 0 {
        1
    } else {
        (n + 9) / 10
    }
}

/// How many pages a list of `n` screenings takes; never fewer than one.
pub fn page_count(n: usize) -> (r: usize)
    ensures
        r == pages_for(n as int),
{
    if n == 0 {
        1
    } else {
        n / 10 + if n % 10 == 0 {
            0
        } else {
            1
        }
    }
}

/// The page actually shown when page `requested` (from 0) is asked for: a
/// page past the end shows the last one.
pub open spec fn shown_page(n: int, requested: int) -> int {
    if requested < pages_for(n) - 1 {
        requested
    } else {
        pages_for(n) - 1
    }
}

/// The screenings on page `requested` (from 0), or on the last page when
/// there are fewer pages.
pub fn page(list: &Vec<Event>, requested: usize) -> (r: Vec<Event>)
    ensures
        ({
            let from = shown_page(list.len() as int, requested as int) * 10;
            let to = if from + 10 < list.len() {
                from + 10
            } else {
                list.len() as int
            };
            r@ == list@.subrange(from, to)
        }),
{
    let total = page_count(list.len());
    let cur = if requested < total - 1 {
        requested
    } else {
        total - 1
    };
    assert(cur * 10 <= list.len()) by (nonlinear_arith)
        requires
            cur <= total - 1,
            total == pages_for(list.len() as int),
    ;
    let from = cur * PER_PAGE;
    let to = if list.len() - from > PER_PAGE {
        from + PER_PAGE
    } else {
        list.len()
    };
    let mut r: Vec<Event> = Vec::new();
    let mut i = from;
    while i < to
        invariant
            from <= i <= to <= list.len(),
            r@ == list@.subrange(from as int, i as int),
        decreases to - i,
    {
        r.push(list[i].clone());
        i += 1;
        assert(r@ =~= list@.subrange(from as int, i as int));
    }
    r
}

/// The page before `cur`; the first page stays put.
pub fn prev_page(cur: usize) -> (r: usize)
    ensures
        r == if cur == 0 {
            0
        } else {
            cur - 1
        },
{
    if cur == 0 {
        0
    } else {
        cur - 1
    }
}

/// The page after `cur` of `total`; the last page stays put.
pub fn next_page(cur: usize, total: usize) -> (r: usize)
    ensures
        r == if cur + 1 < total {
            cur + 1
        } else {
            cur as int
        },
{
    if cur < total && total - cur > 1 {
        cur + 1
    } else {
        cur
    }
}

/// Every screening of the list is on exactly one page: screening `i` is
/// the `i % 10`-th of page `i / 10`, and that page is one of the
/// `pages_for` pages.
pub proof fn lemma_pages_cover(n: int, i: int)
    requires
        0 <= i < n,
    ensures
        0 <= i / 10 < pages_for(n),
        shown_page(n, i / 10) == i / 10,
        i / 10 * 10 <= i < i / 10 * 10 + 10,
{
}

/// The headline's date line: the spelled-out date, or "Date TBD" while
/// voting picks one.
pub fn feature_date_label(date: Option<&str>) -> (r: String)
    ensures
        r@ == match date {
            Some(d) => crate::dates::pretty_date_of(d@),
            None => "Date TBD"@,
        },
{
    match date {
        Some(d) => crate::dates::pretty_date(d),
        None => String::from_str("Date TBD"),
    }
}

} // verus!
