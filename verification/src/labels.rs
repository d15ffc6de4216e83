//! The words the hub puts next to counts, names and states: RSVP counts,
//! deadlines, device counts, event badges, invitee names and bio previews.
use vstd::prelude::*;

use crate::contact::{utf8_byte_width, utf8_len, utf8_width};
use crate::dates::pretty_md_of;
use crate::fmt::{fmt_int, push_int};
use crate::text::{chars_of, push_str, str_eq, string_of};

verus! {

/// A gathering's RSVP count: "Nobody going yet", "1 person going", or
/// "{n} people going".
pub fn gathering_going_label(n: i64) -> (r: String)
    ensures
        r@ == if n == 0 {
            "Nobody going yet"@
        } else if n == 1 {
            "1 person going"@
        } else {
            fmt_int(n as int, 0) + " people going"@
        },
{
    if n == 0 {
        String::from_str("Nobody going yet")
    } else if n == 1 {
        String::from_str("1 person going")
    } else {
        let mut s = String::new();
        push_int(&mut s, n, 0);
        push_str(&mut s, " people going");
        assert(s@ =~= fmt_int(n as int, 0) + " people going"@);
        s
    }
}

/// The RSVP deadline line under an event: "RSVPs closed" once it has
/// passed, else "RSVP by October 31".
pub fn deadline_hint(deadline: &str, closed: bool) -> (r: String)
    ensures
        r@ == if closed {
            "RSVPs closed"@
        } else {
            "RSVP by "@ + pretty_md_of(deadline@)
        },
{
    if closed {
        String::from_str("RSVPs closed")
    } else {
        let mut s = String::from_str("RSVP by ");
        let md = crate::dates::pretty_md(deadline);
        push_str(&mut s, md.as_str());
        s
    }
}

/// How many devices a member has enrolled for push.
pub fn devices_label(n: i64) -> (r: String)
    ensures
        r@ == if n == 1 {
            "1 device enrolled"@
        } else {
            fmt_int(n as int, 0) + " devices enrolled"@
        },
{
    if n == 1 {
        String::from_str("1 device enrolled")
    } else {
        let mut s = String::new();
        push_int(&mut s, n, 0);
        push_str(&mut s, " devices enrolled");
        assert(s@ =~= fmt_int(n as int, 0) + " devices enrolled"@);
        s
    }
}

/// The badge of an event: "Main Event" for the "main" type, "Special
/// Feature" for any other.
pub fn event_badge(event_type: &str) -> (r: &'static str)
    ensures
        r@ == if event_type@ == "main"@ {
            "Main Event"@
        } else {
            "Special Feature"@
        },
{
    if str_eq(event_type, "main") {
        "Main Event"
    } else {
        "Special Feature"
    }
}

/// "First Last" for an invite code, the last name only when there is one.
pub fn invitee_name(first: &str, last: Option<&str>) -> (r: String)
    ensures
        r@ == match last {
            Some(l) => if l@.len() > 0 {
                first@ + " "@ + l@
            } else {
                first@
            },
            None => first@,
        },
{
    let mut s = String::new();
    push_str(&mut s, first);
    match last {
        Some(l) => {
            if !l.is_empty() {
                push_str(&mut s, " ");
                push_str(&mut s, l);
                assert(s@ =~= first@ + " "@ + l@);
            }
        },
        None => {},
    }
    s
}

// ---------------------------------------------------------------------------
// Bio previews
// ---------------------------------------------------------------------------

/// The bytes a member card shows of a bio before cutting it short.
pub open spec fn preview_bytes() -> int {
    100
}

/// The first `k` characters of `s` take exactly `n` bytes.
pub open spec fn byte_prefix(s: Seq<char>, k: int, n: int) -> bool {
    0 <= k <= s.len() && utf8_len(s.take(k)) == n
}

proof fn lemma_utf8_len_step(s: Seq<char>, k: int)
    requires
        0 <= k < s.len(),
    ensures
        utf8_len(s.take(k + 1)) == utf8_len(s.take(k)) + utf8_width(s[k]),
        utf8_width(s[k]) >= 1,
{
    assert(s.take(k + 1).drop_last() =~= s.take(k));
}

/// Longer prefixes take strictly more bytes.
proof fn lemma_utf8_len_increasing(s: Seq<char>, j: int, k: int)
    requires
        0 <= j < k <= s.len(),
    ensures
        utf8_len(s.take(j)) < utf8_len(s.take(k)),
    decreases k - j,
{
    lemma_utf8_len_step(s, k - 1);
    if j < k - 1 {
        lemma_utf8_len_increasing(s, j, k - 1);
    }
}

/// Whether `bio_preview` is defined on `bio`: it fits in a hundred bytes,
/// or a character ends at the hundredth byte.
pub open spec fn preview_defined(bio: Seq<char>) -> bool {
    utf8_len(bio) <= preview_bytes() || exists|k: int| byte_prefix(bio, k, preview_bytes())
}

/// Whether `bio_preview` may be called on `bio` (see `preview_defined`).
pub fn bio_preview_defined(bio: &str) -> (r: bool)
    ensures
        r == preview_defined(bio@),
{
    let v = chars_of(bio);
    let mut total: usize = 0;
    let mut i: usize = 0;
    assert(v@.take(0) =~= seq![]);
    while i < v.len() && total < 100
        invariant
            i <= v.len(),
            v@ == bio@,
            total == utf8_len(v@.take(i as int)),
            total < 100 || i > 0,
            i > 0 ==> utf8_len(v@.take(i - 1)) < 100,
        decreases v.len() - i,
    {
        proof {
            lemma_utf8_len_step(v@, i as int);
        }
        total = total + utf8_byte_width(v[i]);
        i += 1;
    }
    proof {
        if i < v.len() {
            lemma_utf8_len_increasing(v@, i as int, v.len() as int);
        }
        assert(v@.take(v.len() as int) =~= v@);
        if total == 100 {
            assert(byte_prefix(bio@, i as int, preview_bytes()));
        }
        if total > 100 {
            assert forall|k: int| !byte_prefix(bio@, k, preview_bytes()) by {
                if 0 <= k <= v.len() {
                    if k < i - 1 {
                        lemma_utf8_len_increasing(v@, k, i - 1);
                    } else if k > i {
                        lemma_utf8_len_increasing(v@, i as int, k);
                    }
                }
            }
        }
    }
    total <= 100
}

/// A bio on a member card: cut after its first hundred bytes, with an
/// ellipsis, when it is longer. Cutting is only defined where a character
/// ends at the hundredth byte.
pub fn bio_preview(bio: String) -> (r: String)
    requires
        preview_defined(bio@),
    ensures
        utf8_len(bio@) <= preview_bytes() ==> r@ == bio@,
        utf8_len(bio@) > preview_bytes() ==> exists|k: int|
            byte_prefix(bio@, k, preview_bytes()) && r@ == bio@.take(k) + "…"@,
{
    let v = chars_of(bio.as_str());
    let mut total: usize = 0;
    let mut i: usize = 0;
    assert(v@.take(0) =~= seq![]);
    while i < v.len() && total < 100
        invariant
            i <= v.len(),
            v@ == bio@,
            total == utf8_len(v@.take(i as int)),
            total < 100 || i > 0,
            i > 0 ==> utf8_len(v@.take(i - 1)) < 100,
        decreases v.len() - i,
    {
        proof {
            lemma_utf8_len_step(v@, i as int);
        }
        total = total + utf8_byte_width(v[i]);
        i += 1;
    }
    if total <= 100 && i == v.len() {
        assert(v@.take(i as int) =~= v@);
        return bio;
    }
    proof {
        if i < v.len() {
            lemma_utf8_len_increasing(v@, i as int, v.len() as int);
        }
        assert(v@.take(v.len() as int) =~= v@);
        assert(utf8_len(bio@) > preview_bytes());
        // The loop stopped at the first prefix of at least a hundred bytes,
        // which is the one that ends at the hundredth byte.
        let k = choose|k: int| byte_prefix(bio@, k, preview_bytes());
        assert(byte_prefix(bio@, k, preview_bytes()));
        if k < i {
            if k < i - 1 {
                lemma_utf8_len_increasing(v@, k, i - 1);
            }
        } else if k > i {
            lemma_utf8_len_increasing(v@, i as int, k);
        }
        assert(k == i);
    }
    let mut out = string_of(&crate::text::slice_chars(&v, 0, i));
    push_str(&mut out, "…");
    assert(out@ =~= bio@.take(i as int) + "…"@);
    out
}

} // verus!
