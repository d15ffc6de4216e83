//! How a ride's free-text contact string is presented. Only `https://` and
//! `http://` text is ever treated as a link, so no other scheme can be
//! smuggled through the field.
use vstd::prelude::*;

use crate::text::{
    chars_of, contains, contains_sub, find_char, first_index, has_char, has_prefix, is_ascii_digit,
    is_digit, is_whitespace, is_ws, push_char, starts_with, trim, trim_chars,
};

verus! {

/// How a contact string should be presented.
#[derive(Clone, Debug, PartialEq, Eq)]
pub enum ContactKind {
    /// A Signal group or contact invite link.
    Signal,
    /// Any other http(s) link.
    Web,
    /// An email address.
    Email,
    /// A phone number, with its `tel:`-safe digits-and-plus reduction.
    Phone(String),
    /// Anything else: plain text, never a link.
    Plain,
}

/// Bytes that `c` takes in UTF-8.
pub open spec fn utf8_width(c: char) -> int {
    if '\u{80}' > c {
        1
    } else if '\u{800}' > c {
        2
    } else if '\u{10000}' > c {
        3
    } else {
        4
    }
}

/// Length in bytes of the UTF-8 encoding of `s` (what `str::len` returns).
pub open spec fn utf8_len(s: Seq<char>) -> int
    decreases s.len(),
{
    if s.len() == 0 {
        0
    } else {
        utf8_len(s.drop_last()) + utf8_width(s.last())
    }
}

pub open spec fn no_whitespace(s: Seq<char>) -> bool {
    forall|i: int| 0 <= i < s.len() ==> !is_ws(#[trigger] s[i])
}

/// Shaped like an address: no whitespace, and split at the first `@` into a
/// non-empty user part and a domain of more than two bytes holding a dot.
pub open spec fn email_shaped(s: Seq<char>) -> bool {
    &&& no_whitespace(s)
    &&& match first_index(s, '@') {
        Some(k) => {
            let domain = s.subrange(k + 1, s.len() as int);
            &&& k > 0
            &&& utf8_len(domain) > 2
            &&& has_char(domain, '.')
        },
        None => false,
    }
}

/// A character allowed in a written phone number.
pub open spec fn phone_char(c: char) -> bool {
    is_digit(c) || c == ' ' || c == '+' || c == '-' || c == '(' || c == ')' || c == '.'
}

/// A character kept in the `tel:` reduction.
pub open spec fn tel_char(c: char) -> bool {
    is_digit(c) || c == '+'
}

pub open spec fn digit_count(s: Seq<char>) -> int
    decreases s.len(),
{
    if s.len() == 0 {
        0
    } else {
        digit_count(s.drop_last()) + if is_digit(s.last()) {
            1int
        } else {
            0int
        }
    }
}

/// The digits and plus signs of `s`, in order.
pub open spec fn tel_of(s: Seq<char>) -> Seq<char>
    decreases s.len(),
{
    if s.len() == 0 {
        seq![]
    } else if tel_char(s.last()) {
        tel_of(s.drop_last()).push(s.last())
    } else {
        tel_of(s.drop_last())
    }
}

/// Phone-shaped: 7 to 15 digits, and nothing but digits and the usual
/// separators.
pub open spec fn phone_shaped(s: Seq<char>) -> bool {
    &&& 7 <= digit_count(s) <= 15
    &&& forall|i: int| 0 <= i < s.len() ==> phone_char(#[trigger] s[i])
}

pub open spec fn is_web_link(s: Seq<char>) -> bool {
    has_prefix(s, "https://"@) || has_prefix(s, "http://"@)
}

pub open spec fn mentions_signal(s: Seq<char>) -> bool {
    contains_sub(s, "signal.group"@) || contains_sub(s, "signal.me"@)
}

/// Whether `k` is the presentation of the contact string `raw`.
pub open spec fn classified_as(raw: Seq<char>, k: ContactKind) -> bool {
    let s = trim(raw);
    if s.len() == 0 {
        k is Plain
    } else if is_web_link(s) && mentions_signal(s) {
        k is Signal
    } else if is_web_link(s) {
        k is Web
    } else if email_shaped(s) {
        k is Email
    } else if phone_shaped(s) {
        k matches ContactKind::Phone(t) && t@ == tel_of(s)
    } else {
        k is Plain
    }
}

/// Only text that starts with `https://` or `http://` is ever presented as a
/// link, a Signal button or a web link; no other scheme gets through.
pub proof fn lemma_links_are_http(raw: Seq<char>, k: ContactKind)
    requires
        classified_as(raw, k),
        k is Signal || k is Web,
    ensures
        is_web_link(trim(raw)),
{
}

proof fn lemma_tel_of_chars(s: Seq<char>)
    ensures
        forall|i: int| 0 <= i < tel_of(s).len() ==> tel_char(#[trigger] tel_of(s)[i]),
    decreases s.len(),
{
    if s.len() > 0 {
        lemma_tel_of_chars(s.drop_last());
        let rest = tel_of(s.drop_last());
        assert forall|i: int| 0 <= i < tel_of(s).len() implies tel_char(#[trigger] tel_of(s)[i]) by {
            if i < rest.len() {
                assert(tel_of(s)[i] == rest[i]);
            }
        }
    }
}

proof fn lemma_digit_count_filter(s: Seq<char>)
    ensures
        digit_count(s) == s.filter(|c: char| is_digit(c)).len(),
    decreases s.len(),
{
    reveal_with_fuel(Seq::filter, 1);
    if s.len() > 0 {
        lemma_digit_count_filter(s.drop_last());
    }
}

proof fn lemma_tel_of_filter(s: Seq<char>)
    ensures
        tel_of(s) == s.filter(|c: char| is_digit(c) || c == '+'),
    decreases s.len(),
{
    reveal_with_fuel(Seq::filter, 1);
    if s.len() > 0 {
        lemma_tel_of_filter(s.drop_last());
    }
}

/// A number written with 7 to 15 digits, optional plus signs, and dots,
/// dashes, spaces or brackets between them (such as "479.555.0142" or
/// "+1 (479) 555-0142") is a phone number, and its `tel:` text is its digits
/// and plus signs in order, which is also its link after `tel:`.
pub proof fn lemma_written_numbers_are_phones(s: Seq<char>, k: ContactKind)
    requires
        s.len() > 0,
        s[0] != ' ',
        s.last() != ' ',
        forall|i: int|
            0 <= i < s.len() ==> is_digit(#[trigger] s[i]) || s[i] == '+' || s[i] == '.' || s[i] == '-' || s[i]
                == ' ' || s[i] == '(' || s[i] == ')',
        7 <= s.filter(|c: char| is_digit(c)).len() <= 15,
        classified_as(s, k),
    ensures
        k matches ContactKind::Phone(t) && t@ == s.filter(|c: char| is_digit(c) || c == '+'),
        contact_href_of(s) == Some("tel:"@ + s.filter(|c: char| is_digit(c) || c == '+')),
{
    reveal_strlit("https://");
    reveal_strlit("http://");
    lemma_digit_count_filter(s);
    lemma_tel_of_filter(s);
    assert(crate::text::trim_start(s) == s);
    assert(trim(s) == s);
    assert(!has_prefix(s, "https://"@)) by {
        if has_prefix(s, "https://"@) {
            assert(s.subrange(0, 8)[0] == s[0]);
        }
    }
    assert(!has_prefix(s, "http://"@)) by {
        if has_prefix(s, "http://"@) {
            assert(s.subrange(0, 7)[0] == s[0]);
        }
    }
    assert(first_index(s, '@') is None) by {
        if exists|i: int| 0 <= i < s.len() && s[i] == '@' {
            let i = choose|i: int| 0 <= i < s.len() && s[i] == '@';
            assert(is_digit(s[i]) || s[i] == '+' || s[i] == '.' || s[i] == '-' || s[i] == ' ' || s[i] == '(' || s[i]
                == ')');
        }
    }
    assert(!email_shaped(s));
    assert forall|i: int| 0 <= i < s.len() implies phone_char(#[trigger] s[i]) by {
        assert(is_digit(s[i]) || s[i] == '+' || s[i] == '.' || s[i] == '-' || s[i] == ' ' || s[i] == '(' || s[i]
            == ')');
    }
    assert(phone_shaped(s));
}

/// The `tel:` text of a phone number holds nothing but digits and plus signs.
pub proof fn lemma_tel_is_digits_and_plus(raw: Seq<char>, k: ContactKind)
    requires
        classified_as(raw, k),
    ensures
        k matches ContactKind::Phone(t) ==> forall|i: int| 0 <= i < t@.len() ==> tel_char(#[trigger] t@[i]),
{
    lemma_tel_of_chars(trim(raw));
}

pub(crate) fn utf8_byte_width(c: char) -> (w: usize)
    ensures
        w == utf8_width(c),
{
    if '\u{80}' > c {
        1
    } else if '\u{800}' > c {
        2
    } else if '\u{10000}' > c {
        3
    } else {
        4
    }
}

/// Whether the UTF-8 length of `v[from..]` exceeds `bound`.
fn utf8_len_exceeds(v: &Vec<char>, from: usize, bound: usize) -> (r: bool)
    requires
        from <= v.len(),
        bound < 16,
    ensures
        r == (utf8_len(v@.subrange(from as int, v.len() as int)) > bound),
{
    let ghost d = v@.subrange(from as int, v.len() as int);
    let mut total: usize = 0;
    let mut i = from;
    assert(d.take(0) =~= seq![]);
    while i < v.len()
        invariant
            from <= i <= v.len(),
            d == v@.subrange(from as int, v.len() as int),
            total == utf8_len(d.take(i - from)),
            total <= bound,
            bound < 16,
        decreases v.len() - i,
    {
        assert(d.take(i - from + 1).drop_last() =~= d.take(i - from));
        assert(d.take(i - from + 1).last() == v@[i as int]);
        total = total + utf8_byte_width(v[i]);
        i += 1;
        if total > bound {
            proof {
                lemma_utf8_len_prefix(d, i - from);
            }
            return true;
        }
    }
    assert(d.take(i - from) =~= d);
    false
}

proof fn lemma_utf8_len_prefix(s: Seq<char>, k: int)
    requires
        0 <= k <= s.len(),
    ensures
        utf8_len(s.take(k)) <= utf8_len(s),
    decreases s.len() - k,
{
    if k < s.len() {
        lemma_utf8_len_prefix(s, k + 1);
        assert(s.take(k + 1).drop_last() =~= s.take(k));
    } else {
        assert(s.take(k) =~= s);
    }
}

fn has_no_whitespace(v: &Vec<char>) -> (r: bool)
    ensures
        r == no_whitespace(v@),
{
    let mut i: usize = 0;
    while i < v.len()
        invariant
            i <= v.len(),
            forall|j: int| 0 <= j < i ==> !is_ws(#[trigger] v@[j]),
        decreases v.len() - i,
    {
        if is_whitespace(v[i]) {
            return false;
        }
        i += 1;
    }
    true
}

fn contains_char_from(v: &Vec<char>, from: usize, c: char) -> (r: bool)
    requires
        from <= v.len(),
    ensures
        r == has_char(v@.subrange(from as int, v.len() as int), c),
{
    let ghost d = v@.subrange(from as int, v.len() as int);
    let mut i = from;
    while i < v.len()
        invariant
            from <= i <= v.len(),
            d == v@.subrange(from as int, v.len() as int),
            forall|j: int| from <= j < i ==> v@[j] != c,
        decreases v.len() - i,
    {
        if v[i] == c {
            assert(d[i - from] == c);
            return true;
        }
        i += 1;
    }
    assert forall|j: int| 0 <= j < d.len() implies d[j] != c by {
        assert(d[j] == v@[from + j]);
    }
    false
}

/// Whether `v` is shaped like an email address.
fn looks_like_email(v: &Vec<char>) -> (r: bool)
    ensures
        r == email_shaped(v@),
{
    if !has_no_whitespace(v) {
        return false;
    }
    match find_char(v, '@') {
        None => false,
        Some(k) => k > 0 && utf8_len_exceeds(v, k + 1, 2) && contains_char_from(v, k + 1, '.'),
    }
}

/// The `tel:` reduction of `v` when it is phone-shaped.
fn phone_tel(v: &Vec<char>) -> (r: Option<String>)
    ensures
        match r {
            Some(t) => phone_shaped(v@) && t@ == tel_of(v@),
            None => !phone_shaped(v@),
        },
{
    let mut digits: usize = 0;
    let mut all_phone = true;
    let mut tel = String::new();
    let mut i: usize = 0;
    while i < v.len()
        invariant
            i <= v.len(),
            digits == digit_count(v@.take(i as int)),
            digits <= i,
            tel@ == tel_of(v@.take(i as int)),
            all_phone == forall|j: int| 0 <= j < i ==> phone_char(#[trigger] v@[j]),
        decreases v.len() - i,
    {
        let c = v[i];
        assert(v@.take(i + 1).drop_last() =~= v@.take(i as int));
        assert(v@.take(i + 1).last() == c);
        if is_ascii_digit(c) {
            digits += 1;
        }
        if is_ascii_digit(c) || c == '+' {
            push_char(&mut tel, c);
        }
        let ok = is_ascii_digit(c) || c == ' ' || c == '+' || c == '-' || c == '(' || c == ')'
            || c == '.';
        proof {
            if all_phone && !ok {
                assert(!phone_char(v@[i as int]));
            }
        }
        all_phone = all_phone && ok;
        i += 1;
    }
    assert(v@.take(v.len() as int) =~= v@);
    if 7 <= digits && digits <= 15 && all_phone {
        Some(tel)
    } else {
        None
    }
}

/// Classify a contact string for rendering. Surrounding whitespace is
/// ignored.
pub fn classify_contact(raw: &str) -> (k: ContactKind)
    ensures
        classified_as(raw@, k),
{
    let all = chars_of(raw);
    let s = trim_chars(&all);
    if s.len() == 0 {
        return ContactKind::Plain;
    }
    let is_web = starts_with(&s, "https://") || starts_with(&s, "http://");
    if is_web && (contains(&s, "signal.group") || contains(&s, "signal.me")) {
        return ContactKind::Signal;
    }
    if is_web {
        return ContactKind::Web;
    }
    if looks_like_email(&s) {
        return ContactKind::Email;
    }
    if let Some(tel) = phone_tel(&s) {
        return ContactKind::Phone(tel);
    }
    ContactKind::Plain
}

// ---------------------------------------------------------------------------
// Links
// ---------------------------------------------------------------------------

/// The link a contact string is rendered as: the link itself for a web or
/// Signal link, `mailto:` for an address, `tel:` with the digits and plus
/// signs for a phone number, and none for plain text.
pub open spec fn contact_href_of(raw: Seq<char>) -> Option<Seq<char>> {
    let s = trim(raw);
    if s.len() == 0 {
        None
    } else if is_web_link(s) {
        Some(s)
    } else if email_shaped(s) {
        Some("mailto:"@ + s)
    } else if phone_shaped(s) {
        Some("tel:"@ + tel_of(s))
    } else {
        None
    }
}

/// The `href` a contact string gets, if any.
pub fn contact_href(raw: &str) -> (r: Option<String>)
    ensures
        match r {
            Some(h) => contact_href_of(raw@) == Some(h@),
            None => contact_href_of(raw@) is None,
        },
{
    let all = chars_of(raw);
    let s = trim_chars(&all);
    if s.len() == 0 {
        return None;
    }
    if starts_with(&s, "https://") || starts_with(&s, "http://") {
        return Some(crate::text::string_of(&s));
    }
    if looks_like_email(&s) {
        let mut h = String::from_str("mailto:");
        crate::text::push_all(&mut h, &s);
        return Some(h);
    }
    if let Some(tel) = phone_tel(&s) {
        let mut h = String::from_str("tel:");
        crate::text::push_str(&mut h, tel.as_str());
        return Some(h);
    }
    None
}

/// A contact string never becomes a link outside `https://`, `http://`,
/// `mailto:` and `tel:`.
pub proof fn lemma_contact_hrefs_are_safe(raw: Seq<char>)
    ensures
        match contact_href_of(raw) {
            Some(h) => has_prefix(h, "https://"@) || has_prefix(h, "http://"@) || has_prefix(h, "mailto:"@)
                || has_prefix(h, "tel:"@),
            None => true,
        },
{
    let s = trim(raw);
    if s.len() > 0 && !is_web_link(s) {
        if email_shaped(s) {
            assert(("mailto:"@ + s).subrange(0, "mailto:"@.len() as int) =~= "mailto:"@);
        } else if phone_shaped(s) {
            assert(("tel:"@ + tel_of(s)).subrange(0, "tel:"@.len() as int) =~= "tel:"@);
        }
    }
}

} // verus!
