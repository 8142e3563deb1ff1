//! Rendering a store as a `backlog.md` document: `## In flight`,
//! `## Queued` and `## Done` sections of `- [ ] <id> - <title>` bullets
//! with trailing `(repo: …) (kind: …) (since …)` tags and indented body
//! lines. Dates are UTC calendar dates of millisecond timestamps.

use vstd::prelude::*;

use crate::hold::hold_kind_wire;
use crate::issue::{Issue, IssueView, strings_view};
use crate::status::Status;
use crate::text::{chars_of, chars_starts_with, is_prefix, padded, pad_decimal, string_of};
use super::cache::{Cache, CacheView, IssueOrder, issues_view, list_pred, sort_issues};

verus! {

// ------------------------------------------------------------ calendar

/// Whether `y` is a leap year of the proleptic Gregorian calendar.
pub open spec fn is_leap(y: int) -> bool {
    y % 4 == 0 && (y % 100 != 0 || y % 400 == 0)
}

/// The number of days in year `y`.
pub open spec fn year_len(y: int) -> int {
    if is_leap(y) {
        366
    } else {
        365
    }
}

/// The number of days in month `m` (1 = January) of year `y`.
pub open spec fn month_len(y: int, m: int) -> int {
    if m == 2 {
        if is_leap(y) {
            29
        } else {
            28
        }
    } else if m == 4 || m == 6 || m == 9 || m == 11 {
        30
    } else {
        31
    }
}

/// Starting on the first day of year `y`, count `rem` days forward one
/// whole year at a time: the year reached and the days left into it.
pub open spec fn year_walk(y: int, rem: int) -> (int, int)
    decreases rem,
{
    if rem < year_len(y) {
        (y, rem)
    } else {
        year_walk(y + 1, rem - year_len(y))
    }
}

/// Starting on the first day of month `m` of year `y`, count `rem` days
/// forward one whole month at a time: the month reached and the days left
/// into it.
pub open spec fn month_walk(y: int, m: int, rem: int) -> (int, int)
    decreases rem,
{
    if rem < month_len(y, m) {
        (m, rem)
    } else {
        month_walk(y, m + 1, rem - month_len(y, m))
    }
}

/// The days from 0000-01-01 to 1970-01-01 in the proleptic Gregorian
/// calendar.
pub open spec fn epoch_offset() -> int {
    719528
}

/// The days in a 400-year cycle; the calendar repeats after each.
pub open spec fn cycle_days() -> int {
    146097
}

/// The `(year, month, day)` of the day `days` days after 1970-01-01
/// (before it when negative): whole 400-year cycles from 0000-01-01, then
/// whole years and whole months into the cycle.
pub open spec fn civil(days: int) -> (int, int, int) {
    let z = days + epoch_offset();
    let (k, r) = year_walk(0, z % cycle_days());
    let (m, d) = month_walk(k, 1, r);
    (400 * (z / cycle_days()) + k, m, d + 1)
}

/// The UTC calendar date of a millisecond timestamp.
pub open spec fn civil_of_ms(ms: int) -> (int, int, int) {
    civil(ms / 86400000)
}

/// `YYYY-MM-DD` (a `-` before the year when it is negative).
pub open spec fn date_text(ms: int) -> Seq<char> {
    let (y, m, d) = civil_of_ms(ms);
    let year = if y < 0 {
        seq!['-'] + padded((-y) as nat, 4)
    } else {
        padded(y as nat, 4)
    };
    year + seq!['-'] + padded(m as nat, 2) + seq!['-'] + padded(d as nat, 2)
}

/// Adding `k` multiples of `d` moves the quotient by `k` and keeps the
/// remainder.
proof fn lemma_shift_div(x: int, d: int, k: int)
    requires
        d > 0,
    ensures
        (x + k * d) / d == x / d + k,
        (x + k * d) % d == x % d,
{
    vstd::arithmetic::div_mod::lemma_fundamental_div_mod(x, d);
    vstd::arithmetic::div_mod::lemma_mod_bound(x, d);
    assert(x + k * d == (x / d + k) * d + x % d) by (nonlinear_arith)
        requires
            x == d * (x / d) + (x % d),
    ;
    vstd::arithmetic::div_mod::lemma_fundamental_div_mod_converse(
        x + k * d,
        d,
        x / d + k,
        x % d,
    );
}

fn year_len_exec(y: u64) -> (r: u64)
    ensures
        r == year_len(y as int),
{
    if y % 4 == 0 && (y % 100 != 0 || y % 400 == 0) {
        366
    } else {
        365
    }
}

fn month_len_exec(y: u64, m: u64) -> (r: u64)
    ensures
        r == month_len(y as int, m as int),
{
    if m == 2 {
        if y % 4 == 0 && (y % 100 != 0 || y % 400 == 0) {
            29
        } else {
            28
        }
    } else if m == 4 || m == 6 || m == 9 || m == 11 {
        30
    } else {
        31
    }
}

/// The UTC `(year, month, day)` of a millisecond timestamp.
pub fn civil_date(ms: i64) -> (r: (i64, u64, u64))
    ensures
        (r.0 as int, r.1 as int, r.2 as int) == civil_of_ms(ms as int),
{
    // Shift by whole 400-year cycles so that every count below is
    // non-negative; the shift comes off the year at the end.
    let shifted: i128 = ms as i128 + 10098224640000000000i128;
    let s: u128 = shifted as u128;
    let days: u128 = s / 86400000;
    let z: u128 = days + 719528;
    let era: u128 = z / 146097;
    let doe: u64 = (z % 146097) as u64;
    proof {
        let zs = ms as int / 86400000 + epoch_offset();
        lemma_shift_div(ms as int, 86400000, 116877600000int);
        assert(days == ms as int / 86400000 + 146097 * 800000);
        lemma_shift_div(zs, 146097, 800000int);
        assert(era == zs / 146097 + 800000);
        assert(doe == zs % 146097);
        vstd::arithmetic::div_mod::lemma_fundamental_div_mod(s as int, 86400000);
        vstd::arithmetic::div_mod::lemma_fundamental_div_mod(z as int, 146097);
    }
    let mut k: u64 = 0;
    let mut rem: u64 = doe;
    while rem >= year_len_exec(k)
        invariant
            year_walk(k as int, rem as int) == year_walk(0, doe as int),
            k * 365 + rem <= doe,
            doe < 146097,
        decreases rem,
    {
        rem = rem - year_len_exec(k);
        k = k + 1;
    }
    let mut m: u64 = 1;
    let mut left: u64 = rem;
    while left >= month_len_exec(k, m)
        invariant
            month_walk(k as int, m as int, left as int) == month_walk(k as int, 1, rem as int),
            (m - 1) * 28 + left <= rem,
            m >= 1,
            rem < 146097,
        decreases left,
    {
        left = left - month_len_exec(k, m);
        m = m + 1;
    }
    let year: i128 = 400 * (era as i128) + (k as i128) - 320000000;
    (year as i64, m, left + 1)
}

/// The `YYYY-MM-DD` UTC date of a millisecond timestamp.
pub fn date_of(ms: i64) -> (v: Vec<char>)
    ensures
        v@ == date_text(ms as int),
{
    let (y, m, d) = civil_date(ms);
    let mut v: Vec<char> = Vec::new();
    if y < 0 {
        v.push('-');
    }
    let ay: u64 = if y < 0 { (-(y as i128)) as u64 } else { y as u64 };
    let year = pad_decimal(ay, 4);
    let month = pad_decimal(m, 2);
    let day = pad_decimal(d, 2);
    v.extend_from_slice(year.as_slice());
    v.push('-');
    v.extend_from_slice(month.as_slice());
    v.push('-');
    v.extend_from_slice(day.as_slice());
    v
}

// ------------------------------------------------------------ document

/// The value of the first tag of the form `<key><value>`, if any.
pub open spec fn tag_value(tags: Seq<Seq<char>>, key: Seq<char>) -> Option<Seq<char>>
    decreases tags.len(),
{
    if tags.len() == 0 {
        None
    } else if is_prefix(key, tags[0]) {
        Some(tags[0].skip(key.len() as int))
    } else {
        tag_value(tags.drop_first(), key)
    }
}

/// ` (<label>: <value>)` when there is a value, else nothing.
pub open spec fn opt_tag(label: Seq<char>, v: Option<Seq<char>>) -> Seq<char> {
    match v {
        Some(x) => " ("@ + label + ": "@ + x + ")"@,
        None => Seq::empty(),
    }
}

/// The trailing tags of a bullet: repo and kind from `repo:`/`kind:`
/// tags, the creation date, the closing date on Done rows, and the hold.
pub open spec fn tags_text(i: IssueView, done: bool) -> Seq<char> {
    opt_tag("repo"@, tag_value(i.tags, "repo:"@)) + opt_tag("kind"@, tag_value(i.tags, "kind:"@))
        + " (since "@ + date_text(i.created_at as int) + ")"@ + (if done {
        " (closed "@ + date_text(i.updated_at as int) + ")"@
    } else {
        Seq::empty()
    }) + match i.hold {
        Some(h) => " (hold: "@ + h.reason + ") (hold-kind: "@ + hold_kind_wire(h.kind) + ")"@,
        None => Seq::empty(),
    }
}

/// `b` with two spaces after each line break.
pub open spec fn indented(b: Seq<char>) -> Seq<char>
    decreases b.len(),
{
    if b.len() == 0 {
        Seq::empty()
    } else {
        indented(b.drop_last()) + if b.last() == '\n' {
            "\n  "@
        } else {
            seq![b.last()]
        }
    }
}

/// A body as two-space-indented continuation lines (nothing when empty).
pub open spec fn body_text(b: Seq<char>) -> Seq<char> {
    if b.len() == 0 {
        Seq::empty()
    } else {
        "  "@ + indented(b) + "\n"@
    }
}

/// One bullet: `- [ ] <id> - <title>` (`- [x]` when done), its tags, and
/// its body lines.
pub open spec fn row_text(i: IssueView, done: bool) -> Seq<char> {
    (if done {
        "- [x] "@
    } else {
        "- [ ] "@
    }) + i.id + " - "@ + i.title + tags_text(i, done) + "\n"@ + body_text(i.body)
}

/// The bullets of `rows`, in order.
pub open spec fn rows_text(rows: Seq<IssueView>, done: bool) -> Seq<char>
    decreases rows.len(),
{
    if rows.len() == 0 {
        Seq::empty()
    } else {
        rows_text(rows.drop_last(), done) + row_text(rows.last(), done)
    }
}

/// A `## <title>` section; a blank line separates the heading from its
/// bullets.
pub open spec fn section_text(title: Seq<char>, rows: Seq<IssueView>, done: bool) -> Seq<char> {
    "## "@ + title + "\n"@ + if rows.len() == 0 {
        Seq::empty()
    } else {
        "\n"@ + rows_text(rows, done)
    }
}

/// The issues with status `st`, by priority, then oldest first, then id.
pub open spec fn section_rows(c: CacheView, st: Status) -> Seq<IssueView> {
    sort_issues(c.issues.filter(list_pred(Some(st), None, None)), IssueOrder::PriorityThenCreatedThenId)
}

/// The whole document: In flight (in progress), Queued (open) and Done
/// (closed), separated by blank lines.
pub open spec fn backlog(c: CacheView) -> Seq<char> {
    section_text("In flight"@, section_rows(c, Status::InProgress), false) + "\n"@ + section_text(
        "Queued"@,
        section_rows(c, Status::Open),
        false,
    ) + "\n"@ + section_text("Done"@, section_rows(c, Status::Closed), true)
}

fn push_str(out: &mut Vec<char>, s: &str)
    ensures
        final(out)@ == old(out)@ + s@,
{
    let mut v = chars_of(s);
    out.append(&mut v);
}

fn push_chars(out: &mut Vec<char>, v: Vec<char>)
    ensures
        final(out)@ == old(out)@ + v@,
{
    let mut v = v;
    out.append(&mut v);
}

fn tag_value_of(tags: &Vec<String>, key: &str) -> (r: Option<Vec<char>>)
    ensures
        match r {
            Some(v) => tag_value(strings_view(tags@), key@) == Some(v@),
            None => tag_value(strings_view(tags@), key@) is None,
        },
{
    let keyv = chars_of(key);
    let ghost all = strings_view(tags@);
    let mut i: usize = 0;
    assert(all.skip(0) =~= all);
    while i < tags.len()
        invariant
            i <= tags.len(),
            all == strings_view(tags@),
            keyv@ == key@,
            tag_value(all, key@) == tag_value(all.skip(i as int), key@),
        decreases tags.len() - i,
    {
        let t = chars_of(tags[i].as_str());
        assert(all.skip(i as int)[0] == t@);
        if chars_starts_with(&t, &keyv) {
            let mut v: Vec<char> = Vec::new();
            let mut j: usize = keyv.len();
            while j < t.len()
                invariant
                    keyv.len() <= j <= t.len(),
                    v@ == t@.subrange(keyv.len() as int, j as int),
                decreases t.len() - j,
            {
                v.push(t[j]);
                assert(v@ =~= t@.subrange(keyv.len() as int, j + 1));
                j = j + 1;
            }
            assert(v@ =~= t@.skip(keyv.len() as int));
            return Some(v);
        }
        assert(all.skip(i as int).drop_first() =~= all.skip(i + 1));
        i = i + 1;
    }
    None
}

fn push_opt_tag(out: &mut Vec<char>, label: &str, v: Option<Vec<char>>)
    ensures
        final(out)@ == old(out)@ + opt_tag(
            label@,
            match v {
                Some(x) => Some(x@),
                None => None,
            },
        ),
{
    match v {
        Some(x) => {
            push_str(out, " (");
            push_str(out, label);
            push_str(out, ": ");
            push_chars(out, x);
            push_str(out, ")");
        },
        None => {},
    }
}

fn push_hold(out: &mut Vec<char>, i: &Issue)
    ensures
        final(out)@ == old(out)@ + match i@.hold {
            Some(h) => " (hold: "@ + h.reason + ") (hold-kind: "@ + hold_kind_wire(h.kind) + ")"@,
            None => Seq::empty(),
        },
{
    let ghost start = out@;
    match &i.hold {
        Some(h) => {
            push_str(out, " (hold: ");
            push_str(out, h.reason.as_str());
            push_str(out, ") (hold-kind: ");
            push_str(out, h.kind.as_str());
            push_str(out, ")");
            assert(out@ =~= start + (" (hold: "@ + h@.reason + ") (hold-kind: "@ + hold_kind_wire(
                h@.kind,
            ) + ")"@));
        },
        None => {
            assert(out@ =~= start + Seq::<char>::empty());
        },
    }
}

fn push_dated(out: &mut Vec<char>, label: &str, ms: i64)
    ensures
        final(out)@ == old(out)@ + (label@ + date_text(ms as int) + ")"@),
{
    let ghost start = out@;
    push_str(out, label);
    push_chars(out, date_of(ms));
    push_str(out, ")");
    assert(out@ =~= start + (label@ + date_text(ms as int) + ")"@));
}

fn push_tags(out: &mut Vec<char>, i: &Issue, done: bool)
    ensures
        final(out)@ == old(out)@ + tags_text(i@, done),
{
    let ghost start = out@;
    push_opt_tag(out, "repo", tag_value_of(&i.tags, "repo:"));
    push_opt_tag(out, "kind", tag_value_of(&i.tags, "kind:"));
    push_dated(out, " (since ", i.created_at);
    let ghost c = out@;
    if done {
        push_dated(out, " (closed ", i.updated_at);
    }
    let ghost d = out@;
    assert(d =~= c + (if done {
        " (closed "@ + date_text(i.updated_at as int) + ")"@
    } else {
        Seq::empty()
    }));
    push_hold(out, i);
    assert(out@ =~= start + tags_text(i@, done));
}

fn push_body(out: &mut Vec<char>, body: &str)
    ensures
        final(out)@ == old(out)@ + body_text(body@),
{
    let ghost start = out@;
    let b = chars_of(body);
    if b.len() > 0 {
        push_str(out, "  ");
        let mut k: usize = 0;
        let ghost mid = out@;
        assert(b@.take(0) =~= Seq::<char>::empty());
        while k < b.len()
            invariant
                k <= b.len(),
                out@ == mid + indented(b@.take(k as int)),
            decreases b.len() - k,
        {
            assert(b@.take(k + 1).drop_last() =~= b@.take(k as int));
            assert(b@.take(k + 1).last() == b@[k as int]);
            if b[k] == '\n' {
                push_str(out, "\n  ");
            } else {
                out.push(b[k]);
            }
            assert(out@ =~= mid + indented(b@.take(k + 1)));
            k = k + 1;
        }
        assert(b@.take(b.len() as int) =~= b@);
        push_str(out, "\n");
    }
    assert(out@ =~= start + body_text(body@));
}

fn push_row(out: &mut Vec<char>, i: &Issue, done: bool)
    ensures
        final(out)@ == old(out)@ + row_text(i@, done),
{
    let ghost start = out@;
    if done {
        push_str(out, "- [x] ");
    } else {
        push_str(out, "- [ ] ");
    }
    push_str(out, i.id.as_str());
    push_str(out, " - ");
    push_str(out, i.title.as_str());
    push_tags(out, i, done);
    push_str(out, "\n");
    push_body(out, i.body.as_str());
    assert(out@ =~= start + row_text(i@, done));
}

fn push_section(out: &mut Vec<char>, title: &str, rows: &Vec<Issue>, done: bool)
    ensures
        final(out)@ == old(out)@ + section_text(title@, issues_view(rows@), done),
{
    let ghost start = out@;
    push_str(out, "## ");
    push_str(out, title);
    push_str(out, "\n");
    if rows.len() > 0 {
        push_str(out, "\n");
        let ghost mid = out@;
        let mut k: usize = 0;
        while k < rows.len()
            invariant
                k <= rows.len(),
                out@ == mid + rows_text(issues_view(rows@.take(k as int)), done),
            decreases rows.len() - k,
        {
            assert(issues_view(rows@.take(k + 1)).drop_last() =~= issues_view(rows@.take(k as int)));
            assert(issues_view(rows@.take(k + 1)).last() == rows@[k as int]@);
            push_row(out, &rows[k], done);
            assert(out@ =~= mid + rows_text(issues_view(rows@.take(k + 1)), done));
            k = k + 1;
        }
        assert(rows@.take(rows.len() as int) =~= rows@);
    }
    assert(out@ =~= start + section_text(title@, issues_view(rows@), done));
}

/// Render the derived state as a `backlog.md` document.
pub fn render_backlog(cache: &Cache) -> (r: String)
    ensures
        r@ == backlog(cache@),
{
    let mut out: Vec<char> = Vec::new();
    let in_flight = cache.list_ordered(
        Some(Status::InProgress),
        None,
        None,
        IssueOrder::PriorityThenCreatedThenId,
    );
    let queued = cache.list_ordered(Some(Status::Open), None, None, IssueOrder::PriorityThenCreatedThenId);
    let done = cache.list_ordered(Some(Status::Closed), None, None, IssueOrder::PriorityThenCreatedThenId);
    push_section(&mut out, "In flight", &in_flight, false);
    push_str(&mut out, "\n");
    push_section(&mut out, "Queued", &queued, false);
    push_str(&mut out, "\n");
    push_section(&mut out, "Done", &done, true);
    assert(out@ =~= backlog(cache@));
    string_of(&out)
}

} // verus!
