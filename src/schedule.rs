use vstd::prelude::*;

use crate::config::ScheduleEntry;
use crate::text::{chars_of, eq_fold, eq_ignore_ascii_case, lemma_eq_fold_sym, lemma_eq_fold_trans};

verus! {

/// Whether `c` is an ASCII decimal digit.
pub open spec fn is_digit(c: char) -> bool {
    48 <= c as u32 && c as u32 <= 57
}

/// A non-empty run of decimal digits.
pub open spec fn all_digits(s: Seq<char>) -> bool {
    &&& s.len() > 0
    &&& forall|i: int| 0 <= i < s.len() ==> #[trigger] is_digit(s[i])
}

/// The number that a run of decimal digits denotes.
pub open spec fn digits_value(s: Seq<char>) -> nat
    decreases s.len(),
{
    if s.len() == 0 {
        0
    } else {
        digits_value(s.drop_last()) * 10 + (s.last() as u32 - 48) as nat
    }
}

/// `s` splits at position `k` into two runs of digits around a colon.
pub open spec fn splits_at(s: Seq<char>, k: int) -> bool {
    &&& 0 <= k < s.len()
    &&& s[k] == ':'
    &&& all_digits(s.take(k))
    &&& all_digits(s.skip(k + 1))
}

/// The minutes since midnight that a time string `HH:MM` denotes, where it is
/// two runs of digits around one colon, with an hour of at most 23 and a
/// minute of at most 59; `None` for any other string.
pub open spec fn time_minutes(s: Seq<char>) -> Option<nat> {
    if exists|k: int| splits_at(s, k) {
        let k = choose|k: int| splits_at(s, k);
        let h = digits_value(s.take(k));
        let m = digits_value(s.skip(k + 1));
        if h <= 23 && m <= 59 {
            Some(h * 60 + m)
        } else {
            None
        }
    } else {
        None
    }
}

/// Some day listed in `days` is `day`, ignoring the case of ASCII letters.
pub open spec fn day_listed(days: Seq<String>, day: Seq<char>) -> bool {
    exists|i: int| 0 <= i < days.len() && #[trigger] eq_fold(days[i]@, day)
}

/// The rule applies on `day` and its well-formed time has come by `now`.
pub open spec fn is_candidate(e: ScheduleEntry, day: Seq<char>, now: nat) -> bool {
    &&& day_listed(e.days@, day)
    &&& time_minutes(e.time@) is Some
    &&& time_minutes(e.time@).unwrap() <= now
}

/// The minutes since midnight at which a rule fires.
pub open spec fn fire_minutes(e: ScheduleEntry) -> nat {
    time_minutes(e.time@).unwrap()
}

/// Rule `i` is the active one: a candidate with the latest firing time, and
/// the first declared among candidates that fire at that time.
pub open spec fn is_active(s: Seq<ScheduleEntry>, day: Seq<char>, now: nat, i: int) -> bool {
    &&& 0 <= i < s.len()
    &&& is_candidate(s[i], day, now)
    &&& forall|j: int|
        0 <= j < s.len() && #[trigger] is_candidate(s[j], day, now) ==> fire_minutes(s[j])
            <= fire_minutes(s[i])
    &&& forall|j: int|
        0 <= j < i && #[trigger] is_candidate(s[j], day, now) ==> fire_minutes(s[j])
            < fire_minutes(s[i])
}

/// A prefix of a run of digits denotes no more than the whole run.
proof fn lemma_digits_value_prefix(s: Seq<char>, n: int)
    requires
        0 <= n <= s.len(),
        forall|i: int| 0 <= i < s.len() ==> #[trigger] is_digit(s[i]),
    ensures
        digits_value(s.take(n)) <= digits_value(s),
    decreases s.len(),
{
    if n == s.len() {
        assert(s.take(n) =~= s);
    } else {
        let t = s.drop_last();
        assert(s.take(n) =~= t.take(n));
        assert forall|i: int| 0 <= i < t.len() implies #[trigger] is_digit(t[i]) by {
            assert(is_digit(s[i]));
        }
        lemma_digits_value_prefix(t, n);
    }
}

/// Reads `c[from..to]` as a decimal number of at most `max`.
fn parse_bounded(c: &Vec<char>, from: usize, to: usize, max: u32) -> (r: Option<u32>)
    requires
        from <= to <= c@.len(),
        max <= 10000,
    ensures
        match r {
            Some(v) => all_digits(c@.subrange(from as int, to as int)) && digits_value(
                c@.subrange(from as int, to as int),
            ) == v as nat && v <= max,
            None => !(all_digits(c@.subrange(from as int, to as int)) && digits_value(
                c@.subrange(from as int, to as int),
            ) <= max),
        },
{
    let ghost sub = c@.subrange(from as int, to as int);
    if from == to {
        return None;
    }
    let mut acc: u32 = 0;
    let mut i: usize = from;
    while i < to
        invariant
            from <= i <= to <= c@.len(),
            sub == c@.subrange(from as int, to as int),
            max <= 10000,
            acc <= max,
            acc as nat == digits_value(c@.subrange(from as int, i as int)),
            forall|j: int| from <= j < i ==> #[trigger] is_digit(c@[j]),
        decreases to - i,
    {
        let ch = c[i];
        let d = ch as u32;
        if d < 48 || d > 57 {
            proof {
                assert(!is_digit(sub[i - from]));
            }
            return None;
        }
        let ghost pre = c@.subrange(from as int, i + 1);
        assert(pre.drop_last() =~= c@.subrange(from as int, i as int));
        let next: u32 = acc * 10 + (d - 48);
        if next > max {
            proof {
                if all_digits(sub) {
                    assert(sub.take(i + 1 - from) =~= pre);
                    lemma_digits_value_prefix(sub, i + 1 - from);
                }
            }
            return None;
        }
        acc = next;
        i += 1;
    }
    assert(c@.subrange(from as int, i as int) =~= sub);
    assert forall|j: int| 0 <= j < sub.len() implies #[trigger] is_digit(sub[j]) by {
        assert(is_digit(c@[from + j]));
    }
    Some(acc)
}

/// Reads a time of day `HH:MM` as minutes since midnight.
pub fn parse_time(s: &str) -> (r: Option<u32>)
    ensures
        match r {
            Some(v) => time_minutes(s@) == Some(v as nat),
            None => time_minutes(s@) is None,
        },
{
    let c = chars_of(s);
    let mut k: usize = 0;
    while k < c.len() && c[k] != ':'
        invariant
            c@ == s@,
            k <= c@.len(),
            forall|j: int| 0 <= j < k ==> c@[j] != ':',
        decreases c@.len() - k,
    {
        k += 1;
    }
    if k == c.len() {
        assert(!exists|k2: int| splits_at(s@, k2));
        return None;
    }
    proof {
        assert(c@.take(k as int) =~= c@.subrange(0, k as int));
        assert(c@.skip(k + 1) =~= c@.subrange(k + 1, c@.len() as int));
        if exists|k2: int| splits_at(s@, k2) {
            let k2 = choose|k2: int| splits_at(s@, k2);
            if k2 > k {
                assert(is_digit(s@.take(k2)[k as int]));
            } else if k2 < k {
                assert(is_digit(s@.skip(k2 + 1)[k - k2 - 1]));
            }
            assert(k2 == k);
        }
    }
    let h = match parse_bounded(&c, 0, k, 23) {
        Some(h) => h,
        None => {
            return None;
        },
    };
    let m = match parse_bounded(&c, k + 1, c.len(), 59) {
        Some(m) => m,
        None => {
            return None;
        },
    };
    assert(splits_at(s@, k as int));
    Some(h * 60 + m)
}

/// Whether `days` lists `day`, ignoring the case of ASCII letters.
pub fn day_matches(days: &Vec<String>, day: &str) -> (r: bool)
    ensures
        r == day_listed(days@, day@),
{
    let mut i: usize = 0;
    while i < days.len()
        invariant
            i <= days@.len(),
            forall|j: int| 0 <= j < i ==> !#[trigger] eq_fold(days@[j]@, day@),
        decreases days@.len() - i,
    {
        if eq_ignore_ascii_case(days[i].as_str(), day) {
            return true;
        }
        i += 1;
    }
    false
}

/// The rule active on `day` at `now_minutes`: of the rules that list `day`
/// and whose well-formed time has come, the one with the latest time, the
/// first declared among equals. `None` where no rule qualifies.
pub fn find_active_entry<'a>(schedule: &'a [ScheduleEntry], day: &str, now_minutes: u32) -> (r:
    Option<&'a ScheduleEntry>)
    ensures
        r is None <==> forall|i: int|
            0 <= i < schedule@.len() ==> !#[trigger] is_candidate(
                schedule@[i],
                day@,
                now_minutes as nat,
            ),
        r matches Some(e) ==> exists|i: int|
            is_active(schedule@, day@, now_minutes as nat, i) && *e == #[trigger] schedule@[i],
{
    let ghost s = schedule@;
    let ghost now = now_minutes as nat;
    let mut best: Option<(usize, u32)> = None;
    let mut i: usize = 0;
    while i < schedule.len()
        invariant
            s == schedule@,
            now == now_minutes as nat,
            i <= s.len(),
            best is None ==> forall|j: int| 0 <= j < i ==> !#[trigger] is_candidate(s[j], day@, now),
            best matches Some(b) ==> {
                &&& b.0 < i
                &&& is_candidate(s[b.0 as int], day@, now)
                &&& fire_minutes(s[b.0 as int]) == b.1 as nat
                &&& forall|j: int|
                    0 <= j < i && #[trigger] is_candidate(s[j], day@, now) ==> fire_minutes(s[j])
                        <= b.1 as nat
                &&& forall|j: int|
                    0 <= j < b.0 && #[trigger] is_candidate(s[j], day@, now) ==> fire_minutes(s[j])
                        < b.1 as nat
            },
        decreases s.len() - i,
    {
        let entry = &schedule[i];
        if day_matches(&entry.days, day) {
            match parse_time(entry.time.as_str()) {
                Some(m) => {
                    if m <= now_minutes {
                        match best {
                            None => {
                                best = Some((i, m));
                            },
                            Some((_, bm)) => {
                                if m > bm {
                                    best = Some((i, m));
                                }
                            },
                        }
                    }
                },
                None => {},
            }
        }
        i += 1;
    }
    match best {
        None => None,
        Some((bi, _)) => {
            assert(is_active(s, day@, now, bi as int));
            Some(&schedule[bi])
        },
    }
}

/// Day matching ignores the case of ASCII letters: two spellings of a day
/// that differ only in case match the same rules.
pub proof fn lemma_day_match_ignores_case(days: Seq<String>, d1: Seq<char>, d2: Seq<char>)
    requires
        eq_fold(d1, d2),
    ensures
        day_listed(days, d1) == day_listed(days, d2),
{
    lemma_eq_fold_sym(d1, d2);
    if day_listed(days, d1) {
        let i = choose|i: int| 0 <= i < days.len() && #[trigger] eq_fold(days[i]@, d1);
        lemma_eq_fold_trans(days[i]@, d1, d2);
    }
    if day_listed(days, d2) {
        let i = choose|i: int| 0 <= i < days.len() && #[trigger] eq_fold(days[i]@, d2);
        lemma_eq_fold_trans(days[i]@, d2, d1);
    }
}

/// A rule whose time string is not a valid `HH:MM` is never the active rule,
/// on any day and at any time.
pub proof fn lemma_malformed_time_never_active(
    s: Seq<ScheduleEntry>,
    day: Seq<char>,
    now: nat,
    i: int,
)
    requires
        0 <= i < s.len(),
        time_minutes(s[i].time@) is None,
    ensures
        !is_active(s, day, now, i),
{
}

/// The active rule lists the queried day and its time is not later than
/// the queried time.
pub proof fn lemma_active_rule_has_fired(s: Seq<ScheduleEntry>, day: Seq<char>, now: nat, i: int)
    requires
        is_active(s, day, now, i),
    ensures
        day_listed(s[i].days@, day),
        time_minutes(s[i].time@) == Some(fire_minutes(s[i])),
        fire_minutes(s[i]) <= now,
{
}

/// Minutes since midnight of the clock time `hour:minute`.
pub fn minutes_of_day(hour: u32, minute: u32) -> (r: u32)
    requires
        hour < 24,
        minute < 60,
    ensures
        r == hour * 60 + minute,
{
    hour * 60 + minute
}

} // verus!
