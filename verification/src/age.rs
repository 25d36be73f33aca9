//! Ages: how long ago something was, as shown next to a session.

use vstd::prelude::*;

use crate::text;
use crate::text::decimal_of;

verus! {

/// How long ago something was, as coarsely as it is shown.
pub enum Age {
    Now,
    Seconds(nat),
    Minutes(nat),
    Hours(nat),
    Days(nat),
}

/// The age of `then` at the time `now`, both in milliseconds. What lies in
/// the future counts as now.
pub open spec fn age(now: int, then: int) -> Age {
    let secs = crate::chrome::at_least_zero(now - then) / 1000;
    if secs < 5 {
        Age::Now
    } else if secs < 60 {
        Age::Seconds(secs as nat)
    } else if secs < 3600 {
        Age::Minutes((secs / 60) as nat)
    } else if secs < 86400 {
        Age::Hours((secs / 3600) as nat)
    } else {
        Age::Days((secs / 86400) as nat)
    }
}

pub open spec fn age_text(age: Age) -> Seq<char> {
    match age {
        Age::Now => "now"@,
        Age::Seconds(n) => text::decimal(n) + "s"@,
        Age::Minutes(n) => text::decimal(n) + "m"@,
        Age::Hours(n) => text::decimal(n) + "h"@,
        Age::Days(n) => text::decimal(n) + "d"@,
    }
}

fn counted(n: u64, unit: &str) -> (out: String)
    ensures
        out@ == text::decimal(n as nat) + unit@,
{
    let mut out = decimal_of(n);
    out.append(unit);
    out
}

/// Render a unix-ms timestamp as a short relative-to-now string:
/// "now" for the first 5 seconds, then "Ns", "Nm", "Nh", "Nd".
pub fn format_age(now_ms: u64, then_ms: u64) -> (out: String)
    ensures
        out@ == age_text(age(now_ms as int, then_ms as int)),
{
    let elapsed: u64 = if then_ms < now_ms {
        now_ms - then_ms
    } else {
        0
    };
    let secs: u64 = elapsed / 1000;
    if secs < 5 {
        return "now".to_owned();
    }
    if secs < 60 {
        return counted(secs, "s");
    }
    let mins: u64 = secs / 60;
    if mins < 60 {
        return counted(mins, "m");
    }
    let hours: u64 = mins / 60;
    if hours < 24 {
        return counted(hours, "h");
    }
    counted(hours / 24, "d")
}

/// The milliseconds from `then` until its age, `elapsed` milliseconds on,
/// changes.
pub open spec fn next_step(elapsed: int) -> int {
    let secs = elapsed / 1000;
    if secs < 5 {
        5_000
    } else if secs < 60 {
        (secs + 1) * 1000
    } else if secs < 3600 {
        (secs / 60 + 1) * 60_000
    } else if secs < 86400 {
        (secs / 3600 + 1) * 3_600_000
    } else {
        (secs / 86400 + 1) * 86_400_000
    }
}

/// An age stays as it is for exactly that long.
proof fn next_step_changes_age(now: int, then: int)
    ensures
        ({
            let at = then + next_step(crate::chrome::at_least_zero(now - then));
            &&& now < at
            &&& age(at, then) != age(now, then)
            &&& forall|t: int| now <= t < at ==> #[trigger] age(t, then) == age(now, then)
        }),
{
    let elapsed = crate::chrome::at_least_zero(now - then);
    let at = then + next_step(elapsed);
    let secs = elapsed / 1000;
    assert forall|t: int| now <= t < at implies #[trigger] age(t, then) == age(now, then) by {
        let e = crate::chrome::at_least_zero(t - then);
        assert(elapsed <= e < next_step(elapsed));
    }
}

/// How long from `now_ms` until the age of `then_ms` is shown differently.
/// `None` if the clock ends before that.
pub fn age_change_delay(now_ms: u64, then_ms: u64) -> (delay: Option<u64>)
    ensures
        match delay {
            Some(d) => d > 0 && now_ms + d <= u64::MAX && age(now_ms + d, then_ms as int) != age(
                now_ms as int,
                then_ms as int,
            ) && forall|t: int|
                now_ms <= t < now_ms + d ==> #[trigger] age(t, then_ms as int) == age(
                    now_ms as int,
                    then_ms as int,
                ),
            None => forall|t: int|
                now_ms <= t <= u64::MAX ==> #[trigger] age(t, then_ms as int) == age(
                    now_ms as int,
                    then_ms as int,
                ),
        },
{
    let elapsed: u64 = if then_ms < now_ms {
        now_ms - then_ms
    } else {
        0
    };
    let secs: u64 = elapsed / 1000;
    let step: u128 = if secs < 5 {
        5_000
    } else if secs < 60 {
        (secs as u128 + 1) * 1000
    } else if secs < 3600 {
        (secs as u128 / 60 + 1) * 60_000
    } else if secs < 86400 {
        (secs as u128 / 3600 + 1) * 3_600_000
    } else {
        (secs as u128 / 86400 + 1) * 86_400_000
    };
    proof {
        next_step_changes_age(now_ms as int, then_ms as int);
        assert(step == next_step(elapsed as int));
    }
    let at: u128 = then_ms as u128 + step;
    if at <= u64::MAX as u128 {
        Some((at - now_ms as u128) as u64)
    } else {
        None
    }
}

/// The number that a text of digits stands for.
spec fn value_of(digits: Seq<char>) -> int
    decreases digits.len(),
{
    if digits.len() == 0 {
        0
    } else {
        value_of(digits.drop_last()) * 10 + (digits.last() as int - '0' as int)
    }
}

proof fn decimal_has_its_value(n: nat)
    ensures
        value_of(text::decimal(n)) == n,
        text::decimal(n).len() > 0,
    decreases n,
{
    if n < 10 {
        assert(text::decimal(n).drop_last() =~= Seq::empty());
        assert(value_of(Seq::empty()) == 0);
    } else {
        decimal_has_its_value(n / 10);
        assert(text::decimal(n).drop_last() =~= text::decimal(n / 10));
    }
}

proof fn age_ends_in_its_unit(a: Age)
    ensures
        age_text(a).last() == match a {
            Age::Now => 'w',
            Age::Seconds(_) => 's',
            Age::Minutes(_) => 'm',
            Age::Hours(_) => 'h',
            Age::Days(_) => 'd',
        },
{
    reveal_strlit("now");
    reveal_strlit("s");
    reveal_strlit("m");
    reveal_strlit("h");
    reveal_strlit("d");
}

/// Two ages that are shown alike are the same age.
pub proof fn ages_read_differently(a: Age, b: Age)
    requires
        age_text(a) == age_text(b),
    ensures
        a == b,
{
    age_ends_in_its_unit(a);
    age_ends_in_its_unit(b);
    match (a, b) {
        (Age::Seconds(m), Age::Seconds(n)) => {
            same_count(m, n, "s"@);
        },
        (Age::Minutes(m), Age::Minutes(n)) => {
            same_count(m, n, "m"@);
        },
        (Age::Hours(m), Age::Hours(n)) => {
            same_count(m, n, "h"@);
        },
        (Age::Days(m), Age::Days(n)) => {
            same_count(m, n, "d"@);
        },
        _ => {},
    }
}

proof fn same_count(m: nat, n: nat, unit: Seq<char>)
    requires
        text::decimal(m) + unit == text::decimal(n) + unit,
    ensures
        m == n,
{
    let whole = text::decimal(m) + unit;
    let digits = whole.len() - unit.len();
    assert(whole.take(digits) =~= text::decimal(m));
    assert(whole.take(digits) =~= text::decimal(n));
    decimal_has_its_value(m);
    decimal_has_its_value(n);
}

/// An age is shown in the largest unit that it makes up one of, in full units:
/// days, hours, minutes, seconds. Less than five seconds, or a time still to
/// come, is shown as now.
pub proof fn ages_are_in_the_largest_unit(now: int, then: int, n: nat)
    ensures
        ({
            let elapsed = now - then;
            let shown = age_text(age(now, then));
            &&& elapsed < 5_000 ==> shown == "now"@
            &&& 5_000 <= elapsed < 60_000 && n * 1_000 <= elapsed < (n + 1) * 1_000 ==> shown
                == text::decimal(n) + "s"@
            &&& 60_000 <= elapsed < 3_600_000 && n * 60_000 <= elapsed < (n + 1) * 60_000
                ==> shown == text::decimal(n) + "m"@
            &&& 3_600_000 <= elapsed < 86_400_000 && n * 3_600_000 <= elapsed < (n + 1) * 3_600_000
                ==> shown == text::decimal(n) + "h"@
            &&& 86_400_000 <= elapsed && n * 86_400_000 <= elapsed < (n + 1) * 86_400_000
                ==> shown == text::decimal(n) + "d"@
        }),
{
}

}
