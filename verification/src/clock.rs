//! The clock producer's fragment and its minute-boundary scheduling.
//!
//! The clock fragment is refreshed so that it ticks over at the start of
//! each minute rather than at fixed intervals from an arbitrary start: after
//! each write the producer sleeps exactly until the next minute boundary.

use vstd::arithmetic::div_mod::lemma_fundamental_div_mod;
use vstd::prelude::*;

verus! {

/// One minute, in milliseconds.
pub const MINUTE_MILLIS: i64 = 60_000;

/// Relies on chrono::Local::now and chrono's format: the current local date
/// rendered as a calendar glyph, weekday, day and month.
#[verifier::external_body]
fn local_date_fragment() -> String {
    format!("{}", chrono::Local::now().format("📆 %a, %d %h"))
}

/// Relies on chrono::Utc::now and chrono's format: the current UTC hour,
/// two digits and a Z.
#[verifier::external_body]
fn utc_hour_fragment() -> String {
    format!("{}", chrono::Utc::now().format("%HZ"))
}

/// Relies on chrono::Local::now and chrono's format: the current local time,
/// hours and minutes.
#[verifier::external_body]
fn local_hm_fragment() -> String {
    format!("{}", chrono::Local::now().format("%R"))
}

/// Relies on chrono::Local::now().timestamp_millis(): milliseconds since the
/// Unix epoch by the local wall clock.
#[verifier::external_body]
fn local_now_millis() -> i64 {
    chrono::Local::now().timestamp_millis()
}

/// How the three time readings combine into the clock fragment.
pub open spec fn time_fragment_spec(date: Seq<char>, utc: Seq<char>, local: Seq<char>) -> Seq<char> {
    date + " 🕓 "@ + utc + " "@ + local
}

/// Combine a date heading, a UTC hour and a local time into the clock
/// fragment.
pub fn time_fragment(date: &str, utc: &str, local: &str) -> (r: String)
    ensures
        r@ == time_fragment_spec(date@, utc@, local@),
{
    let mut r = String::from_str(date);
    r.append(" 🕓 ");
    r.append(utc);
    r.append(" ");
    r.append(local);
    proof {
        assert(r@ =~= time_fragment_spec(date@, utc@, local@));
    }
    r
}

/// Whether an instant, in milliseconds since the epoch, is the start of a
/// minute.
pub open spec fn is_minute_boundary(b: int) -> bool {
    b % (MINUTE_MILLIS as int) == 0
}

/// The delay from `now_ts` (milliseconds since the epoch) until the next
/// strict minute boundary: at least one millisecond, at most a full minute,
/// and no multiple of a minute lies strictly between `now_ts` and the moment
/// it names.
pub fn millis_until_next_minute(now_ts: i64) -> (r: u64)
    requires
        0 <= now_ts,
        now_ts + MINUTE_MILLIS <= i64::MAX,
    ensures
        1 <= r <= MINUTE_MILLIS,
        is_minute_boundary(now_ts + r),
        forall|b: int| #[trigger] is_minute_boundary(b) && b > now_ts ==> b >= now_ts + r,
{
    let rem: i64 = now_ts % MINUTE_MILLIS;
    let r: i64 = MINUTE_MILLIS - rem;
    proof {
        lemma_fundamental_div_mod(now_ts as int, MINUTE_MILLIS as int);
        assert((now_ts + r) % (MINUTE_MILLIS as int) == 0) by {
            let k = now_ts as int / (MINUTE_MILLIS as int);
            assert(now_ts + r == (MINUTE_MILLIS as int) * (k + 1));
            vstd::arithmetic::div_mod::lemma_mod_multiples_basic(k + 1, MINUTE_MILLIS as int);
        }
        assert forall|b: int| #[trigger] is_minute_boundary(b) && b > now_ts implies b >= now_ts
            + r by {
            lemma_fundamental_div_mod(b, MINUTE_MILLIS as int);
            let j = b / (MINUTE_MILLIS as int);
            let k = now_ts as int / (MINUTE_MILLIS as int);
            assert(b == (MINUTE_MILLIS as int) * j);
            assert(now_ts == (MINUTE_MILLIS as int) * k + rem);
            if j <= k {
                assert(b <= now_ts);
            }
        }
    }
    r as u64
}

/// One iteration of the clock producer: the freshly formatted time fragment,
/// the wall-clock reading it was made at (milliseconds since the epoch), and
/// the sleep, in milliseconds, that lands the next iteration exactly on the
/// minute boundary after that reading.  Only a wall clock outside any sane
/// range (before the epoch, or within a minute of overflowing) falls back to
/// a full minute.
pub fn clock_step() -> (r: (String, i64, u64))
    ensures
        exists|date: Seq<char>, utc: Seq<char>, local: Seq<char>|
            r.0@ == time_fragment_spec(date, utc, local),
        1 <= r.2 <= MINUTE_MILLIS,
        0 <= r.1 && r.1 + MINUTE_MILLIS <= i64::MAX ==> is_minute_boundary(r.1 + r.2),
        0 <= r.1 && r.1 + MINUTE_MILLIS <= i64::MAX ==> (forall|b: int|
            #[trigger] is_minute_boundary(b) && b > r.1 ==> b >= r.1 + r.2),
        !(0 <= r.1 && r.1 + MINUTE_MILLIS <= i64::MAX) ==> r.2 == MINUTE_MILLIS,
{
    let date = local_date_fragment();
    let utc = utc_hour_fragment();
    let local = local_hm_fragment();
    let fragment = time_fragment(date.as_str(), utc.as_str(), local.as_str());
    let now = local_now_millis();
    let sleep: u64 = if 0 <= now && now <= i64::MAX - MINUTE_MILLIS {
        millis_until_next_minute(now)
    } else {
        MINUTE_MILLIS as u64
    };
    proof {
        assert(fragment@ == time_fragment_spec(date@, utc@, local@));
    }
    (fragment, now, sleep)
}

} // verus!
