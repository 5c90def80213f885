//! Commit activity over a time window: commits per day (or per week, or per
//! longer period), per hour of the day and per weekday.
use vstd::prelude::*;
use chrono::{Datelike, TimeZone, Timelike};
use crate::git::{lit, strings_view, SHAPED_MAX_TS, SHAPED_MIN_TS};
use crate::text::{chars_of, concat, decimal, decimal_chars, filter_map, lemma_filter_map_all, lemma_filter_map_take, lines_seq, lines_str, parse_i64, parse_i64_exec, string_of, trim, trim_vec, vviews};

verus! {

/// Commits per period, oldest period first, with each period's label.
#[derive(Clone, Debug, PartialEq, Eq, Default)]
pub struct DailyActivity {
    pub dates: Vec<String>,
    pub counts: Vec<usize>,
}

#[derive(Clone, Debug, PartialEq, Eq, Default)]
pub struct Activity {
    pub daily: DailyActivity,
    /// Commits per hour of the day (24 entries).
    pub hourly: Vec<usize>,
    /// Commits per weekday, Sunday first (7 entries).
    pub weekly: Vec<usize>,
}

/// A commit time in the local time zone: the day (days from the common era,
/// 0001-01-01 being day 1), the hour and the weekday (0 = Sunday).
#[derive(Clone, Copy, Debug, PartialEq, Eq, Structural)]
pub struct LocalStamp {
    pub day: i32,
    pub hour: u32,
    pub weekday: u32,
}

/// The first day of chrono's calendar (`NaiveDate::MIN`), as a day number.
pub const MIN_DAY: i32 = -95746129;

/// The last day of chrono's calendar (`NaiveDate::MAX`), as a day number.
pub const MAX_DAY: i32 = 95745399;

/// The label that chrono writes for a day with a format pattern.
pub uninterp spec fn day_label(day: int, pattern: Seq<char>) -> Seq<char>;

/// The pattern of the bucket labels: `yy/mm` for a long window, `mm/dd`
/// otherwise.
pub open spec fn label_pattern(year_month: bool) -> Seq<char> {
    if year_month {
        "%y/%m"@
    } else {
        "%m/%d"@
    }
}

/// Formats a day number with chrono (`NaiveDate::from_num_days_from_ce_opt`,
/// then `format(pattern)`); the text is named by `day_label`. The day is
/// inside chrono's calendar, so the date exists, and the pattern is one of
/// the two label patterns, whose specifiers a date fills (chrono's writing
/// fails, and `to_string` panics, on a specifier a date cannot fill).
#[verifier::external_body]
fn format_day(day: i32, pattern: &str) -> (r: String)
    requires
        MIN_DAY <= day <= MAX_DAY,
        pattern@ == label_pattern(true) || pattern@ == label_pattern(false),
    ensures
        r@ == day_label(day as int, pattern@),
{
    chrono::NaiveDate::from_num_days_from_ce_opt(day).unwrap().format(pattern).to_string()
}

/// Whether a stamp is the day, hour and weekday of the moment `t` seconds
/// after 1970-01-01T00:00:00: the day counted as chrono counts days of the
/// common era (0001-01-01 is day 1, so 1970-01-01 is day 719163), the
/// weekday as days from Sunday (1970-01-01 was a Thursday).
pub open spec fn stamp_at(s: LocalStamp, t: int) -> bool {
    &&& s.day == t / 86400 + 719163
    &&& s.hour == t % 86400 / 3600
    &&& s.weekday == (t / 86400 + 4) % 7
}

/// Whether a stamp is that of the timestamp `ts` shifted by `o` seconds.
pub open spec fn stamp_shifted(s: LocalStamp, ts: int, o: int) -> bool {
    stamp_at(s, ts + o)
}

/// Whether a stamp is that of the timestamp `ts` shifted by some offset of
/// less than a day either way.
pub open spec fn local_stamp_of(s: LocalStamp, ts: int) -> bool {
    exists|o: int| -86400 < o < 86400 && #[trigger] stamp_shifted(s, ts, o)
}

/// The local day, hour and weekday of a Unix timestamp, from chrono
/// (`Utc.timestamp_opt(ts, 0).single()`, converted to `Local`, the local
/// date and time taken with `checked_add_offset`); `None` when chrono has no
/// single datetime for it or the local time falls outside chrono's
/// calendar. It depends on the machine's time zone, so only the ranges of
/// the hour, weekday and day are stated; chrono's zone lookup takes the
/// zone data to be well formed (offsets under a day). Between
/// `SHAPED_MIN_TS` and `SHAPED_MAX_TS` chrono has the UTC datetime, and with
/// an offset under a day the local one lies in years 0 to 9999, inside its
/// calendar, so there the stamp exists. A stamp is that of `ts` shifted by
/// the zone's offset at that moment, a whole number of seconds under a day
/// either way (which offset, the machine's zone decides).
#[verifier::external_body]
pub fn local_stamp(ts: i64) -> (r: Option<LocalStamp>)
    ensures
        r matches Some(s) ==> s.hour < 24 && s.weekday < 7 && MIN_DAY <= s.day <= MAX_DAY
            && local_stamp_of(s, ts as int),
        SHAPED_MIN_TS <= ts <= SHAPED_MAX_TS ==> r is Some,
{
    let local = chrono::Utc.timestamp_opt(ts, 0).single()?.with_timezone(&chrono::Local);
    match local.naive_utc().checked_add_offset(chrono::Offset::fix(local.offset())) {
        Some(n) => Some(
            LocalStamp { day: n.date().num_days_from_ce(), hour: n.hour(), weekday: n.weekday().num_days_from_sunday() },
        ),
        None => None,
    }
}

// ---------------------------------------------------------------------------
// Window and buckets

/// The largest `today - day` over the stamps, if any.
pub open spec fn max_ago(stamps: Seq<Option<LocalStamp>>, today: int) -> Option<int>
    decreases stamps.len(),
{
    if stamps.len() == 0 {
        None
    } else {
        let prev = max_ago(stamps.drop_last(), today);
        match stamps.last() {
            Some(s) => {
                let a = today - s.day;
                match prev {
                    Some(p) => if p >= a {
                        Some(p)
                    } else {
                        Some(a)
                    },
                    None => Some(a),
                }
            },
            None => prev,
        }
    }
}

/// The window in days: `days`, or with `days == 0` the whole history (the
/// oldest commit's age plus one); at least one.
pub open spec fn span_of(stamps: Seq<Option<LocalStamp>>, days: usize, today: int) -> int {
    let raw: int = if days > 0 {
        (days as i64) as int
    } else {
        match max_ago(stamps, today) {
            Some(m) => m + 1,
            None => 1,
        }
    };
    if raw < 1 {
        1
    } else {
        raw
    }
}

/// Days per bucket: one day up to about six weeks, a week up to about seven
/// months, then a 31st of the window (rounded up).
pub open spec fn bucket_days(span: int) -> int {
    if span <= 45 {
        1
    } else if span <= 217 {
        7
    } else {
        (span + 30) / 31
    }
}

pub open spec fn num_buckets(span: int) -> int {
    let b = bucket_days(span);
    let n = (span + b - 1) / b;
    if n < 1 {
        1
    } else {
        n
    }
}

/// The first day of the `k`-th bucket, oldest first.
pub open spec fn bucket_start(today: int, span: int, k: int) -> int {
    today - ((num_buckets(span) - k) * bucket_days(span) - 1)
}

/// Whether a stamp falls inside the window.
pub open spec fn in_window(o: Option<LocalStamp>, today: int, span: int) -> bool {
    o matches Some(s) && 0 <= today - s.day < span
}

/// Stamps inside the window that satisfy `f`.
pub open spec fn count_where(
    stamps: Seq<Option<LocalStamp>>,
    today: int,
    span: int,
    f: spec_fn(LocalStamp) -> bool,
) -> nat
    decreases stamps.len(),
{
    if stamps.len() == 0 {
        0
    } else {
        count_where(stamps.drop_last(), today, span, f) + (if in_window(stamps.last(), today, span)
            && f(stamps.last()->0) {
            1nat
        } else {
            0nat
        })
    }
}

/// The largest window for which every bucket start can lie in chrono's
/// calendar.
pub open spec fn span_limit() -> int {
    MAX_DAY - MIN_DAY + 2
}

/// Whether the bucket labels can be written: the window is not absurdly
/// large and every bucket's first day lies in chrono's calendar (where the
/// labels could not be written, the window computation would overflow or
/// the date arithmetic would panic).
pub open spec fn labels_in_range(stamps: Seq<Option<LocalStamp>>, days: usize, today: int) -> bool {
    let span = span_of(stamps, days, today);
    span <= span_limit() && forall|k: int|
        0 <= k < num_buckets(span) ==> MIN_DAY <= #[trigger] bucket_start(today, span, k) <= MAX_DAY
}

pub open spec fn sum_of(s: Seq<usize>) -> int
    decreases s.len(),
{
    if s.len() == 0 {
        0
    } else {
        sum_of(s.drop_last()) + s.last()
    }
}

pub open spec fn hour_is(h: int) -> spec_fn(LocalStamp) -> bool {
    |s: LocalStamp| s.hour == h
}

pub open spec fn weekday_is(w: int) -> spec_fn(LocalStamp) -> bool {
    |s: LocalStamp| s.weekday == w
}

/// Stamps whose age falls in bucket `b` (0 = newest).
pub open spec fn bucket_is(today: int, bucket: int, b: int) -> spec_fn(LocalStamp) -> bool {
    |s: LocalStamp| (today - s.day) / bucket == b
}

pub open spec fn hour_valid() -> spec_fn(LocalStamp) -> bool {
    |s: LocalStamp| s.hour < 24
}

pub open spec fn weekday_valid() -> spec_fn(LocalStamp) -> bool {
    |s: LocalStamp| s.weekday < 7
}

pub open spec fn any_stamp() -> spec_fn(LocalStamp) -> bool {
    |s: LocalStamp| true
}

proof fn lemma_sum_bump(s: Seq<usize>, k: int)
    requires
        0 <= k < s.len(),
        s[k] < usize::MAX,
    ensures
        sum_of(s.update(k, (s[k] + 1) as usize)) == sum_of(s) + 1,
    decreases s.len(),
{
    let u = s.update(k, (s[k] + 1) as usize);
    if k == s.len() - 1 {
        assert(u.drop_last() =~= s.drop_last());
    } else {
        assert(u.drop_last() =~= s.drop_last().update(k, (s[k] + 1) as usize));
        lemma_sum_bump(s.drop_last(), k);
    }
}

proof fn lemma_sum_zeros(s: Seq<usize>)
    requires
        forall|i: int| 0 <= i < s.len() ==> s[i] == 0,
    ensures
        sum_of(s) == 0,
    decreases s.len(),
{
    if s.len() > 0 {
        lemma_sum_zeros(s.drop_last());
    }
}

fn zeros(n: usize) -> (v: Vec<usize>)
    ensures
        v@.len() == n,
        forall|i: int| 0 <= i < n ==> v@[i] == 0,
        sum_of(v@) == 0,
{
    let mut v = Vec::new();
    let mut i: usize = 0;
    while i < n
        invariant
            i <= n,
            v@.len() == i,
            forall|j: int| 0 <= j < i ==> v@[j] == 0,
        decreases n - i,
    {
        v.push(0);
        i = i + 1;
    }
    proof {
        lemma_sum_zeros(v@);
    }
    v
}

proof fn lemma_buckets_bound(span: int)
    requires
        1 <= span <= span_limit(),
    ensures
        1 <= bucket_days(span) <= span,
        1 <= num_buckets(span),
        num_buckets(span) * bucket_days(span) <= span + bucket_days(span) - 1,
        num_buckets(span) <= span,
        (num_buckets(span) - 1) * bucket_days(span) < span,
        num_buckets(span) * bucket_days(span) >= span,
{
    let b = bucket_days(span);
    let n = (span + b - 1) / b;
    assert(n >= 1) by (nonlinear_arith)
        requires
            span >= 1,
            b >= 1,
            n == (span + b - 1) / b,
    ;
    assert(n * b <= span + b - 1) by (nonlinear_arith)
        requires
            b >= 1,
            n == (span + b - 1) / b,
            span + b - 1 >= 0,
    ;
    assert((n - 1) * b < span) by (nonlinear_arith)
        requires
            b >= 1,
            n * b <= span + b - 1,
    ;
    assert(n * b >= span) by (nonlinear_arith)
        requires
            b >= 1,
            n == (span + b - 1) / b,
            span >= 1,
    ;
    assert(n <= span) by (nonlinear_arith)
        requires
            b >= 1,
            n * b <= span + b - 1,
            n >= 1,
            span >= 1,
    ;
}

/// What the activity of the stamps over the window is: `None` exactly
/// when the bucket labels cannot be written, else the labels and the
/// counts of every bucket, hour and weekday within the window.
pub open spec fn activity_of(stamps: Seq<Option<LocalStamp>>, days: usize, today: i32, r: Option<Activity>) -> bool {
    &&& (r is Some <==> labels_in_range(stamps, days, today as int))
    &&& (r matches Some(a) ==> ({
        let span = span_of(stamps, days, today as int);
        let nb = num_buckets(span);
        let bd = bucket_days(span);
        &&& a.daily.dates@.len() == nb
        &&& a.daily.counts@.len() == nb
        &&& forall|k: int| 0 <= k < nb ==> #[trigger] a.daily.dates@[k]@ == day_label(
            bucket_start(today as int, span, k),
            label_pattern(span > 366),
        )
        &&& forall|k: int| 0 <= k < nb ==> #[trigger] a.daily.counts@[k] == count_where(
            stamps,
            today as int,
            span,
            bucket_is(today as int, bd, nb - 1 - k),
        )
        &&& a.hourly@.len() == 24
        &&& a.weekly@.len() == 7
        &&& forall|h: int| 0 <= h < 24 ==> #[trigger] a.hourly@[h] == count_where(
            stamps,
            today as int,
            span,
            hour_is(h),
        )
        &&& forall|w: int| 0 <= w < 7 ==> #[trigger] a.weekly@[w] == count_where(
            stamps,
            today as int,
            span,
            weekday_is(w),
        )
        &&& sum_of(a.hourly@) == count_where(stamps, today as int, span, hour_valid())
        &&& sum_of(a.weekly@) == count_where(stamps, today as int, span, weekday_valid())
        &&& sum_of(a.daily.counts@) == count_where(stamps, today as int, span, any_stamp())
    }))
}

/// The activity of the stamps over the window: `None` exactly when the
/// bucket labels cannot be written (see `labels_in_range`).
pub fn bucket_activity(stamps: &Vec<Option<LocalStamp>>, days: usize, today: i32) -> (r: Option<Activity>)
    ensures
        activity_of(stamps@, days, today, r),
{
    let ghost st = stamps@;
    let ghost td = today as int;
    // the window
    let mut raw: i64 = 0;
    if days > 0 {
        raw = days as i64;
    } else {
        let mut m: Option<i64> = None;
        let mut i: usize = 0;
        while i < stamps.len()
            invariant
                i <= stamps.len(),
                st == stamps@,
                td == today as int,
                match m {
                    Some(x) => max_ago(st.take(i as int), td) == Some(x as int),
                    None => max_ago(st.take(i as int), td) is None,
                },
                m matches Some(x) ==> -0x1_0000_0000 <= x <= 0x1_0000_0000,
            decreases stamps.len() - i,
        {
            proof {
                assert(st.take(i + 1).drop_last() =~= st.take(i as int));
                assert(st.take(i + 1).last() == st[i as int]);
            }
            match stamps[i] {
                Some(s) => {
                    let a = today as i64 - s.day as i64;
                    m = match m {
                        Some(p) => if p >= a {
                            Some(p)
                        } else {
                            Some(a)
                        },
                        None => Some(a),
                    };
                },
                None => {},
            }
            i = i + 1;
        }
        assert(st.take(stamps.len() as int) =~= st);
        raw = match m {
            Some(x) => x + 1,
            None => 1,
        };
    }
    let span: i64 = if raw < 1 { 1 } else { raw };
    assert(span == span_of(st, days, td));
    if span > 191491530 {
        return None;
    }
    proof {
        lemma_buckets_bound(span as int);
    }
    let bucket: i64 = if span <= 45 {
        1
    } else if span <= 217 {
        7
    } else {
        (span + 30) / 31
    };
    let q = (span + bucket - 1) / bucket;
    let nb: i64 = if q < 1 { 1 } else { q };
    assert(bucket == bucket_days(span as int));
    assert(nb == num_buckets(span as int));
    // the labels, oldest bucket first
    let year_month = span > 366;
    let pattern = if year_month { "%y/%m" } else { "%m/%d" };
    let mut dates: Vec<String> = Vec::new();
    let mut k: i64 = 0;
    while k < nb
        invariant
            0 <= k <= nb,
            nb == num_buckets(span as int),
            bucket == bucket_days(span as int),
            1 <= span <= span_limit(),
            nb * bucket <= span + bucket - 1,
            1 <= bucket <= span,
            year_month == (span > 366),
            pattern@ == label_pattern(year_month),
            td == today as int,
            st == stamps@,
            span == span_of(st, days, td),
            dates@.len() == k,
            forall|j: int| 0 <= j < k ==> MIN_DAY <= #[trigger] bucket_start(td, span as int, j) <= MAX_DAY,
            forall|j: int| 0 <= j < k ==> #[trigger] dates@[j]@ == day_label(
                bucket_start(td, span as int, j),
                label_pattern(year_month),
            ),
        decreases nb - k,
    {
        assert((nb - k) * bucket <= nb * bucket) by (nonlinear_arith)
            requires
                0 <= k < nb,
                bucket >= 1,
        ;
        assert((nb - k) * bucket >= 1) by (nonlinear_arith)
            requires
                0 <= k < nb,
                bucket >= 1,
        ;
        let start: i64 = today as i64 - ((nb - k) * bucket - 1);
        assert(start == bucket_start(td, span as int, k as int));
        if start < MIN_DAY as i64 || start > MAX_DAY as i64 {
            proof {
                assert(!(MIN_DAY <= bucket_start(td, span as int, k as int) <= MAX_DAY));
                assert(!labels_in_range(st, days, td));
            }
            return None;
        }
        dates.push(format_day(start as i32, pattern));
        k = k + 1;
    }
    assert(labels_in_range(st, days, td));
    // the counts
    let mut hourly = zeros(24);
    let mut weekly = zeros(7);
    let mut counts = zeros(nb as usize);
    let ghost bd = bucket as int;
    let ghost nbi = nb as int;
    let ghost sp = span as int;
    let mut i: usize = 0;
    assert(st.take(0) =~= Seq::<Option<LocalStamp>>::empty());
    while i < stamps.len()
        invariant
            i <= stamps.len(),
            st == stamps@,
            td == today as int,
            sp == span,
            bd == bucket,
            nbi == nb,
            1 <= span <= span_limit(),
            1 <= bucket,
            nb * bucket <= span + bucket - 1,
            (nb - 1) * bucket < span,
            nb * bucket >= span,
            1 <= nb <= span,
            hourly@.len() == 24,
            weekly@.len() == 7,
            counts@.len() == nb,
            forall|h: int| 0 <= h < 24 ==> #[trigger] hourly@[h] == count_where(
                st.take(i as int),
                td,
                sp,
                hour_is(h),
            ),
            forall|w: int| 0 <= w < 7 ==> #[trigger] weekly@[w] == count_where(
                st.take(i as int),
                td,
                sp,
                weekday_is(w),
            ),
            forall|k: int| 0 <= k < nbi ==> #[trigger] counts@[k] == count_where(
                st.take(i as int),
                td,
                sp,
                bucket_is(td, bd, nbi - 1 - k),
            ),
            sum_of(hourly@) == count_where(st.take(i as int), td, sp, hour_valid()),
            sum_of(weekly@) == count_where(st.take(i as int), td, sp, weekday_valid()),
            sum_of(counts@) == count_where(st.take(i as int), td, sp, any_stamp()),
            sum_of(counts@) <= i,
            forall|h: int| 0 <= h < 24 ==> #[trigger] hourly@[h] <= i,
            forall|w: int| 0 <= w < 7 ==> #[trigger] weekly@[w] <= i,
            forall|k: int| 0 <= k < nbi ==> #[trigger] counts@[k] <= i,
        decreases stamps.len() - i,
    {
        let ghost t1 = st.take(i + 1);
        proof {
            assert(t1.drop_last() =~= st.take(i as int));
            assert(t1.last() == st[i as int]);
        }
        match stamps[i] {
            Some(s) => {
                let ago: i64 = today as i64 - s.day as i64;
                if ago >= 0 && ago < span {
                    let ghost h0 = hourly@;
                    let ghost w0 = weekly@;
                    let ghost c0 = counts@;
                    if s.hour < 24 {
                        let hi = s.hour as usize;
                        let v = hourly[hi] + 1;
                        hourly.set(hi, v);
                        proof {
                            lemma_sum_bump(h0, hi as int);
                        }
                    }
                    if s.weekday < 7 {
                        let wi = s.weekday as usize;
                        let v = weekly[wi] + 1;
                        weekly.set(wi, v);
                        proof {
                            lemma_sum_bump(w0, wi as int);
                        }
                    }
                    let b = ago / bucket;
                    assert(b < nb) by (nonlinear_arith)
                        requires
                            0 <= ago < span,
                            bucket >= 1,
                            b == ago / bucket,
                            nb * bucket >= span,
                    ;
                    assert(b == (td - s.day) / bd);
                    assert(b >= 0) by (nonlinear_arith)
                        requires
                            ago >= 0,
                            bucket >= 1,
                            b == ago / bucket,
                    ;
                    let ci = (nb - 1 - b) as usize;
                    assert(ci as int == nbi - 1 - b);
                    assert(in_window(t1.last(), td, sp));
                    assert(t1.last()->0 == s);
                    let v = counts[ci] + 1;
                    counts.set(ci, v);
                    proof {
                        lemma_sum_bump(c0, ci as int);
                        assert forall|k: int| 0 <= k < nbi implies #[trigger] counts@[k] == count_where(
                            t1,
                            td,
                            sp,
                            bucket_is(td, bd, nbi - 1 - k),
                        ) by {
                            assert(bucket_is(td, bd, nbi - 1 - k)(s) == ((td - s.day) / bd == nbi - 1 - k));
                        }
                    }
                }
            },
            None => {},
        }
        i = i + 1;
    }
    assert(st.take(stamps.len() as int) =~= st);
    Some(Activity { daily: DailyActivity { dates, counts }, hourly, weekly })
}


proof fn lemma_count_all_valid(stamps: Seq<Option<LocalStamp>>, today: int, span: int, f: spec_fn(LocalStamp) -> bool)
    requires
        forall|i: int| 0 <= i < stamps.len() ==> (#[trigger] stamps[i] matches Some(s) ==> f(s)),
    ensures
        count_where(stamps, today, span, f) == count_where(stamps, today, span, any_stamp()),
        count_where(stamps, today, span, f) <= stamps.len(),
    decreases stamps.len(),
{
    if stamps.len() > 0 {
        assert forall|i: int| 0 <= i < stamps.drop_last().len() implies (#[trigger] stamps.drop_last()[i] matches Some(s) ==> f(s)) by {
            assert(stamps.drop_last()[i] == stamps[i]);
        }
        lemma_count_all_valid(stamps.drop_last(), today, span, f);
        assert(stamps.last() == stamps[stamps.len() - 1]);
    }
}

/// Local stamps that chrono may give for the timestamps, one each: none,
/// or the day, hour and weekday of that timestamp shifted by some offset
/// under a day (each in range), and never none for a timestamp between
/// `SHAPED_MIN_TS` and `SHAPED_MAX_TS`.
pub open spec fn stamps_for(timestamps: Seq<i64>, stamps: Seq<Option<LocalStamp>>) -> bool {
    &&& stamps.len() == timestamps.len()
    &&& forall|i: int| 0 <= i < stamps.len() ==> (#[trigger] stamps[i] matches Some(s) ==> s.hour < 24
        && s.weekday < 7 && MIN_DAY <= s.day <= MAX_DAY)
    &&& forall|i: int| 0 <= i < stamps.len() && SHAPED_MIN_TS <= #[trigger] timestamps[i] <= SHAPED_MAX_TS
        ==> stamps[i] is Some
    &&& forall|i: int| 0 <= i < stamps.len() ==> (#[trigger] stamps[i] matches Some(s) ==> local_stamp_of(
        s,
        timestamps[i] as int,
    ))
}

/// Commit activity of the given Unix timestamps over the last `days` days
/// (`0`: the whole history) up to the day `today` (a day number): `None`
/// exactly where a bucket's first day falls outside chrono's calendar.
/// Every commit inside the window is counted once per hour, once per
/// weekday and once per bucket.
pub fn build_activity(timestamps: &Vec<i64>, days: usize, today: i32) -> (r: Option<Activity>)
    ensures
        exists|st: Seq<Option<LocalStamp>>| stamps_for(timestamps@, st) && #[trigger] activity_of(st, days, today, r),
        days > 0 ==> (r is Some <==> labels_in_range(Seq::empty(), days, today as int)),
        days == 0 && timestamps@.len() == 0 ==> (r is Some <==> labels_in_range(Seq::empty(), days, today as int)),
        r matches Some(a) ==> {
            &&& a.hourly@.len() == 24
            &&& a.weekly@.len() == 7
            &&& a.daily.dates@.len() == a.daily.counts@.len()
            &&& days > 0 ==> a.daily.counts@.len() == num_buckets(span_of(Seq::empty(), days, today as int))
            &&& sum_of(a.hourly@) == sum_of(a.weekly@)
            &&& sum_of(a.weekly@) == sum_of(a.daily.counts@)
            &&& sum_of(a.daily.counts@) <= timestamps@.len()
        },
{
    let mut stamps: Vec<Option<LocalStamp>> = Vec::new();
    let mut i: usize = 0;
    while i < timestamps.len()
        invariant
            i <= timestamps.len(),
            stamps@.len() == i,
            forall|j: int| 0 <= j < i ==> (#[trigger] stamps@[j] matches Some(s) ==> s.hour < 24 && s.weekday < 7
                && MIN_DAY <= s.day <= MAX_DAY),
            forall|j: int| 0 <= j < i && SHAPED_MIN_TS <= #[trigger] timestamps@[j] <= SHAPED_MAX_TS ==> stamps@[j] is Some,
            forall|j: int| 0 <= j < i ==> (#[trigger] stamps@[j] matches Some(s) ==> local_stamp_of(s, timestamps@[j] as int)),
        decreases timestamps.len() - i,
    {
        stamps.push(local_stamp(timestamps[i]));
        i = i + 1;
    }
    let ghost st = stamps@;
    proof {
        if days > 0 {
            assert(span_of(st, days, today as int) == span_of(Seq::empty(), days, today as int));
        }
        if timestamps@.len() == 0 {
            assert(st =~= Seq::<Option<LocalStamp>>::empty());
        }
    }
    let r = bucket_activity(&stamps, days, today);
    proof {
        let span = span_of(st, days, today as int);
        lemma_count_all_valid(st, today as int, span, hour_valid());
        lemma_count_all_valid(st, today as int, span, weekday_valid());
        lemma_count_all_valid(st, today as int, span, any_stamp());
        assert(stamps_for(timestamps@, st));
        assert(activity_of(st, days, today, r));
    }
    r
}


// ---------------------------------------------------------------------------
// From the log command

/// The arguments of the commit-time log command: the whole history, or the
/// last `days` days.
pub fn activity_args(days: usize) -> (r: Vec<String>)
    ensures
        days == 0 ==> strings_view(r@) == seq!["log"@, "--format=%at"@],
        days > 0 ==> strings_view(r@) == seq!["log"@, "--format=%at"@, "--since="@ + decimal(days as nat) + " days ago"@],
{
    let mut r: Vec<String> = Vec::new();
    r.push(lit("log"));
    r.push(lit("--format=%at"));
    if days > 0 {
        let pre = chars_of("--since=");
        let num = decimal_chars(days as u64);
        let post = chars_of(" days ago");
        let a = concat(&pre, &num);
        let b = concat(&a, &post);
        r.push(string_of(&b));
        assert(strings_view(r@) =~= seq!["log"@, "--format=%at"@, "--since="@ + decimal(days as nat) + " days ago"@]);
    } else {
        assert(strings_view(r@) =~= seq!["log"@, "--format=%at"@]);
    }
    r
}

/// The commit times of a log listing: every line that is a number once
/// trimmed.
pub open spec fn log_times(log: Seq<char>) -> Seq<i64> {
    filter_map(lines_seq(log), |l: Seq<char>| parse_i64(trim(l)))
}

pub fn log_timestamps(log: &str) -> (r: Vec<i64>)
    ensures
        r@ == log_times(log@),
{
    let lines = lines_str(log);
    let ghost ls = vviews(lines@);
    let ghost f = |l: Seq<char>| parse_i64(trim(l));
    let mut r: Vec<i64> = Vec::new();
    let mut i: usize = 0;
    while i < lines.len()
        invariant
            i <= lines@.len(),
            ls == vviews(lines@),
            f == (|l: Seq<char>| parse_i64(trim(l))),
            r@ == filter_map(ls.take(i as int), f),
        decreases lines.len() - i,
    {
        proof {
            lemma_filter_map_take(ls, f, i as int);
            assert(ls[i as int] == lines@[i as int]@);
        }
        match parse_i64_exec(&trim_vec(&lines[i])) {
            Some(t) => {
                r.push(t);
            },
            None => {},
        }
        i = i + 1;
    }
    proof {
        lemma_filter_map_all(ls, f);
    }
    r
}

/// No activity: no periods, and zero commits in each of the 24 hours and 7
/// weekdays.
pub fn empty_activity() -> (r: Activity)
    ensures
        r.daily.dates@.len() == 0,
        r.daily.counts@.len() == 0,
        r.hourly@ == Seq::new(24, |i: int| 0usize),
        r.weekly@ == Seq::new(7, |i: int| 0usize),
{
    let mut hourly: Vec<usize> = Vec::new();
    let mut i: usize = 0;
    while i < 24
        invariant
            i <= 24,
            hourly@ == Seq::new(i as nat, |k: int| 0usize),
        decreases 24 - i,
    {
        hourly.push(0);
        i = i + 1;
        assert(hourly@ =~= Seq::new(i as nat, |k: int| 0usize));
    }
    let mut weekly: Vec<usize> = Vec::new();
    let mut j: usize = 0;
    while j < 7
        invariant
            j <= 7,
            weekly@ == Seq::new(j as nat, |k: int| 0usize),
        decreases 7 - j,
    {
        weekly.push(0);
        j = j + 1;
        assert(weekly@ =~= Seq::new(j as nat, |k: int| 0usize));
    }
    Activity { daily: DailyActivity { dates: Vec::new(), counts: Vec::new() }, hourly, weekly }
}

/// The activity from the result of the commit-time log command (a failed
/// run, as in a repository without commits, gives no activity) over the
/// last `days` days (0: all) up to the day `today` (see `build_activity`).
pub fn get_activity(output: Result<String, String>, days: usize, today: i32) -> (r: Option<Activity>)
    ensures
        output is Err ==> (r matches Some(a) && a.daily.counts@.len() == 0 && a.daily.dates@.len() == 0
            && a.hourly@ == Seq::new(24, |i: int| 0usize) && a.weekly@ == Seq::new(7, |i: int| 0usize)),
        output is Ok && days > 0 ==> (r is Some <==> labels_in_range(Seq::empty(), days, today as int)),
        output matches Ok(o) && days == 0 && log_times(o@).len() == 0 ==> (r is Some <==> labels_in_range(
            Seq::empty(),
            days,
            today as int,
        )),
        output matches Ok(o) ==> (r matches Some(a) ==> {
            &&& a.hourly@.len() == 24
            &&& a.weekly@.len() == 7
            &&& a.daily.dates@.len() == a.daily.counts@.len()
            &&& sum_of(a.hourly@) == sum_of(a.weekly@)
            &&& sum_of(a.weekly@) == sum_of(a.daily.counts@)
            &&& sum_of(a.daily.counts@) <= log_times(o@).len()
        }),
        output matches Ok(o) ==> exists|st: Seq<Option<LocalStamp>>| stamps_for(log_times(o@), st)
            && #[trigger] activity_of(st, days, today, r),
{
    match output {
        Err(_) => Some(empty_activity()),
        Ok(o) => {
            let ts = log_timestamps(o.as_str());
            build_activity(&ts, days, today)
        },
    }
}


// ---------------------------------------------------------------------------
// Labels of the activity charts

/// The periods the activity tab offers, in days (0 for all of history),
/// each with the key of its label.
pub open spec fn activity_periods_spec() -> Seq<(Seq<char>, usize)> {
    seq![("30日"@, 30usize), ("90日"@, 90usize), ("180日"@, 180usize), ("past_year"@, 365usize), ("all_history"@, 0usize)]
}

/// The periods of the activity tab, with their labels in the interface
/// language.
pub fn activity_periods(lang: crate::config::Language) -> (r: Vec<(String, usize)>)
    ensures
        r@.len() == 5,
        forall|i: int| 0 <= i < 5 ==> (#[trigger] r@[i]).0@ == crate::i18n::translate(lang, activity_periods_spec()[i].0)
            && r@[i].1 == activity_periods_spec()[i].1,
{
    let mut r: Vec<(String, usize)> = Vec::new();
    r.push((lit(crate::i18n::t(lang, "30日")), 30));
    r.push((lit(crate::i18n::t(lang, "90日")), 90));
    r.push((lit(crate::i18n::t(lang, "180日")), 180));
    r.push((lit(crate::i18n::t(lang, "past_year")), 365));
    r.push((lit(crate::i18n::t(lang, "all_history")), 0));
    r
}

/// The name of an activity period: all of history (0 days), the past year
/// (365), or the past `days` days.
pub open spec fn period_name(lang: crate::config::Language, days: nat) -> Seq<char> {
    if days == 0 {
        crate::i18n::translate(lang, "all_history"@)
    } else if days == 365 {
        crate::i18n::translate(lang, "past_year"@)
    } else {
        match lang {
            crate::config::Language::English => "Past "@ + decimal(days) + " days"@,
            crate::config::Language::Japanese => "過去"@ + decimal(days) + "日間"@,
        }
    }
}

/// `period_name`.
pub fn period_label(lang: crate::config::Language, days: usize) -> (r: String)
    ensures
        r@ == period_name(lang, days as nat),
{
    if days == 0 {
        lit(crate::i18n::t(lang, "all_history"))
    } else if days == 365 {
        lit(crate::i18n::t(lang, "past_year"))
    } else {
        let d = decimal_chars(days as u64);
        match lang {
            crate::config::Language::English => string_of(&concat(&concat(&chars_of("Past "), &d), &chars_of(" days"))),
            crate::config::Language::Japanese => string_of(&concat(&concat(&chars_of("過去"), &d), &chars_of("日間"))),
        }
    }
}

/// The titles of the three activity charts (commits over time, per hour,
/// per weekday) for a period's name.
pub open spec fn chart_titles(lang: crate::config::Language, period: Seq<char>) -> (Seq<char>, Seq<char>, Seq<char>) {
    match lang {
        crate::config::Language::English => (
            "Commit Activity ("@ + period + ")"@,
            "⏰ Hourly Commits ("@ + period + ")"@,
            "Commits by Day of Week ("@ + period + ")"@,
        ),
        crate::config::Language::Japanese => (
            "コミットアクティビティ（"@ + period + "）"@,
            "⏰ 時間帯別コミット数（"@ + period + "）"@,
            "曜日別コミット数（"@ + period + "）"@,
        ),
    }
}

fn wrapped(pre: &str, mid: &str, post: &str) -> (r: String)
    ensures
        r@ == pre@ + mid@ + post@,
{
    string_of(&concat(&concat(&chars_of(pre), &chars_of(mid)), &chars_of(post)))
}

/// `chart_titles`.
pub fn activity_chart_titles(lang: crate::config::Language, period: &str) -> (r: (String, String, String))
    ensures
        (r.0@, r.1@, r.2@) == chart_titles(lang, period@),
{
    match lang {
        crate::config::Language::English => (
            wrapped("Commit Activity (", period, ")"),
            wrapped("⏰ Hourly Commits (", period, ")"),
            wrapped("Commits by Day of Week (", period, ")"),
        ),
        crate::config::Language::Japanese => (
            wrapped("コミットアクティビティ（", period, "）"),
            wrapped("⏰ 時間帯別コミット数（", period, "）"),
            wrapped("曜日別コミット数（", period, "）"),
        ),
    }
}

/// An hour of the day as two digits.
pub open spec fn two_digits(h: nat) -> Seq<char> {
    seq![crate::text::digit_char(h / 10), crate::text::digit_char(h % 10)]
}

/// The label of hour `h` under the hourly chart: "07:00", or "07時".
pub open spec fn hour_label(lang: crate::config::Language, h: nat) -> Seq<char> {
    match lang {
        crate::config::Language::English => two_digits(h) + ":00"@,
        crate::config::Language::Japanese => two_digits(h) + "時"@,
    }
}

/// The 24 labels under the hourly chart (see `hour_label`).
pub fn hour_labels(lang: crate::config::Language) -> (r: Vec<String>)
    ensures
        r@.len() == 24,
        forall|h: int| 0 <= h < 24 ==> (#[trigger] r@[h])@ == hour_label(lang, h as nat),
{
    let mut r: Vec<String> = Vec::new();
    let mut h: u64 = 0;
    while h < 24
        invariant
            h <= 24,
            r@.len() == h,
            forall|k: int| 0 <= k < h ==> (#[trigger] r@[k])@ == hour_label(lang, k as nat),
        decreases 24 - h,
    {
        let mut d: Vec<char> = Vec::new();
        d.push(crate::text::digit_char_exec(h / 10));
        d.push(crate::text::digit_char_exec(h % 10));
        assert(d@ =~= two_digits(h as nat));
        let suffix = match lang {
            crate::config::Language::English => chars_of(":00"),
            crate::config::Language::Japanese => chars_of("時"),
        };
        r.push(string_of(&concat(&d, &suffix)));
        h = h + 1;
    }
    r
}

/// The weekday labels under the weekday chart, Sunday first.
pub open spec fn weekday_names(lang: crate::config::Language) -> Seq<Seq<char>> {
    match lang {
        crate::config::Language::English => seq!["Sun"@, "Mon"@, "Tue"@, "Wed"@, "Thu"@, "Fri"@, "Sat"@],
        crate::config::Language::Japanese => seq!["日"@, "月"@, "火"@, "水"@, "木"@, "金"@, "土"@],
    }
}

/// `weekday_names`.
pub fn weekday_labels(lang: crate::config::Language) -> (r: Vec<String>)
    ensures
        strings_view(r@) == weekday_names(lang),
{
    let names: [&str; 7] = match lang {
        crate::config::Language::English => ["Sun", "Mon", "Tue", "Wed", "Thu", "Fri", "Sat"],
        crate::config::Language::Japanese => ["日", "月", "火", "水", "木", "金", "土"],
    };
    let mut r: Vec<String> = Vec::new();
    r.push(lit(names[0]));
    r.push(lit(names[1]));
    r.push(lit(names[2]));
    r.push(lit(names[3]));
    r.push(lit(names[4]));
    r.push(lit(names[5]));
    r.push(lit(names[6]));
    assert(strings_view(r@) =~= weekday_names(lang));
    r
}

} // verus!
