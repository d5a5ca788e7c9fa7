//! Named calendar windows and the timestamp ranges they cover.

use crate::calendar::{
    current_instant, day_start, decimal, decimal_text, day_start_of, days_since_sunday, days_since_sunday_of,
    is_sunday_midnight, is_valid_year, month_start, next_month, month_start_timestamp, CurrentInstant,
    SECONDS_PER_DAY, SECONDS_PER_WEEK, is_clock_reading, days_in_month, lemma_month_length,
    lemma_month_start_lower_bound, MIN_YEAR, MAX_YEAR,
};
use vstd::arithmetic::div_mod::{
    lemma_div_multiples_vanish, lemma_fundamental_div_mod, lemma_mod_multiples_basic,
};
use vstd::prelude::*;
use vstd::string::{StrSliceExecFns, StringExecFns};

verus! {

/// A window of time that activities can be listed for: the weeks back to a
/// Sunday, or one calendar month of this year or of last year.
#[derive(Clone, Copy, Debug, PartialEq, Eq, Structural)]
pub enum TimeBucket {
    OneWeek,
    TwoWeeks,
    ThreeWeeks,
    FourWeeks,
    JanuaryThisYear,
    FebruaryThisYear,
    MarchThisYear,
    AprilThisYear,
    MayThisYear,
    JuneThisYear,
    JulyThisYear,
    AugustThisYear,
    SeptemberThisYear,
    OctoberThisYear,
    NovemberThisYear,
    DecemberThisYear,
    JanuaryLastYear,
    FebruaryLastYear,
    MarchLastYear,
    AprilLastYear,
    MayLastYear,
    JuneLastYear,
    JulyLastYear,
    AugustLastYear,
    SeptemberLastYear,
    OctoberLastYear,
    NovemberLastYear,
    DecemberLastYear,
}

/// What a bucket stands for.
#[derive(Clone, Copy, Debug, PartialEq, Eq, Structural)]
pub enum BucketKind {
    /// The given number of weeks, back to a Sunday at midnight.
    Weeks(u32),
    /// One month (1 to 12) of this year, or of the year before.
    Month { month: u32, last_year: bool },
}

pub open spec fn kind_of(b: TimeBucket) -> BucketKind {
    match b {
        TimeBucket::OneWeek => BucketKind::Weeks(1),
        TimeBucket::TwoWeeks => BucketKind::Weeks(2),
        TimeBucket::ThreeWeeks => BucketKind::Weeks(3),
        TimeBucket::FourWeeks => BucketKind::Weeks(4),
        TimeBucket::JanuaryThisYear => BucketKind::Month { month: 1, last_year: false },
        TimeBucket::FebruaryThisYear => BucketKind::Month { month: 2, last_year: false },
        TimeBucket::MarchThisYear => BucketKind::Month { month: 3, last_year: false },
        TimeBucket::AprilThisYear => BucketKind::Month { month: 4, last_year: false },
        TimeBucket::MayThisYear => BucketKind::Month { month: 5, last_year: false },
        TimeBucket::JuneThisYear => BucketKind::Month { month: 6, last_year: false },
        TimeBucket::JulyThisYear => BucketKind::Month { month: 7, last_year: false },
        TimeBucket::AugustThisYear => BucketKind::Month { month: 8, last_year: false },
        TimeBucket::SeptemberThisYear => BucketKind::Month { month: 9, last_year: false },
        TimeBucket::OctoberThisYear => BucketKind::Month { month: 10, last_year: false },
        TimeBucket::NovemberThisYear => BucketKind::Month { month: 11, last_year: false },
        TimeBucket::DecemberThisYear => BucketKind::Month { month: 12, last_year: false },
        TimeBucket::JanuaryLastYear => BucketKind::Month { month: 1, last_year: true },
        TimeBucket::FebruaryLastYear => BucketKind::Month { month: 2, last_year: true },
        TimeBucket::MarchLastYear => BucketKind::Month { month: 3, last_year: true },
        TimeBucket::AprilLastYear => BucketKind::Month { month: 4, last_year: true },
        TimeBucket::MayLastYear => BucketKind::Month { month: 5, last_year: true },
        TimeBucket::JuneLastYear => BucketKind::Month { month: 6, last_year: true },
        TimeBucket::JulyLastYear => BucketKind::Month { month: 7, last_year: true },
        TimeBucket::AugustLastYear => BucketKind::Month { month: 8, last_year: true },
        TimeBucket::SeptemberLastYear => BucketKind::Month { month: 9, last_year: true },
        TimeBucket::OctoberLastYear => BucketKind::Month { month: 10, last_year: true },
        TimeBucket::NovemberLastYear => BucketKind::Month { month: 11, last_year: true },
        TimeBucket::DecemberLastYear => BucketKind::Month { month: 12, last_year: true },
    }
}

/// Every bucket, weekly ones first, then the months of this year, then those
/// of last year.
pub open spec fn all_buckets() -> Seq<TimeBucket> {
    seq![
        TimeBucket::OneWeek, TimeBucket::TwoWeeks, TimeBucket::ThreeWeeks, TimeBucket::FourWeeks,
        TimeBucket::JanuaryThisYear, TimeBucket::FebruaryThisYear, TimeBucket::MarchThisYear,
        TimeBucket::AprilThisYear, TimeBucket::MayThisYear, TimeBucket::JuneThisYear,
        TimeBucket::JulyThisYear, TimeBucket::AugustThisYear, TimeBucket::SeptemberThisYear,
        TimeBucket::OctoberThisYear, TimeBucket::NovemberThisYear, TimeBucket::DecemberThisYear,
        TimeBucket::JanuaryLastYear, TimeBucket::FebruaryLastYear, TimeBucket::MarchLastYear,
        TimeBucket::AprilLastYear, TimeBucket::MayLastYear, TimeBucket::JuneLastYear,
        TimeBucket::JulyLastYear, TimeBucket::AugustLastYear, TimeBucket::SeptemberLastYear,
        TimeBucket::OctoberLastYear, TimeBucket::NovemberLastYear, TimeBucket::DecemberLastYear,
    ]
}

/// Where a bucket stands in `all_buckets`.
pub open spec fn position_of(b: TimeBucket) -> int {
    match kind_of(b) {
        BucketKind::Weeks(n) => n - 1,
        BucketKind::Month { month, last_year } => if last_year { 15 + month } else { 3 + month },
    }
}

/// The first second of the week `weeks - 1` weeks before the one that holds
/// `t`, weeks running from Sunday 00:00:00 UTC.
pub open spec fn weekly_start(t: int, weeks: int) -> int {
    day_start(t) - days_since_sunday(t) * (SECONDS_PER_DAY as int) - (weeks - 1) * (
    SECONDS_PER_WEEK as int)
}

/// The first and the last second of `month` in `year`; `None` where the month
/// or the one after it lies outside the dates that can be represented.
pub open spec fn month_range(year: int, month: int) -> Option<(int, int)> {
    let (ny, nm) = next_month(year, month);
    if is_valid_year(year) && is_valid_year(ny) && month_start(ny, nm) > i64::MIN {
        Some((month_start(year, month), month_start(ny, nm) - 1))
    } else {
        None
    }
}

/// The inclusive range that bucket `b` covers when read at `now`.
pub open spec fn bucket_range(b: TimeBucket, now: CurrentInstant) -> Option<(int, int)> {
    match kind_of(b) {
        BucketKind::Weeks(n) => {
            let start = weekly_start(now.timestamp as int, n as int);
            if start >= i64::MIN {
                Some((start, now.timestamp as int))
            } else {
                None
            }
        },
        BucketKind::Month { month, last_year } => {
            let year = if last_year { now.year - 1 } else { now.year as int };
            month_range(year, month as int)
        },
    }
}

pub open spec fn range_view(r: Option<(i64, i64)>) -> Option<(int, int)> {
    match r {
        Some((s, e)) => Some((s as int, e as int)),
        None => None,
    }
}

/// Bucket `b` may be offered in `current_month`: no month of this year that
/// has not begun yet.
pub open spec fn is_offerable(b: TimeBucket, current_month: int) -> bool {
    match kind_of(b) {
        BucketKind::Weeks(_) => true,
        BucketKind::Month { month, last_year } => last_year || month <= current_month,
    }
}

pub open spec fn offerable_in(current_month: int) -> spec_fn(TimeBucket) -> bool {
    |b: TimeBucket| is_offerable(b, current_month)
}

pub open spec fn offerable_buckets(current_month: int) -> Seq<TimeBucket> {
    all_buckets().filter(offerable_in(current_month))
}

impl TimeBucket {
    /// What this bucket stands for.
    pub fn kind(&self) -> (r: BucketKind)
        ensures
            r == kind_of(*self),
    {
        match self {
            TimeBucket::OneWeek => BucketKind::Weeks(1),
            TimeBucket::TwoWeeks => BucketKind::Weeks(2),
            TimeBucket::ThreeWeeks => BucketKind::Weeks(3),
            TimeBucket::FourWeeks => BucketKind::Weeks(4),
            TimeBucket::JanuaryThisYear => BucketKind::Month { month: 1, last_year: false },
            TimeBucket::FebruaryThisYear => BucketKind::Month { month: 2, last_year: false },
            TimeBucket::MarchThisYear => BucketKind::Month { month: 3, last_year: false },
            TimeBucket::AprilThisYear => BucketKind::Month { month: 4, last_year: false },
            TimeBucket::MayThisYear => BucketKind::Month { month: 5, last_year: false },
            TimeBucket::JuneThisYear => BucketKind::Month { month: 6, last_year: false },
            TimeBucket::JulyThisYear => BucketKind::Month { month: 7, last_year: false },
            TimeBucket::AugustThisYear => BucketKind::Month { month: 8, last_year: false },
            TimeBucket::SeptemberThisYear => BucketKind::Month { month: 9, last_year: false },
            TimeBucket::OctoberThisYear => BucketKind::Month { month: 10, last_year: false },
            TimeBucket::NovemberThisYear => BucketKind::Month { month: 11, last_year: false },
            TimeBucket::DecemberThisYear => BucketKind::Month { month: 12, last_year: false },
            TimeBucket::JanuaryLastYear => BucketKind::Month { month: 1, last_year: true },
            TimeBucket::FebruaryLastYear => BucketKind::Month { month: 2, last_year: true },
            TimeBucket::MarchLastYear => BucketKind::Month { month: 3, last_year: true },
            TimeBucket::AprilLastYear => BucketKind::Month { month: 4, last_year: true },
            TimeBucket::MayLastYear => BucketKind::Month { month: 5, last_year: true },
            TimeBucket::JuneLastYear => BucketKind::Month { month: 6, last_year: true },
            TimeBucket::JulyLastYear => BucketKind::Month { month: 7, last_year: true },
            TimeBucket::AugustLastYear => BucketKind::Month { month: 8, last_year: true },
            TimeBucket::SeptemberLastYear => BucketKind::Month { month: 9, last_year: true },
            TimeBucket::OctoberLastYear => BucketKind::Month { month: 10, last_year: true },
            TimeBucket::NovemberLastYear => BucketKind::Month { month: 11, last_year: true },
            TimeBucket::DecemberLastYear => BucketKind::Month { month: 12, last_year: true },
        }
    }

    /// Every bucket, in the order in which they are offered.
    pub fn all_variants() -> (r: Vec<TimeBucket>)
        ensures
            r@ == all_buckets(),
    {
        let r = vec![
            TimeBucket::OneWeek, TimeBucket::TwoWeeks, TimeBucket::ThreeWeeks,
            TimeBucket::FourWeeks, TimeBucket::JanuaryThisYear, TimeBucket::FebruaryThisYear,
            TimeBucket::MarchThisYear, TimeBucket::AprilThisYear, TimeBucket::MayThisYear,
            TimeBucket::JuneThisYear, TimeBucket::JulyThisYear, TimeBucket::AugustThisYear,
            TimeBucket::SeptemberThisYear, TimeBucket::OctoberThisYear,
            TimeBucket::NovemberThisYear, TimeBucket::DecemberThisYear,
            TimeBucket::JanuaryLastYear, TimeBucket::FebruaryLastYear, TimeBucket::MarchLastYear,
            TimeBucket::AprilLastYear, TimeBucket::MayLastYear, TimeBucket::JuneLastYear,
            TimeBucket::JulyLastYear, TimeBucket::AugustLastYear, TimeBucket::SeptemberLastYear,
            TimeBucket::OctoberLastYear, TimeBucket::NovemberLastYear,
            TimeBucket::DecemberLastYear,
        ];
        assert(r@ =~= all_buckets());
        r
    }
}

/// The inclusive range `(start, end)` that `bucket` covers when read at
/// `now`: for `n` weeks, from the Sunday at 00:00:00 UTC that begins the week
/// `n - 1` weeks before the current one, up to `now` itself; for a month, from
/// its first second to its last. `None` only at the edges of the dates that
/// can be represented.
pub fn time_range_at(bucket: TimeBucket, now: &CurrentInstant) -> (r: Option<(i64, i64)>)
    requires
        now.wf(),
    ensures
        range_view(r) == bucket_range(bucket, *now),
{
    match bucket.kind() {
        BucketKind::Weeks(weeks) => {
            let t = now.timestamp;
            let today = match day_start_of(t) {
                Some(d) => d,
                None => return None,
            };
            let back = days_since_sunday_of(t) * SECONDS_PER_DAY;
            let sunday = match today.checked_sub(back) {
                Some(s) => s,
                None => return None,
            };
            match sunday.checked_sub((weeks - 1) as i64 * SECONDS_PER_WEEK) {
                Some(start) => Some((start, t)),
                None => None,
            }
        },
        BucketKind::Month { month, last_year } => {
            let year = if last_year {
                now.year - 1
            } else {
                now.year
            };
            let start = match month_start_timestamp(year, month) {
                Some(s) => s,
                None => return None,
            };
            let (next_year, next) = if month == 12 {
                (year + 1, 1u32)
            } else {
                (year, month + 1)
            };
            let following = match month_start_timestamp(next_year, next) {
                Some(s) => s,
                None => return None,
            };
            match following.checked_sub(1) {
                Some(end) => Some((start, end)),
                None => None,
            }
        },
    }
}

/// The range that `bucket` covers right now (see `time_range_at`): always a
/// valid range for a weekly bucket, and for a monthly one whenever the
/// current year is not the first or the last one that dates can carry.
pub fn get_time_range(bucket: TimeBucket) -> (r: Option<(i64, i64)>)
    ensures
        exists|now: CurrentInstant|
            {
                &&& is_clock_reading(now)
                &&& range_view(r) == bucket_range(bucket, now)
                &&& (is_weekly(bucket) || MIN_YEAR < now.year < MAX_YEAR) ==> r is Some
                    && r.unwrap().0 <= r.unwrap().1
            },
{
    let now = current_instant();
    proof {
        if is_weekly(bucket) || MIN_YEAR < now.year < MAX_YEAR {
            lemma_bucket_range_is_valid(bucket, now);
        }
    }
    time_range_at(bucket, &now)
}

/// The buckets that may be offered in `current_month`, in the order of
/// `all_variants`: every weekly bucket, every month of last year, and the
/// months of this year up to `current_month`.
pub fn offerable_variants_at(current_month: u32) -> (r: Vec<TimeBucket>)
    ensures
        r@ == offerable_buckets(current_month as int),
{
    let all = TimeBucket::all_variants();
    let mut r: Vec<TimeBucket> = Vec::new();
    let mut i: usize = 0;
    while i < all.len()
        invariant
            i <= all@.len(),
            all@ == all_buckets(),
            r@ == all@.subrange(0, i as int).filter(offerable_in(current_month as int)),
        decreases all@.len() - i,
    {
        let b = all[i];
        let keep = match b.kind() {
            BucketKind::Weeks(_) => true,
            BucketKind::Month { month, last_year } => last_year || month <= current_month,
        };
        proof {
            let next = all@.subrange(0, i + 1);
            assert(next.drop_last() =~= all@.subrange(0, i as int));
            assert(next.last() == b);
            assert(keep == is_offerable(b, current_month as int));
            reveal(Seq::filter);
            if keep {
                assert(next.filter(offerable_in(current_month as int)) == r@.push(b));
            } else {
                assert(next.filter(offerable_in(current_month as int)) == r@);
            }
        }
        if keep {
            r.push(b);
        }
        i = i + 1;
    }
    assert(all@.subrange(0, all@.len() as int) =~= all@);
    r
}

/// The buckets that may be offered this month (see `offerable_variants_at`).
pub fn get_filtered_variants() -> (r: Vec<TimeBucket>)
    ensures
        exists|now: CurrentInstant| is_clock_reading(now) && r@ == offerable_buckets(now.month as int),
{
    let now = current_instant();
    offerable_variants_at(now.month)
}

/// The number of weeks a weekly bucket covers.
pub open spec fn weeks_of(b: TimeBucket) -> int {
    match kind_of(b) {
        BucketKind::Weeks(n) => n as int,
        BucketKind::Month { .. } => 0,
    }
}

pub open spec fn is_weekly(b: TimeBucket) -> bool {
    kind_of(b) is Weeks
}

/// Counting back any number of whole weeks from the week that holds `t`
/// lands on a Sunday at 00:00:00 UTC.
pub proof fn lemma_weekly_start_is_sunday_midnight(t: int, weeks: int)
    requires
        weeks >= 1,
    ensures
        is_sunday_midnight(weekly_start(t, weeks)),
{
    let d = SECONDS_PER_DAY as int;
    let q = t / d;
    let dss = days_since_sunday(t);
    lemma_fundamental_div_mod(t, d);
    lemma_fundamental_div_mod(q + 4, 7);
    let k = q - dss - 7 * (weeks - 1);
    assert(weekly_start(t, weeks) == k * d) by (nonlinear_arith)
        requires
            t == d * q + t % d,
            d == 86400,
            k == q - dss - 7 * (weeks - 1),
            weekly_start(t, weeks) == (t - t % d) - dss * d - (weeks - 1) * 604800,
    ;
    lemma_mod_multiples_basic(k, d);
    lemma_div_multiples_vanish(k, d);
    assert(d * k == k * d) by (nonlinear_arith);
    let w = (q + 4) / 7 - weeks + 1;
    assert(k + 4 == w * 7) by (nonlinear_arith)
        requires
            q + 4 == 7 * ((q + 4) / 7) + dss,
            k == q - dss - 7 * (weeks - 1),
            w == (q + 4) / 7 - weeks + 1,
    ;
    lemma_mod_multiples_basic(w, 7);
}

/// Every weekly bucket starts at 00:00:00 UTC on a Sunday and ends at the
/// moment it is read.
pub proof fn lemma_weekly_bucket_starts_on_sunday(b: TimeBucket, now: CurrentInstant)
    requires
        is_weekly(b),
        bucket_range(b, now) is Some,
    ensures
        is_sunday_midnight(bucket_range(b, now).unwrap().0),
        bucket_range(b, now).unwrap().1 == now.timestamp,
{
    lemma_weekly_start_is_sunday_midnight(now.timestamp as int, weeks_of(b));
}

/// A weekly bucket of more weeks holds one of fewer weeks: it starts no later
/// and ends at the same moment.
pub proof fn lemma_weekly_buckets_nest(narrow: TimeBucket, wide: TimeBucket, now: CurrentInstant)
    requires
        is_weekly(narrow),
        is_weekly(wide),
        weeks_of(narrow) <= weeks_of(wide),
        is_clock_reading(now),
    ensures
        bucket_range(narrow, now) is Some,
        bucket_range(wide, now) is Some,
        bucket_range(wide, now).unwrap().0 <= bucket_range(narrow, now).unwrap().0,
        bucket_range(wide, now).unwrap().1 == bucket_range(narrow, now).unwrap().1,
{
    lemma_bucket_range_is_valid(wide, now);
}

/// The month of this year or of last year that bucket `b` names, 0 for a
/// weekly bucket.
pub open spec fn month_number(b: TimeBucket) -> int {
    match kind_of(b) {
        BucketKind::Weeks(_) => 0,
        BucketKind::Month { month, .. } => month as int,
    }
}

pub open spec fn is_this_year(b: TimeBucket) -> bool {
    kind_of(b) matches BucketKind::Month { last_year, .. } && !last_year
}

pub open spec fn is_last_year(b: TimeBucket) -> bool {
    kind_of(b) matches BucketKind::Month { last_year, .. } && last_year
}

/// Consecutive monthly buckets adjoin: the second after the last one of a
/// month is the first one of the next month, within this year, within last
/// year, and from December of last year to January of this year.
pub proof fn lemma_month_buckets_adjoin(earlier: TimeBucket, later: TimeBucket, now: CurrentInstant)
    requires
        now.wf(),
        (is_this_year(earlier) && is_this_year(later)) || (is_last_year(earlier) && is_last_year(
            later,
        )),
        month_number(later) == month_number(earlier) + 1,
        is_clock_reading(now),
        MIN_YEAR < now.year < MAX_YEAR,
    ensures
        bucket_range(earlier, now) is Some,
        bucket_range(later, now) is Some,
        bucket_range(earlier, now).unwrap().1 + 1 == bucket_range(later, now).unwrap().0,
{
    lemma_bucket_range_is_valid(earlier, now);
    lemma_bucket_range_is_valid(later, now);
}

/// December of last year ends the second before January of this year begins.
pub proof fn lemma_december_rolls_into_january(now: CurrentInstant)
    requires
        is_clock_reading(now),
        MIN_YEAR < now.year < MAX_YEAR,
    ensures
        bucket_range(TimeBucket::DecemberLastYear, now) is Some,
        bucket_range(TimeBucket::JanuaryThisYear, now) is Some,
        bucket_range(TimeBucket::DecemberLastYear, now).unwrap().1 + 1 == bucket_range(
            TimeBucket::JanuaryThisYear,
            now,
        ).unwrap().0,
{
    lemma_bucket_range_is_valid(TimeBucket::DecemberLastYear, now);
    lemma_bucket_range_is_valid(TimeBucket::JanuaryThisYear, now);
}

/// Every bucket stands in `all_buckets`, at `position_of`.
pub proof fn lemma_all_buckets_position(b: TimeBucket)
    ensures
        0 <= position_of(b) < all_buckets().len(),
        all_buckets()[position_of(b)] == b,
{
}

/// The buckets offered in a month never include a month of this year that
/// comes after it, and always include every weekly bucket and every month of
/// last year.
pub proof fn lemma_offerable_variants(current_month: int)
    requires
        1 <= current_month <= 12,
    ensures
        forall|b: TimeBucket| #[trigger]
            offerable_buckets(current_month).contains(b) && is_this_year(b) ==> month_number(b)
                <= current_month,
        forall|b: TimeBucket|
            (is_weekly(b) || is_last_year(b)) ==> #[trigger] offerable_buckets(
                current_month,
            ).contains(b),
{
    broadcast use vstd::seq_lib::group_filter_ensures;

    let f = offerable_buckets(current_month);
    assert forall|b: TimeBucket| #[trigger] f.contains(b) && is_this_year(b) implies month_number(
        b,
    ) <= current_month by {
        let i = choose|i: int| 0 <= i < f.len() && f[i] == b;
        assert(offerable_in(current_month)(f[i]));
    }
    assert forall|b: TimeBucket| (is_weekly(b) || is_last_year(b)) implies #[trigger] f.contains(
        b,
    ) by {
        lemma_all_buckets_position(b);
        assert(offerable_in(current_month)(all_buckets()[position_of(b)]));
    }
}

/// The English name of month `m`, 1 for January.
pub open spec fn month_name(m: int) -> Seq<char> {
    if m == 1 { "January"@ } else if m == 2 { "February"@ } else if m == 3 { "March"@ }
    else if m == 4 { "April"@ } else if m == 5 { "May"@ } else if m == 6 { "June"@ }
    else if m == 7 { "July"@ } else if m == 8 { "August"@ } else if m == 9 { "September"@ }
    else if m == 10 { "October"@ } else if m == 11 { "November"@ } else { "December"@ }
}

/// The fixed label of a weekly bucket of `n` weeks.
pub open spec fn weeks_label(n: int) -> Seq<char> {
    if n == 1 { "One week"@ } else if n == 2 { "Two weeks"@ } else if n == 3 { "Three weeks"@ }
    else { "Four weeks"@ }
}

/// The label of bucket `b` in `this_year`: fixed for a weekly bucket, the
/// month's name and its year for a monthly one.
pub open spec fn label_text(b: TimeBucket, this_year: int) -> Seq<char> {
    match kind_of(b) {
        BucketKind::Weeks(n) => weeks_label(n as int),
        BucketKind::Month { month, last_year } => month_name(month as int) + " "@ + decimal(
            if last_year { this_year - 1 } else { this_year },
        ),
    }
}

fn month_name_str(m: u32) -> (r: &'static str)
    ensures
        r@ == month_name(m as int),
{
    if m == 1 { "January" } else if m == 2 { "February" } else if m == 3 { "March" }
    else if m == 4 { "April" } else if m == 5 { "May" } else if m == 6 { "June" }
    else if m == 7 { "July" } else if m == 8 { "August" } else if m == 9 { "September" }
    else if m == 10 { "October" } else if m == 11 { "November" } else { "December" }
}

fn weeks_label_str(n: u32) -> (r: &'static str)
    ensures
        r@ == weeks_label(n as int),
{
    if n == 1 { "One week" } else if n == 2 { "Two weeks" } else if n == 3 { "Three weeks" }
    else { "Four weeks" }
}

impl TimeBucket {
    /// The label of this bucket when the current year is `this_year`, such as
    /// "Two weeks" or "March 2024".
    pub fn label_at(&self, this_year: i32) -> (r: String)
        requires
            this_year > i32::MIN,
        ensures
            r@ == label_text(*self, this_year as int),
    {
        match self.kind() {
            BucketKind::Weeks(n) => String::from_str(weeks_label_str(n)),
            BucketKind::Month { month, last_year } => {
                let year = if last_year {
                    this_year - 1
                } else {
                    this_year
                };
                let mut r = String::from_str(month_name_str(month));
                r.append(" ");
                let digits = decimal_text(year);
                r.append(digits.as_str());
                r
            },
        }
    }

    /// The label of this bucket in the current year (see `label_at`).
    pub fn get_label(&self) -> (r: String)
        ensures
            exists|now: CurrentInstant| is_clock_reading(now) && r@ == label_text(*self, now.year as int),
    {
        let now = current_instant();
        self.label_at(now.year)
    }
}

/// Read at any moment, every weekly bucket has a range, and so does every
/// monthly one in a year other than the first and the last that dates can
/// carry, its start no later than its end; a
/// monthly one covers exactly the days of its month, leap days included.
pub proof fn lemma_bucket_range_is_valid(b: TimeBucket, now: CurrentInstant)
    requires
        is_clock_reading(now),
        is_weekly(b) || MIN_YEAR < now.year < MAX_YEAR,
    ensures
        bucket_range(b, now) is Some,
        bucket_range(b, now).unwrap().0 <= bucket_range(b, now).unwrap().1,
        kind_of(b) matches BucketKind::Month { month, last_year } ==> bucket_range(b, now).unwrap().1
            - bucket_range(b, now).unwrap().0 + 1 == days_in_month(
            if last_year { now.year - 1 } else { now.year as int },
            month as int,
        ) * (SECONDS_PER_DAY as int),
{
    lemma_month_start_lower_bound(now.year as int, now.month as int);
    match kind_of(b) {
        BucketKind::Weeks(n) => {
            let t = now.timestamp as int;
            let d = SECONDS_PER_DAY as int;
            lemma_fundamental_div_mod(t, d);
            assert(0 <= t % d < d);
            assert(0 <= days_since_sunday(t) < 7);
            assert(weekly_start(t, n as int) >= t - 7 * d - 3 * (SECONDS_PER_WEEK as int));
        },
        BucketKind::Month { month, last_year } => {
            let year = if last_year { now.year - 1 } else { now.year as int };
            let (ny, nm) = next_month(year, month as int);
            lemma_month_length(year, month as int);
            lemma_month_start_lower_bound(ny, nm);
            assert(days_in_month(year, month as int) >= 28);
        },
    }
}

} // verus!
