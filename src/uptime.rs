//! Folding one check's weekly records into a single uptime statistic.
use vstd::prelude::*;

verus! {

/// Scale of `UptimeStat::percentage_e4`: a percentage is held in
/// ten-thousandths of a percent, so four decimal places are kept exactly.
pub const PERCENT_SCALE: u64 = 10000;

/// One calendar week of a check's performance summary, in seconds.
#[derive(Clone, Copy, Debug, PartialEq, Eq, Structural)]
pub struct WeeklyRecord {
    pub uptime: u64,
    pub downtime: u64,
    pub unmonitored: u64,
}

/// The aggregate of all weekly records of one check.
#[derive(Clone, Debug)]
pub struct UptimeStat {
    pub id: String,
    pub name: String,
    pub uptime: u64,
    pub downtime: u64,
    pub unmonitored: u64,
    /// `uptime + downtime + unmonitored`.
    pub max_uptime: u64,
    /// Sum over the weeks of each week's downtime in whole minutes.
    pub downtime_mins: u64,
    /// The uptime percentage times `PERCENT_SCALE`, rounded half up:
    /// `998801` stands for `99.8801%`.
    pub percentage_e4: u64,
}

/// Sum of `f` over the records.
pub open spec fn sum_of(rs: Seq<WeeklyRecord>, f: spec_fn(WeeklyRecord) -> nat) -> nat
    decreases rs.len(),
{
    if rs.len() == 0 {
        0
    } else {
        sum_of(rs.drop_last(), f) + f(rs.last())
    }
}

pub open spec fn uptime_total(rs: Seq<WeeklyRecord>) -> nat {
    sum_of(rs, |r: WeeklyRecord| r.uptime as nat)
}

pub open spec fn downtime_total(rs: Seq<WeeklyRecord>) -> nat {
    sum_of(rs, |r: WeeklyRecord| r.downtime as nat)
}

pub open spec fn unmonitored_total(rs: Seq<WeeklyRecord>) -> nat {
    sum_of(rs, |r: WeeklyRecord| r.unmonitored as nat)
}

/// Downtime minutes are truncated week by week, then summed.
pub open spec fn downtime_mins_total(rs: Seq<WeeklyRecord>) -> nat {
    sum_of(rs, |r: WeeklyRecord| (r.downtime / 60) as nat)
}

/// All the seconds the records cover.
pub open spec fn seconds_total(rs: Seq<WeeklyRecord>) -> nat {
    uptime_total(rs) + downtime_total(rs) + unmonitored_total(rs)
}

/// The records can be summed in 64 bits.
pub open spec fn fits_u64(rs: Seq<WeeklyRecord>) -> bool {
    seconds_total(rs) <= u64::MAX
}

/// `available / total * 100`, in ten-thousandths of a percent, rounded half up;
/// zero where nothing was measured.
pub open spec fn percent_e4(available: nat, total: nat) -> nat {
    if total == 0 {
        0
    } else {
        ((2 * available * 100 * PERCENT_SCALE + total) as int / (2 * total) as int) as nat
    }
}

/// The statistic that the records of one check fold to.
pub open spec fn stat_matches(s: UptimeStat, id: Seq<char>, name: Seq<char>, rs: Seq<WeeklyRecord>) -> bool {
    &&& s.id@ == id
    &&& s.name@ == name
    &&& s.uptime == uptime_total(rs)
    &&& s.downtime == downtime_total(rs)
    &&& s.unmonitored == unmonitored_total(rs)
    &&& s.max_uptime == seconds_total(rs)
    &&& s.downtime_mins == downtime_mins_total(rs)
    &&& s.percentage_e4 == percent_e4(uptime_total(rs) + unmonitored_total(rs), seconds_total(rs))
}

proof fn lemma_sum_step(rs: Seq<WeeklyRecord>, i: int, f: spec_fn(WeeklyRecord) -> nat)
    requires
        0 <= i < rs.len(),
    ensures
        sum_of(rs.take(i + 1), f) == sum_of(rs.take(i), f) + f(rs[i]),
{
    assert(rs.take(i + 1).drop_last() =~= rs.take(i));
}

proof fn lemma_sum_prefix_le(rs: Seq<WeeklyRecord>, i: int, f: spec_fn(WeeklyRecord) -> nat)
    requires
        0 <= i <= rs.len(),
    ensures
        sum_of(rs.take(i), f) <= sum_of(rs, f),
    decreases rs.len(),
{
    if i == rs.len() {
        assert(rs.take(i) =~= rs);
    } else {
        lemma_sum_prefix_le(rs.drop_last(), i, f);
        assert(rs.drop_last().take(i) =~= rs.take(i));
    }
}

proof fn lemma_mins_le_downtime(rs: Seq<WeeklyRecord>)
    ensures
        downtime_mins_total(rs) <= downtime_total(rs),
    decreases rs.len(),
{
    if rs.len() > 0 {
        lemma_mins_le_downtime(rs.drop_last());
    }
}

/// A rounded percentage of a part never exceeds a hundred percent.
pub proof fn lemma_percent_bounded(available: nat, total: nat)
    requires
        available <= total,
    ensures
        percent_e4(available, total) <= 100 * PERCENT_SCALE,
{
    if total > 0 {
        let n = 2 * available * 1000000 + total;
        let d = 2 * total;
        assert(n < d * 1000001) by (nonlinear_arith)
            requires n == 2 * available * 1000000 + total, d == 2 * total, available <= total, total > 0;
        assert(n / d <= 1000000) by (nonlinear_arith)
            requires n < d * 1000001, d > 0;
    }
}

/// Rounded percentage of `available` out of `total`, in ten-thousandths of a percent.
fn percentage_of(available: u64, total: u64) -> (r: u64)
    requires
        available <= total,
    ensures
        r == percent_e4(available as nat, total as nat),
{
    if total == 0 {
        return 0;
    }
    proof {
        lemma_percent_bounded(available as nat, total as nat);
    }
    let a: u128 = available as u128;
    let t: u128 = total as u128;
    assert(2 * a * 1000000 <= 2 * 0xffff_ffff_ffff_ffffu128 * 1000000) by (nonlinear_arith)
        requires a <= 0xffff_ffff_ffff_ffffu128;
    let n: u128 = 2 * a * (100 * PERCENT_SCALE as u128) + t;
    let d: u128 = 2 * t;
    assert(n / d == percent_e4(available as nat, total as nat));
    (n / d) as u64
}

/// Folds the weekly records of check `id` / `name` into its statistic.
pub fn reduce(id: String, name: String, records: &Vec<WeeklyRecord>) -> (r: UptimeStat)
    requires
        fits_u64(records@),
    ensures
        stat_matches(r, id@, name@, records@),
        r.percentage_e4 <= 100 * PERCENT_SCALE,
{
    let ghost rs = records@;
    let mut uptime: u64 = 0;
    let mut downtime: u64 = 0;
    let mut unmonitored: u64 = 0;
    let mut downtime_mins: u64 = 0;
    let mut i: usize = 0;
    assert(rs.take(0) =~= Seq::<WeeklyRecord>::empty());
    while i < records.len()
        invariant
            i <= rs.len(),
            rs == records@,
            fits_u64(rs),
            uptime == uptime_total(rs.take(i as int)),
            downtime == downtime_total(rs.take(i as int)),
            unmonitored == unmonitored_total(rs.take(i as int)),
            downtime_mins == downtime_mins_total(rs.take(i as int)),
        decreases rs.len() - i,
    {
        let w = records[i];
        proof {
            let ii = i as int;
            lemma_sum_step(rs, ii, |r: WeeklyRecord| r.uptime as nat);
            lemma_sum_step(rs, ii, |r: WeeklyRecord| r.downtime as nat);
            lemma_sum_step(rs, ii, |r: WeeklyRecord| r.unmonitored as nat);
            lemma_sum_step(rs, ii, |r: WeeklyRecord| (r.downtime / 60) as nat);
            lemma_sum_prefix_le(rs, ii + 1, |r: WeeklyRecord| r.uptime as nat);
            lemma_sum_prefix_le(rs, ii + 1, |r: WeeklyRecord| r.downtime as nat);
            lemma_sum_prefix_le(rs, ii + 1, |r: WeeklyRecord| r.unmonitored as nat);
            lemma_mins_le_downtime(rs.take(ii + 1));
        }
        uptime = uptime + w.uptime;
        downtime = downtime + w.downtime;
        unmonitored = unmonitored + w.unmonitored;
        downtime_mins = downtime_mins + w.downtime / 60;
        i = i + 1;
    }
    assert(rs.take(rs.len() as int) =~= rs);
    let max_uptime = uptime + downtime + unmonitored;
    let percentage_e4 = percentage_of(uptime + unmonitored, max_uptime);
    proof {
        lemma_percent_bounded((uptime + unmonitored) as nat, max_uptime as nat);
    }
    UptimeStat { id, name, uptime, downtime, unmonitored, max_uptime, downtime_mins, percentage_e4 }
}

/// Decides whether the records can be summed in 64 bits.
pub fn records_fit(records: &Vec<WeeklyRecord>) -> (r: bool)
    ensures
        r == fits_u64(records@),
{
    let ghost rs = records@;
    let mut acc: u64 = 0;
    let mut i: usize = 0;
    assert(rs.take(0) =~= Seq::<WeeklyRecord>::empty());
    while i < records.len()
        invariant
            i <= rs.len(),
            rs == records@,
            acc == seconds_total(rs.take(i as int)),
        decreases rs.len() - i,
    {
        let w = records[i];
        proof {
            let ii = i as int;
            lemma_sum_step(rs, ii, |r: WeeklyRecord| r.uptime as nat);
            lemma_sum_step(rs, ii, |r: WeeklyRecord| r.downtime as nat);
            lemma_sum_step(rs, ii, |r: WeeklyRecord| r.unmonitored as nat);
            lemma_sum_prefix_le(rs, ii + 1, |r: WeeklyRecord| r.uptime as nat);
            lemma_sum_prefix_le(rs, ii + 1, |r: WeeklyRecord| r.downtime as nat);
            lemma_sum_prefix_le(rs, ii + 1, |r: WeeklyRecord| r.unmonitored as nat);
        }
        if w.uptime > u64::MAX - acc {
            return false;
        }
        acc = acc + w.uptime;
        if w.downtime > u64::MAX - acc {
            return false;
        }
        acc = acc + w.downtime;
        if w.unmonitored > u64::MAX - acc {
            return false;
        }
        acc = acc + w.unmonitored;
        i = i + 1;
    }
    assert(rs.take(rs.len() as int) =~= rs);
    true
}

/// Folds the records like `reduce`, or gives `None` where their sum does not
/// fit in 64 bits.
pub fn try_reduce(id: String, name: String, records: &Vec<WeeklyRecord>) -> (r: Option<UptimeStat>)
    ensures
        r is None <==> !fits_u64(records@),
        r matches Some(s) ==> stat_matches(s, id@, name@, records@),
{
    if records_fit(records) {
        Some(reduce(id, name, records))
    } else {
        None
    }
}

/// Every field of the statistic of no records at all is zero, the percentage
/// included.
pub proof fn lemma_reduce_empty(s: UptimeStat, id: Seq<char>, name: Seq<char>)
    requires
        stat_matches(s, id, name, Seq::<WeeklyRecord>::empty()),
    ensures
        s.uptime == 0,
        s.downtime == 0,
        s.unmonitored == 0,
        s.max_uptime == 0,
        s.downtime_mins == 0,
        s.percentage_e4 == 0,
{
}

/// The percentage of any statistic folded from records lies between zero and
/// a hundred percent.
pub proof fn lemma_percentage_in_range(s: UptimeStat, id: Seq<char>, name: Seq<char>, rs: Seq<WeeklyRecord>)
    requires
        stat_matches(s, id, name, rs),
    ensures
        0 <= s.percentage_e4 <= 100 * PERCENT_SCALE,
{
    lemma_percent_bounded(uptime_total(rs) + unmonitored_total(rs), seconds_total(rs));
}

/// `max_uptime` is the sum of the three totals, over any records.
pub proof fn lemma_max_uptime_is_sum(s: UptimeStat, id: Seq<char>, name: Seq<char>, rs: Seq<WeeklyRecord>)
    requires
        stat_matches(s, id, name, rs),
    ensures
        s.max_uptime == uptime_total(rs) + downtime_total(rs) + unmonitored_total(rs),
        s.max_uptime == s.uptime + s.downtime + s.unmonitored,
{
}

} // verus!
