//! Scheduling of memory cards.
//!
//! The scheduler owns the persisted learning state and the content model,
//! reconciles the two at construction, keeps a due-ordered queue and a
//! rate-limited queue of new cards, and picks the next card to present.
//! Every operation exists in an `_at` form taking the current instant as a
//! plain argument, so the logic is verified for every time and for every
//! outcome of the randomized selection.

use vstd::prelude::*;
use crate::cards::{Card, CardModel, CardState, Metacard, MetacardModel, Review, Score,
    spec_new_ease, spec_next_state, spec_review_interval, SCORES, TIME_MAX};
use crate::deck::{assoc_find, assoc_has, assoc_insert, lemma_assoc_find_at,
    lemma_assoc_insert_update, Deck};
use crate::duration::{day_number, spec_day_number, MAX_MINUTES, MINUTES_PER_DAY};
use crate::milli::{clamp_i64, spec_clamp, add_clamped, sub_clamped};
use crate::settings::{TagSettings, TagSettingsModel};
use crate::text::chars_to_vec;
use crate::Time;

verus! {

/// Relies on rand's `thread_rng` and `Rng::gen_ratio`: a boolean that is
/// true with probability `numerator / denominator`.  The call panics when
/// the denominator is zero or smaller than the numerator, so those inputs
/// are excluded; nothing is assumed about the outcome.
#[verifier::external_body]
fn gen_ratio(numerator: u32, denominator: u32) -> bool
    requires
        0 < denominator,
        numerator <= denominator,
{
    rand::Rng::gen_ratio(&mut rand::thread_rng(), numerator, denominator)
}

/// The value a review outcome contributes to the adaptive retention rate,
/// in thousandths; values above one mean performing ahead of target.
pub open spec fn spec_outcome_milli(score: Score) -> int {
    match score {
        Score::Fail => 0,
        Score::Hard => 950,
        Score::Okay => 1000,
        Score::Good => 1020,
        Score::Easy => 1050,
    }
}

/// The adaptive retention rate after one review: the exponentially weighted
/// average of the old rate and the outcome value, with the old rate read as
/// its clamp into `[0, 1000000]` and the weight as its clamp into
/// `[0, 1000]`.
pub open spec fn spec_new_adaptive_rate(rate: int, weight: int, score: Score) -> int {
    let r = spec_clamp(rate, 0, 1_000_000);
    let w = spec_clamp(weight, 0, 1000);
    ((1000 - w) * r + w * spec_outcome_milli(score)) / 1000
}

/// The familiarity after one review: raised by the delta and capped above
/// when the adaptive rate meets the desired rate, lowered by the delta and
/// capped below otherwise.
pub open spec fn spec_new_familiarity(
    familiarity: int,
    new_rate: int,
    ts: TagSettingsModel,
) -> int {
    if new_rate >= ts.desired_retention_rate as int {
        spec_clamp(familiarity + ts.familiarity_delta, i64::MIN as int, ts.max_familiarity as int)
    } else {
        spec_clamp(familiarity - ts.familiarity_delta, ts.min_familiarity as int, i64::MAX as int)
    }
}

/// One day's activity count, saturating.
pub open spec fn sat_inc(c: u64) -> u64 {
    if c == u64::MAX {
        c
    } else {
        (c + 1) as u64
    }
}

/// Record one review on the given day in an activity histogram: bump the
/// first entry of that day, or append a fresh one.
pub open spec fn spec_bump(a: Seq<(i64, u64)>, day: i64) -> Seq<(i64, u64)>
    decreases a.len(),
{
    if a.len() == 0 {
        seq![(day, 1u64)]
    } else if a[0].0 == day {
        seq![(a[0].0, sat_inc(a[0].1))] + a.drop_first()
    } else {
        seq![a[0]] + spec_bump(a.drop_first(), day)
    }
}

proof fn lemma_bump_update(a: Seq<(i64, u64)>, day: i64, i: int)
    requires
        0 <= i < a.len(),
        a[i].0 == day,
        forall|j: int| 0 <= j < i ==> (#[trigger] a[j]).0 != day,
    ensures
        spec_bump(a, day) =~= a.update(i, (day, sat_inc(a[i].1))),
    decreases i,
{
    if i == 0 {
        assert(spec_bump(a, day) =~= seq![(a[0].0, sat_inc(a[0].1))] + a.drop_first());
    } else {
        lemma_bump_update(a.drop_first(), day, i - 1);
        assert(spec_bump(a, day) =~= seq![a[0]] + spec_bump(a.drop_first(), day));
        assert(a.drop_first().update(i - 1, (day, sat_inc(a[i].1))) =~= a.update(
            i,
            (day, sat_inc(a[i].1)),
        ).drop_first());
        assert(spec_bump(a, day) =~= a.update(i, (day, sat_inc(a[i].1))));
    }
}

proof fn lemma_bump_append(a: Seq<(i64, u64)>, day: i64)
    requires
        forall|j: int| 0 <= j < a.len() ==> (#[trigger] a[j]).0 != day,
    ensures
        spec_bump(a, day) =~= a.push((day, 1u64)),
    decreases a.len(),
{
    if a.len() > 0 {
        lemma_bump_append(a.drop_first(), day);
        assert(spec_bump(a, day) =~= seq![a[0]] + spec_bump(a.drop_first(), day));
        assert(seq![a[0]] + a.drop_first().push((day, 1u64)) =~= a.push((day, 1u64)));
    }
}

/// How many of the recorded review scores are not `Fail`.
pub open spec fn spec_non_fail_count(s: Seq<Score>) -> int
    decreases s.len(),
{
    if s.len() == 0 {
        0int
    } else {
        spec_non_fail_count(s.drop_last()) + if s.last() == Score::Fail {
            0int
        } else {
            1int
        }
    }
}

proof fn lemma_non_fail_count_bounds(s: Seq<Score>)
    ensures
        0 <= spec_non_fail_count(s) <= s.len(),
    decreases s.len(),
{
    if s.len() > 0 {
        lemma_non_fail_count_bounds(s.drop_last());
    }
}

/// The model of a statistics tracker.
#[verifier::ext_equal]
pub ghost struct StatisticsModel {
    pub reviews: Seq<Score>,
    pub activity: Seq<(i64, u64)>,
    pub adaptive_retention_rate: i64,
    pub familiarity: i64,
}

impl StatisticsModel {
    /// The model after recording one review on the given day.
    pub open spec fn reviewed(self, score: Score, ts: TagSettingsModel, day: i64) -> StatisticsModel {
        let new_rate = spec_new_adaptive_rate(
            self.adaptive_retention_rate as int,
            ts.score_weight as int,
            score,
        );
        StatisticsModel {
            reviews: self.reviews.push(score),
            activity: spec_bump(self.activity, day),
            adaptive_retention_rate: new_rate as i64,
            familiarity: spec_new_familiarity(self.familiarity as int, new_rate, ts) as i64,
        }
    }
}

/// The first entry of a day in an activity histogram.
fn find_day(a: &Vec<(i64, u64)>, day: i64) -> (r: Option<usize>)
    ensures
        match r {
            Some(i) => i < a@.len() && a@[i as int].0 == day && forall|j: int|
                0 <= j < i ==> (#[trigger] a@[j]).0 != day,
            None => forall|j: int| 0 <= j < a@.len() ==> (#[trigger] a@[j]).0 != day,
        },
{
    let mut i: usize = 0;
    while i < a.len()
        invariant
            i <= a@.len(),
            forall|j: int| 0 <= j < i ==> (#[trigger] a@[j]).0 != day,
        decreases a@.len() - i,
    {
        if a[i].0 == day {
            return Some(i);
        }
        i = i + 1;
    }
    None
}

/// Review statistics about a group of cards.
///
/// Rates and familiarity are fixed-point thousandths; the activity
/// histogram is keyed by calendar day number.
#[derive(Debug)]
pub struct Statistics {
    /// The scores of reviews in chronological order.
    pub reviews: Vec<Score>,
    /// The number of cards that were reviewed on certain days.
    pub activity: Vec<(i64, u64)>,
    /// An average of scores weighted after recency, in thousandths.
    pub adaptive_retention_rate: i64,
    /// High-level ease for this group of cards, in thousandths.
    pub familiarity: i64,
}

impl View for Statistics {
    type V = StatisticsModel;

    open spec fn view(&self) -> StatisticsModel {
        StatisticsModel {
            reviews: self.reviews@,
            activity: self.activity@,
            adaptive_retention_rate: self.adaptive_retention_rate,
            familiarity: self.familiarity,
        }
    }
}

impl Statistics {
    /// Create default, empty statistics: no reviews, the adaptive rate at
    /// the desired rate, familiarity at one.
    pub fn new(settings: &TagSettings) -> (r: Statistics)
        ensures
            r@.reviews.len() == 0,
            r@.activity.len() == 0,
            r@.adaptive_retention_rate == settings@.desired_retention_rate,
            r@.familiarity == 1000,
    {
        Statistics {
            reviews: Vec::new(),
            activity: Vec::new(),
            adaptive_retention_rate: settings.desired_retention_rate,
            familiarity: 1000,
        }
    }

    /// The fraction of recorded reviews that did not fail, in thousandths.
    ///
    /// Undefined on an empty history; the caller must guard.
    pub fn retention_rate(&self) -> (r: i64)
        requires
            self@.reviews.len() > 0,
        ensures
            r == spec_non_fail_count(self@.reviews) * 1000 / (self@.reviews.len() as int),
            0 <= r <= 1000,
    {
        let n = self.reviews.len();
        let mut count: u64 = 0;
        let mut i: usize = 0;
        proof {
            assert(self@.reviews.take(0) =~= Seq::<Score>::empty());
        }
        while i < self.reviews.len()
            invariant
                i <= self@.reviews.len(),
                self@.reviews.len() <= u64::MAX,
                count == spec_non_fail_count(self@.reviews.take(i as int)),
                count <= i,
            decreases self@.reviews.len() - i,
        {
            proof {
                assert(self@.reviews.take(i + 1).drop_last() =~= self@.reviews.take(i as int));
                assert(self@.reviews.take(i + 1).last() == self@.reviews[i as int]);
            }
            if !matches!(self.reviews[i], Score::Fail) {
                count = count + 1;
            }
            i = i + 1;
        }
        proof {
            assert(self@.reviews.take(self@.reviews.len() as int) =~= self@.reviews);
            lemma_non_fail_count_bounds(self@.reviews);
            assert(count as int * 1000 / (self@.reviews.len() as int) <= 1000)
                by (nonlinear_arith)
                requires
                    0 <= count as int <= self@.reviews.len() as int,
                    self@.reviews.len() > 0,
            ;
        }
        let permille: u128 = count as u128 * 1000 / (self.reviews.len() as u128);
        permille as i64
    }

    /// Add a review of a certain score, on the given calendar day, to the
    /// statistics, as `StatisticsModel::reviewed` describes.
    pub fn review(&mut self, score: Score, settings: &TagSettings, day: i64)
        ensures
            final(self)@ == old(self)@.reviewed(score, settings@, day),
    {
        self.reviews.push(score);

        match find_day(&self.activity, day) {
            Some(i) => {
                let c = self.activity[i].1;
                let c2: u64 = if c == u64::MAX {
                    c
                } else {
                    c + 1
                };
                proof {
                    lemma_bump_update(self.activity@, day, i as int);
                }
                self.activity.set(i, (day, c2));
                proof {
                    assert(self.activity@ =~= spec_bump(old(self)@.activity, day));
                }
            },
            None => {
                proof {
                    lemma_bump_append(self.activity@, day);
                }
                self.activity.push((day, 1));
                proof {
                    assert(self.activity@ =~= spec_bump(old(self)@.activity, day));
                }
            },
        }

        let rate = clamp_i64(self.adaptive_retention_rate, 0, 1_000_000);
        let weight = clamp_i64(settings.score_weight, 0, 1000);
        let outcome: i64 = match score {
            Score::Fail => 0,
            Score::Hard => 950,
            Score::Okay => 1000,
            Score::Good => 1020,
            Score::Easy => 1050,
        };
        proof {
            assert(0 <= (1000 - weight) * rate <= 1_000_000_000) by (nonlinear_arith)
                requires
                    0 <= weight <= 1000,
                    0 <= rate <= 1_000_000,
            ;
            assert(0 <= weight * outcome <= 1_050_000) by (nonlinear_arith)
                requires
                    0 <= weight <= 1000,
                    0 <= outcome <= 1050,
            ;
        }
        let new_rate = ((1000 - weight) * rate + weight * outcome) / 1000;
        self.adaptive_retention_rate = new_rate;

        if new_rate >= settings.desired_retention_rate {
            self.familiarity = add_clamped(
                self.familiarity,
                settings.familiarity_delta,
                i64::MIN,
                settings.max_familiarity,
            );
        } else {
            self.familiarity = sub_clamped(
                self.familiarity,
                settings.familiarity_delta,
                settings.min_familiarity,
                i64::MAX,
            );
        }
        proof {
            assert(self@ =~= old(self)@.reviewed(score, settings@, day));
        }
    }
}

/// Tag-specific statistics, keyed by tag name.
#[derive(Debug)]
pub struct TagStatistics {
    /// The tag name.
    pub name: String,
    /// The statistics gathered for that tag.
    pub stats: Statistics,
}

/// The model of a card schedule.
#[verifier::ext_equal]
pub ghost struct ScheduleModel {
    pub metacards: Seq<MetacardModel>,
    pub statistics: StatisticsModel,
    pub tag_statistics: Seq<(Seq<char>, StatisticsModel)>,
    pub updated: Option<i64>,
}

/// A card schedule: the persistently stored learning state.
///
/// It holds one metacard per known card, global and per-tag statistics, and
/// the time of the last new-queue refresh.
#[derive(Debug)]
pub struct Schedule {
    /// The learning states of the memory cards.
    pub metacards: Vec<Metacard>,
    /// Statistics for all the cards.
    pub statistics: Statistics,
    /// Tag-specific statistics.
    pub tag_statistics: Vec<TagStatistics>,
    /// When the new queue was last updated; `None` asks the next queue
    /// refresh to fill the new queue.
    pub updated: Option<Time>,
}

impl View for Schedule {
    type V = ScheduleModel;

    open spec fn view(&self) -> ScheduleModel {
        ScheduleModel {
            metacards: self.metacards@.map_values(|m: Metacard| m@),
            statistics: self.statistics@,
            tag_statistics: self.tag_statistics@.map_values(
                |t: TagStatistics| (t.name@, t.stats@),
            ),
            updated: self.updated,
        }
    }
}

impl Schedule {
    /// Create a new, empty schedule.
    pub fn new(settings: &TagSettings) -> (r: Schedule)
        ensures
            r@.metacards.len() == 0,
            r@.tag_statistics.len() == 0,
            r@.statistics.reviews.len() == 0,
            r@.statistics.activity.len() == 0,
            r@.statistics.adaptive_retention_rate == settings@.desired_retention_rate,
            r@.statistics.familiarity == 1000,
            r@.updated is None,
    {
        let r = Schedule {
            metacards: Vec::new(),
            statistics: Statistics::new(settings),
            tag_statistics: Vec::new(),
            updated: None,
        };
        proof {
            assert(r@.metacards =~= Seq::<MetacardModel>::empty());
            assert(r@.tag_statistics =~= Seq::<(Seq<char>, StatisticsModel)>::empty());
        }
        r
    }

    /// Get the global statistics.
    pub fn statistics(&self) -> (r: &Statistics)
        ensures
            r@ == self@.statistics,
    {
        &self.statistics
    }

    /// Get the tag-specific statistics.
    pub fn tag_statistics(&self) -> (r: &Vec<TagStatistics>)
        ensures
            r@.map_values(|t: TagStatistics| (t.name@, t.stats@)) == self@.tag_statistics,
    {
        &self.tag_statistics
    }
}

/// A due-ordered queue: keys never decrease.
pub open spec fn queue_sorted(q: Seq<(i64, usize)>) -> bool {
    forall|i: int, j: int| 0 <= i <= j < q.len() ==> (#[trigger] q[i]).0 <= (#[trigger] q[j]).0
}

/// How many queue entries are due strictly before `now`.
pub open spec fn spec_count_due(q: Seq<(i64, usize)>, now: i64) -> int
    decreases q.len(),
{
    if q.len() == 0 {
        0int
    } else {
        spec_count_due(q.drop_last(), now) + if q.last().0 < now {
            1int
        } else {
            0int
        }
    }
}

/// Count the queue entries due strictly before `now`.
fn count_due(q: &Vec<(i64, usize)>, now: i64) -> (r: usize)
    ensures
        r == spec_count_due(q@, now),
        r <= q@.len(),
{
    let mut count: usize = 0;
    let mut i: usize = 0;
    proof {
        assert(q@.take(0) =~= Seq::<(i64, usize)>::empty());
    }
    while i < q.len()
        invariant
            i <= q@.len(),
            count == spec_count_due(q@.take(i as int), now),
            count <= i,
        decreases q@.len() - i,
    {
        proof {
            assert(q@.take(i + 1).drop_last() =~= q@.take(i as int));
            assert(q@.take(i + 1).last() == q@[i as int]);
        }
        if q[i].0 < now {
            count = count + 1;
        }
        i = i + 1;
    }
    proof {
        assert(q@.take(q@.len() as int) =~= q@);
    }
    count
}

/// Insert an entry into a due-ordered queue, after any entries of the same
/// due time.
fn queue_insert(q: &mut Vec<(i64, usize)>, time: i64, mref: usize)
    requires
        queue_sorted(old(q)@),
    ensures
        queue_sorted(final(q)@),
        final(q)@.len() == old(q)@.len() + 1,
        forall|i: int|
            0 <= i < final(q)@.len() ==> (#[trigger] final(q)@[i]) == (time, mref) || old(
                q,
            )@.contains(final(q)@[i]),
        forall|i: int| 0 <= i < old(q)@.len() ==> final(q)@.contains(#[trigger] old(q)@[i]),
        final(q)@.contains((time, mref)),
{
    let mut k: usize = 0;
    while k < q.len() && q[k].0 <= time
        invariant
            k <= q@.len(),
            forall|j: int| 0 <= j < k ==> (#[trigger] q@[j]).0 <= time,
            q@ == old(q)@,
            queue_sorted(q@),
        decreases q@.len() - k,
    {
        k = k + 1;
    }
    proof {
        if k < q@.len() {
            assert(q@[k as int].0 > time);
        }
    }
    q.insert(k, (time, mref));
    proof {
        let f = q@;
        let o = old(q)@;
        assert(f == o.insert(k as int, (time, mref)));
        assert forall|i: int, j: int| 0 <= i <= j < f.len() implies (#[trigger] f[i]).0
            <= (#[trigger] f[j]).0 by {
            if i < k && j < k {
                assert(f[i] == o[i] && f[j] == o[j]);
            } else if i < k && j == k {
                assert(f[i] == o[i]);
            } else if i < k && j > k {
                assert(f[i] == o[i] && f[j] == o[j - 1]);
            } else if i == k && j == k {
            } else if i == k && j > k {
                assert(f[j] == o[j - 1]);
                assert(o[k as int].0 > time);
                assert(o[k as int].0 <= o[j - 1].0);
            } else {
                assert(f[i] == o[i - 1] && f[j] == o[j - 1]);
            }
        }
        assert forall|i: int|
            0 <= i < f.len() implies (#[trigger] f[i]) == (time, mref) || o.contains(f[i]) by {
            if i < k {
                assert(f[i] == o[i]);
            } else if i > k {
                assert(f[i] == o[i - 1]);
            }
        }
        assert forall|i: int| 0 <= i < o.len() implies f.contains(#[trigger] o[i]) by {
            if i < k {
                assert(f[i] == o[i]);
            } else {
                assert(f[i + 1] == o[i]);
            }
        }
        assert(f[k as int] == (time, mref));
    }
}

/// Remove and return the earliest-due entry.
fn queue_pop_first(q: &mut Vec<(i64, usize)>) -> (r: (i64, usize))
    requires
        old(q)@.len() > 0,
        queue_sorted(old(q)@),
    ensures
        r == old(q)@[0],
        final(q)@ == old(q)@.drop_first(),
        queue_sorted(final(q)@),
{
    let r = q.remove(0);
    proof {
        assert(q@ =~= old(q)@.drop_first());
        assert forall|i: int, j: int| 0 <= i <= j < q@.len() implies (#[trigger] q@[i]).0
            <= (#[trigger] q@[j]).0 by {
            assert(q@[i] == old(q)@[i + 1] && q@[j] == old(q)@[j + 1]);
        }
    }
    r
}

/// The number of new cards a queue refresh admits: as many as the pool
/// holds, but at most `daily` and at most what room the queue cap leaves.
pub open spec fn spec_admitted(pool: int, queue_len: int, daily: int, cap: int) -> int {
    let room = if cap >= queue_len {
        if daily <= cap - queue_len {
            daily
        } else {
            cap - queue_len
        }
    } else {
        0
    };
    if pool <= room {
        pool
    } else {
        room
    }
}

/// The card scheduler.
///
/// This is the main state structure of the engine: it keeps the content,
/// the persisted schedule, the due-ordered queue, the pool of new cards and
/// the queue of admitted new cards, and the currently presented card.
#[derive(Debug)]
pub struct Scheduler {
    /// The part of the scheduler that is permanently stored.
    pub sched: Schedule,
    /// The content of the memory cards.
    pub deck: Deck,
    /// The currently presented metacard, as an index into
    /// `sched.metacards`.
    pub current_card: usize,
    /// The due-ordered queue of started cards: pairs of due time and
    /// metacard index, keys never decreasing.
    pub queue: Vec<(i64, usize)>,
    /// New cards that have not been admitted for presentation yet.
    pub new_cards: Vec<usize>,
    /// New cards admitted for presentation.
    pub new_queue: Vec<usize>,
    /// The number of cards counted as due at the last queue refresh.
    pub due: usize,
}

impl Scheduler {
    /// A valid metacard reference: in range, with content present in the
    /// deck.
    pub open spec fn valid_ref(&self, r: int) -> bool {
        &&& 0 <= r < self.sched.metacards@.len()
        &&& assoc_has(self.deck@.cards, self.sched.metacards@[r].id@)
    }

    /// Everything the scheduler keeps true between operations, except the
    /// validity of the current card (established by the first pick).
    pub open spec fn wf_queues(&self) -> bool {
        &&& self.deck@.wf()
        &&& queue_sorted(self.queue@)
        &&& self.due <= self.queue@.len()
        &&& forall|i: int|
            0 <= i < self.queue@.len() ==> self.valid_ref((#[trigger] self.queue@[i]).1 as int)
        &&& forall|i: int|
            0 <= i < self.new_cards@.len() ==> self.valid_ref(
                #[trigger] self.new_cards@[i] as int,
            )
        &&& forall|i: int|
            0 <= i < self.new_queue@.len() ==> self.valid_ref(
                #[trigger] self.new_queue@[i] as int,
            )
    }

    /// Everything the scheduler keeps true between operations.
    pub open spec fn wf(&self) -> bool {
        &&& self.wf_queues()
        &&& self.valid_ref(self.current_card as int)
    }

    /// Update the queues: recount the due cards, and once per calendar day
    /// top up the admitted-new queue from the pool, bounded by
    /// `max_new_daily` per refresh and `max_new_queue` in all.
    ///
    /// The postconditions carry the rate-limiter guarantees: the admitted
    /// queue grows by at most `max_new_daily`, never beyond the larger of
    /// its old length and `max_new_queue`, and not at all when the last
    /// refresh is less than a day old.
    pub fn update_at(&mut self, now: Time)
        requires
            old(self).wf_queues(),
        ensures
            final(self).wf_queues(),
            final(self).deck == old(self).deck,
            final(self).queue == old(self).queue,
            final(self).current_card == old(self).current_card,
            final(self).sched.metacards == old(self).sched.metacards,
            final(self).sched.statistics == old(self).sched.statistics,
            final(self).sched.tag_statistics == old(self).sched.tag_statistics,
            final(self).due == spec_count_due(old(self).queue@, now),
            final(self).new_cards@.len() + final(self).new_queue@.len() == old(
                self,
            ).new_cards@.len() + old(self).new_queue@.len(),
            final(self).new_queue@.len() >= old(self).new_queue@.len(),
            ({
                let stale = match old(self).sched.updated {
                    None => true,
                    Some(u) => now as int - u as int >= MINUTES_PER_DAY,
                };
                if stale {
                    let k = spec_admitted(
                        old(self).new_cards@.len() as int,
                        old(self).new_queue@.len() as int,
                        old(self).deck.settings.max_new_daily as int,
                        old(self).deck.settings.max_new_queue as int,
                    );
                    &&& final(self).sched.updated == Some(now)
                    &&& final(self).new_queue@.len() == old(self).new_queue@.len() + k
                    &&& final(self).new_queue@.take(old(self).new_queue@.len() as int) == old(
                        self,
                    ).new_queue@
                    &&& final(self).new_cards@ == old(self).new_cards@.take(
                        old(self).new_cards@.len() - k,
                    )
                    &&& forall|j: int|
                        old(self).new_queue@.len() <= j < final(self).new_queue@.len()
                            ==> #[trigger] final(self).new_queue@[j] == old(self).new_cards@[old(
                            self,
                        ).new_cards@.len() - 1 - (j - old(self).new_queue@.len())]
                    &&& final(self).new_queue@.len() - old(self).new_queue@.len() <= old(
                        self,
                    ).deck.settings.max_new_daily
                    &&& {
                        ||| final(self).new_queue@.len() <= old(self).new_queue@.len()
                        ||| final(self).new_queue@.len() <= old(self).deck.settings.max_new_queue
                    }
                } else {
                    &&& final(self).sched.updated == old(self).sched.updated
                    &&& final(self).new_queue@ == old(self).new_queue@
                    &&& final(self).new_cards@ == old(self).new_cards@
                }
            }),
    {
        self.due = count_due(&self.queue, now);
        let stale = match self.sched.updated {
            None => true,
            Some(u) => (now as i128 - u as i128) >= MINUTES_PER_DAY as i128,
        };
        if stale {
            self.sched.updated = Some(now);
            let len0 = self.new_queue.len();
            let nc0 = self.new_cards.len();
            let daily = self.deck.settings.max_new_daily;
            let cap = self.deck.settings.max_new_queue;
            let target: usize = match len0.checked_add(daily) {
                Some(sum) => if sum <= cap {
                    sum
                } else {
                    cap
                },
                None => cap,
            };
            let ghost q0 = self.new_queue@;
            let ghost nc_seq0 = self.new_cards@;
            while self.new_queue.len() < target && self.new_cards.len() > 0
                invariant
                    q0.len() <= self.new_queue@.len(),
                    self.new_queue@.len() <= q0.len() + nc_seq0.len(),
                    self.new_queue@.len() <= (if target >= q0.len() {
                        target as int
                    } else {
                        q0.len() as int
                    }),
                    self.new_cards@ == nc_seq0.take(
                        nc_seq0.len() - (self.new_queue@.len() - q0.len()),
                    ),
                    self.new_queue@.take(q0.len() as int) == q0,
                    forall|j: int|
                        q0.len() <= j < self.new_queue@.len() ==> #[trigger] self.new_queue@[j]
                            == nc_seq0[nc_seq0.len() - 1 - (j - q0.len())],
                    forall|i: int|
                        0 <= i < self.new_cards@.len() ==> self.valid_ref(
                            #[trigger] self.new_cards@[i] as int,
                        ),
                    forall|i: int|
                        0 <= i < self.new_queue@.len() ==> self.valid_ref(
                            #[trigger] self.new_queue@[i] as int,
                        ),
                    self.deck == old(self).deck,
                    self.queue == old(self).queue,
                    self.current_card == old(self).current_card,
                    self.sched.metacards == old(self).sched.metacards,
                    self.sched.statistics == old(self).sched.statistics,
                    self.sched.tag_statistics == old(self).sched.tag_statistics,
                    self.sched.updated == Some(now),
                    self.due == spec_count_due(old(self).queue@, now),
                    self.due <= self.queue@.len(),
                decreases self.new_cards@.len(),
            {
                let ghost qa = self.new_queue@;
                let ghost na = self.new_cards@;
                let c = match self.new_cards.pop() {
                    Some(c) => c,
                    None => {
                        proof {
                            assert(false);
                        }
                        unreached()
                    },
                };
                proof {
                    assert(na[na.len() - 1] == c);
                }
                self.new_queue.push(c);
                proof {
                    assert(self.new_cards@ =~= nc_seq0.take(
                        nc_seq0.len() - (self.new_queue@.len() - q0.len()),
                    ));
                    assert(self.new_queue@.take(q0.len() as int) =~= qa.take(q0.len() as int));
                }
            }
            proof {
                let k = spec_admitted(
                    nc_seq0.len() as int,
                    q0.len() as int,
                    daily as int,
                    cap as int,
                );
                assert(self.new_queue@.len() - q0.len() == k);
            }
        }
    }

    /// Update the queues at the current instant.
    ///
    /// Whatever instant the clock returned: nothing but the due count, the
    /// refresh stamp and the new queues changes, cards only move from the
    /// pool to the admitted queue, the rate limits hold, and either the
    /// refresh was skipped because one already happened (the stamp stays,
    /// the queues stay) or it ran and admitted exactly as many cards as the
    /// caps and the pool allow.
    pub fn update(&mut self)
        requires
            old(self).wf_queues(),
        ensures
            final(self).wf_queues(),
            final(self).deck == old(self).deck,
            final(self).queue == old(self).queue,
            final(self).current_card == old(self).current_card,
            final(self).sched.metacards == old(self).sched.metacards,
            final(self).sched.statistics == old(self).sched.statistics,
            final(self).sched.tag_statistics == old(self).sched.tag_statistics,
            final(self).new_cards@.len() + final(self).new_queue@.len() == old(
                self,
            ).new_cards@.len() + old(self).new_queue@.len(),
            final(self).new_queue@.take(old(self).new_queue@.len() as int) == old(self).new_queue@,
            final(self).new_queue@.len() - old(self).new_queue@.len() <= old(
                self,
            ).deck.settings.max_new_daily,
            final(self).new_queue@.len() <= old(self).new_queue@.len() || final(self).new_queue@.len() <= old(self).deck.settings.max_new_queue,
            ({
                let k = spec_admitted(
                    old(self).new_cards@.len() as int,
                    old(self).new_queue@.len() as int,
                    old(self).deck.settings.max_new_daily as int,
                    old(self).deck.settings.max_new_queue as int,
                );
                ||| {
                    &&& old(self).sched.updated is Some
                    &&& final(self).sched.updated == old(self).sched.updated
                    &&& final(self).new_queue@ == old(self).new_queue@
                    &&& final(self).new_cards@ == old(self).new_cards@
                }
                ||| {
                    &&& final(self).sched.updated is Some
                    &&& final(self).new_queue@.len() == old(self).new_queue@.len() + k
                    &&& final(self).new_cards@ == old(self).new_cards@.take(
                        old(self).new_cards@.len() - k,
                    )
                }
            }),
    {
        let now = crate::clock::now_minutes();
        self.update_at(now);
    }
}

/// Copy a list of tag names.
fn copy_strings(v: &Vec<String>) -> (r: Vec<String>)
    ensures
        r@.map_values(|t: String| t@) =~= v@.map_values(|t: String| t@),
{
    let mut r: Vec<String> = Vec::new();
    let mut i: usize = 0;
    while i < v.len()
        invariant
            i <= v@.len(),
            r@.len() == i,
            forall|j: int| 0 <= j < i ==> (#[trigger] r@[j])@ == v@[j]@,
        decreases v@.len() - i,
    {
        let c = v[i].clone();
        r.push(c);
        i = i + 1;
    }
    r
}

proof fn lemma_assoc_has_of_index<T>(s: Seq<(Seq<char>, T)>, i: int)
    requires
        0 <= i < s.len(),
    ensures
        assoc_has(s, s[i].0),
    decreases i,
{
    if s[0].0 == s[i].0 {
    } else {
        lemma_assoc_has_of_index(s.drop_first(), i - 1);
    }
}

/// Whether some metacard in the sequence carries this id.
pub open spec fn has_id(ms: Seq<Metacard>, id: Seq<char>) -> bool {
    exists|j: int| 0 <= j < ms.len() && (#[trigger] ms[j]).id@ == id
}

impl Scheduler {
    /// Where a not-yet-started card may sit: the candidate pool, the
    /// admitted queue, or the presented slot.
    pub open spec fn holds_new_ref(&self, m: int) -> bool {
        ||| self.new_cards@.contains(m as usize)
        ||| self.new_queue@.contains(m as usize)
        ||| self.current_card == m
    }

    /// Where a started card may sit: the due queue, keyed by its due time,
    /// or the presented slot.
    pub open spec fn holds_due_ref(&self, m: int) -> bool {
        ||| self.queue@.contains((self.sched.metacards@[m].due, m as usize))
        ||| self.current_card == m
    }

    /// Every metacard whose card still exists sits where its state says:
    /// new cards among the candidates, started cards in the due queue.
    pub open spec fn reconciled(&self) -> bool {
        forall|m: int|
            0 <= m < self.sched.metacards@.len() && assoc_has(
                self.deck@.cards,
                (#[trigger] self.sched.metacards@[m]).id@,
            ) ==> (if self.sched.metacards@[m].state is New {
                self.holds_new_ref(m)
            } else {
                self.holds_due_ref(m)
            })
    }

    /// As `reconciled`, but without counting the presented slot; holds up
    /// to the moment the first card is picked.
    spec fn strictly_reconciled(&self) -> bool {
        forall|m: int|
            0 <= m < self.sched.metacards@.len() && assoc_has(
                self.deck@.cards,
                (#[trigger] self.sched.metacards@[m]).id@,
            ) ==> (if self.sched.metacards@[m].state is New {
                self.new_cards@.contains(m as usize) || self.new_queue@.contains(m as usize)
            } else {
                self.queue@.contains((self.sched.metacards@[m].due, m as usize))
            })
    }

    /// Create a new scheduler from a deck and schedule, at the given
    /// instant.
    ///
    /// Reconciliation: every persisted metacard whose card still exists
    /// goes to the new-card pool or the due queue by its state; every deck
    /// card without a metacard gets a fresh one.  Then the queues are
    /// refreshed, one card is promoted if everything is still empty, and
    /// the first card is picked.
    ///
    /// Constructed from an empty, never-refreshed schedule with at least
    /// two cards and both introduction caps at least two, the scheduler
    /// starts with no due cards and a nonempty admitted-new queue.  With a
    /// single card (or a cap of one) that guarantee cannot hold: the lone
    /// admitted card becomes the presented card, and nothing else waits.
    pub fn new_at(deck: Deck, sched: Schedule, now: Time) -> (r: Scheduler)
        requires
            deck@.wf(),
            deck.cards@.len() > 0,
            -TIME_MAX <= now <= TIME_MAX,
        ensures
            r.wf(),
            r.deck == deck,
            r.sched.statistics == sched.statistics,
            r.sched.tag_statistics == sched.tag_statistics,
            // every persisted metacard is kept, bit for bit, in its place:
            // prior history survives, orphans are retained but never queued
            r.sched.metacards@.len() >= sched.metacards@.len(),
            forall|i: int|
                0 <= i < sched.metacards@.len() ==> #[trigger] r.sched.metacards@[i]
                    == sched.metacards@[i],
            // every appended metacard is fresh, for a deck card that had no
            // metacard before
            forall|i: int|
                sched.metacards@.len() <= i < r.sched.metacards@.len() ==> {
                    let m = #[trigger] r.sched.metacards@[i];
                    &&& m.state is New
                    &&& m.history@.len() == 0
                    &&& m.current_interval == 0
                    &&& m.due == now
                    &&& assoc_has(deck@.cards, m.id@)
                    &&& !has_id(sched.metacards@, m.id@)
                },
            // every deck card ends up represented by some metacard
            forall|c: int|
                0 <= c < deck@.cards.len() ==> has_id(
                    r.sched.metacards@,
                    (#[trigger] deck@.cards[c]).0,
                ),
            // classification: new cards among the candidates, started cards
            // in the due queue keyed by their due time
            r.reconciled(),
            // orphaned metacards are excluded from all queues and from the
            // presented slot
            forall|m: int|
                0 <= m < r.sched.metacards@.len() && !assoc_has(
                    deck@.cards,
                    (#[trigger] r.sched.metacards@[m]).id@,
                ) ==> !r.new_cards@.contains(m as usize) && !r.new_queue@.contains(m as usize)
                    && !(exists|i: int|
                    0 <= i < r.queue@.len() && (#[trigger] r.queue@[i]).1 == m) && r.current_card
                    != m,
            ({
                (sched.metacards@.len() == 0 && sched.updated is None && deck.cards@.len() >= 2
                    && deck.settings.max_new_daily >= 2 && deck.settings.max_new_queue >= 2)
                    ==> r.due == 0 && r.new_queue@.len() >= 1
            }),
    {
        let mut sched = sched;
        let orig_len = sched.metacards.len();
        let ghost updated0 = sched.updated;
        let ghost mc0 = sched.metacards@;
        let ghost stats0 = sched.statistics;
        let ghost tstats0 = sched.tag_statistics;
        let mut new_cards: Vec<usize> = Vec::new();
        let mut queue: Vec<(i64, usize)> = Vec::new();

        let mut m: usize = 0;
        while m < orig_len
            invariant
                m <= orig_len == sched.metacards@.len(),
                deck@.wf(),
                queue_sorted(queue@),
                forall|i: int|
                    0 <= i < queue@.len() ==> #[trigger] queue@[i].1 < sched.metacards@.len()
                        && assoc_has(deck@.cards, sched.metacards@[queue@[i].1 as int].id@),
                forall|i: int|
                    0 <= i < new_cards@.len() ==> #[trigger] new_cards@[i]
                        < sched.metacards@.len() && assoc_has(
                        deck@.cards,
                        sched.metacards@[new_cards@[i] as int].id@,
                    ),
                (exists|j: int|
                    0 <= j < m && assoc_has(
                        deck@.cards,
                        (#[trigger] sched.metacards@[j]).id@,
                    )) ==> queue@.len() + new_cards@.len() >= 1,
                sched.metacards@.len() == 0 ==> queue@.len() == 0 && new_cards@.len() == 0,
                sched.updated == updated0,
                sched.metacards@ == mc0,
                sched.statistics == stats0,
                sched.tag_statistics == tstats0,
                forall|j: int|
                    0 <= j < m && assoc_has(
                        deck@.cards,
                        (#[trigger] sched.metacards@[j]).id@,
                    ) ==> (if sched.metacards@[j].state is New {
                        new_cards@.contains(j as usize)
                    } else {
                        queue@.contains((sched.metacards@[j].due, j as usize))
                    }),
            decreases orig_len - m,
        {
            let id_chars = chars_to_vec(sched.metacards[m].id.as_str());
            match deck.find_card(id_chars.as_slice()) {
                Some(_) => {
                    match sched.metacards[m].state {
                        CardState::New => {
                            let ghost nc_pre = new_cards@;
                            new_cards.push(m);
                            proof {
                                assert(new_cards@.last() == m);
                                assert forall|x: usize| nc_pre.contains(x)
                                    implies new_cards@.contains(x) by {
                                    let i = choose|i: int|
                                        0 <= i < nc_pre.len() && nc_pre[i] == x;
                                    assert(new_cards@[i] == x);
                                }
                            }
                        },
                        _ => {
                            queue_insert(&mut queue, sched.metacards[m].due, m);
                        },
                    }
                },
                None => {},
            }
            m = m + 1;
        }

        let mut c: usize = 0;
        while c < deck.cards.len()
            invariant
                c <= deck.cards@.len(),
                deck@.wf(),
                deck@.cards.len() == deck.cards@.len(),
                orig_len <= sched.metacards@.len(),
                queue_sorted(queue@),
                forall|i: int|
                    0 <= i < queue@.len() ==> #[trigger] queue@[i].1 < sched.metacards@.len()
                        && assoc_has(deck@.cards, sched.metacards@[queue@[i].1 as int].id@),
                forall|i: int|
                    0 <= i < new_cards@.len() ==> #[trigger] new_cards@[i]
                        < sched.metacards@.len() && assoc_has(
                        deck@.cards,
                        sched.metacards@[new_cards@[i] as int].id@,
                    ),
                (exists|j: int|
                    0 <= j < orig_len && assoc_has(
                        deck@.cards,
                        (#[trigger] sched.metacards@[j]).id@,
                    )) ==> queue@.len() + new_cards@.len() >= 1,
                c >= 1 ==> queue@.len() + new_cards@.len() >= 1,
                orig_len == 0 ==> queue@.len() == 0 && new_cards@.len() == c,
                sched.updated == updated0,
                sched.statistics == stats0,
                sched.tag_statistics == tstats0,
                mc0.len() == orig_len,
                forall|i: int| 0 <= i < orig_len ==> #[trigger] sched.metacards@[i] == mc0[i],
                forall|i: int|
                    orig_len <= i < sched.metacards@.len() ==> {
                        let mc = #[trigger] sched.metacards@[i];
                        &&& mc.state is New
                        &&& mc.history@.len() == 0
                        &&& mc.current_interval == 0
                        &&& mc.due == now
                        &&& assoc_has(deck@.cards, mc.id@)
                        &&& !has_id(mc0, mc.id@)
                    },
                forall|j: int|
                    0 <= j < sched.metacards@.len() && assoc_has(
                        deck@.cards,
                        (#[trigger] sched.metacards@[j]).id@,
                    ) ==> (if sched.metacards@[j].state is New {
                        new_cards@.contains(j as usize)
                    } else {
                        queue@.contains((sched.metacards@[j].due, j as usize))
                    }),
                forall|cc: int|
                    0 <= cc < c ==> has_id(sched.metacards@, (#[trigger] deck@.cards[cc]).0),
            decreases deck.cards@.len() - c,
        {
            let id = deck.cards[c].0.clone();
            let mut present = false;
            let mut m2: usize = 0;
            while m2 < orig_len && !present
                invariant
                    m2 <= orig_len <= sched.metacards@.len(),
                    present ==> (exists|j: int|
                        0 <= j < orig_len && (#[trigger] sched.metacards@[j]).id@ == id@),
                    !present ==> forall|j: int|
                        0 <= j < m2 ==> (#[trigger] sched.metacards@[j]).id@ != id@,
                decreases orig_len - m2 + (if present {
                    0int
                } else {
                    1int
                }),
            {
                if sched.metacards[m2].id == id {
                    present = true;
                } else {
                    m2 = m2 + 1;
                }
            }
            proof {
                assert(deck@.cards[c as int].0 == id@);
                lemma_assoc_has_of_index(deck@.cards, c as int);
            }
            if !present {
                let new_index = sched.metacards.len();
                let ts = deck.tag_settings(deck.cards[c].1.tags.as_slice());
                let fresh = Metacard::new_at(id, ts, now);
                proof {
                    assert(fresh.id@ == deck@.cards[c as int].0);
                    assert(fresh.history@.len() == 0);
                    assert(fresh.id@ == id@);
                    assert forall|j: int| 0 <= j < mc0.len() implies (#[trigger] mc0[j]).id@
                        != id@ by {
                        assert(sched.metacards@[j] == mc0[j]);
                        assert(sched.metacards@[j].id@ != id@);
                    }
                    assert(!has_id(mc0, fresh.id@));
                }
                let ghost mc_pre = sched.metacards@;
                let ghost nc_pre = new_cards@;
                sched.metacards.push(fresh);
                new_cards.push(new_index);
                proof {
                    assert(sched.metacards@.last() == fresh);
                    assert(new_cards@.last() == new_index);
                    assert forall|x: usize| nc_pre.contains(x)
                        implies new_cards@.contains(x) by {
                        let i = choose|i: int| 0 <= i < nc_pre.len() && nc_pre[i] == x;
                        assert(new_cards@[i] == x);
                    }
                    assert forall|cc: int|
                        0 <= cc <= c implies has_id(
                        sched.metacards@,
                        (#[trigger] deck@.cards[cc]).0,
                    ) by {
                        if cc < c {
                            let j = choose|j: int|
                                0 <= j < mc_pre.len() && (#[trigger] mc_pre[j]).id@
                                    == deck@.cards[cc].0;
                            assert(sched.metacards@[j].id@ == deck@.cards[cc].0);
                        } else {
                            assert(sched.metacards@.last().id@ == deck@.cards[cc].0);
                        }
                    }
                }
            } else {
                proof {
                    let j = choose|j: int|
                        0 <= j < orig_len && (#[trigger] sched.metacards@[j]).id@ == id@;
                    assert(assoc_has(deck@.cards, sched.metacards@[j].id@));
                    assert(has_id(sched.metacards@, deck@.cards[c as int].0)) by {
                        assert(sched.metacards@[j].id@ == deck@.cards[c as int].0);
                    }
                }
            }
            c = c + 1;
        }

        let mut r = Scheduler {
            sched,
            deck,
            new_cards,
            new_queue: Vec::new(),
            current_card: 0,
            queue,
            due: 0,
        };
        proof {
            assert(r.strictly_reconciled());
        }
        let ghost pre_u = r;
        r.update_at(now);
        proof {
            if orig_len == 0 && updated0 is None && r.deck.cards@.len() >= 2
                && r.deck.settings.max_new_daily >= 2 && r.deck.settings.max_new_queue >= 2 {
                assert(r.queue@.len() == 0);
                assert(r.due == 0);
                assert(r.new_queue@.len() >= 2);
            }
            // the refresh only moves cards from the pool to the admitted
            // queue, so the classification survives
            assert forall|m: int|
                0 <= m < r.sched.metacards@.len() && assoc_has(
                    r.deck@.cards,
                    (#[trigger] r.sched.metacards@[m]).id@,
                ) implies (if r.sched.metacards@[m].state is New {
                r.new_cards@.contains(m as usize) || r.new_queue@.contains(m as usize)
            } else {
                r.queue@.contains((r.sched.metacards@[m].due, m as usize))
            }) by {
                if r.sched.metacards@[m].state is New {
                    assert(pre_u.new_cards@.contains(m as usize));
                    let i = choose|i: int|
                        0 <= i < pre_u.new_cards@.len() && pre_u.new_cards@[i] == m as usize;
                    let stale = match pre_u.sched.updated {
                        None => true,
                        Some(u) => now as int - u as int >= MINUTES_PER_DAY,
                    };
                    if stale {
                        let k = spec_admitted(
                            pre_u.new_cards@.len() as int,
                            pre_u.new_queue@.len() as int,
                            pre_u.deck.settings.max_new_daily as int,
                            pre_u.deck.settings.max_new_queue as int,
                        );
                        if i < pre_u.new_cards@.len() - k {
                            assert(r.new_cards@[i] == m as usize);
                        } else {
                            let j = pre_u.new_queue@.len() + (pre_u.new_cards@.len() - 1 - i);
                            assert(r.new_queue@[j] == m as usize);
                        }
                    } else {
                        assert(r.new_cards@[i] == m as usize);
                    }
                }
            }
        }
        if r.new_queue.len() == 0 && r.queue.len() == 0 {
            let ghost pre_f = r;
            let c2 = match r.new_cards.pop() {
                Some(c2) => c2,
                None => {
                    proof {
                        assert(false);
                    }
                    unreached()
                },
            };
            r.new_queue.push(c2);
            proof {
                assert(r.new_cards@ == pre_f.new_cards@.drop_last());
                assert(r.new_queue@.last() == c2);
                assert(pre_f.new_cards@.last() == c2);
                // the promoted card moved from the pool into the admitted
                // queue; everything else stayed put
                assert forall|m: int|
                    0 <= m < r.sched.metacards@.len() && assoc_has(
                        r.deck@.cards,
                        (#[trigger] r.sched.metacards@[m]).id@,
                    ) implies (if r.sched.metacards@[m].state is New {
                    r.new_cards@.contains(m as usize) || r.new_queue@.contains(m as usize)
                } else {
                    r.queue@.contains((r.sched.metacards@[m].due, m as usize))
                }) by {
                    if r.sched.metacards@[m].state is New
                        && pre_f.new_cards@.contains(m as usize) {
                        let i = choose|i: int|
                            0 <= i < pre_f.new_cards@.len() && pre_f.new_cards@[i]
                                == m as usize;
                        if i < pre_f.new_cards@.len() - 1 {
                            assert(r.new_cards@[i] == m as usize);
                        } else {
                            assert(m as usize == c2);
                        }
                    }
                }
            }
        }
        let mc_count = r.sched.metacards.len();
        proof {
            assert(r.sched.metacards@.len() == mc_count);
        }
        let ghost before_pick = r;
        r.pick_card();
        proof {
            if orig_len == 0 && updated0 is None && r.deck.cards@.len() >= 2
                && r.deck.settings.max_new_daily >= 2 && r.deck.settings.max_new_queue >= 2 {
                assert(spec_picked_new(before_pick, r));
                assert(r.new_queue@.len() >= 1);
                assert(r.due == 0);
            }
            // the pick moves exactly one card into the presented slot
            assert forall|m: int|
                0 <= m < r.sched.metacards@.len() && assoc_has(
                    r.deck@.cards,
                    (#[trigger] r.sched.metacards@[m]).id@,
                ) implies (if r.sched.metacards@[m].state is New {
                r.holds_new_ref(m)
            } else {
                r.holds_due_ref(m)
            }) by {
                if spec_picked_new(before_pick, r) {
                    if r.sched.metacards@[m].state is New
                        && before_pick.new_queue@.contains(m as usize) {
                        let i = choose|i: int|
                            0 <= i < before_pick.new_queue@.len() && before_pick.new_queue@[i]
                                == m as usize;
                        if i < before_pick.new_queue@.len() - 1 {
                            assert(r.new_queue@[i] == before_pick.new_queue@[i]);
                            assert(r.new_queue@[i] == m as usize);
                        } else {
                            assert(i == before_pick.new_queue@.len() - 1);
                            assert(before_pick.new_queue@.last() == m as usize);
                            assert(r.current_card == before_pick.new_queue@.last());
                            assert(r.current_card == m);
                        }
                    }
                } else {
                    assert(spec_picked_due(before_pick, r));
                    if !(r.sched.metacards@[m].state is New) {
                        let p = (r.sched.metacards@[m].due, m as usize);
                        assert(before_pick.queue@.contains(p));
                        let i = choose|i: int|
                            0 <= i < before_pick.queue@.len() && before_pick.queue@[i] == p;
                        if i == 0 {
                            assert(r.current_card == m);
                        } else {
                            assert(r.queue@[i - 1] == before_pick.queue@[i]);
                            assert(r.queue@[i - 1] == p);
                        }
                    }
                }
            }
            // orphans sit in no queue and are never presented, since every
            // queued reference is valid
            assert forall|m: int|
                0 <= m < r.sched.metacards@.len() && !assoc_has(
                    r.deck@.cards,
                    (#[trigger] r.sched.metacards@[m]).id@,
                ) implies !r.new_cards@.contains(m as usize) && !r.new_queue@.contains(
                m as usize,
            ) && !(exists|i: int|
                0 <= i < r.queue@.len() && (#[trigger] r.queue@[i]).1 == m) && r.current_card
                != m by {
                if r.new_cards@.contains(m as usize) {
                    let i = choose|i: int|
                        0 <= i < r.new_cards@.len() && r.new_cards@[i] == m as usize;
                    assert(r.valid_ref(r.new_cards@[i] as int));
                }
                if r.new_queue@.contains(m as usize) {
                    let i = choose|i: int|
                        0 <= i < r.new_queue@.len() && r.new_queue@[i] == m as usize;
                    assert(r.valid_ref(r.new_queue@[i] as int));
                }
                if exists|i: int| 0 <= i < r.queue@.len() && (#[trigger] r.queue@[i]).1 == m {
                    let i = choose|i: int|
                        0 <= i < r.queue@.len() && (#[trigger] r.queue@[i]).1 == m;
                    assert(r.valid_ref(r.queue@[i].1 as int));
                }
                if r.current_card == m {
                    assert(r.valid_ref(r.current_card as int));
                }
            }
        }
        r
    }

    /// Create a new scheduler from a deck and schedule, at the current
    /// instant.
    pub fn new(deck: Deck, sched: Schedule) -> (r: Scheduler)
        requires
            deck@.wf(),
            deck.cards@.len() > 0,
        ensures
            r.wf(),
            r.deck == deck,
    {
        let now = crate::clock::now_minutes();
        Scheduler::new_at(deck, sched, now)
    }

    /// Reschedule the current card by its (new) due time, counting it as
    /// due when that time is not in the future.
    fn reschedule_at(&mut self, now: Time)
        requires
            old(self).wf(),
        ensures
            final(self).wf(),
            final(self).deck == old(self).deck,
            final(self).sched == old(self).sched,
            final(self).current_card == old(self).current_card,
            final(self).new_cards == old(self).new_cards,
            final(self).new_queue == old(self).new_queue,
            final(self).queue@.len() == old(self).queue@.len() + 1,
            final(self).queue@.contains(
                (
                    old(self).sched.metacards@[old(self).current_card as int].due,
                    old(self).current_card,
                ),
            ),
            forall|i: int|
                0 <= i < old(self).queue@.len() ==> final(self).queue@.contains(
                    #[trigger] old(self).queue@[i],
                ),
            final(self).due == old(self).due + (if old(self).sched.metacards@[old(
                self,
            ).current_card as int].due <= now {
                1int
            } else {
                0int
            }),
    {
        let due_time = self.sched.metacards[self.current_card].due;
        queue_insert(&mut self.queue, due_time, self.current_card);
        let queue_len = self.queue.len();
        if due_time <= now {
            proof {
                assert(self.due < queue_len);
            }
            self.due = self.due + 1;
        }
    }

    /// Pick the next card to present, without rescheduling the current one.
    ///
    /// With no admitted new cards the earliest due card is taken; with no
    /// due cards an admitted new card is taken; otherwise a random choice
    /// interleaves the two as evenly as possible.  Whatever the random
    /// outcome, exactly one of the two pops below happens.
    pub fn pick_card(&mut self)
        requires
            old(self).wf_queues(),
            old(self).new_queue@.len() + old(self).queue@.len() > 0,
        ensures
            final(self).wf(),
            final(self).deck == old(self).deck,
            final(self).sched == old(self).sched,
            final(self).new_cards == old(self).new_cards,
            spec_picked_new(*old(self), *final(self)) || spec_picked_due(
                *old(self),
                *final(self),
            ),
            old(self).new_queue@.len() == 0 ==> spec_picked_due(*old(self), *final(self)),
            old(self).due == 0 && old(self).new_queue@.len() > 0 ==> spec_picked_new(
                *old(self),
                *final(self),
            ),
    {
        let pick_new: bool = if self.new_queue.len() == 0 {
            false
        } else if self.due == 0 {
            true
        } else if self.new_queue.len() <= self.due {
            let n32 = to_u32_saturating(self.new_queue.len());
            let d32 = to_u32_saturating(self.due);
            gen_ratio(n32, d32)
        } else {
            let n32 = to_u32_saturating(self.new_queue.len());
            let d32 = to_u32_saturating(self.due);
            !gen_ratio(d32, n32)
        };
        if pick_new {
            let c = match self.new_queue.pop() {
                Some(c) => c,
                None => {
                    proof {
                        assert(false);
                    }
                    unreached()
                },
            };
            self.current_card = c;
        } else {
            let (_, c) = queue_pop_first(&mut self.queue);
            self.current_card = c;
            if self.due != 0 {
                self.due = self.due - 1;
            }
        }
    }
}

/// What picking an admitted new card does: the most recently admitted entry
/// leaves the new queue and becomes current; the due queue and counter stay.
pub open spec fn spec_picked_new(pre: Scheduler, post: Scheduler) -> bool {
    &&& pre.new_queue@.len() > 0
    &&& post.new_queue@ == pre.new_queue@.drop_last()
    &&& post.current_card == pre.new_queue@.last()
    &&& post.queue == pre.queue
    &&& post.due == pre.due
}

/// What picking a due card does: the earliest-due entry leaves the due
/// queue and becomes current; the due counter falls by one, floored at
/// zero; the new queue stays.
pub open spec fn spec_picked_due(pre: Scheduler, post: Scheduler) -> bool {
    &&& pre.queue@.len() > 0
    &&& post.queue@ == pre.queue@.drop_first()
    &&& post.current_card == pre.queue@[0].1
    &&& post.new_queue == pre.new_queue
    &&& post.due == (if pre.due > 0 {
        (pre.due - 1) as usize
    } else {
        0
    })
}

/// A length squeezed into a `u32` for the random ratio.
fn to_u32_saturating(n: usize) -> (r: u32)
    ensures
        r as int == (if n <= u32::MAX as int {
            n as int
        } else {
            u32::MAX as int
        }),
{
    if n >= u32::MAX as usize {
        u32::MAX
    } else {
        n as u32
    }
}

/// A familiarity value as read for averaging, clamped into `[0, 1000000]`.
pub open spec fn clamped_fam(f: int) -> int {
    spec_clamp(f, 0, 1_000_000)
}

/// Fresh statistics for a tag first reviewed under the given settings.
pub open spec fn spec_fresh_stats(ts: TagSettingsModel) -> StatisticsModel {
    StatisticsModel {
        reviews: Seq::empty(),
        activity: Seq::empty(),
        adaptive_retention_rate: ts.desired_retention_rate,
        familiarity: 1000,
    }
}

/// Walk a card's tags in order, recording the review in each tag's
/// statistics (creating them at first use) and summing the familiarity of
/// the entries that already existed: the familiarity sum, the number of
/// summands, and the statistics afterwards.
pub open spec fn spec_stats_fold(
    stats: Seq<(Seq<char>, StatisticsModel)>,
    tags: Seq<Seq<char>>,
    score: Score,
    ts: TagSettingsModel,
    day: i64,
) -> (int, int, Seq<(Seq<char>, StatisticsModel)>)
    decreases tags.len(),
{
    if tags.len() == 0 {
        (0int, 0int, stats)
    } else {
        let t = tags[0];
        match assoc_find(stats, t) {
            Some(st) => {
                let rec = spec_stats_fold(
                    assoc_insert(stats, t, st.reviewed(score, ts, day)),
                    tags.drop_first(),
                    score,
                    ts,
                    day,
                );
                (clamped_fam(st.familiarity as int) + rec.0, 1 + rec.1, rec.2)
            },
            None => spec_stats_fold(
                stats.push((t, spec_fresh_stats(ts).reviewed(score, ts, day))),
                tags.drop_first(),
                score,
                ts,
                day,
            ),
        }
    }
}

/// Walk a card's tags in order, summing the familiarity of existing
/// entries without changing anything: the sum and the number of summands.
pub open spec fn spec_fam_scan(
    stats: Seq<(Seq<char>, StatisticsModel)>,
    tags: Seq<Seq<char>>,
) -> (int, int)
    decreases tags.len(),
{
    if tags.len() == 0 {
        (0int, 0int)
    } else {
        let rec = spec_fam_scan(stats, tags.drop_first());
        match assoc_find(stats, tags[0]) {
            Some(st) => (clamped_fam(st.familiarity as int) + rec.0, 1 + rec.1),
            None => rec,
        }
    }
}

/// The average familiarity: the global familiarity plus the per-tag sum,
/// divided by the number of contributions.
pub open spec fn spec_avg_familiarity(global_fam: int, sum: int, count: int) -> int {
    (clamped_fam(global_fam) + sum) / (1 + count)
}

/// The first entry of a tag in the tag statistics.
fn find_tag_stat(v: &Vec<TagStatistics>, name: &[char]) -> (r: Option<usize>)
    ensures
        match r {
            Some(i) => i < v@.len() && v@[i as int].name@ == name@ && forall|j: int|
                0 <= j < i ==> (#[trigger] v@[j]).name@ != name@,
            None => forall|j: int| 0 <= j < v@.len() ==> (#[trigger] v@[j]).name@ != name@,
        },
{
    let mut i: usize = 0;
    while i < v.len()
        invariant
            i <= v@.len(),
            forall|j: int| 0 <= j < i ==> (#[trigger] v@[j]).name@ != name@,
        decreases v@.len() - i,
    {
        let nm = chars_to_vec(v[i].name.as_str());
        if crate::text::eq_chars(nm.as_slice(), name) {
            return Some(i);
        }
        i = i + 1;
    }
    None
}

impl Scheduler {
    /// The model of the currently presented metacard.
    pub open spec fn current_model(&self) -> MetacardModel {
        self.sched.metacards@[self.current_card as int]@
    }

    /// The model of the currently presented card's content.
    pub open spec fn current_card_model(&self) -> CardModel {
        assoc_find(self.deck@.cards, self.current_model().id).unwrap()
    }

    /// The settings group that applies to the currently presented card.
    pub open spec fn resolved_ts(&self) -> TagSettingsModel {
        self.deck@.resolved_settings(self.current_card_model().tags)
    }

    /// The effective interval ceiling of the currently presented card: the
    /// smaller of the card's own bound and the resolved group's bound.
    pub open spec fn effective_ceiling(&self) -> int {
        crate::cards::min64(
            self.current_card_model().max_interval as int,
            self.resolved_ts().max_interval as int,
        )
    }

    /// Record the review of `score`, update statistics, reschedule, and pick
    /// the next card, all as the specification functions describe.
    ///
    /// The reviewed metacard ends exactly as the card state machine says,
    /// with the familiarity modifier taken as the average over the global
    /// statistics and the statistics of the card's tags, and the interval
    /// ceiling as the effective ceiling; the global statistics and the
    /// per-tag statistics end as `StatisticsModel::reviewed` and
    /// `spec_stats_fold` say.
    pub fn review_at(&mut self, score: Score, now: Time)
        requires
            old(self).wf(),
            -TIME_MAX <= now <= TIME_MAX,
        ensures
            final(self).wf(),
            final(self).deck == old(self).deck,
            final(self).sched.metacards@.len() == old(self).sched.metacards@.len(),
            forall|i: int|
                0 <= i < old(self).sched.metacards@.len() && i != old(self).current_card as int
                    ==> #[trigger] final(self).sched.metacards@[i] == old(
                    self,
                ).sched.metacards@[i],
            final(self).sched.updated is Some,
            ({
                let idx = old(self).current_card as int;
                let mc0 = old(self).current_model();
                let ts = old(self).resolved_ts();
                let day = spec_day_number(now as int) as i64;
                let fold = spec_stats_fold(
                    old(self).sched@.tag_statistics,
                    old(self).current_card_model().tags,
                    score,
                    ts,
                    day,
                );
                let avg = spec_avg_familiarity(
                    old(self).sched.statistics@.familiarity as int,
                    fold.0,
                    fold.1,
                );
                let mc1 = final(self).sched.metacards@[idx]@;
                &&& mc1.id == mc0.id
                &&& mc1.history == mc0.history.push(
                    Review {
                        time: now,
                        due: mc0.due,
                        score,
                        ended_interval: mc0.current_interval,
                        state_before: mc0.state,
                        ease_before: mc0.ease,
                    },
                )
                &&& mc1.state == spec_next_state(mc0.state, ts, score)
                &&& mc1.current_interval == spec_review_interval(
                    mc0.state,
                    mc0.current_interval as int,
                    mc0.ease as int,
                    ts,
                    score,
                    old(self).current_card_model().priority as int,
                    avg,
                    old(self).effective_ceiling(),
                )
                &&& mc1.due == now + mc1.current_interval
                &&& mc1.ease == (if mc0.state is Learnt {
                    spec_new_ease(mc0.ease as int, ts, score)
                } else {
                    mc0.ease as int
                })
                &&& final(self).sched.statistics@ == old(self).sched.statistics@.reviewed(
                    score,
                    ts,
                    day,
                )
                &&& final(self).sched@.tag_statistics == fold.2
            }),
    {
        let idx = self.current_card;
        let ghost tags_model = self.current_card_model().tags;
        let id_chars = chars_to_vec(self.sched.metacards[idx].id.as_str());
        let (ts, card_priority, card_max, tags): (TagSettings, u8, i64, Vec<String>) = {
            let card = match self.deck.find_card(id_chars.as_slice()) {
                Some(card) => card,
                None => {
                    proof {
                        assert(false);
                    }
                    unreached()
                },
            };
            let ts = self.deck.tag_settings(card.tags.as_slice()).duplicate();
            proof {
                lemma_assoc_found_card_ok(self.deck@.cards, self.sched.metacards@[idx as int].id@);
            }
            (ts, card.priority, card.max_interval, copy_strings(&card.tags))
        };
        proof {
            assert(str_views_of(tags@) =~= tags_model);
        }
        let day = day_number(now);
        let gfam = clamp_i64(self.sched.statistics.familiarity, 0, 1_000_000);
        self.sched.statistics.review(score, &ts, day);

        let ghost stats0 = self.sched@.tag_statistics;
        let ghost glob_after = self.sched.statistics;
        let mut sum: i128 = 0;
        let mut count: usize = 0;
        let mut t: usize = 0;
        proof {
            assert(tags_model.skip(0) =~= tags_model);
        }
        while t < tags.len()
            invariant
                t <= tags@.len(),
                tags_model == str_views_of(tags@),
                count <= t,
                0 <= sum <= count as int * 1_000_000,
                self.deck == old(self).deck,
                self.queue == old(self).queue,
                self.new_cards == old(self).new_cards,
                self.new_queue == old(self).new_queue,
                self.due == old(self).due,
                self.current_card == old(self).current_card,
                self.sched.metacards == old(self).sched.metacards,
                self.sched.statistics == glob_after,
                self.sched.updated == old(self).sched.updated,
                spec_stats_fold(stats0, tags_model, score, ts@, day) == ({
                    let rec = spec_stats_fold(
                        self.sched@.tag_statistics,
                        tags_model.skip(t as int),
                        score,
                        ts@,
                        day,
                    );
                    (sum + rec.0, count as int + rec.1, rec.2)
                }),
            decreases tags@.len() - t,
        {
            let tag_chars = chars_to_vec(tags[t].as_str());
            proof {
                assert(tags_model.skip(t as int)[0] == tags@[t as int]@);
                assert(tags_model.skip(t as int).drop_first() =~= tags_model.skip(t + 1));
            }
            match find_tag_stat(&self.sched.tag_statistics, tag_chars.as_slice()) {
                Some(i) => {
                    proof {
                        lemma_assoc_find_at(self.sched@.tag_statistics, tags@[t as int]@, i as int);
                        lemma_assoc_insert_update(
                            self.sched@.tag_statistics,
                            tags@[t as int]@,
                            self.sched@.tag_statistics[i as int].1.reviewed(score, ts@, day),
                            i as int,
                        );
                    }
                    let f = clamp_i64(self.sched.tag_statistics[i].stats.familiarity, 0, 1_000_000);
                    sum = sum + f as i128;
                    count = count + 1;
                    let ghost pre_stats = self.sched@.tag_statistics;
                    let p = &mut self.sched.tag_statistics[i];
                    p.stats.review(score, &ts, day);
                    proof {
                        assert(self.sched@.tag_statistics =~= assoc_insert(
                            pre_stats,
                            tags@[t as int]@,
                            pre_stats[i as int].1.reviewed(score, ts@, day),
                        ));
                    }
                },
                None => {
                    proof {
                        crate::deck::lemma_assoc_find_none(
                            self.sched@.tag_statistics,
                            tags@[t as int]@,
                        );
                    }
                    let mut st = Statistics::new(&ts);
                    proof {
                        assert(st@ =~= spec_fresh_stats(ts@));
                    }
                    st.review(score, &ts, day);
                    let ghost pre_stats = self.sched@.tag_statistics;
                    let ghost st_model = st@;
                    let name = tags[t].clone();
                    self.sched.tag_statistics.push(TagStatistics { name, stats: st });
                    proof {
                        assert(self.sched@.tag_statistics =~= pre_stats.push(
                            (tags@[t as int]@, st_model),
                        ));
                    }
                },
            }
            t = t + 1;
        }
        proof {
            assert(tags_model.skip(tags_model.len() as int) =~= Seq::<Seq<char>>::empty());
            assert(count as int + 1 <= i128::MAX);
            assert((gfam as int + sum) / (1 + count as int) <= 1_000_000) by (nonlinear_arith)
                requires
                    0 <= gfam <= 1_000_000,
                    0 <= sum <= count as int * 1_000_000,
                    count >= 0,
            ;
        }
        let avg_wide: i128 = (gfam as i128 + sum) / (1 + count as i128);
        let avg: i64 = avg_wide as i64;

        let ceiling: i64 = if card_max <= ts.max_interval {
            card_max
        } else {
            ts.max_interval
        };
        let ghost mc_pre = self.sched.metacards@;
        let mc = &mut self.sched.metacards[idx];
        mc.review_at(&ts, score, card_priority, avg, ceiling, now);
        proof {
            assert(self.sched.metacards@ =~= mc_pre.update(idx as int, self.sched.metacards@[idx as int]));
        }

        self.reschedule_at(now);
        self.pick_card();
        self.update_at(now);
    }

    /// Record the review of `score` at the current instant.
    ///
    /// Whatever instant the clock returned: the score lands in the global
    /// statistics, the reviewed metacard keeps its id, grows its history by
    /// exactly the one new record, and takes the state and ease the card
    /// state machine assigns, and no other metacard changes.
    pub fn review(&mut self, score: Score)
        requires
            old(self).wf(),
        ensures
            final(self).wf(),
            final(self).deck == old(self).deck,
            final(self).sched.metacards@.len() == old(self).sched.metacards@.len(),
            forall|i: int|
                0 <= i < old(self).sched.metacards@.len() && i != old(self).current_card as int
                    ==> #[trigger] final(self).sched.metacards@[i] == old(
                    self,
                ).sched.metacards@[i],
            final(self).sched.statistics@.reviews == old(self).sched.statistics@.reviews.push(
                score,
            ),
            ({
                let idx = old(self).current_card as int;
                let mc0 = old(self).current_model();
                let mc1 = final(self).sched.metacards@[idx]@;
                &&& mc1.id == mc0.id
                &&& mc1.history.len() == mc0.history.len() + 1
                &&& mc1.history.take(mc0.history.len() as int) == mc0.history
                &&& mc1.state == spec_next_state(mc0.state, old(self).resolved_ts(), score)
                &&& mc1.ease == (if mc0.state is Learnt {
                    spec_new_ease(mc0.ease as int, old(self).resolved_ts(), score)
                } else {
                    mc0.ease as int
                })
            }),
    {
        let now = crate::clock::now_minutes();
        self.review_at(score, now);
    }
}

/// The views of a sequence of strings.
pub open spec fn str_views_of(s: Seq<String>) -> Seq<Seq<char>> {
    s.map_values(|t: String| t@)
}

proof fn lemma_assoc_found_card_ok(s: Seq<(Seq<char>, CardModel)>, k: Seq<char>)
    requires
        assoc_find(s, k) is Some,
        forall|i: int|
            0 <= i < s.len() ==> (#[trigger] s[i]).1.priority < SCORES && 0 <= s[i].1.max_interval
                <= MAX_MINUTES,
    ensures
        assoc_find(s, k).unwrap().priority < SCORES,
        0 <= assoc_find(s, k).unwrap().max_interval <= MAX_MINUTES,
    decreases s.len(),
{
    if s.len() > 0 && s[0].0 != k {
        assert forall|i: int|
            0 <= i < s.drop_first().len() implies (#[trigger] s.drop_first()[i]).1.priority
            < SCORES && 0 <= s.drop_first()[i].1.max_interval <= MAX_MINUTES by {
            assert(s.drop_first()[i] == s[i + 1]);
        }
        lemma_assoc_found_card_ok(s.drop_first(), k);
    }
}

impl Scheduler {
    /// Postpone the current card to one day from `now`.
    ///
    /// This is a scheduler-level operation of its own, deliberately weaker
    /// than a review: only the due time moves (to `now` plus one day); the
    /// card's state, interval, ease and history stay untouched, no
    /// statistics are recorded, and then the card is requeued and the next
    /// one picked exactly as after a review.
    pub fn postpone_at(&mut self, now: Time)
        requires
            old(self).wf(),
            -TIME_MAX <= now <= TIME_MAX,
        ensures
            final(self).wf(),
            final(self).deck == old(self).deck,
            final(self).sched.metacards@.len() == old(self).sched.metacards@.len(),
            forall|i: int|
                0 <= i < old(self).sched.metacards@.len() && i != old(self).current_card as int
                    ==> #[trigger] final(self).sched.metacards@[i] == old(
                    self,
                ).sched.metacards@[i],
            ({
                let idx = old(self).current_card as int;
                let mc0 = old(self).current_model();
                let mc1 = final(self).sched.metacards@[idx]@;
                &&& mc1.id == mc0.id
                &&& mc1.state == mc0.state
                &&& mc1.current_interval == mc0.current_interval
                &&& mc1.ease == mc0.ease
                &&& mc1.history == mc0.history
                &&& mc1.due == now + MINUTES_PER_DAY
            }),
            final(self).sched.statistics == old(self).sched.statistics,
            final(self).sched.tag_statistics == old(self).sched.tag_statistics,
    {
        let idx = self.current_card;
        let ghost mc_pre = self.sched.metacards@;
        let mc = &mut self.sched.metacards[idx];
        mc.due = now + MINUTES_PER_DAY;
        proof {
            assert(self.sched.metacards@ =~= mc_pre.update(
                idx as int,
                self.sched.metacards@[idx as int],
            ));
        }
        self.reschedule_at(now);
        self.pick_card();
        self.update_at(now);
    }

    /// Postpone the current card to one day from the current instant.
    ///
    /// Whatever instant the clock returned: only the current card's due
    /// time moves (to at most a day past the clock's range), its state,
    /// interval, ease and history stay, no other metacard changes, and no
    /// statistics are recorded.
    pub fn postpone(&mut self)
        requires
            old(self).wf(),
        ensures
            final(self).wf(),
            final(self).deck == old(self).deck,
            final(self).sched.metacards@.len() == old(self).sched.metacards@.len(),
            forall|i: int|
                0 <= i < old(self).sched.metacards@.len() && i != old(self).current_card as int
                    ==> #[trigger] final(self).sched.metacards@[i] == old(
                    self,
                ).sched.metacards@[i],
            ({
                let idx = old(self).current_card as int;
                let mc0 = old(self).current_model();
                let mc1 = final(self).sched.metacards@[idx]@;
                &&& mc1.id == mc0.id
                &&& mc1.state == mc0.state
                &&& mc1.current_interval == mc0.current_interval
                &&& mc1.ease == mc0.ease
                &&& mc1.history == mc0.history
                &&& -TIME_MAX + MINUTES_PER_DAY <= mc1.due <= TIME_MAX + MINUTES_PER_DAY
            }),
            final(self).sched.statistics == old(self).sched.statistics,
            final(self).sched.tag_statistics == old(self).sched.tag_statistics,
    {
        let now = crate::clock::now_minutes();
        self.postpone_at(now);
    }

    /// Get the current card's metacard.
    pub fn current_metacard(&self) -> (r: &Metacard)
        requires
            self.wf(),
        ensures
            r@ == self.current_model(),
    {
        &self.sched.metacards[self.current_card]
    }

    /// Get the current card's content.
    pub fn current_card(&self) -> (r: &Card)
        requires
            self.wf(),
        ensures
            r@ == self.current_card_model(),
    {
        let id_chars = chars_to_vec(self.sched.metacards[self.current_card].id.as_str());
        match self.deck.find_card(id_chars.as_slice()) {
            Some(card) => card,
            None => {
                proof {
                    assert(false);
                }
                unreached()
            },
        }
    }

    /// The possible new intervals of the current card after review, by
    /// score: what the card state machine would assign for each outcome,
    /// with the familiarity modifier read (but not updated) from the
    /// statistics and the effective interval ceiling applied.
    pub fn current_card_new_intervals(&self) -> (r: [i64; SCORES])
        requires
            self.wf(),
        ensures
            ({
                let scan = spec_fam_scan(self.sched@.tag_statistics, self.current_card_model().tags);
                let avg = spec_avg_familiarity(
                    self.sched.statistics@.familiarity as int,
                    scan.0,
                    scan.1,
                );
                forall|s: Score|
                    #[trigger] r@[s.spec_index()] == spec_review_interval(
                        self.current_model().state,
                        self.current_model().current_interval as int,
                        self.current_model().ease as int,
                        self.resolved_ts(),
                        s,
                        self.current_card_model().priority as int,
                        avg,
                        self.effective_ceiling(),
                    )
            }),
    {
        let idx = self.current_card;
        let ghost tags_model = self.current_card_model().tags;
        let id_chars = chars_to_vec(self.sched.metacards[idx].id.as_str());
        let card = match self.deck.find_card(id_chars.as_slice()) {
            Some(card) => card,
            None => {
                proof {
                    assert(false);
                }
                unreached()
            },
        };
        let ts = self.deck.tag_settings(card.tags.as_slice());
        proof {
            lemma_assoc_found_card_ok(self.deck@.cards, self.sched.metacards@[idx as int].id@);
            assert(str_views_of(card.tags@) =~= tags_model);
        }
        let gfam = clamp_i64(self.sched.statistics.familiarity, 0, 1_000_000);
        let mut sum: i128 = 0;
        let mut count: usize = 0;
        let mut t: usize = 0;
        proof {
            assert(tags_model.skip(0) =~= tags_model);
        }
        while t < card.tags.len()
            invariant
                t <= card.tags@.len(),
                tags_model == str_views_of(card.tags@),
                count <= t,
                0 <= sum <= count as int * 1_000_000,
                spec_fam_scan(self.sched@.tag_statistics, tags_model) == ({
                    let rec = spec_fam_scan(
                        self.sched@.tag_statistics,
                        tags_model.skip(t as int),
                    );
                    (sum + rec.0, count as int + rec.1)
                }),
            decreases card.tags@.len() - t,
        {
            let tag_chars = chars_to_vec(card.tags[t].as_str());
            proof {
                assert(tags_model.skip(t as int)[0] == card.tags@[t as int]@);
                assert(tags_model.skip(t as int).drop_first() =~= tags_model.skip(t + 1));
            }
            match find_tag_stat(&self.sched.tag_statistics, tag_chars.as_slice()) {
                Some(i) => {
                    proof {
                        lemma_assoc_find_at(
                            self.sched@.tag_statistics,
                            card.tags@[t as int]@,
                            i as int,
                        );
                    }
                    let f = clamp_i64(
                        self.sched.tag_statistics[i].stats.familiarity,
                        0,
                        1_000_000,
                    );
                    sum = sum + f as i128;
                    count = count + 1;
                },
                None => {
                    proof {
                        crate::deck::lemma_assoc_find_none(
                            self.sched@.tag_statistics,
                            card.tags@[t as int]@,
                        );
                    }
                },
            }
            t = t + 1;
        }
        proof {
            assert(tags_model.skip(tags_model.len() as int) =~= Seq::<Seq<char>>::empty());
            assert((gfam as int + sum) / (1 + count as int) <= 1_000_000) by (nonlinear_arith)
                requires
                    0 <= gfam <= 1_000_000,
                    0 <= sum <= count as int * 1_000_000,
                    count >= 0,
            ;
        }
        let avg_wide: i128 = (gfam as i128 + sum) / (1 + count as i128);
        let avg: i64 = avg_wide as i64;
        let ceiling: i64 = if card.max_interval <= ts.max_interval {
            card.max_interval
        } else {
            ts.max_interval
        };
        self.sched.metacards[idx].new_intervals(ts, card.priority, avg, ceiling)
    }

    /// Get the number of due cards.
    pub fn due_cards(&self) -> (r: usize)
        ensures
            r == self.due,
    {
        self.due
    }

    /// Get the number of cards waiting to be reviewed: the due count plus
    /// the admitted-new queue, saturating at the integer limit.
    pub fn queued_cards(&self) -> (r: usize)
        ensures
            r as int == (if self.due + self.new_queue@.len() <= usize::MAX {
                self.due + self.new_queue@.len()
            } else {
                usize::MAX as int
            }),
    {
        let n = self.new_queue.len();
        match self.due.checked_add(n) {
            Some(total) => total,
            None => usize::MAX,
        }
    }

    /// Get the number of admitted new cards.
    pub fn new_cards(&self) -> (r: usize)
        ensures
            r == self.new_queue@.len(),
    {
        self.new_queue.len()
    }

    /// Get the underlying schedule, for persistence by the caller.
    pub fn schedule(&self) -> (r: &Schedule)
        ensures
            r == &self.sched,
    {
        &self.sched
    }

    /// Take the underlying schedule out, ending the session.
    pub fn into_schedule(self) -> (r: Schedule)
        ensures
            r == self.sched,
    {
        self.sched
    }
}

} // verus!
