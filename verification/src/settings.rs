//! User customization and settings.

use vstd::prelude::*;
use crate::duration::{MAX_MINUTES, MINUTES_PER_DAY, MINUTES_PER_MINUTE};
use crate::cards::SCORES;

verus! {

/// Global settings.
#[derive(Debug, Clone, Copy, PartialEq, Eq, Structural)]
pub struct GlobalSettings {
    /// The maximal length that the queue of to-be-introduced cards may have.
    pub max_new_queue: usize,
    /// The maximal number of unlearnt cards that can be introduced on a day.
    pub max_new_daily: usize,
}

impl Default for GlobalSettings {
    fn default() -> (r: GlobalSettings)
        ensures
            r.max_new_queue == 20,
            r.max_new_daily == 10,
    {
        GlobalSettings { max_new_queue: 20, max_new_daily: 10 }
    }
}

/// The mathematical model of a settings group: every table a sequence, every
/// scalar a plain number.
#[verifier::ext_equal]
pub ghost struct TagSettingsModel {
    pub learning_intervals: Seq<i64>,
    pub learning_interval_progressions: Seq<i64>,
    pub relearning_intervals: Seq<i64>,
    pub relearning_interval_progressions: Seq<i64>,
    pub max_interval: i64,
    pub min_interval_increase: i64,
    pub starting_ease: i64,
    pub max_ease: i64,
    pub min_ease: i64,
    pub ease_increase: Seq<i64>,
    pub interval_modifier: i64,
    pub score_modifiers: Seq<i64>,
    pub priority_modifiers: Seq<i64>,
    pub score_weight: i64,
    pub familiarity_delta: i64,
    pub max_familiarity: i64,
    pub min_familiarity: i64,
    pub desired_retention_rate: i64,
}

impl TagSettingsModel {
    /// Well-formedness: the interval tables are nonempty, every per-score
    /// table has one entry per score, and every duration lies in
    /// `[0, MAX_MINUTES]`.  The parser only produces such settings.
    pub open spec fn wf(self) -> bool {
        &&& self.learning_intervals.len() > 0
        &&& self.relearning_intervals.len() > 0
        &&& self.learning_interval_progressions.len() == SCORES
        &&& self.relearning_interval_progressions.len() == SCORES
        &&& self.ease_increase.len() == SCORES
        &&& self.score_modifiers.len() == SCORES
        &&& self.priority_modifiers.len() == SCORES
        &&& forall|i: int|
            0 <= i < self.learning_intervals.len() ==> 0 <= #[trigger] self.learning_intervals[i]
                <= MAX_MINUTES
        &&& forall|i: int|
            0 <= i < self.relearning_intervals.len() ==> 0
                <= #[trigger] self.relearning_intervals[i] <= MAX_MINUTES
        &&& 0 <= self.max_interval <= MAX_MINUTES
        &&& 0 <= self.min_interval_increase <= MAX_MINUTES
    }
}

/// Settings for a tag.
///
/// Durations are minutes; ease values, modifiers, weights and rates are
/// fixed-point thousandths (see `milli`).
#[derive(Debug)]
pub struct TagSettings {
    /// The intervals that are cycled through before a card is learnt.
    ///
    /// The last entry is the initial interval for a card that has just been
    /// learned; the first is the interval after the first review.
    pub learning_intervals: Vec<i64>,
    /// How far each score progresses through `learning_intervals`.
    ///
    /// Saturates at either end of the table, so a large negative entry sends
    /// the card back to the first interval.
    pub learning_interval_progressions: [i64; SCORES],
    /// The intervals cycled through before a failed card is relearnt.
    pub relearning_intervals: Vec<i64>,
    /// How far each score progresses through `relearning_intervals`.
    pub relearning_interval_progressions: [i64; SCORES],
    /// The maximal possible interval; larger calculated intervals saturate.
    pub max_interval: i64,
    /// The minimal increase of a learnt card's interval; a calculated
    /// increase below it is replaced by it.
    pub min_interval_increase: i64,
    /// The initial ease of a card, in thousandths.
    pub starting_ease: i64,
    /// The maximal ease, in thousandths.
    pub max_ease: i64,
    /// The minimal ease, in thousandths.
    pub min_ease: i64,
    /// The change of ease for each score, in thousandths.
    pub ease_increase: [i64; SCORES],
    /// A factor every new interval is multiplied by, in thousandths.
    pub interval_modifier: i64,
    /// Per-score interval factors, in thousandths; the first entry is unused
    /// since failing sends the card into relearning.
    pub score_modifiers: [i64; SCORES],
    /// Per-priority interval factors, in thousandths.
    pub priority_modifiers: [i64; SCORES],
    /// The weight of the newest score in the adaptive retention rate, in
    /// thousandths.
    pub score_weight: i64,
    /// The base change in familiarity after each review, in thousandths.
    pub familiarity_delta: i64,
    /// The maximal familiarity, in thousandths.
    pub max_familiarity: i64,
    /// The minimal familiarity, in thousandths.
    pub min_familiarity: i64,
    /// The ideal retention rate, in thousandths.
    pub desired_retention_rate: i64,
}

impl View for TagSettings {
    type V = TagSettingsModel;

    open spec fn view(&self) -> TagSettingsModel {
        TagSettingsModel {
            learning_intervals: self.learning_intervals@,
            learning_interval_progressions: self.learning_interval_progressions@,
            relearning_intervals: self.relearning_intervals@,
            relearning_interval_progressions: self.relearning_interval_progressions@,
            max_interval: self.max_interval,
            min_interval_increase: self.min_interval_increase,
            starting_ease: self.starting_ease,
            max_ease: self.max_ease,
            min_ease: self.min_ease,
            ease_increase: self.ease_increase@,
            interval_modifier: self.interval_modifier,
            score_modifiers: self.score_modifiers@,
            priority_modifiers: self.priority_modifiers@,
            score_weight: self.score_weight,
            familiarity_delta: self.familiarity_delta,
            max_familiarity: self.max_familiarity,
            min_familiarity: self.min_familiarity,
            desired_retention_rate: self.desired_retention_rate,
        }
    }
}

impl TagSettings {
    /// Well-formedness of the underlying model.
    pub open spec fn wf(&self) -> bool {
        self@.wf()
    }

    /// The index of the `n`'th entry of a table of length `len`, saturated
    /// at both ends.
    pub open spec fn clamp_index(n: int, len: int) -> int {
        if n <= 0 {
            0
        } else if n < len {
            n
        } else {
            len - 1
        }
    }

    /// Gets the index of the `n`'th learning interval, saturating on
    /// out-of-bounds.
    pub fn get_learning_interval(&self, n: i64) -> (r: usize)
        requires
            self@.learning_intervals.len() > 0,
        ensures
            r == Self::clamp_index(n as int, self@.learning_intervals.len() as int),
            r < self@.learning_intervals.len(),
    {
        if n <= 0 {
            0
        } else if (n as i128) < self.learning_intervals.len() as i128 {
            n as usize
        } else {
            self.learning_intervals.len() - 1
        }
    }

    /// Gets the index of the `n`'th relearning interval, saturating on
    /// out-of-bounds.
    pub fn get_relearning_interval(&self, n: i64) -> (r: usize)
        requires
            self@.relearning_intervals.len() > 0,
        ensures
            r == Self::clamp_index(n as int, self@.relearning_intervals.len() as int),
            r < self@.relearning_intervals.len(),
    {
        if n <= 0 {
            0
        } else if (n as i128) < self.relearning_intervals.len() as i128 {
            n as usize
        } else {
            self.relearning_intervals.len() - 1
        }
    }

    /// An exact copy; used where a settings group seeds another.
    pub fn duplicate(&self) -> (r: TagSettings)
        ensures
            r@ == self@,
    {
        let r = TagSettings {
            learning_intervals: copy_i64_vec(&self.learning_intervals),
            learning_interval_progressions: self.learning_interval_progressions,
            relearning_intervals: copy_i64_vec(&self.relearning_intervals),
            relearning_interval_progressions: self.relearning_interval_progressions,
            max_interval: self.max_interval,
            min_interval_increase: self.min_interval_increase,
            starting_ease: self.starting_ease,
            max_ease: self.max_ease,
            min_ease: self.min_ease,
            ease_increase: self.ease_increase,
            interval_modifier: self.interval_modifier,
            score_modifiers: self.score_modifiers,
            priority_modifiers: self.priority_modifiers,
            score_weight: self.score_weight,
            familiarity_delta: self.familiarity_delta,
            max_familiarity: self.max_familiarity,
            min_familiarity: self.min_familiarity,
            desired_retention_rate: self.desired_retention_rate,
        };
        proof {
            assert(r@ =~= self@);
        }
        r
    }
}

/// An element-wise copy of a vector of minutes or milli values.
fn copy_i64_vec(v: &Vec<i64>) -> (r: Vec<i64>)
    ensures
        r@ =~= v@,
{
    let mut r: Vec<i64> = Vec::new();
    let mut i: usize = 0;
    while i < v.len()
        invariant
            i <= v.len(),
            r@ =~= v@.subrange(0, i as int),
        decreases v.len() - i,
    {
        r.push(v[i]);
        proof {
            assert(r@ =~= v@.subrange(0, i + 1));
        }
        i = i + 1;
    }
    proof {
        assert(r@ =~= v@);
    }
    r
}

/// The model of the built-in default settings group: learning intervals of
/// one, two and three days, relearning after half an hour and a day, a
/// maximal interval of fifty days, and the remaining scalars as thousandths.
pub open spec fn spec_default_tag_settings() -> TagSettingsModel {
    TagSettingsModel {
        learning_intervals: seq![1440i64, 2880i64, 4320i64],
        learning_interval_progressions: seq![-2i64, 1i64, 1i64, 2i64, 2i64],
        relearning_intervals: seq![30i64, 1440i64],
        relearning_interval_progressions: seq![-999i64, 1i64, 1i64, 1i64, 2i64],
        max_interval: 72000,  // 50 days
        min_interval_increase: 1440,  // 1 day
        starting_ease: 2500,
        max_ease: 3500,
        min_ease: 1300,
        ease_increase: seq![-200i64, -150i64, 0i64, 50i64, 150i64],
        interval_modifier: 1000,
        score_modifiers: seq![1000i64, 700i64, 1000i64, 1200i64, 1400i64],
        priority_modifiers: seq![3000i64, 2000i64, 1000i64, 500i64, 300i64],
        score_weight: 50,
        familiarity_delta: 100,
        max_familiarity: 2000,
        min_familiarity: 400,
        desired_retention_rate: 820,
    }
}

impl Default for TagSettings {
    fn default() -> (r: TagSettings)
        ensures
            r@ == spec_default_tag_settings(),
            r.wf(),
    {
        let learning_intervals = vec![1 * MINUTES_PER_DAY, 2 * MINUTES_PER_DAY, 3 * MINUTES_PER_DAY];
        let relearning_intervals = vec![30 * MINUTES_PER_MINUTE, 1 * MINUTES_PER_DAY];
        let r = TagSettings {
            learning_intervals,
            learning_interval_progressions: [-2, 1, 1, 2, 2],
            relearning_intervals,
            relearning_interval_progressions: [-999, 1, 1, 1, 2],
            max_interval: 50 * MINUTES_PER_DAY,
            min_interval_increase: 1 * MINUTES_PER_DAY,
            starting_ease: 2500,
            max_ease: 3500,
            min_ease: 1300,
            ease_increase: [-200, -150, 0, 50, 150],
            interval_modifier: 1000,
            score_modifiers: [1000, 700, 1000, 1200, 1400],
            priority_modifiers: [3000, 2000, 1000, 500, 300],
            score_weight: 50,
            familiarity_delta: 100,
            max_familiarity: 2000,
            min_familiarity: 400,
            desired_retention_rate: 820,
        };
        proof {
            assert(r@ =~= spec_default_tag_settings());
            assert(r.wf());
        }
        r
    }
}

} // verus!
