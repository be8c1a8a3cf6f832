//! Content and learning state of flashcards.

use vstd::prelude::*;
use vstd::view::View as _;
use crate::duration::{clamped, MAX_MINUTES};
use crate::milli::{spec_clamp, spec_scale, add_clamped, scale_duration};
use crate::settings::{TagSettings, TagSettingsModel};
use crate::Time;

verus! {

/// The number of priority levels.
pub const PRIORITIES: usize = 5;
/// The number of scores.
pub const SCORES: usize = 5;

/// Bound on the timestamps the engine computes with; the clock reader stays
/// well inside it, and review arithmetic cannot overflow under it.
pub const TIME_MAX: i64 = 153_722_867_280_912_930;

/// The user-specified score of the review of a single card.
#[derive(Clone, Copy, PartialEq, Eq, Structural, Debug)]
pub enum Score {
    /// Fail; the card will go into relearn state.
    Fail,
    /// Success, but hard.
    Hard,
    /// Success at the right level of difficulty.
    Okay,
    /// Success at a good level of difficulty.
    Good,
    /// Success at a too easy level of difficulty.
    Easy,
}

impl Score {
    /// The position of the score in every per-score table.
    pub open spec fn spec_index(self) -> int {
        match self {
            Score::Fail => 0,
            Score::Hard => 1,
            Score::Okay => 2,
            Score::Good => 3,
            Score::Easy => 4,
        }
    }

    /// The position of the score in every per-score table.
    pub fn index(self) -> (r: usize)
        ensures
            r == self.spec_index(),
            r < SCORES,
    {
        match self {
            Score::Fail => 0,
            Score::Hard => 1,
            Score::Okay => 2,
            Score::Good => 3,
            Score::Easy => 4,
        }
    }
}

/// A card's learning state.
#[derive(Clone, Copy, PartialEq, Eq, Structural, Debug)]
pub enum CardState {
    /// A new, unreviewed card.
    New,
    /// Learning; at the specified step.
    Learning(usize),
    /// Relearning; at the specified step.
    Relearning(usize),
    /// Has already been learnt.
    Learnt,
}

/// A card review; together these track the history of a card.
#[derive(Clone, Copy, PartialEq, Eq, Structural, Debug)]
pub struct Review {
    /// The time of the review, in minutes since the epoch.
    pub time: Time,
    /// The time at which the card was due.
    pub due: Time,
    /// The user-specified score.
    pub score: Score,
    /// The interval that was ended, in minutes.
    pub ended_interval: i64,
    /// The state of the card before the review.
    pub state_before: CardState,
    /// The ease of the card before the review, in thousandths.
    pub ease_before: i64,
}

/// A `sh` (hopefully POSIX) command; running it belongs to the caller.
#[derive(Debug)]
pub struct Command(pub String);

/// Data for viewing a card.
#[derive(Debug)]
pub enum View {
    /// A PDF file.
    Pdf(String),
    /// A `sh` command.
    Command(Command),
}

impl View {
    /// A printable name: the path of a PDF, a placeholder for a command.
    pub fn as_str(&self) -> (r: &str)
        ensures
            self matches View::Pdf(s) ==> r@ == s@,
            self matches View::Command(_) ==> r@ == "[command]"@,
    {
        match self {
            View::Pdf(s) => s.as_str(),
            View::Command(_) => "[command]",
        }
    }
}

/// The mathematical model of a viewing method.
pub ghost enum CardViewModel {
    Pdf(Seq<char>),
    Command(Seq<char>),
}

impl vstd::view::View for View {
    type V = CardViewModel;

    open spec fn view(&self) -> CardViewModel {
        match self {
            View::Pdf(s) => CardViewModel::Pdf(s@),
            View::Command(c) => CardViewModel::Command(c.0@),
        }
    }
}

/// The user-specified content of a card.
#[derive(Debug)]
pub struct Card {
    /// The ways the card shall be viewed (e.g. paths to PDFs).
    pub view: Vec<View>,
    /// The tags of the card.
    pub tags: Vec<String>,
    /// The card's priority, `0..PRIORITIES`.
    pub priority: u8,
    /// The user-specified upper bound for the interval of the card, in
    /// minutes; `MAX_MINUTES` when unbounded.
    pub max_interval: i64,
}

/// The mathematical model of a card's content.
#[verifier::ext_equal]
pub ghost struct CardModel {
    pub views: Seq<CardViewModel>,
    pub tags: Seq<Seq<char>>,
    pub priority: u8,
    pub max_interval: i64,
}

impl vstd::view::View for Card {
    type V = CardModel;

    open spec fn view(&self) -> CardModel {
        CardModel {
            views: self.view@.map_values(|v: View| v@),
            tags: self.tags@.map_values(|t: String| t@),
            priority: self.priority,
            max_interval: self.max_interval,
        }
    }
}

/// The model of a card before any key of its section is read.
pub open spec fn spec_default_card() -> CardModel {
    CardModel {
        views: Seq::empty(),
        tags: Seq::empty(),
        priority: 2,
        max_interval: MAX_MINUTES,
    }
}

impl Default for Card {
    fn default() -> (r: Card)
        ensures
            r@ == spec_default_card(),
    {
        let r = Card { view: Vec::new(), tags: Vec::new(), priority: 2, max_interval: MAX_MINUTES };
        proof {
            assert(r@.views =~= Seq::<CardViewModel>::empty());
            assert(r@.tags =~= Seq::<Seq<char>>::empty());
            assert(r@ =~= spec_default_card());
        }
        r
    }
}

/// The smaller of two minute counts.
pub open spec fn min64(a: int, b: int) -> int {
    if a <= b {
        a
    } else {
        b
    }
}

/// The ease after a review: the old ease plus the per-score increase,
/// clamped into the configured band.
pub open spec fn spec_new_ease(ease: int, ts: TagSettingsModel, score: Score) -> int {
    spec_clamp(
        ease + ts.ease_increase[score.spec_index()],
        ts.min_ease as int,
        ts.max_ease as int,
    )
}

/// The interval after reviewing a card in state `New`.
pub open spec fn spec_interval_new(ts: TagSettingsModel, score: Score, ceiling: int) -> int {
    min64(
        ceiling,
        ts.learning_intervals[TagSettings::clamp_index(
            ts.learning_interval_progressions[score.spec_index()] - 1,
            ts.learning_intervals.len() as int,
        )] as int,
    )
}

/// The interval after reviewing a card in state `Learning(step)`.
pub open spec fn spec_interval_learning(
    ts: TagSettingsModel,
    score: Score,
    step: int,
    ceiling: int,
) -> int {
    min64(
        ceiling,
        ts.learning_intervals[TagSettings::clamp_index(
            step + ts.learning_interval_progressions[score.spec_index()],
            ts.learning_intervals.len() as int,
        )] as int,
    )
}

/// The interval after reviewing a card in state `Relearning(step)`.
pub open spec fn spec_interval_relearning(
    ts: TagSettingsModel,
    score: Score,
    step: int,
    ceiling: int,
) -> int {
    min64(
        ceiling,
        ts.relearning_intervals[TagSettings::clamp_index(
            step + ts.relearning_interval_progressions[score.spec_index()],
            ts.relearning_intervals.len() as int,
        )] as int,
    )
}

/// The unsaturated next interval of a learnt card: the current interval
/// scaled by the new ease, the familiarity modifier, the global interval
/// modifier and the per-score and per-priority modifiers, one after the
/// other, each step saturating into `[0, MAX_MINUTES]`.
pub open spec fn spec_raw_interval_learnt(
    cur: int,
    ease: int,
    ts: TagSettingsModel,
    score: Score,
    priority: int,
    familiarity: int,
) -> i64 {
    spec_scale(
        spec_scale(
            spec_scale(
                spec_scale(
                    spec_scale(clamped(cur) as int, spec_new_ease(ease, ts, score)) as int,
                    familiarity,
                ) as int,
                ts.interval_modifier as int,
            ) as int,
            ts.score_modifiers[score.spec_index()] as int,
        ) as int,
        ts.priority_modifiers[priority] as int,
    )
}

/// The interval after a non-failed review of a learnt card: the raw interval
/// saturated by the tag's maximal interval, forced to grow by at least the
/// minimal increase, and capped by the caller-supplied ceiling.
pub open spec fn spec_interval_learnt(
    cur: int,
    ease: int,
    ts: TagSettingsModel,
    score: Score,
    priority: int,
    familiarity: int,
    ceiling: int,
) -> int {
    let cur_n = clamped(cur) as int;
    let raw = spec_raw_interval_learnt(cur, ease, ts, score, priority, familiarity) as int;
    let sat = if raw > ts.max_interval as int {
        ts.max_interval as int
    } else if raw - cur_n < ts.min_interval_increase as int {
        cur_n + ts.min_interval_increase as int
    } else {
        raw
    };
    min64(ceiling, sat)
}

/// The state after a review.
pub open spec fn spec_next_state(state: CardState, ts: TagSettingsModel, score: Score) -> CardState {
    match state {
        CardState::New => CardState::Learning(0),
        CardState::Learning(step) => {
            let len = ts.learning_intervals.len() as int;
            let next = TagSettings::clamp_index(
                step + ts.learning_interval_progressions[score.spec_index()],
                len,
            );
            if next == len - 1 {
                CardState::Learnt
            } else {
                CardState::Learning(next as usize)
            }
        },
        CardState::Relearning(step) => {
            let len = ts.relearning_intervals.len() as int;
            let next = TagSettings::clamp_index(
                step + ts.relearning_interval_progressions[score.spec_index()],
                len,
            );
            if next == len - 1 {
                CardState::Learnt
            } else {
                CardState::Relearning(next as usize)
            }
        },
        CardState::Learnt => {
            if score == Score::Fail {
                CardState::Relearning(0)
            } else {
                CardState::Learnt
            }
        },
    }
}

/// The interval a review assigns, for every state.
pub open spec fn spec_review_interval(
    state: CardState,
    cur: int,
    ease: int,
    ts: TagSettingsModel,
    score: Score,
    priority: int,
    familiarity: int,
    ceiling: int,
) -> int {
    match state {
        CardState::New => spec_interval_new(ts, score, ceiling),
        CardState::Learning(step) => spec_interval_learning(ts, score, step as int, ceiling),
        CardState::Relearning(step) => spec_interval_relearning(ts, score, step as int, ceiling),
        CardState::Learnt => {
            if score == Score::Fail {
                ts.relearning_intervals[0] as int
            } else {
                spec_interval_learnt(cur, ease, ts, score, priority, familiarity, ceiling)
            }
        },
    }
}

/// The mathematical model of a metacard.
#[verifier::ext_equal]
pub ghost struct MetacardModel {
    pub id: Seq<char>,
    pub state: CardState,
    pub current_interval: i64,
    pub due: Time,
    pub history: Seq<Review>,
    pub ease: i64,
}

/// The background information and state of a flashcard.
///
/// The content of the card is stored separately, in the form of a `Card`.
#[derive(Debug)]
pub struct Metacard {
    /// The user-specified ID of the card.
    pub id: String,
    /// The card's state.
    pub state: CardState,
    /// The card's current interval, in minutes.
    pub current_interval: i64,
    /// The next time the card will be reviewed.
    pub due: Time,
    /// The reviews of the card, in chronological order.
    pub history: Vec<Review>,
    /// The ease of the card, in thousandths.
    pub ease: i64,
}

impl vstd::view::View for Metacard {
    type V = MetacardModel;

    open spec fn view(&self) -> MetacardModel {
        MetacardModel {
            id: self.id@,
            state: self.state,
            current_interval: self.current_interval,
            due: self.due,
            history: self.history@,
            ease: self.ease,
        }
    }
}

impl Metacard {
    /// A fresh, unreviewed metacard, due at `now`.
    pub fn new_at(id: String, settings: &TagSettings, now: Time) -> (r: Metacard)
        ensures
            r.id@ == id@,
            r.state == CardState::New,
            r.current_interval == 0,
            r.due == now,
            r.history@.len() == 0,
            r.ease == settings@.starting_ease,
    {
        Metacard {
            id,
            state: CardState::New,
            current_interval: 0,
            due: now,
            history: Vec::new(),
            ease: settings.starting_ease,
        }
    }

    /// A fresh, unreviewed metacard, due now; reads the ambient clock.
    pub fn new(id: String, settings: &TagSettings) -> (r: Metacard)
        ensures
            r.id@ == id@,
            r.state == CardState::New,
            r.current_interval == 0,
            r.history@.len() == 0,
            r.ease == settings@.starting_ease,
            -TIME_MAX <= r.due <= TIME_MAX,
    {
        let now = crate::clock::now_minutes();
        Metacard::new_at(id, settings, now)
    }

    /// Calculate the new interval assuming that `self.state` is `New`.
    fn new_interval_new(&self, settings: &TagSettings, score: Score, max_interval: i64) -> (r: i64)
        requires
            settings.wf(),
            0 <= max_interval,
        ensures
            r == spec_interval_new(settings@, score, max_interval as int),
            0 <= r <= MAX_MINUTES,
    {
        let prog = settings.learning_interval_progressions[score.index()];
        let idx: usize = if prog <= 1 {
            0
        } else {
            settings.get_learning_interval(prog - 1)
        };
        let entry = settings.learning_intervals[idx];
        if max_interval <= entry {
            max_interval
        } else {
            entry
        }
    }

    /// Calculate the new interval assuming that `self.state` is
    /// `Learning(step)`.
    fn new_interval_learning(
        &self,
        settings: &TagSettings,
        score: Score,
        step: usize,
        max_interval: i64,
    ) -> (r: i64)
        requires
            settings.wf(),
            0 <= max_interval,
        ensures
            r == spec_interval_learning(settings@, score, step as int, max_interval as int),
            0 <= r <= MAX_MINUTES,
    {
        let target: i128 = step as i128
            + settings.learning_interval_progressions[score.index()] as i128;
        let idx = clamp_index_exec(target, settings.learning_intervals.len());
        let entry = settings.learning_intervals[idx];
        if max_interval <= entry {
            max_interval
        } else {
            entry
        }
    }

    /// Calculate the new interval assuming that `self.state` is
    /// `Relearning(step)`.
    fn new_interval_relearning(
        &self,
        settings: &TagSettings,
        score: Score,
        step: usize,
        max_interval: i64,
    ) -> (r: i64)
        requires
            settings.wf(),
            0 <= max_interval,
        ensures
            r == spec_interval_relearning(settings@, score, step as int, max_interval as int),
            0 <= r <= MAX_MINUTES,
    {
        let target: i128 = step as i128
            + settings.relearning_interval_progressions[score.index()] as i128;
        let idx = clamp_index_exec(target, settings.relearning_intervals.len());
        let entry = settings.relearning_intervals[idx];
        if max_interval <= entry {
            max_interval
        } else {
            entry
        }
    }

    /// Calculate the new interval after a non-failed review assuming that
    /// `self.state` is `Learnt`.
    fn new_interval_learnt(
        &self,
        settings: &TagSettings,
        score: Score,
        priority: u8,
        modifier: i64,
        max_interval: i64,
    ) -> (r: i64)
        requires
            settings.wf(),
            priority < PRIORITIES,
            0 <= max_interval,
        ensures
            r == spec_interval_learnt(
                self.current_interval as int,
                self.ease as int,
                settings@,
                score,
                priority as int,
                modifier as int,
                max_interval as int,
            ),
            0 <= r <= 2 * MAX_MINUTES,
    {
        let cur_n = crate::duration::clamp_minutes(self.current_interval);
        let e = self.new_ease(settings, score);
        let raw = scale_duration(
            scale_duration(
                scale_duration(
                    scale_duration(scale_duration(cur_n, e), modifier),
                    settings.interval_modifier,
                ),
                settings.score_modifiers[score.index()],
            ),
            settings.priority_modifiers[priority as usize],
        );
        let sat: i64 = if raw > settings.max_interval {
            settings.max_interval
        } else if raw - cur_n < settings.min_interval_increase {
            cur_n + settings.min_interval_increase
        } else {
            raw
        };
        if max_interval <= sat {
            max_interval
        } else {
            sat
        }
    }

    /// Calculate the new ease after reviewing the card with score `score`.
    fn new_ease(&self, settings: &TagSettings, score: Score) -> (r: i64)
        ensures
            r == spec_new_ease(self.ease as int, settings@, score),
    {
        add_clamped(
            self.ease,
            settings.ease_increase[score.index()],
            settings.min_ease,
            settings.max_ease,
        )
    }

    /// The updated interval for every score, without committing anything.
    ///
    /// For a learnt card, the entry for `Fail` is the first relearning
    /// interval, since failing from `Learnt` bypasses the general formula.
    pub fn new_intervals(
        &self,
        settings: &TagSettings,
        priority: u8,
        modifier: i64,
        max_interval: i64,
    ) -> (r: [i64; SCORES])
        requires
            settings.wf(),
            priority < PRIORITIES,
            0 <= max_interval,
        ensures
            forall|s: Score|
                #[trigger] r@[s.spec_index()] == spec_review_interval(
                    self.state,
                    self.current_interval as int,
                    self.ease as int,
                    settings@,
                    s,
                    priority as int,
                    modifier as int,
                    max_interval as int,
                ),
    {
        let r = match self.state {
            CardState::New => [
                self.new_interval_new(settings, Score::Fail, max_interval),
                self.new_interval_new(settings, Score::Hard, max_interval),
                self.new_interval_new(settings, Score::Okay, max_interval),
                self.new_interval_new(settings, Score::Good, max_interval),
                self.new_interval_new(settings, Score::Easy, max_interval),
            ],
            CardState::Learning(step) => [
                self.new_interval_learning(settings, Score::Fail, step, max_interval),
                self.new_interval_learning(settings, Score::Hard, step, max_interval),
                self.new_interval_learning(settings, Score::Okay, step, max_interval),
                self.new_interval_learning(settings, Score::Good, step, max_interval),
                self.new_interval_learning(settings, Score::Easy, step, max_interval),
            ],
            CardState::Relearning(step) => [
                self.new_interval_relearning(settings, Score::Fail, step, max_interval),
                self.new_interval_relearning(settings, Score::Hard, step, max_interval),
                self.new_interval_relearning(settings, Score::Okay, step, max_interval),
                self.new_interval_relearning(settings, Score::Good, step, max_interval),
                self.new_interval_relearning(settings, Score::Easy, step, max_interval),
            ],
            CardState::Learnt => [
                settings.relearning_intervals[0],
                self.new_interval_learnt(settings, Score::Hard, priority, modifier, max_interval),
                self.new_interval_learnt(settings, Score::Okay, priority, modifier, max_interval),
                self.new_interval_learnt(settings, Score::Good, priority, modifier, max_interval),
                self.new_interval_learnt(settings, Score::Easy, priority, modifier, max_interval),
            ],
        };
        proof {
            assert forall|s: Score| #[trigger]
                r@[s.spec_index()] == spec_review_interval(
                    self.state,
                    self.current_interval as int,
                    self.ease as int,
                    settings@,
                    s,
                    priority as int,
                    modifier as int,
                    max_interval as int,
                ) by {
                match s {
                    Score::Fail => {},
                    Score::Hard => {},
                    Score::Okay => {},
                    Score::Good => {},
                    Score::Easy => {},
                }
            }
        }
        r
    }

    /// Update the card after a review at time `now`.
    ///
    /// Appends the review to the history, then computes the new interval,
    /// state, due time and — when the card was learnt — ease, exactly as the
    /// specification functions above describe.  An out-of-range stored
    /// interval is treated as its clamp into `[0, MAX_MINUTES]`.
    pub fn review_at(
        &mut self,
        settings: &TagSettings,
        score: Score,
        priority: u8,
        familiarity: i64,
        max_interval: i64,
        now: Time,
    )
        requires
            settings.wf(),
            priority < PRIORITIES,
            0 <= max_interval,
            -TIME_MAX <= now <= TIME_MAX,
        ensures
            final(self).id@ == old(self).id@,
            final(self).history@ =~= old(self).history@.push(
                Review {
                    time: now,
                    due: old(self).due,
                    score,
                    ended_interval: old(self).current_interval,
                    state_before: old(self).state,
                    ease_before: old(self).ease,
                },
            ),
            final(self).state == spec_next_state(old(self).state, settings@, score),
            final(self).current_interval == spec_review_interval(
                old(self).state,
                old(self).current_interval as int,
                old(self).ease as int,
                settings@,
                score,
                priority as int,
                familiarity as int,
                max_interval as int,
            ),
            0 <= final(self).current_interval <= 2 * MAX_MINUTES,
            final(self).due == now + final(self).current_interval,
            final(self).ease == if old(self).state is Learnt {
                spec_new_ease(old(self).ease as int, settings@, score)
            } else {
                old(self).ease as int
            },
    {
        self.history.push(
            Review {
                time: now,
                due: self.due,
                score,
                ended_interval: self.current_interval,
                state_before: self.state,
                ease_before: self.ease,
            },
        );

        match self.state {
            CardState::New => {
                self.current_interval = self.new_interval_new(settings, score, max_interval);
                self.due = now + self.current_interval;
                self.state = CardState::Learning(0);
            },
            CardState::Learning(step) => {
                self.current_interval = self.new_interval_learning(
                    settings,
                    score,
                    step,
                    max_interval,
                );
                self.due = now + self.current_interval;

                let target: i128 = step as i128
                    + settings.learning_interval_progressions[score.index()] as i128;
                let new_step = clamp_index_exec(target, settings.learning_intervals.len());
                self.state = if new_step == settings.learning_intervals.len() - 1 {
                    CardState::Learnt
                } else {
                    CardState::Learning(new_step)
                };
            },
            CardState::Relearning(step) => {
                self.current_interval = self.new_interval_relearning(
                    settings,
                    score,
                    step,
                    max_interval,
                );
                self.due = now + self.current_interval;

                let target: i128 = step as i128
                    + settings.relearning_interval_progressions[score.index()] as i128;
                let new_step = clamp_index_exec(target, settings.relearning_intervals.len());
                self.state = if new_step == settings.relearning_intervals.len() - 1 {
                    CardState::Learnt
                } else {
                    CardState::Relearning(new_step)
                };
            },
            CardState::Learnt => {
                if matches!(score, Score::Fail) {
                    self.state = CardState::Relearning(0);
                    self.current_interval = settings.relearning_intervals[0];
                    self.due = now + self.current_interval;
                } else {
                    self.current_interval = self.new_interval_learnt(
                        settings,
                        score,
                        priority,
                        familiarity,
                        max_interval,
                    );
                    self.due = now + self.current_interval;
                }
                self.ease = self.new_ease(settings, score);
            },
        }
    }

    /// Update the card after a review; reads the ambient clock.
    ///
    /// Everything `review_at` promises holds here too, for the instant the
    /// clock returned.
    pub fn review(
        &mut self,
        settings: &TagSettings,
        score: Score,
        priority: u8,
        familiarity: i64,
        max_interval: i64,
    )
        requires
            settings.wf(),
            priority < PRIORITIES,
            0 <= max_interval,
        ensures
            final(self).id@ == old(self).id@,
            final(self).history@.len() == old(self).history@.len() + 1,
            final(self).state == spec_next_state(old(self).state, settings@, score),
            final(self).current_interval == spec_review_interval(
                old(self).state,
                old(self).current_interval as int,
                old(self).ease as int,
                settings@,
                score,
                priority as int,
                familiarity as int,
                max_interval as int,
            ),
            final(self).ease == if old(self).state is Learnt {
                spec_new_ease(old(self).ease as int, settings@, score)
            } else {
                old(self).ease as int
            },
    {
        let now = crate::clock::now_minutes();
        self.review_at(settings, score, priority, familiarity, max_interval, now);
    }
}

/// The saturated index `clamp_index(target, len)` of a table of length
/// `len`, for a target already widened to `i128`.
fn clamp_index_exec(target: i128, len: usize) -> (r: usize)
    requires
        len >= 1,
        -0x1_0000_0000_0000_0000_0000i128 <= target <= 0x1_0000_0000_0000_0000_0000i128,
    ensures
        r == TagSettings::clamp_index(target as int, len as int),
        r < len,
{
    if target <= 0 {
        0
    } else if target < len as i128 {
        target as usize
    } else {
        len - 1
    }
}

/// A review keeps the ease within the configured band.
///
/// A review from a non-learnt state leaves the ease unchanged, and a review
/// from `Learnt` clamps it into `[min_ease, max_ease]`; so starting inside
/// the band (with a sane band), the ease stays inside it after any sequence
/// of reviews, and one learnt review puts it inside the band whatever it
/// was before.
pub proof fn lemma_review_preserves_ease_bounds(
    ease: int,
    ts: TagSettingsModel,
    score: Score,
    state: CardState,
)
    requires
        ts.min_ease <= ts.max_ease,
    ensures
        ({
            let after = if state is Learnt {
                spec_new_ease(ease, ts, score)
            } else {
                ease
            };
            ts.min_ease <= ease <= ts.max_ease ==> ts.min_ease <= after <= ts.max_ease
        }),
        state is Learnt ==> ts.min_ease <= spec_new_ease(ease, ts, score) <= ts.max_ease,
{
}

/// A non-failed review of a learnt card grows the interval by at least the
/// minimal increase, unless the tag's maximal interval or the caller's
/// ceiling cuts it short, and it never exceeds the ceiling.
pub proof fn lemma_learnt_interval_growth(
    cur: int,
    ease: int,
    ts: TagSettingsModel,
    score: Score,
    priority: int,
    familiarity: int,
    ceiling: int,
)
    ensures
        ({
            let r = spec_interval_learnt(cur, ease, ts, score, priority, familiarity, ceiling);
            &&& r <= ceiling
            &&& {
                ||| r >= clamped(cur) + ts.min_interval_increase
                ||| r == ts.max_interval
                ||| r == ceiling
            }
        }),
{
}

/// Transitions never step outside a phase table, and reaching a table's
/// last index makes the card learnt.
pub proof fn lemma_transition_step_bounds(state: CardState, ts: TagSettingsModel, score: Score)
    requires
        ts.wf(),
    ensures
        spec_next_state(state, ts, score) matches CardState::Learning(s2) ==> (s2 as int)
            < ts.learning_intervals.len(),
        spec_next_state(state, ts, score) matches CardState::Relearning(s2) ==> (s2 as int)
            < ts.relearning_intervals.len(),
        ({
            state matches CardState::Learning(s) ==> ({
                let next = TagSettings::clamp_index(
                    s + ts.learning_interval_progressions[score.spec_index()],
                    ts.learning_intervals.len() as int,
                );
                next == ts.learning_intervals.len() - 1 ==> spec_next_state(state, ts, score)
                    is Learnt
            })
        }),
        ({
            state matches CardState::Relearning(s) ==> ({
                let next = TagSettings::clamp_index(
                    s + ts.relearning_interval_progressions[score.spec_index()],
                    ts.relearning_intervals.len() as int,
                );
                next == ts.relearning_intervals.len() - 1 ==> spec_next_state(state, ts, score)
                    is Learnt
            })
        }),
{
}

} // verus!
