//! Tests of the statistics tracker and the scheduler.

use mu_backend::cards::{CardState, Score};
use mu_backend::deck::Deck;
use mu_backend::scheduler::{Schedule, Scheduler, Statistics};
use mu_backend::settings::TagSettings;

fn small_deck(n: usize, max_new_queue: usize, max_new_daily: usize) -> Deck {
    let mut src = format!(
        "[settings]\nmax new queue: {}\nmax new daily: {}\n",
        max_new_queue, max_new_daily
    );
    for i in 0..n {
        src.push_str(&format!("[card c{}]\ntags: T\n", i));
    }
    Deck::parse(&src).unwrap()
}

fn empty_schedule() -> Schedule {
    Schedule::new(&TagSettings::default())
}

#[test]
fn statistics_track_rate_and_familiarity() {
    let ts = TagSettings::default();
    let mut st = Statistics::new(&ts);
    assert_eq!(st.adaptive_retention_rate, 820);
    assert_eq!(st.familiarity, 1000);

    st.review(Score::Okay, &ts, 0);
    // (950 * 820 + 50 * 1000) / 1000 = 829, above the desired 820
    assert_eq!(st.adaptive_retention_rate, 829);
    assert_eq!(st.familiarity, 1100);
    assert_eq!(st.retention_rate(), 1000);

    st.review(Score::Fail, &ts, 0);
    // (950 * 829 + 50 * 0) / 1000 = 787, below the desired 820
    assert_eq!(st.adaptive_retention_rate, 787);
    assert_eq!(st.familiarity, 1000);
    assert_eq!(st.retention_rate(), 500);

    // both reviews fell on the same day
    assert_eq!(st.activity, vec![(0, 2)]);
    st.review(Score::Good, &ts, 3);
    assert_eq!(st.activity, vec![(0, 2), (3, 1)]);
}

#[test]
fn familiarity_saturates_at_its_bounds() {
    let ts = TagSettings::default();
    let mut st = Statistics::new(&ts);
    for _ in 0..20 {
        st.review(Score::Easy, &ts, 0);
        assert!(st.familiarity <= ts.max_familiarity);
    }
    assert_eq!(st.familiarity, 2000);
    for _ in 0..30 {
        st.review(Score::Fail, &ts, 0);
        assert!(st.familiarity >= ts.min_familiarity);
    }
    assert_eq!(st.familiarity, 400);
}

#[test]
fn fresh_deck_has_queued_but_no_due_cards() {
    let deck = small_deck(4, 20, 10);
    let s = Scheduler::new_at(deck, empty_schedule(), 1000);
    assert_eq!(s.due_cards(), 0);
    assert!(s.queued_cards() > 0);
    // four cards: all are admitted (caps allow ten), one becomes current
    assert_eq!(s.new_cards(), 3);
    assert_eq!(s.schedule().metacards.len(), 4);
    assert_eq!(s.current_metacard().state, CardState::New);
}

#[test]
fn single_card_becomes_current_immediately() {
    let deck = small_deck(1, 20, 10);
    let s = Scheduler::new_at(deck, empty_schedule(), 1000);
    assert_eq!(s.due_cards(), 0);
    assert_eq!(s.new_cards(), 0);
    assert_eq!(s.current_metacard().id, "c0");
}

#[test]
fn update_admits_at_most_the_daily_cap() {
    let deck = small_deck(6, 3, 2);
    let mut s = Scheduler::new_at(deck, empty_schedule(), 1000);
    // the first refresh admitted two of six; one was picked as current
    assert_eq!(s.new_cards(), 1);
    // same day: nothing more is admitted
    s.update_at(1000 + 10);
    assert_eq!(s.new_cards(), 1);
    // a day later: two more, but the queue cap of three binds
    s.update_at(1000 + 1440);
    assert_eq!(s.new_cards(), 3);
    // yet another day: the queue is full, nothing is admitted
    s.update_at(1000 + 2 * 1440 + 10);
    assert_eq!(s.new_cards(), 3);
}

#[test]
fn review_moves_card_into_due_queue() {
    let deck = small_deck(2, 20, 10);
    let mut s = Scheduler::new_at(deck, empty_schedule(), 1000);
    let first = s.current_metacard().id.clone();
    s.review_at(Score::Okay, 1000);

    // the reviewed card went from New into learning with a one-day interval
    let reviewed = s
        .schedule()
        .metacards
        .iter()
        .find(|m| m.id == first)
        .unwrap();
    assert_eq!(reviewed.state, CardState::Learning(0));
    assert_eq!(reviewed.current_interval, 1440);
    assert_eq!(reviewed.due, 1000 + 1440);
    assert_eq!(reviewed.history.len(), 1);

    // the review was recorded globally and for the card's tag
    assert_eq!(s.schedule().statistics().reviews.len(), 1);
    assert_eq!(s.schedule().tag_statistics().len(), 1);
    assert_eq!(s.schedule().tag_statistics()[0].name, "T");
    assert_eq!(s.schedule().tag_statistics()[0].stats.reviews.len(), 1);

    // the other card is now current
    assert_ne!(s.current_metacard().id, first);
}

#[test]
fn reviewed_single_card_stays_current() {
    let deck = small_deck(1, 20, 10);
    let mut s = Scheduler::new_at(deck, empty_schedule(), 1000);
    s.review_at(Score::Okay, 1000);
    // with one card the next pick must take it from the due queue again
    assert_eq!(s.current_metacard().due, 1000 + 1440);
    assert_eq!(s.due_cards(), 0);
    assert_eq!(s.queued_cards(), 0);
}

#[test]
fn preview_shows_relearning_interval_for_fail() {
    let deck = small_deck(1, 20, 10);
    let mut s = Scheduler::new_at(deck, empty_schedule(), 1000);
    s.review_at(Score::Good, 1000);
    // after Good from New, the card sits in the learning phase
    let intervals = s.current_card_new_intervals();
    // from Learning(step), failing saturates back to the first entry
    assert_eq!(intervals[0], 1440);
    assert!(intervals[4] >= intervals[0]);
}

#[test]
fn postpone_moves_due_a_day_without_review() {
    let deck = small_deck(1, 20, 10);
    let mut s = Scheduler::new_at(deck, empty_schedule(), 1000);
    let id = s.current_metacard().id.clone();
    s.postpone_at(5000);
    let moved = s.schedule().metacards.iter().find(|m| m.id == id).unwrap();
    assert_eq!(moved.due, 5000 + 1440);
    assert_eq!(moved.history.len(), 0);
    assert_eq!(moved.state, CardState::New);
    assert_eq!(s.schedule().statistics().reviews.len(), 0);
}

#[test]
fn persisted_state_survives_reconstruction() {
    let deck = small_deck(2, 20, 10);
    let mut s = Scheduler::new_at(deck, empty_schedule(), 1000);
    s.review_at(Score::Okay, 1000);
    let sched = s.into_schedule();
    // reload the same content with the persisted state: the reviewed card
    // keeps its history, nothing is duplicated
    let deck2 = small_deck(2, 20, 10);
    let s2 = Scheduler::new_at(deck2, sched, 2000);
    assert_eq!(s2.schedule().metacards.len(), 2);
    assert_eq!(
        s2.schedule()
            .metacards
            .iter()
            .filter(|m| m.history.len() == 1)
            .count(),
        1
    );
}

#[test]
fn orphaned_metacards_are_kept_but_not_scheduled() {
    let deck = small_deck(2, 20, 10);
    let mut s = Scheduler::new_at(deck, empty_schedule(), 1000);
    s.review_at(Score::Okay, 1000);
    let sched = s.into_schedule();
    // a deck in which one card disappeared: its metacard stays in storage
    let deck2 = Deck::parse("[card c0]\ntags: T\n").unwrap();
    let s2 = Scheduler::new_at(deck2, sched, 2000);
    assert_eq!(s2.schedule().metacards.len(), 2);
    // only the surviving card is live; it is current, nothing else waits
    assert_eq!(s2.queued_cards(), 0);
}
