//! Tests of the card state machine.

use mu_backend::cards::{Card, CardState, Command, Metacard, Score, View};
use mu_backend::duration::MAX_MINUTES;
use mu_backend::settings::TagSettings;

const BIG: i64 = MAX_MINUTES;

fn fresh(now: i64) -> Metacard {
    Metacard::new_at(String::from("c"), &TagSettings::default(), now)
}

#[test]
fn new_metacard_is_new_and_due_now() {
    let m = fresh(100);
    assert_eq!(m.state, CardState::New);
    assert_eq!(m.current_interval, 0);
    assert_eq!(m.due, 100);
    assert_eq!(m.ease, 2500);
    assert!(m.history.is_empty());
}

#[test]
fn review_from_new_starts_learning() {
    let ts = TagSettings::default();
    let mut m = fresh(0);
    // progression for Okay is 1, so the interval is entry 1 - 1 = 0: one day
    m.review_at(&ts, Score::Okay, 2, 1000, BIG, 0);
    assert_eq!(m.state, CardState::Learning(0));
    assert_eq!(m.current_interval, 1440);
    assert_eq!(m.due, 1440);
    assert_eq!(m.history.len(), 1);
    assert_eq!(m.history[0].state_before, CardState::New);
    assert_eq!(m.history[0].ended_interval, 0);
    assert_eq!(m.history[0].score, Score::Okay);
    // ease does not change outside the learnt state
    assert_eq!(m.ease, 2500);
}

#[test]
fn learning_reaches_learnt_at_last_index() {
    let ts = TagSettings::default();
    let mut m = fresh(0);
    m.state = CardState::Learning(0);
    // progression for Good is 2: index 2 is the last of three, so learnt
    m.review_at(&ts, Score::Good, 2, 1000, BIG, 10);
    assert_eq!(m.state, CardState::Learnt);
    assert_eq!(m.current_interval, 4320);
    assert_eq!(m.due, 10 + 4320);
}

#[test]
fn learning_saturates_at_table_start() {
    let ts = TagSettings::default();
    let mut m = fresh(0);
    m.state = CardState::Learning(1);
    // progression for Fail is -2: 1 - 2 saturates to index 0
    m.review_at(&ts, Score::Fail, 2, 1000, BIG, 0);
    assert_eq!(m.state, CardState::Learning(0));
    assert_eq!(m.current_interval, 1440);
}

#[test]
fn failing_a_learnt_card_starts_relearning() {
    let ts = TagSettings::default();
    let mut m = fresh(0);
    m.state = CardState::Learnt;
    m.current_interval = 4320;
    m.review_at(&ts, Score::Fail, 2, 1000, BIG, 0);
    assert_eq!(m.state, CardState::Relearning(0));
    // the first relearning interval, half an hour
    assert_eq!(m.current_interval, 30);
    // ease falls by the Fail increase, staying in the band
    assert_eq!(m.ease, 2300);
}

#[test]
fn learnt_interval_grows_by_ease() {
    let ts = TagSettings::default();
    let mut m = fresh(0);
    m.state = CardState::Learnt;
    m.current_interval = 4320;
    // Okay: ease increase 0, all modifiers 1.0 at priority 2, familiarity 1.0
    // raw = 4320 * 2.5 = 10800, within the 50-day cap, growth over one day
    m.review_at(&ts, Score::Okay, 2, 1000, BIG, 0);
    assert_eq!(m.state, CardState::Learnt);
    assert_eq!(m.current_interval, 10800);
    assert_eq!(m.ease, 2500);
}

#[test]
fn learnt_interval_saturates_at_max_interval() {
    let ts = TagSettings::default();
    let mut m = fresh(0);
    m.state = CardState::Learnt;
    m.current_interval = 60000;
    // raw = 60000 * 2.5 = 150000 > 72000, so the tag cap wins
    m.review_at(&ts, Score::Okay, 2, 1000, BIG, 0);
    assert_eq!(m.current_interval, 72000);
}

#[test]
fn learnt_interval_minimal_increase() {
    let ts = TagSettings::default();
    let mut m = fresh(0);
    m.state = CardState::Learnt;
    m.current_interval = 4320;
    // a tiny familiarity shrinks the raw interval below the current one,
    // so the minimal increase of one day forces forward progress
    m.review_at(&ts, Score::Okay, 2, 100, BIG, 0);
    assert_eq!(m.current_interval, 4320 + 1440);
}

#[test]
fn caller_ceiling_always_wins() {
    let ts = TagSettings::default();
    let mut m = fresh(0);
    m.state = CardState::Learnt;
    m.current_interval = 4320;
    m.review_at(&ts, Score::Okay, 2, 1000, 5000, 0);
    assert_eq!(m.current_interval, 5000);
}

#[test]
fn ease_stays_within_band() {
    let ts = TagSettings::default();
    let mut m = fresh(0);
    m.state = CardState::Learnt;
    m.current_interval = 100;
    m.ease = 3500;
    // Easy adds 150, clamped at max_ease
    m.review_at(&ts, Score::Easy, 2, 1000, BIG, 0);
    assert_eq!(m.ease, 3500);
    // a long run of failures can never leave the band either
    for _ in 0..20 {
        m.state = CardState::Learnt;
        m.review_at(&ts, Score::Fail, 2, 1000, BIG, 0);
        assert!(ts.min_ease <= m.ease && m.ease <= ts.max_ease);
    }
    assert_eq!(m.ease, 1300);
}

#[test]
fn preview_matches_committed_review() {
    let ts = TagSettings::default();
    let mut m = fresh(0);
    m.state = CardState::Learnt;
    m.current_interval = 4320;
    let preview = m.new_intervals(&ts, 2, 1000, BIG);
    // failing a learnt card always shows the first relearning interval
    assert_eq!(preview[0], 30);
    let mut committed = [0i64; 5];
    for (i, score) in [Score::Fail, Score::Hard, Score::Okay, Score::Good, Score::Easy]
        .into_iter()
        .enumerate()
    {
        let mut copy = fresh(0);
        copy.state = CardState::Learnt;
        copy.current_interval = 4320;
        copy.review_at(&ts, score, 2, 1000, BIG, 0);
        committed[i] = copy.current_interval;
    }
    assert_eq!(preview, committed);
}

#[test]
fn view_names() {
    let pdf = View::Pdf(String::from("x.pdf"));
    assert_eq!(pdf.as_str(), "x.pdf");
    let cmd = View::Command(Command(String::from("echo hi")));
    assert_eq!(cmd.as_str(), "[command]");
}

#[test]
fn default_card_is_unbounded_middle_priority() {
    let c = Card::default();
    assert_eq!(c.priority, 2);
    assert_eq!(c.max_interval, MAX_MINUTES);
    assert!(c.view.is_empty());
    assert!(c.tags.is_empty());
}
