//! Tests of the deck parser.

use mu_backend::deck::{parse_duration, to_score_array, Deck, ParsingError};
use mu_backend::text::chars_to_vec;

fn chars(s: &str) -> Vec<char> {
    chars_to_vec(s)
}

#[test]
fn parse() {
    let input = r"

[settings]
    max new queue: 20
    max new daily: 5

[tag default]
    learning intervals: 30m, 1d, 3d
    learning interval progressions: -2, 1, 1, 2, 2
    relearning intervals: 30m, 1d
    relearning interval progressions: -2, 1, 1, 1, 1
    starting ease: 2.5
ease increase: -0.20, -0.15, 0, 0.05, 0.15
    interval modifier: 1
    score modifiers: 1, 0.7, 1, 1.2, 1.4
    priority modifiers: 1.5, 1.2, 1, 0.8, 0.5
    max interval: 2M
    desired retention rate: 0.85

[tag Definition]
    learning intervals: 30m, 1d, 3d
    learning interval progressions: -2, 1, 1, 2, 2
    relearning intervals: 30m, 1d
    relearning interval progressions: -2, 1, 1, 1, 1
    starting ease: 2.5
    ease increase: -0.20, -0.15, 0, 0.05, 0.15
    interval modifier: 1
    score modifiers: 1, 0.7, 1, 1.2, 1.4
    priority modifiers: 1.5, 1.2, 1, 0.8, 0.5
    max interval: 4y
    desired retention rate: 0.85

[tag Theorem]
    INHERIT: Definition

[tag Exercise]
# Comment here
    ease increase: -0.20, -0.15, 0, 0.05, 0.15
    interval modifier: 1
    score modifiers: 1, 0.7, 1, 1.2, 1.4
    desired retention rate: 0.85

[card 123]
tags: Definition, Week 2
priority: 5
";
    let deck = Deck::parse(input).unwrap();
    // 4y = 4 * 12 * 4 weeks = 1935360 minutes
    let theorem = deck.find_tag_settings(&chars("Theorem")).unwrap();
    assert_eq!(4 * 12 * 4 * 7 * 24 * 60, theorem.max_interval);
    let card = deck.find_card(&chars("123")).unwrap();
    assert_eq!(card.tags[0], "Definition");
    assert_eq!(card.priority, 4);
}

#[test]
fn no_settings() {
    Deck::parse(
        "
[card 123]
tags: Definition, Week 2
priority: 5
pdf: fibration.pdf



[card 124]
tags: Definition
priority: 5
pdf: derived_couple.pdf

[card 125]
tags: Definition
priority: 5
pdf: triad.pdf
max interval: 500d

[card 127]
tags: Definition
priority: 5
pdf: spectral_sequence.pdf
        ",
    )
    .unwrap();
}

#[test]
#[should_panic]
fn error_double_section1() {
    Deck::parse(
        "

[tag A]
[tag A]
        ",
    )
    .unwrap();
}

#[test]
#[should_panic]
fn error_double_section2() {
    Deck::parse(
        "
[card a123]
tags: Definition, Week 2
priority: 5
file: module.pdf



[card a123]
tags: Definition
priority: 5
file: ring.pdf
        ",
    )
    .unwrap();
}

#[test]
#[should_panic]
fn error_unknown_key1() {
    Deck::parse(
        "

[settings]
    max new queue: 20
    max new daily: 5
    min new daily: 5
        ",
    )
    .unwrap();
}

#[test]
#[should_panic]
fn error_unknown_key2() {
    Deck::parse(
        r"
[card afhe]
tags: Definition, Week 2
priorityy: 5
file: module.pdf



[card afhd]
tags: Definition
priority: 5
file: module.pdf
        ",
    )
    .unwrap();
}

#[test]
#[should_panic]
fn error_unknown_units() {
    Deck::parse(
        r"

[settings]
    max new queue: 20
    max new daily: 5

[tag default]
    learning intervals: 30m, 1a, 3d
    learning interval progressions: -2, 1, 1, 2, 2
            relearning intervals: 30m, 1d
            relearning interval progressions: -2, 1, 1, 1, 1
            starting ease: 2.5
        ease increase: -0.20, -0.15, 0, 0.05, 0.15
            interval modifier: 1
            score modifiers: 1, 0.7, 1, 1.2, 1.4
            priority modifiers: 1.5, 1.2, 1, 0.8, 0.5
            max interval: 2M
            desired retention rate: 0.85
        ",
    )
    .unwrap();
}

#[test]
fn score_array_takes_exactly_five() {
    assert_eq!(to_score_array(vec![1i64, 2, 3, 4, 5]), Ok([1i64, 2, 3, 4, 5]));
    assert_eq!(to_score_array(vec![1i64, 2, 3, 4]), Err(ParsingError::WrongArity));
    assert_eq!(to_score_array(vec![1i64, 2, 3, 4, 5, 6]), Err(ParsingError::WrongArity));
    assert_eq!(to_score_array(Vec::<i64>::new()), Err(ParsingError::WrongArity));
}

#[test]
fn duration_literals() {
    assert_eq!(parse_duration(&chars("30m")), Ok(30));
    assert_eq!(parse_duration(&chars("1d")), Ok(24 * 60));
    assert_eq!(parse_duration(&chars("1w")), Ok(7 * 24 * 60));
    assert_eq!(parse_duration(&chars("2M")), Ok(2 * 4 * 7 * 24 * 60));
    assert_eq!(parse_duration(&chars("1y")), Ok(48 * 7 * 24 * 60));
    assert_eq!(parse_duration(&chars("1a")), Err(ParsingError::UnknownUnit));
    assert_eq!(parse_duration(&chars("xm")), Err(ParsingError::ParseInt));
    assert_eq!(parse_duration(&chars("")), Err(ParsingError::EmptyDuration));
}

#[test]
fn card_only_input_uses_default_settings() {
    let deck = Deck::parse("[card 9]\ntags: T\n").unwrap();
    assert_eq!(deck.settings.max_new_queue, 20);
    assert_eq!(deck.settings.max_new_daily, 10);
    let default = deck.find_tag_settings(&chars("")).unwrap();
    assert_eq!(default.starting_ease, 2500);
    assert_eq!(default.max_interval, 50 * 1440);
    assert_eq!(default.learning_intervals, vec![1440, 2880, 4320]);
}

#[test]
fn empty_input_is_empty_deck_error() {
    let err = Deck::parse("").unwrap_err();
    assert_eq!(err.err, ParsingError::EmptyDeck);
    assert_eq!(err.line_num, 0);
}

#[test]
fn input_without_cards_is_empty_deck_error() {
    let err = Deck::parse("[settings]\nmax new queue: 5\n").unwrap_err();
    assert_eq!(err.err, ParsingError::EmptyDeck);
}

#[test]
fn duplicate_tag_fails() {
    let err = Deck::parse("\n\n[tag A]\n[tag A]\n").unwrap_err();
    assert_eq!(err.err, ParsingError::DuplicateTag);
    // the second section is only committed at the end of the input,
    // so the error carries the line count
    assert_eq!(err.line_num, 4);
}

#[test]
fn duplicate_card_fails() {
    let err = Deck::parse("[card x]\n[card x]\n").unwrap_err();
    assert_eq!(err.err, ParsingError::DuplicateCard);
}

#[test]
fn default_tag_redefinition_is_tolerated() {
    let deck = Deck::parse("[tag default]\nstarting ease: 3\n[tag default]\nmin ease: 1\n[card c]\n")
        .unwrap();
    let default = deck.find_tag_settings(&chars("")).unwrap();
    assert_eq!(default.min_ease, 1000);
}

#[test]
fn unknown_key_fails_in_every_section() {
    let e1 = Deck::parse("[settings]\nbogus: 1\n").unwrap_err();
    assert_eq!(e1.err, ParsingError::UnknownKey);
    let e2 = Deck::parse("[tag default]\nbogus: 1\n").unwrap_err();
    assert_eq!(e2.err, ParsingError::UnknownKey);
    let e3 = Deck::parse("[card c]\nbogus: 1\n").unwrap_err();
    assert_eq!(e3.err, ParsingError::UnknownKey);
}

#[test]
fn unknown_section_fails() {
    let err = Deck::parse("[bogus]\n").unwrap_err();
    assert_eq!(err.err, ParsingError::UnknownSection);
}

#[test]
fn malformed_pair_fails() {
    let err = Deck::parse("[card c]\nno colon here\n").unwrap_err();
    assert_eq!(err.err, ParsingError::MalformedPair);
    let err2 = Deck::parse("[card c]\npriority:\n").unwrap_err();
    assert_eq!(err2.err, ParsingError::MalformedPair);
}

#[test]
fn content_before_any_section_fails() {
    let err = Deck::parse("priority: 3\n").unwrap_err();
    assert_eq!(err.err, ParsingError::NoSection);
}

#[test]
fn invalid_priority_fails() {
    let err = Deck::parse("[card c]\npriority: 0\n").unwrap_err();
    assert_eq!(err.err, ParsingError::InvalidPriority);
    let err2 = Deck::parse("[card c]\npriority: 6\n").unwrap_err();
    assert_eq!(err2.err, ParsingError::InvalidPriority);
    let err3 = Deck::parse("[card c]\npriority: 300\n").unwrap_err();
    assert_eq!(err3.err, ParsingError::ParseInt);
}

#[test]
fn unknown_inherit_target_fails() {
    let err = Deck::parse("[tag B]\nINHERIT: A\n").unwrap_err();
    assert_eq!(err.err, ParsingError::UnknownInheritTarget);
}

#[test]
fn bad_numbers_fail() {
    let e1 = Deck::parse("[settings]\nmax new queue: many\n").unwrap_err();
    assert_eq!(e1.err, ParsingError::ParseInt);
    let e2 = Deck::parse("[tag default]\nstarting ease: much\n").unwrap_err();
    assert_eq!(e2.err, ParsingError::ParseFloat);
    let e3 = Deck::parse("[tag default]\nlearning interval progressions: 1, 2, 3\n").unwrap_err();
    assert_eq!(e3.err, ParsingError::WrongArity);
}

#[test]
fn card_defaults_and_views() {
    let deck = Deck::parse("[card q]\n").unwrap();
    let card = deck.find_card(&chars("q")).unwrap();
    // a card without viewing methods defaults to "<id>.pdf"
    assert_eq!(card.view.len(), 1);
    assert_eq!(card.view[0].as_str(), "q.pdf");
    assert_eq!(card.priority, 2);

    let deck2 = Deck::parse("[card r]\npdf: a.pdf, b.pdf\nsh: echo hi\n").unwrap();
    let card2 = deck2.find_card(&chars("r")).unwrap();
    assert_eq!(card2.view.len(), 3);
    assert_eq!(card2.view[0].as_str(), "a.pdf");
    assert_eq!(card2.view[1].as_str(), "b.pdf");
    assert_eq!(card2.view[2].as_str(), "[command]");
}

#[test]
fn error_line_numbers_are_zero_based() {
    let err = Deck::parse("[settings]\nbogus: 1\n").unwrap_err();
    assert_eq!(err.line_num, 1);
    let err2 = Deck::parse("# comment\n\n[settings]\nbogus: 1\n").unwrap_err();
    assert_eq!(err2.line_num, 3);
}
