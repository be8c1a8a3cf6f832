//! Collections of flashcards, and the deck source parser.
//!
//! A deck is written as a line-oriented text of `[section]` headers and
//! `key: value` pairs.  The grammar is captured by specification functions
//! (`spec_parse_line`, `spec_flush`, `spec_parse`), and the executable
//! parser is proved to return exactly what they describe.

use vstd::prelude::*;
use crate::cards::{Card, CardModel, CardViewModel, Command, spec_default_card, SCORES};
use crate::duration::{clamped, saturating_scale, MAX_MINUTES, MINUTES_PER_DAY, MINUTES_PER_MINUTE,
    MINUTES_PER_MONTH, MINUTES_PER_WEEK, MINUTES_PER_YEAR};
use crate::settings::{GlobalSettings, TagSettings, TagSettingsModel, spec_default_tag_settings};
use crate::text::{chars_to_vec, eq_chars, find_char, first_index_of,
    lemma_first_index_none, lemma_first_index_some, parse_i64, parse_milli, parse_usize,
    slice_suffix, spec_lines, spec_parse_i64, spec_parse_milli, spec_parse_usize, spec_split,
    spec_starts_with, spec_trim, spec_trim_front, split_char, split_lines, starts_with, trim,
    trim_front, views};

verus! {

/// An error during parsing.
#[derive(Clone, Copy, PartialEq, Eq, Structural, Debug)]
pub enum ParsingError {
    /// A value that must be an integer is not one, or does not fit.
    ParseInt,
    /// A value that must be a decimal number is not one, or does not fit.
    ParseFloat,
    /// A line inside a section is not a `key: value` pair with a nonempty
    /// value.
    MalformedPair,
    /// A section header names no recognized section.
    UnknownSection,
    /// A key is not recognized in its section.
    UnknownKey,
    /// A per-score list does not have exactly one entry per score.
    WrongArity,
    /// A duration literal ends in an unrecognized unit character.
    UnknownUnit,
    /// A duration literal is empty.
    EmptyDuration,
    /// An `INHERIT` names a tag that has not been committed yet.
    UnknownInheritTarget,
    /// A non-default tag is configured a second time.
    DuplicateTag,
    /// A card id appears a second time.
    DuplicateCard,
    /// A priority is outside the accepted `1..=5` range.
    InvalidPriority,
    /// The parsed deck holds no cards.
    EmptyDeck,
    /// A `key: value` line stands before any section header.
    NoSection,
}

/// A parsing error with the 0-based line number at which it was detected.
#[derive(Clone, Copy, PartialEq, Eq, Structural, Debug)]
pub struct ParsingErrorLine {
    /// The 0-based line number; comment and blank lines count too.
    pub line_num: usize,
    /// The error.
    pub err: ParsingError,
}

/// The first value bound to `k` in an association sequence.
pub open spec fn assoc_find<T>(s: Seq<(Seq<char>, T)>, k: Seq<char>) -> Option<T>
    decreases s.len(),
{
    if s.len() == 0 {
        None
    } else if s[0].0 == k {
        Some(s[0].1)
    } else {
        assoc_find(s.drop_first(), k)
    }
}

/// Whether `k` is bound in an association sequence.
pub open spec fn assoc_has<T>(s: Seq<(Seq<char>, T)>, k: Seq<char>) -> bool {
    assoc_find(s, k) is Some
}

/// Bind `k` to `v`: replace the first binding of `k`, or append one.
pub open spec fn assoc_insert<T>(s: Seq<(Seq<char>, T)>, k: Seq<char>, v: T) -> Seq<
    (Seq<char>, T),
>
    decreases s.len(),
{
    if s.len() == 0 {
        seq![(k, v)]
    } else if s[0].0 == k {
        seq![(k, v)] + s.drop_first()
    } else {
        seq![s[0]] + assoc_insert(s.drop_first(), k, v)
    }
}

pub proof fn lemma_assoc_find_at<T>(s: Seq<(Seq<char>, T)>, k: Seq<char>, i: int)
    requires
        0 <= i < s.len(),
        s[i].0 == k,
        forall|j: int| 0 <= j < i ==> (#[trigger] s[j]).0 != k,
    ensures
        assoc_find(s, k) == Some(s[i].1),
    decreases i,
{
    if i > 0 {
        lemma_assoc_find_at(s.drop_first(), k, i - 1);
    }
}

pub proof fn lemma_assoc_find_none<T>(s: Seq<(Seq<char>, T)>, k: Seq<char>)
    requires
        forall|j: int| 0 <= j < s.len() ==> (#[trigger] s[j]).0 != k,
    ensures
        assoc_find(s, k) == None::<T>,
    decreases s.len(),
{
    if s.len() > 0 {
        lemma_assoc_find_none(s.drop_first(), k);
    }
}

proof fn lemma_assoc_found_wf(s: Seq<(Seq<char>, TagSettingsModel)>, k: Seq<char>)
    requires
        assoc_find(s, k) is Some,
        forall|i: int| 0 <= i < s.len() ==> (#[trigger] s[i]).1.wf(),
    ensures
        assoc_find(s, k).unwrap().wf(),
    decreases s.len(),
{
    if s.len() > 0 && s[0].0 != k {
        assert forall|i: int| 0 <= i < s.drop_first().len() implies (#[trigger] s.drop_first()[i]).1.wf() by {
            assert(s.drop_first()[i] == s[i + 1]);
        }
        lemma_assoc_found_wf(s.drop_first(), k);
    }
}

/// The mathematical model of a deck: settings, tag-settings bindings in
/// declaration order, and card bindings in declaration order.
#[verifier::ext_equal]
pub ghost struct DeckModel {
    pub settings: GlobalSettings,
    pub tags: Seq<(Seq<char>, TagSettingsModel)>,
    pub cards: Seq<(Seq<char>, CardModel)>,
}

impl DeckModel {
    /// Well-formedness: the default settings group is present, every group
    /// is well-formed, and every card has a valid priority and a bounded
    /// maximal interval.  Parsing only produces such decks.
    pub open spec fn wf(self) -> bool {
        &&& assoc_has(self.tags, Seq::empty())
        &&& forall|i: int| 0 <= i < self.tags.len() ==> (#[trigger] self.tags[i]).1.wf()
        &&& forall|i: int|
            0 <= i < self.cards.len() ==> (#[trigger] self.cards[i]).1.priority < SCORES
                && 0 <= self.cards[i].1.max_interval <= MAX_MINUTES
    }

    /// The settings group a card with these tags uses: the first tag with a
    /// bound group, the default group when none is bound.
    pub open spec fn resolved_settings(self, tags: Seq<Seq<char>>) -> TagSettingsModel
        decreases tags.len(),
    {
        if tags.len() == 0 {
            assoc_find(self.tags, Seq::empty()).unwrap()
        } else {
            match assoc_find(self.tags, tags[0]) {
                Some(t) => t,
                None => self.resolved_settings(tags.drop_first()),
            }
        }
    }
}

/// The views of a sequence of strings.
pub open spec fn str_views(s: Seq<String>) -> Seq<Seq<char>> {
    s.map_values(|t: String| t@)
}

/// A collection of flashcards, without any data about learning state.
#[derive(Debug)]
pub struct Deck {
    /// The global settings.
    pub settings: GlobalSettings,
    /// The settings for the various tags, in declaration order.
    ///
    /// The first tag of a card that has bound settings applies to it; if
    /// none has, the settings bound to the empty name apply.
    pub tag_settings: Vec<(String, TagSettings)>,
    /// The content of the cards, keyed by card id, in declaration order.
    pub cards: Vec<(String, Card)>,
}

impl View for Deck {
    type V = DeckModel;

    open spec fn view(&self) -> DeckModel {
        DeckModel {
            settings: self.settings,
            tags: self.tag_settings@.map_values(|p: (String, TagSettings)| (p.0@, p.1@)),
            cards: self.cards@.map_values(|p: (String, Card)| (p.0@, p.1@)),
        }
    }
}

impl Deck {
    /// Look up the settings bound to a tag name.
    pub fn find_tag_settings(&self, name: &[char]) -> (r: Option<&TagSettings>)
        ensures
            match r {
                Some(ts) => assoc_find(self@.tags, name@) == Some(ts@),
                None => assoc_find(self@.tags, name@) is None,
            },
    {
        let mut i: usize = 0;
        while i < self.tag_settings.len()
            invariant
                i <= self@.tags.len(),
                self@.tags.len() == self.tag_settings@.len(),
                forall|j: int| 0 <= j < i ==> (#[trigger] self@.tags[j]).0 != name@,
        decreases self@.tags.len() - i,
        {
            let pair = &self.tag_settings[i];
            let key_chars = chars_to_vec(pair.0.as_str());
            if eq_chars(key_chars.as_slice(), name) {
                proof {
                    lemma_assoc_find_at(self@.tags, name@, i as int);
                }
                return Some(&pair.1);
            }
            i = i + 1;
        }
        proof {
            lemma_assoc_find_none(self@.tags, name@);
        }
        None
    }

    /// Look up a card by id.
    pub fn find_card(&self, id: &[char]) -> (r: Option<&Card>)
        ensures
            match r {
                Some(c) => assoc_find(self@.cards, id@) == Some(c@),
                None => assoc_find(self@.cards, id@) is None,
            },
    {
        let mut i: usize = 0;
        while i < self.cards.len()
            invariant
                i <= self@.cards.len(),
                self@.cards.len() == self.cards@.len(),
                forall|j: int| 0 <= j < i ==> (#[trigger] self@.cards[j]).0 != id@,
        decreases self@.cards.len() - i,
        {
            let pair = &self.cards[i];
            let key_chars = chars_to_vec(pair.0.as_str());
            if eq_chars(key_chars.as_slice(), id) {
                proof {
                    lemma_assoc_find_at(self@.cards, id@, i as int);
                }
                return Some(&pair.1);
            }
            i = i + 1;
        }
        proof {
            lemma_assoc_find_none(self@.cards, id@);
        }
        None
    }

    /// Get the relevant settings for a card with tags `tags`: the first tag
    /// with bound settings wins, and the default group is the fallback.
    pub fn tag_settings(&self, tags: &[String]) -> (r: &TagSettings)
        requires
            self@.wf(),
        ensures
            r@ == self@.resolved_settings(str_views(tags@)),
            r.wf(),
    {
        let mut i: usize = 0;
        proof {
            assert(str_views(tags@).skip(0) =~= str_views(tags@));
        }
        while i < tags.len()
            invariant
                i <= tags@.len(),
                self@.wf(),
                self@.resolved_settings(str_views(tags@)) == self@.resolved_settings(
                    str_views(tags@).skip(i as int),
                ),
            decreases tags@.len() - i,
        {
            let tag_chars = chars_to_vec(tags[i].as_str());
            match self.find_tag_settings(tag_chars.as_slice()) {
                Some(ts) => {
                    proof {
                        let rest = str_views(tags@).skip(i as int);
                        assert(rest[0] == tags@[i as int]@);
                        lemma_assoc_found_wf(self@.tags, tags@[i as int]@);
                    }
                    return ts;
                },
                None => {
                    proof {
                        let rest = str_views(tags@).skip(i as int);
                        assert(rest[0] == tags@[i as int]@);
                        assert(rest.drop_first() =~= str_views(tags@).skip(i + 1));
                    }
                },
            }
            i = i + 1;
        }
        proof {
            assert(str_views(tags@).skip(tags@.len() as int) =~= Seq::<Seq<char>>::empty());
        }
        let empty: Vec<char> = Vec::new();
        proof {
            assert(empty@ =~= Seq::<char>::empty());
        }
        match self.find_tag_settings(empty.as_slice()) {
            Some(ts) => {
                proof {
                    lemma_assoc_found_wf(self@.tags, Seq::empty());
                }
                ts
            },
            None => {
                proof {
                    assert(false);
                }
                unreached()
            },
        }
    }
}

impl Default for Deck {
    fn default() -> (r: Deck)
        ensures
            r@ == spec_initial_deck(),
    {
        let mut tag_settings: Vec<(String, TagSettings)> = Vec::new();
        tag_settings.push((String::new(), TagSettings::default()));
        let r = Deck {
            settings: GlobalSettings::default(),
            tag_settings,
            cards: Vec::new(),
        };
        proof {
            assert(r@.tags =~= seq![(Seq::<char>::empty(), spec_default_tag_settings())]);
            assert(r@.cards =~= Seq::<(Seq<char>, CardModel)>::empty());
            assert(r@ =~= spec_initial_deck());
        }
        r
    }
}

/// The model of a deck before any line is read: default global settings,
/// the default settings group under the empty name, and no cards.
pub open spec fn spec_initial_deck() -> DeckModel {
    DeckModel {
        settings: GlobalSettings { max_new_queue: 20, max_new_daily: 10 },
        tags: seq![(Seq::<char>::empty(), spec_default_tag_settings())],
        cards: Seq::empty(),
    }
}

/// The duration a literal `<integer><unit>` denotes, in minutes; the unit
/// is one of `m`, `d`, `w`, `M` (4 weeks) and `y` (48 weeks).  The count is
/// saturated into `[0, MAX_MINUTES]`: a negative count reads as zero and an
/// overflowing one as the cap, so a duration neither panics nor goes
/// backwards in time.
pub open spec fn spec_parse_duration(s: Seq<char>) -> Result<i64, ParsingError> {
    if s.len() == 0 {
        Err(ParsingError::EmptyDuration)
    } else {
        let unit = s.last();
        match spec_parse_i64(s.drop_last()) {
            None => Err(ParsingError::ParseInt),
            Some(n) => {
                if unit == 'm' {
                    Ok(clamped(n * MINUTES_PER_MINUTE))
                } else if unit == 'd' {
                    Ok(clamped(n * MINUTES_PER_DAY))
                } else if unit == 'w' {
                    Ok(clamped(n * MINUTES_PER_WEEK))
                } else if unit == 'M' {
                    Ok(clamped(n * MINUTES_PER_MONTH))
                } else if unit == 'y' {
                    Ok(clamped(n * MINUTES_PER_YEAR))
                } else {
                    Err(ParsingError::UnknownUnit)
                }
            },
        }
    }
}

/// Parse a duration literal.
pub fn parse_duration(s: &[char]) -> (r: Result<i64, ParsingError>)
    ensures
        r == spec_parse_duration(s@),
        r matches Ok(d) ==> 0 <= d <= MAX_MINUTES,
{
    if s.len() == 0 {
        return Err(ParsingError::EmptyDuration);
    }
    let unit = s[s.len() - 1];
    let mut number_part: Vec<char> = Vec::new();
    let mut i: usize = 0;
    while i < s.len() - 1
        invariant
            i <= s@.len() - 1,
            number_part@ =~= s@.subrange(0, i as int),
        decreases s@.len() - i,
    {
        number_part.push(s[i]);
        proof {
            assert(number_part@ =~= s@.subrange(0, i + 1));
        }
        i = i + 1;
    }
    proof {
        assert(number_part@ =~= s@.drop_last());
    }
    let n = match parse_i64(number_part.as_slice()) {
        Some(n) => n,
        None => {
            return Err(ParsingError::ParseInt);
        },
    };
    if unit == 'm' {
        Ok(saturating_scale(n, MINUTES_PER_MINUTE))
    } else if unit == 'd' {
        Ok(saturating_scale(n, MINUTES_PER_DAY))
    } else if unit == 'w' {
        Ok(saturating_scale(n, MINUTES_PER_WEEK))
    } else if unit == 'M' {
        Ok(saturating_scale(n, MINUTES_PER_MONTH))
    } else if unit == 'y' {
        Ok(saturating_scale(n, MINUTES_PER_YEAR))
    } else {
        Err(ParsingError::UnknownUnit)
    }
}

/// The key and value of a line `<key>: <value>`: the colon is required, the
/// key is trimmed on both sides, the value loses its leading whitespace,
/// and the value must be nonempty.  The parser only ever hands in lines
/// that are already trimmed, so trimming the key's front here is idle; it
/// just keeps this function's meaning independent of that context.
pub open spec fn spec_key_value(l: Seq<char>) -> Result<(Seq<char>, Seq<char>), ParsingError> {
    match first_index_of(l, ':') {
        None => Err(ParsingError::MalformedPair),
        Some(c) => {
            let key = spec_trim(l.take(c));
            let value = spec_trim_front(l.skip(c + 1));
            if value.len() == 0 {
                Err(ParsingError::MalformedPair)
            } else {
                Ok((key, value))
            }
        },
    }
}

/// Split a line into its key and value.
pub fn key_value(l: &[char]) -> (r: Result<(Vec<char>, Vec<char>), ParsingError>)
    ensures
        match r {
            Ok((k, v)) => spec_key_value(l@) == Ok::<_, ParsingError>((k@, v@)),
            Err(e) => spec_key_value(l@) == Err::<(Seq<char>, Seq<char>), _>(e),
        },
{
    let colon = match find_char(l, ':') {
        Some(c) => {
            proof {
                lemma_first_index_some(l@, ':', c as int);
            }
            c
        },
        None => {
            proof {
                lemma_first_index_none(l@, ':');
            }
            return Err(ParsingError::MalformedPair);
        },
    };
    let mut key_part: Vec<char> = Vec::new();
    let mut i: usize = 0;
    while i < colon
        invariant
            i <= colon <= l@.len(),
            key_part@ =~= l@.subrange(0, i as int),
        decreases colon - i,
    {
        key_part.push(l[i]);
        proof {
            assert(key_part@ =~= l@.subrange(0, i + 1));
        }
        i = i + 1;
    }
    proof {
        assert(key_part@ =~= l@.take(colon as int));
    }
    let key = trim(key_part.as_slice());
    let l_len = l.len();
    proof {
        assert(colon < l_len);
    }
    let value_part = slice_suffix(l, colon + 1);
    let value = trim_front(value_part.as_slice());
    if value.len() == 0 {
        return Err(ParsingError::MalformedPair);
    }
    Ok((key, value))
}

pub proof fn lemma_assoc_insert_find<T>(s: Seq<(Seq<char>, T)>, k: Seq<char>, v: T, q: Seq<char>)
    ensures
        assoc_find(assoc_insert(s, k, v), q) == (if q == k {
            Some(v)
        } else {
            assoc_find(s, q)
        }),
    decreases s.len(),
{
    if s.len() == 0 {
        let r = assoc_insert(s, k, v);
        assert(r =~= seq![(k, v)]);
        assert(r[0] == (k, v));
        assert(r.drop_first() =~= Seq::<(Seq<char>, T)>::empty());
        if q == k {
            assert(assoc_find(r, q) == Some(v));
        } else {
            assert(assoc_find(r, q) == assoc_find(r.drop_first(), q));
            assert(assoc_find(r.drop_first(), q) is None);
        }
    } else if s[0].0 == k {
        let r = assoc_insert(s, k, v);
        assert(r =~= seq![(k, v)] + s.drop_first());
        assert(r[0] == (k, v));
        assert(r.drop_first() =~= s.drop_first());
        if q == k {
            assert(assoc_find(r, q) == Some(v));
        } else {
            assert(assoc_find(r, q) == assoc_find(s.drop_first(), q));
            assert(assoc_find(s, q) == assoc_find(s.drop_first(), q));
        }
    } else {
        let r = assoc_insert(s, k, v);
        assert(r =~= seq![s[0]] + assoc_insert(s.drop_first(), k, v));
        assert(r[0] == s[0]);
        assert(r.drop_first() =~= assoc_insert(s.drop_first(), k, v));
        lemma_assoc_insert_find(s.drop_first(), k, v, q);
        if s[0].0 == q {
            assert(assoc_find(r, q) == Some(s[0].1));
            assert(assoc_find(s, q) == Some(s[0].1));
        } else {
            assert(assoc_find(r, q) == assoc_find(r.drop_first(), q));
            assert(assoc_find(s, q) == assoc_find(s.drop_first(), q));
        }
    }
}

pub proof fn lemma_assoc_insert_update<T>(s: Seq<(Seq<char>, T)>, k: Seq<char>, v: T, i: int)
    requires
        0 <= i < s.len(),
        s[i].0 == k,
        forall|j: int| 0 <= j < i ==> (#[trigger] s[j]).0 != k,
    ensures
        assoc_insert(s, k, v) =~= s.update(i, (k, v)),
    decreases i,
{
    if i == 0 {
        assert(assoc_insert(s, k, v) =~= seq![(k, v)] + s.drop_first());
    } else {
        lemma_assoc_insert_update(s.drop_first(), k, v, i - 1);
        assert(assoc_insert(s, k, v) =~= seq![s[0]] + assoc_insert(s.drop_first(), k, v));
        assert(s.drop_first().update(i - 1, (k, v)) =~= s.update(i, (k, v)).drop_first());
        assert(assoc_insert(s, k, v) =~= s.update(i, (k, v)));
    }
}

proof fn lemma_assoc_insert_append<T>(s: Seq<(Seq<char>, T)>, k: Seq<char>, v: T)
    requires
        forall|j: int| 0 <= j < s.len() ==> (#[trigger] s[j]).0 != k,
    ensures
        assoc_insert(s, k, v) =~= s.push((k, v)),
    decreases s.len(),
{
    if s.len() == 0 {
    } else {
        lemma_assoc_insert_append(s.drop_first(), k, v);
        assert(assoc_insert(s, k, v) =~= seq![s[0]] + assoc_insert(s.drop_first(), k, v));
        assert(seq![s[0]] + s.drop_first().push((k, v)) =~= s.push((k, v)));
    }
}

/// The durations a comma-separated sequence of items denotes, each item
/// trimmed; the first failing item decides the error.
pub open spec fn spec_duration_items(items: Seq<Seq<char>>) -> Result<Seq<i64>, ParsingError>
    decreases items.len(),
{
    if items.len() == 0 {
        Ok(Seq::empty())
    } else {
        match spec_parse_duration(spec_trim(items[0])) {
            Err(e) => Err(e),
            Ok(d) => match spec_duration_items(items.drop_first()) {
                Err(e) => Err(e),
                Ok(rest) => Ok(seq![d] + rest),
            },
        }
    }
}

/// The durations a comma-separated list denotes.
pub open spec fn spec_duration_list(v: Seq<char>) -> Result<Seq<i64>, ParsingError> {
    spec_duration_items(spec_split(v, ','))
}

/// The signed numbers a comma-separated sequence of items denotes.
pub open spec fn spec_number_items(items: Seq<Seq<char>>) -> Result<Seq<i64>, ParsingError>
    decreases items.len(),
{
    if items.len() == 0 {
        Ok(Seq::empty())
    } else {
        match spec_parse_i64(spec_trim(items[0])) {
            None => Err(ParsingError::ParseInt),
            Some(n) => match spec_number_items(items.drop_first()) {
                Err(e) => Err(e),
                Ok(rest) => Ok(seq![n] + rest),
            },
        }
    }
}

/// The signed numbers a comma-separated list denotes.
pub open spec fn spec_number_list(v: Seq<char>) -> Result<Seq<i64>, ParsingError> {
    spec_number_items(spec_split(v, ','))
}

/// The fixed-point thousandths a comma-separated sequence of items denotes.
pub open spec fn spec_milli_items(items: Seq<Seq<char>>) -> Result<Seq<i64>, ParsingError>
    decreases items.len(),
{
    if items.len() == 0 {
        Ok(Seq::empty())
    } else {
        match spec_parse_milli(spec_trim(items[0])) {
            None => Err(ParsingError::ParseFloat),
            Some(n) => match spec_milli_items(items.drop_first()) {
                Err(e) => Err(e),
                Ok(rest) => Ok(seq![n] + rest),
            },
        }
    }
}

/// The fixed-point thousandths a comma-separated list denotes.
pub open spec fn spec_milli_list(v: Seq<char>) -> Result<Seq<i64>, ParsingError> {
    spec_milli_items(spec_split(v, ','))
}

proof fn lemma_split_from_len(cur: Seq<char>, s: Seq<char>, sep: char)
    ensures
        crate::text::spec_split_from(cur, s, sep).len() >= 1,
    decreases s.len(),
{
    if s.len() > 0 {
        if s[0] == sep {
            lemma_split_from_len(Seq::empty(), s.drop_first(), sep);
        } else {
            lemma_split_from_len(cur.push(s[0]), s.drop_first(), sep);
        }
    }
}

/// Parse a comma-separated list of durations.
pub fn parse_duration_list(v: &[char]) -> (r: Result<Vec<i64>, ParsingError>)
    ensures
        match r {
            Ok(ds) => spec_duration_list(v@) == Ok::<Seq<i64>, ParsingError>(ds@)
                && ds@.len() >= 1 && forall|j: int|
                0 <= j < ds@.len() ==> 0 <= #[trigger] ds@[j] <= MAX_MINUTES,
            Err(e) => spec_duration_list(v@) == Err::<Seq<i64>, ParsingError>(e),
        },
{
    let items = split_char(v, ',');
    let ghost full = views(items@);
    let mut acc: Vec<i64> = Vec::new();
    let mut i: usize = 0;
    proof {
        assert(full.skip(0) =~= full);
        if spec_duration_items(full) is Ok {
            assert(acc@ + spec_duration_items(full).unwrap() =~= spec_duration_items(
                full,
            ).unwrap());
        }
    }
    while i < items.len()
        invariant
            i <= items@.len(),
            full == views(items@),
            full == spec_split(v@, ','),
            full.len() == items@.len(),
            forall|j: int| 0 <= j < acc@.len() ==> 0 <= #[trigger] acc@[j] <= MAX_MINUTES,
            spec_duration_items(full) == (match spec_duration_items(full.skip(i as int)) {
                Err(e) => Err::<Seq<i64>, ParsingError>(e),
                Ok(rest) => Ok(acc@ + rest),
            }),
        decreases items@.len() - i,
    {
        let item = trim(items[i].as_slice());
        proof {
            assert(full.skip(i as int)[0] == items@[i as int]@);
            assert(full.skip(i as int).drop_first() =~= full.skip(i + 1));
        }
        match parse_duration(item.as_slice()) {
            Err(e) => {
                proof {
                    assert(spec_trim(full.skip(i as int)[0]) == item@);
                    assert(spec_duration_items(full.skip(i as int))
                        == Err::<Seq<i64>, ParsingError>(e));
                }
                return Err(e);
            },
            Ok(d) => {
                let ghost acc0 = acc@;
                acc.push(d);
                proof {
                    assert(spec_trim(full.skip(i as int)[0]) == item@);
                    assert(spec_duration_items(full.skip(i as int)) == (
                    match spec_duration_items(full.skip(i + 1)) {
                        Err(e2) => Err::<Seq<i64>, ParsingError>(e2),
                        Ok(rest) => Ok(seq![d] + rest),
                    }));
                    if spec_duration_items(full.skip(i + 1)) is Ok {
                        let rest = spec_duration_items(full.skip(i + 1)).unwrap();
                        assert(acc0 + (seq![d] + rest) =~= acc@ + rest);
                    }
                }
            },
        }
        i = i + 1;
    }
    proof {
        assert(full.skip(items@.len() as int) =~= Seq::<Seq<char>>::empty());
        assert(acc@ + Seq::<i64>::empty() =~= acc@);
        lemma_split_from_len(Seq::empty(), v@, ',');
    }
    Ok(acc)
}

/// Parse a comma-separated list of signed numbers.
pub fn parse_number_list(v: &[char]) -> (r: Result<Vec<i64>, ParsingError>)
    ensures
        match r {
            Ok(ns) => spec_number_list(v@) == Ok::<Seq<i64>, ParsingError>(ns@),
            Err(e) => spec_number_list(v@) == Err::<Seq<i64>, ParsingError>(e),
        },
{
    let items = split_char(v, ',');
    let ghost full = views(items@);
    let mut acc: Vec<i64> = Vec::new();
    let mut i: usize = 0;
    proof {
        assert(full.skip(0) =~= full);
        if spec_number_items(full) is Ok {
            assert(acc@ + spec_number_items(full).unwrap() =~= spec_number_items(full).unwrap());
        }
    }
    while i < items.len()
        invariant
            i <= items@.len(),
            full == views(items@),
            full == spec_split(v@, ','),
            full.len() == items@.len(),
            spec_number_items(full) == (match spec_number_items(full.skip(i as int)) {
                Err(e) => Err::<Seq<i64>, ParsingError>(e),
                Ok(rest) => Ok(acc@ + rest),
            }),
        decreases items@.len() - i,
    {
        let item = trim(items[i].as_slice());
        proof {
            assert(full.skip(i as int)[0] == items@[i as int]@);
            assert(full.skip(i as int).drop_first() =~= full.skip(i + 1));
        }
        match parse_i64(item.as_slice()) {
            None => {
                proof {
                    assert(spec_trim(full.skip(i as int)[0]) == item@);
                    assert(spec_number_items(full.skip(i as int))
                        == Err::<Seq<i64>, ParsingError>(ParsingError::ParseInt));
                }
                return Err(ParsingError::ParseInt);
            },
            Some(n) => {
                let ghost acc0 = acc@;
                acc.push(n);
                proof {
                    assert(spec_trim(full.skip(i as int)[0]) == item@);
                    assert(spec_number_items(full.skip(i as int)) == (
                    match spec_number_items(full.skip(i + 1)) {
                        Err(e2) => Err::<Seq<i64>, ParsingError>(e2),
                        Ok(rest) => Ok(seq![n] + rest),
                    }));
                    if spec_number_items(full.skip(i + 1)) is Ok {
                        let rest = spec_number_items(full.skip(i + 1)).unwrap();
                        assert(acc0 + (seq![n] + rest) =~= acc@ + rest);
                    }
                }
            },
        }
        i = i + 1;
    }
    proof {
        assert(full.skip(items@.len() as int) =~= Seq::<Seq<char>>::empty());
        assert(acc@ + Seq::<i64>::empty() =~= acc@);
    }
    Ok(acc)
}

/// Parse a comma-separated list of decimal numbers into thousandths.
pub fn parse_milli_list(v: &[char]) -> (r: Result<Vec<i64>, ParsingError>)
    ensures
        match r {
            Ok(ns) => spec_milli_list(v@) == Ok::<Seq<i64>, ParsingError>(ns@),
            Err(e) => spec_milli_list(v@) == Err::<Seq<i64>, ParsingError>(e),
        },
{
    let items = split_char(v, ',');
    let ghost full = views(items@);
    let mut acc: Vec<i64> = Vec::new();
    let mut i: usize = 0;
    proof {
        assert(full.skip(0) =~= full);
        if spec_milli_items(full) is Ok {
            assert(acc@ + spec_milli_items(full).unwrap() =~= spec_milli_items(full).unwrap());
        }
    }
    while i < items.len()
        invariant
            i <= items@.len(),
            full == views(items@),
            full == spec_split(v@, ','),
            full.len() == items@.len(),
            spec_milli_items(full) == (match spec_milli_items(full.skip(i as int)) {
                Err(e) => Err::<Seq<i64>, ParsingError>(e),
                Ok(rest) => Ok(acc@ + rest),
            }),
        decreases items@.len() - i,
    {
        let item = trim(items[i].as_slice());
        proof {
            assert(full.skip(i as int)[0] == items@[i as int]@);
            assert(full.skip(i as int).drop_first() =~= full.skip(i + 1));
        }
        match parse_milli(item.as_slice()) {
            None => {
                proof {
                    assert(spec_trim(full.skip(i as int)[0]) == item@);
                    assert(spec_milli_items(full.skip(i as int))
                        == Err::<Seq<i64>, ParsingError>(ParsingError::ParseFloat));
                }
                return Err(ParsingError::ParseFloat);
            },
            Some(n) => {
                let ghost acc0 = acc@;
                acc.push(n);
                proof {
                    assert(spec_trim(full.skip(i as int)[0]) == item@);
                    assert(spec_milli_items(full.skip(i as int)) == (
                    match spec_milli_items(full.skip(i + 1)) {
                        Err(e2) => Err::<Seq<i64>, ParsingError>(e2),
                        Ok(rest) => Ok(seq![n] + rest),
                    }));
                    if spec_milli_items(full.skip(i + 1)) is Ok {
                        let rest = spec_milli_items(full.skip(i + 1)).unwrap();
                        assert(acc0 + (seq![n] + rest) =~= acc@ + rest);
                    }
                }
            },
        }
        i = i + 1;
    }
    proof {
        assert(full.skip(items@.len() as int) =~= Seq::<Seq<char>>::empty());
        assert(acc@ + Seq::<i64>::empty() =~= acc@);
    }
    Ok(acc)
}

/// Convert a parsed list into an array with one entry per score.
///
/// Succeeds exactly when the list has one entry per score, and then keeps
/// the entries in order.
pub fn to_score_array<T: Copy>(vec: Vec<T>) -> (r: Result<[T; SCORES], ParsingError>)
    ensures
        match r {
            Ok(a) => vec@.len() == SCORES && a@ == vec@,
            Err(e) => vec@.len() != SCORES && e == ParsingError::WrongArity,
        },
{
    if vec.len() == SCORES {
        let a: [T; SCORES] = [vec[0], vec[1], vec[2], vec[3], vec[4]];
        proof {
            assert(a@ =~= vec@);
        }
        Ok(a)
    } else {
        Err(ParsingError::WrongArity)
    }
}

/// The deck parser's state: which section is currently being accumulated.
pub enum ParserState {
    /// Reading the global settings section.
    GlobalSettings,
    /// Reading the settings of the named tag; the empty name is the default
    /// group.
    TagSettings(String),
    /// Reading the card with the given id.
    Card(String),
    /// No section is open.
    Flushed,
}

/// The model of the parser's state.
pub ghost enum ParserStateModel {
    GlobalSettings,
    TagSettings(Seq<char>),
    Card(Seq<char>),
    Flushed,
}

impl View for ParserState {
    type V = ParserStateModel;

    open spec fn view(&self) -> ParserStateModel {
        match self {
            ParserState::GlobalSettings => ParserStateModel::GlobalSettings,
            ParserState::TagSettings(t) => ParserStateModel::TagSettings(t@),
            ParserState::Card(id) => ParserStateModel::Card(id@),
            ParserState::Flushed => ParserStateModel::Flushed,
        }
    }
}

/// The model of the whole parser: the deck built so far, the open section,
/// and the settings group and card being accumulated.
#[verifier::ext_equal]
pub ghost struct ParserModel {
    pub deck: DeckModel,
    pub state: ParserStateModel,
    pub current_tag_settings: TagSettingsModel,
    pub current_card: CardModel,
}

impl ParserModel {
    /// The default settings group is always bound.
    pub open spec fn wf(self) -> bool {
        assoc_has(self.deck.tags, Seq::empty())
    }
}

/// The model of a parser that has read nothing.
pub open spec fn spec_initial_parser() -> ParserModel {
    ParserModel {
        deck: spec_initial_deck(),
        state: ParserStateModel::Flushed,
        current_tag_settings: spec_default_tag_settings(),
        current_card: spec_default_card(),
    }
}

/// Commit the open section: global settings need nothing, a tag section
/// binds the accumulated group under its name (a second binding of a
/// non-default name is an error, and the accumulator is reseeded from the
/// default group as it was before the commit), and a card section binds the
/// accumulated card under its id (a second binding is an error, and a card
/// without viewing methods defaults to `<id>.pdf`).
pub open spec fn spec_flush(p: ParserModel) -> Result<ParserModel, ParsingError> {
    match p.state {
        ParserStateModel::GlobalSettings => Ok(
            ParserModel { state: ParserStateModel::Flushed, ..p },
        ),
        ParserStateModel::TagSettings(tag) => {
            if tag != Seq::<char>::empty() && assoc_has(p.deck.tags, tag) {
                Err(ParsingError::DuplicateTag)
            } else {
                let reseed = assoc_find(p.deck.tags, Seq::empty()).unwrap();
                Ok(
                    ParserModel {
                        deck: DeckModel {
                            tags: assoc_insert(p.deck.tags, tag, p.current_tag_settings),
                            ..p.deck
                        },
                        state: ParserStateModel::Flushed,
                        current_tag_settings: reseed,
                        ..p
                    },
                )
            }
        },
        ParserStateModel::Card(id) => {
            if assoc_has(p.deck.cards, id) {
                Err(ParsingError::DuplicateCard)
            } else {
                let card = if p.current_card.views.len() == 0 {
                    CardModel {
                        views: seq![CardViewModel::Pdf(id + ".pdf"@)],
                        ..p.current_card
                    }
                } else {
                    p.current_card
                };
                Ok(
                    ParserModel {
                        deck: DeckModel { cards: p.deck.cards.push((id, card)), ..p.deck },
                        state: ParserStateModel::Flushed,
                        current_card: spec_default_card(),
                        ..p
                    },
                )
            }
        },
        ParserStateModel::Flushed => Ok(p),
    }
}

/// One line of a global-settings section.
pub open spec fn spec_global_line(p: ParserModel, l: Seq<char>) -> Result<
    ParserModel,
    ParsingError,
> {
    match spec_key_value(l) {
        Err(e) => Err(e),
        Ok((key, value)) => {
            if key == "max new queue"@ {
                match spec_parse_usize(value) {
                    None => Err(ParsingError::ParseInt),
                    Some(n) => Ok(
                        ParserModel {
                            deck: DeckModel {
                                settings: GlobalSettings {
                                    max_new_queue: n,
                                    ..p.deck.settings
                                },
                                ..p.deck
                            },
                            ..p
                        },
                    ),
                }
            } else if key == "max new daily"@ {
                match spec_parse_usize(value) {
                    None => Err(ParsingError::ParseInt),
                    Some(n) => Ok(
                        ParserModel {
                            deck: DeckModel {
                                settings: GlobalSettings {
                                    max_new_daily: n,
                                    ..p.deck.settings
                                },
                                ..p.deck
                            },
                            ..p
                        },
                    ),
                }
            } else {
                Err(ParsingError::UnknownKey)
            }
        },
    }
}

/// One line of a tag-settings section.
pub open spec fn spec_tag_line(p: ParserModel, l: Seq<char>) -> Result<ParserModel, ParsingError> {
    match spec_key_value(l) {
        Err(e) => Err(e),
        Ok((key, value)) => {
            let cur = p.current_tag_settings;
            if key == "INHERIT"@ {
                match assoc_find(p.deck.tags, value) {
                    None => Err(ParsingError::UnknownInheritTarget),
                    Some(t) => Ok(ParserModel { current_tag_settings: t, ..p }),
                }
            } else if key == "learning intervals"@ {
                match spec_duration_list(value) {
                    Err(e) => Err(e),
                    Ok(ds) => Ok(
                        ParserModel {
                            current_tag_settings: TagSettingsModel {
                                learning_intervals: ds,
                                ..cur
                            },
                            ..p
                        },
                    ),
                }
            } else if key == "learning interval progressions"@ {
                match spec_number_list(value) {
                    Err(e) => Err(e),
                    Ok(ns) => {
                        if ns.len() == SCORES {
                            Ok(
                                ParserModel {
                                    current_tag_settings: TagSettingsModel {
                                        learning_interval_progressions: ns,
                                        ..cur
                                    },
                                    ..p
                                },
                            )
                        } else {
                            Err(ParsingError::WrongArity)
                        }
                    },
                }
            } else if key == "relearning intervals"@ {
                match spec_duration_list(value) {
                    Err(e) => Err(e),
                    Ok(ds) => Ok(
                        ParserModel {
                            current_tag_settings: TagSettingsModel {
                                relearning_intervals: ds,
                                ..cur
                            },
                            ..p
                        },
                    ),
                }
            } else if key == "relearning interval progressions"@ {
                match spec_number_list(value) {
                    Err(e) => Err(e),
                    Ok(ns) => {
                        if ns.len() == SCORES {
                            Ok(
                                ParserModel {
                                    current_tag_settings: TagSettingsModel {
                                        relearning_interval_progressions: ns,
                                        ..cur
                                    },
                                    ..p
                                },
                            )
                        } else {
                            Err(ParsingError::WrongArity)
                        }
                    },
                }
            } else if key == "max interval"@ {
                match spec_parse_duration(value) {
                    Err(e) => Err(e),
                    Ok(d) => Ok(
                        ParserModel {
                            current_tag_settings: TagSettingsModel { max_interval: d, ..cur },
                            ..p
                        },
                    ),
                }
            } else if key == "min interval increase"@ {
                match spec_parse_duration(value) {
                    Err(e) => Err(e),
                    Ok(d) => Ok(
                        ParserModel {
                            current_tag_settings: TagSettingsModel {
                                min_interval_increase: d,
                                ..cur
                            },
                            ..p
                        },
                    ),
                }
            } else if key == "starting ease"@ {
                match spec_parse_milli(value) {
                    None => Err(ParsingError::ParseFloat),
                    Some(x) => Ok(
                        ParserModel {
                            current_tag_settings: TagSettingsModel { starting_ease: x, ..cur },
                            ..p
                        },
                    ),
                }
            } else if key == "min ease"@ {
                match spec_parse_milli(value) {
                    None => Err(ParsingError::ParseFloat),
                    Some(x) => Ok(
                        ParserModel {
                            current_tag_settings: TagSettingsModel { min_ease: x, ..cur },
                            ..p
                        },
                    ),
                }
            } else if key == "max ease"@ {
                match spec_parse_milli(value) {
                    None => Err(ParsingError::ParseFloat),
                    Some(x) => Ok(
                        ParserModel {
                            current_tag_settings: TagSettingsModel { max_ease: x, ..cur },
                            ..p
                        },
                    ),
                }
            } else if key == "ease increase"@ {
                match spec_milli_list(value) {
                    Err(e) => Err(e),
                    Ok(ns) => {
                        if ns.len() == SCORES {
                            Ok(
                                ParserModel {
                                    current_tag_settings: TagSettingsModel {
                                        ease_increase: ns,
                                        ..cur
                                    },
                                    ..p
                                },
                            )
                        } else {
                            Err(ParsingError::WrongArity)
                        }
                    },
                }
            } else if key == "interval modifier"@ {
                match spec_parse_milli(value) {
                    None => Err(ParsingError::ParseFloat),
                    Some(x) => Ok(
                        ParserModel {
                            current_tag_settings: TagSettingsModel {
                                interval_modifier: x,
                                ..cur
                            },
                            ..p
                        },
                    ),
                }
            } else if key == "score modifiers"@ {
                match spec_milli_list(value) {
                    Err(e) => Err(e),
                    Ok(ns) => {
                        if ns.len() == SCORES {
                            Ok(
                                ParserModel {
                                    current_tag_settings: TagSettingsModel {
                                        score_modifiers: ns,
                                        ..cur
                                    },
                                    ..p
                                },
                            )
                        } else {
                            Err(ParsingError::WrongArity)
                        }
                    },
                }
            } else if key == "priority modifiers"@ {
                match spec_milli_list(value) {
                    Err(e) => Err(e),
                    Ok(ns) => {
                        if ns.len() == SCORES {
                            Ok(
                                ParserModel {
                                    current_tag_settings: TagSettingsModel {
                                        priority_modifiers: ns,
                                        ..cur
                                    },
                                    ..p
                                },
                            )
                        } else {
                            Err(ParsingError::WrongArity)
                        }
                    },
                }
            } else if key == "score weight"@ {
                match spec_parse_milli(value) {
                    None => Err(ParsingError::ParseFloat),
                    Some(x) => Ok(
                        ParserModel {
                            current_tag_settings: TagSettingsModel { score_weight: x, ..cur },
                            ..p
                        },
                    ),
                }
            } else if key == "familiarity delta"@ {
                match spec_parse_milli(value) {
                    None => Err(ParsingError::ParseFloat),
                    Some(x) => Ok(
                        ParserModel {
                            current_tag_settings: TagSettingsModel {
                                familiarity_delta: x,
                                ..cur
                            },
                            ..p
                        },
                    ),
                }
            } else if key == "max familiarity"@ {
                match spec_parse_milli(value) {
                    None => Err(ParsingError::ParseFloat),
                    Some(x) => Ok(
                        ParserModel {
                            current_tag_settings: TagSettingsModel { max_familiarity: x, ..cur },
                            ..p
                        },
                    ),
                }
            } else if key == "min familiarity"@ {
                match spec_parse_milli(value) {
                    None => Err(ParsingError::ParseFloat),
                    Some(x) => Ok(
                        ParserModel {
                            current_tag_settings: TagSettingsModel { min_familiarity: x, ..cur },
                            ..p
                        },
                    ),
                }
            } else if key == "desired retention rate"@ {
                match spec_parse_milli(value) {
                    None => Err(ParsingError::ParseFloat),
                    Some(x) => Ok(
                        ParserModel {
                            current_tag_settings: TagSettingsModel {
                                desired_retention_rate: x,
                                ..cur
                            },
                            ..p
                        },
                    ),
                }
            } else {
                Err(ParsingError::UnknownKey)
            }
        },
    }
}

/// One line of a card section.
pub open spec fn spec_card_line(p: ParserModel, l: Seq<char>) -> Result<ParserModel, ParsingError> {
    match spec_key_value(l) {
        Err(e) => Err(e),
        Ok((key, value)) => {
            let cur = p.current_card;
            if key == "pdf"@ {
                Ok(
                    ParserModel {
                        current_card: CardModel {
                            views: cur.views + spec_split(value, ',').map_values(
                                |x: Seq<char>| CardViewModel::Pdf(spec_trim(x)),
                            ),
                            ..cur
                        },
                        ..p
                    },
                )
            } else if key == "sh"@ {
                Ok(
                    ParserModel {
                        current_card: CardModel {
                            views: cur.views.push(CardViewModel::Command(value)),
                            ..cur
                        },
                        ..p
                    },
                )
            } else if key == "tags"@ {
                Ok(
                    ParserModel {
                        current_card: CardModel {
                            tags: cur.tags + spec_split(value, ',').map_values(
                                |x: Seq<char>| spec_trim(x),
                            ),
                            ..cur
                        },
                        ..p
                    },
                )
            } else if key == "max interval"@ {
                match spec_parse_duration(value) {
                    Err(e) => Err(e),
                    Ok(d) => Ok(
                        ParserModel { current_card: CardModel { max_interval: d, ..cur }, ..p },
                    ),
                }
            } else if key == "priority"@ {
                match crate::text::spec_parse_u64(value) {
                    None => Err(ParsingError::ParseInt),
                    Some(n) => {
                        if n > 255 {
                            Err(ParsingError::ParseInt)
                        } else if n < 1 || n > 5 {
                            Err(ParsingError::InvalidPriority)
                        } else {
                            Ok(
                                ParserModel {
                                    current_card: CardModel {
                                        priority: (n - 1) as u8,
                                        ..cur
                                    },
                                    ..p
                                },
                            )
                        }
                    },
                }
            } else {
                Err(ParsingError::UnknownKey)
            }
        },
    }
}

/// One line of the deck source: blank lines and `#` comments do nothing, a
/// `[title]` header commits the open section and opens the named one, and
/// any other line is a `key: value` pair of the open section.
pub open spec fn spec_parse_line(p: ParserModel, line: Seq<char>) -> Result<
    ParserModel,
    ParsingError,
> {
    let l = spec_trim(line);
    if l.len() == 0 {
        Ok(p)
    } else if l[0] == '#' {
        Ok(p)
    } else if l[0] == '[' && l.last() == ']' {
        match spec_flush(p) {
            Err(e) => Err(e),
            Ok(p2) => {
                let title = spec_trim(l.subrange(1, l.len() - 1));
                if title == "settings"@ {
                    Ok(ParserModel { state: ParserStateModel::GlobalSettings, ..p2 })
                } else if title == "tag default"@ {
                    Ok(
                        ParserModel {
                            state: ParserStateModel::TagSettings(Seq::empty()),
                            ..p2
                        },
                    )
                } else if spec_starts_with(title, "tag "@) {
                    Ok(
                        ParserModel {
                            state: ParserStateModel::TagSettings(
                                spec_trim_front(title.skip(4)),
                            ),
                            ..p2
                        },
                    )
                } else if spec_starts_with(title, "card "@) {
                    Ok(
                        ParserModel {
                            state: ParserStateModel::Card(spec_trim_front(title.skip(5))),
                            ..p2
                        },
                    )
                } else {
                    Err(ParsingError::UnknownSection)
                }
            },
        }
    } else {
        match p.state {
            ParserStateModel::GlobalSettings => spec_global_line(p, l),
            ParserStateModel::TagSettings(_) => spec_tag_line(p, l),
            ParserStateModel::Card(_) => spec_card_line(p, l),
            ParserStateModel::Flushed => Err(ParsingError::NoSection),
        }
    }
}

/// Run the parser over the lines from index `idx` on; an error is tagged
/// with the 0-based number of its line.
pub open spec fn spec_run(p: ParserModel, lines: Seq<Seq<char>>, idx: int) -> Result<
    ParserModel,
    ParsingErrorLine,
>
    decreases lines.len(),
{
    if lines.len() == 0 {
        Ok(p)
    } else {
        match spec_parse_line(p, lines[0]) {
            Err(e) => Err(ParsingErrorLine { line_num: idx as usize, err: e }),
            Ok(p2) => spec_run(p2, lines.drop_first(), idx + 1),
        }
    }
}

/// Run the parser over all lines and commit the last open section; an error
/// in that final commit carries the line count as its line number.
pub open spec fn spec_parse_text(p: ParserModel, lines: Seq<Seq<char>>) -> Result<
    ParserModel,
    ParsingErrorLine,
> {
    match spec_run(p, lines, 0) {
        Err(e) => Err(e),
        Ok(p2) => match spec_flush(p2) {
            Err(e) => Err(ParsingErrorLine { line_num: lines.len() as usize, err: e }),
            Ok(p3) => Ok(p3),
        },
    }
}

/// The deck a source text denotes: the lines are parsed in order, the last
/// section is committed, and a deck without cards is the empty-deck error
/// at line 0.
pub open spec fn spec_parse(src: Seq<char>) -> Result<DeckModel, ParsingErrorLine> {
    match spec_parse_text(spec_initial_parser(), spec_lines(src)) {
        Err(e) => Err(e),
        Ok(p) => {
            if p.deck.cards.len() == 0 {
                Err(ParsingErrorLine { line_num: 0, err: ParsingError::EmptyDeck })
            } else {
                Ok(p.deck)
            }
        },
    }
}

impl Deck {
    /// Bind a settings group under a tag name, replacing an existing
    /// binding of the same name.
    fn insert_tag(&mut self, name: String, ts: TagSettings)
        ensures
            final(self)@.tags == assoc_insert(old(self)@.tags, name@, ts@),
            final(self)@.cards == old(self)@.cards,
            final(self)@.settings == old(self)@.settings,
    {
        let name_chars = chars_to_vec(name.as_str());
        let mut i: usize = 0;
        while i < self.tag_settings.len()
            invariant
                i <= self@.tags.len(),
                self@.tags.len() == self.tag_settings@.len(),
                self@ == old(self)@,
                name_chars@ == name@,
                forall|j: int| 0 <= j < i ==> (#[trigger] self@.tags[j]).0 != name@,
            decreases self@.tags.len() - i,
        {
            let hit = {
                let pair = &self.tag_settings[i];
                let key_chars = chars_to_vec(pair.0.as_str());
                eq_chars(key_chars.as_slice(), name_chars.as_slice())
            };
            if hit {
                proof {
                    lemma_assoc_insert_update(self@.tags, name@, ts@, i as int);
                }
                self.tag_settings.set(i, (name, ts));
                proof {
                    assert(self@.tags =~= old(self)@.tags.update(i as int, (name@, ts@)));
                    assert(self@.cards =~= old(self)@.cards);
                }
                return ;
            }
            i = i + 1;
        }
        proof {
            lemma_assoc_insert_append(self@.tags, name@, ts@);
        }
        self.tag_settings.push((name, ts));
        proof {
            assert(self@.tags =~= old(self)@.tags.push((name@, ts@)));
            assert(self@.cards =~= old(self)@.cards);
        }
    }
}

/// A deck source parser: the deck built so far, the open section, and the
/// settings group and card being accumulated.
pub struct Parser {
    /// The deck built so far.
    pub deck: Deck,
    /// The open section.
    pub state: ParserState,
    /// The settings group being accumulated.
    pub current_tag_settings: TagSettings,
    /// The card being accumulated.
    pub current_card: Card,
}

impl View for Parser {
    type V = ParserModel;

    open spec fn view(&self) -> ParserModel {
        ParserModel {
            deck: self.deck@,
            state: self.state@,
            current_tag_settings: self.current_tag_settings@,
            current_card: self.current_card@,
        }
    }
}

impl Parser {
    /// A parser that has read nothing.
    pub fn new() -> (r: Parser)
        ensures
            r@ == spec_initial_parser(),
            r@.wf(),
    {
        let r = Parser {
            deck: Deck::default(),
            state: ParserState::Flushed,
            current_tag_settings: TagSettings::default(),
            current_card: Card::default(),
        };
        proof {
            assert(r@ =~= spec_initial_parser());
        }
        r
    }

    /// Hand out the parsed deck.
    fn finish(self) -> (r: Deck)
        ensures
            r@ == self@.deck,
    {
        self.deck
    }

    /// Commit the open section, as `spec_flush` describes.
    pub fn flush(&mut self) -> (r: Result<(), ParsingError>)
        requires
            old(self)@.wf(),
        ensures
            match r {
                Ok(()) => spec_flush(old(self)@) == Ok::<ParserModel, ParsingError>(final(self)@)
                    && final(self)@.wf(),
                Err(e) => spec_flush(old(self)@) == Err::<ParserModel, _>(e),
            },
    {
        let mut st = ParserState::Flushed;
        core::mem::swap(&mut self.state, &mut st);
        match st {
            ParserState::GlobalSettings => {
                proof {
                    assert(self@ =~= spec_flush(old(self)@).unwrap());
                }
                Ok(())
            },
            ParserState::Flushed => {
                proof {
                    assert(self@ =~= spec_flush(old(self)@).unwrap());
                }
                Ok(())
            },
            ParserState::TagSettings(tag) => {
                let tag_chars = chars_to_vec(tag.as_str());
                proof {
                    if tag_chars@.len() == 0 {
                        assert(tag@ =~= Seq::<char>::empty());
                    }
                }
                if tag_chars.len() > 0 {
                    match self.deck.find_tag_settings(tag_chars.as_slice()) {
                        Some(_) => {
                            return Err(ParsingError::DuplicateTag);
                        },
                        None => {},
                    }
                }
                let empty_chars: Vec<char> = Vec::new();
                proof {
                    assert(empty_chars@ =~= Seq::<char>::empty());
                }
                let mut new_current = match self.deck.find_tag_settings(empty_chars.as_slice()) {
                    Some(ts) => ts.duplicate(),
                    None => {
                        proof {
                            assert(false);
                        }
                        unreached()
                    },
                };
                core::mem::swap(&mut self.current_tag_settings, &mut new_current);
                // `new_current` now holds the accumulated group
                proof {
                    lemma_assoc_insert_find(self@.deck.tags, tag@, new_current@, Seq::empty());
                }
                self.deck.insert_tag(tag, new_current);
                proof {
                    assert(self@ =~= spec_flush(old(self)@).unwrap());
                }
                Ok(())
            },
            ParserState::Card(id) => {
                let id_chars = chars_to_vec(id.as_str());
                match self.deck.find_card(id_chars.as_slice()) {
                    Some(_) => {
                        return Err(ParsingError::DuplicateCard);
                    },
                    None => {},
                }
                let mut card = Card::default();
                core::mem::swap(&mut self.current_card, &mut card);
                // `card` now holds the accumulated card
                if card.view.len() == 0 {
                    let mut pdf_chars = id_chars;
                    pdf_chars.push('.');
                    pdf_chars.push('p');
                    pdf_chars.push('d');
                    pdf_chars.push('f');
                    proof {
                        reveal_strlit(".pdf");
                        assert(".pdf"@ =~= seq!['.', 'p', 'd', 'f']);
                        assert(pdf_chars@ =~= id@ + ".pdf"@);
                    }
                    let pname = crate::text::string_from_chars(&pdf_chars);
                    card.view.push(crate::cards::View::Pdf(pname));
                    proof {
                        assert(card@.views =~= seq![CardViewModel::Pdf(id@ + ".pdf"@)]);
                    }
                }
                let ghost cards0 = self@.deck.cards;
                let ghost card_model = card@;
                self.deck.cards.push((id, card));
                proof {
                    assert(self@.deck.cards =~= cards0.push((old(self)@.state->Card_0, card_model)));
                    assert(self@ =~= spec_flush(old(self)@).unwrap());
                }
                Ok(())
            },
        }
    }
}

impl Parser {
    /// One line of the global-settings section.
    fn global_line(&mut self, l: &[char]) -> (r: Result<(), ParsingError>)
        ensures
            match r {
                Ok(()) => spec_global_line(old(self)@, l@) == Ok::<ParserModel, ParsingError>(
                    final(self)@,
                ),
                Err(e) => spec_global_line(old(self)@, l@) == Err::<ParserModel, _>(e),
            },
    {
        let (key, value) = match key_value(l) {
            Ok(kv) => kv,
            Err(e) => {
                return Err(e);
            },
        };
        let lit_queue = chars_to_vec("max new queue");
        if eq_chars(key.as_slice(), lit_queue.as_slice()) {
            match parse_usize(value.as_slice()) {
                Some(n) => {
                    self.deck.settings.max_new_queue = n;
                    proof {
                        assert(self@ =~= spec_global_line(old(self)@, l@).unwrap());
                    }
                    Ok(())
                },
                None => Err(ParsingError::ParseInt),
            }
        } else {
            let lit_daily = chars_to_vec("max new daily");
            if eq_chars(key.as_slice(), lit_daily.as_slice()) {
                match parse_usize(value.as_slice()) {
                    Some(n) => {
                        self.deck.settings.max_new_daily = n;
                        proof {
                            assert(self@ =~= spec_global_line(old(self)@, l@).unwrap());
                        }
                        Ok(())
                    },
                    None => Err(ParsingError::ParseInt),
                }
            } else {
                Err(ParsingError::UnknownKey)
            }
        }
    }

    /// One line of a tag-settings section.
    #[verifier::rlimit(100)]
    fn tag_line(&mut self, l: &[char]) -> (r: Result<(), ParsingError>)
        ensures
            match r {
                Ok(()) => spec_tag_line(old(self)@, l@) == Ok::<ParserModel, ParsingError>(
                    final(self)@,
                ),
                Err(e) => spec_tag_line(old(self)@, l@) == Err::<ParserModel, _>(e),
            },
    {
        let (key, value) = match key_value(l) {
            Ok(kv) => kv,
            Err(e) => {
                return Err(e);
            },
        };
        let k = key.as_slice();
        let v = value.as_slice();
        if eq_chars(k, chars_to_vec("INHERIT").as_slice()) {
            let copy = match self.deck.find_tag_settings(v) {
                None => {
                    return Err(ParsingError::UnknownInheritTarget);
                },
                Some(ts) => ts.duplicate(),
            };
            self.current_tag_settings = copy;
            proof {
                assert(self@ =~= spec_tag_line(old(self)@, l@).unwrap());
            }
            Ok(())
        } else if eq_chars(k, chars_to_vec("learning intervals").as_slice()) {
            match parse_duration_list(v) {
                Err(e) => Err(e),
                Ok(ds) => {
                    self.current_tag_settings.learning_intervals = ds;
                    proof {
                        assert(self@ =~= spec_tag_line(old(self)@, l@).unwrap());
                    }
                    Ok(())
                },
            }
        } else if eq_chars(k, chars_to_vec("learning interval progressions").as_slice()) {
            match parse_number_list(v) {
                Err(e) => Err(e),
                Ok(ns) => match to_score_array(ns) {
                    Err(e) => Err(e),
                    Ok(a) => {
                        self.current_tag_settings.learning_interval_progressions = a;
                        proof {
                            assert(self@ =~= spec_tag_line(old(self)@, l@).unwrap());
                        }
                        Ok(())
                    },
                },
            }
        } else if eq_chars(k, chars_to_vec("relearning intervals").as_slice()) {
            match parse_duration_list(v) {
                Err(e) => Err(e),
                Ok(ds) => {
                    self.current_tag_settings.relearning_intervals = ds;
                    proof {
                        assert(self@ =~= spec_tag_line(old(self)@, l@).unwrap());
                    }
                    Ok(())
                },
            }
        } else if eq_chars(k, chars_to_vec("relearning interval progressions").as_slice()) {
            match parse_number_list(v) {
                Err(e) => Err(e),
                Ok(ns) => match to_score_array(ns) {
                    Err(e) => Err(e),
                    Ok(a) => {
                        self.current_tag_settings.relearning_interval_progressions = a;
                        proof {
                            assert(self@ =~= spec_tag_line(old(self)@, l@).unwrap());
                        }
                        Ok(())
                    },
                },
            }
        } else if eq_chars(k, chars_to_vec("max interval").as_slice()) {
            match parse_duration(v) {
                Err(e) => Err(e),
                Ok(d) => {
                    self.current_tag_settings.max_interval = d;
                    proof {
                        assert(self@ =~= spec_tag_line(old(self)@, l@).unwrap());
                    }
                    Ok(())
                },
            }
        } else if eq_chars(k, chars_to_vec("min interval increase").as_slice()) {
            match parse_duration(v) {
                Err(e) => Err(e),
                Ok(d) => {
                    self.current_tag_settings.min_interval_increase = d;
                    proof {
                        assert(self@ =~= spec_tag_line(old(self)@, l@).unwrap());
                    }
                    Ok(())
                },
            }
        } else if eq_chars(k, chars_to_vec("starting ease").as_slice()) {
            match parse_milli(v) {
                None => Err(ParsingError::ParseFloat),
                Some(x) => {
                    self.current_tag_settings.starting_ease = x;
                    proof {
                        assert(self@ =~= spec_tag_line(old(self)@, l@).unwrap());
                    }
                    Ok(())
                },
            }
        } else if eq_chars(k, chars_to_vec("min ease").as_slice()) {
            match parse_milli(v) {
                None => Err(ParsingError::ParseFloat),
                Some(x) => {
                    self.current_tag_settings.min_ease = x;
                    proof {
                        assert(self@ =~= spec_tag_line(old(self)@, l@).unwrap());
                    }
                    Ok(())
                },
            }
        } else if eq_chars(k, chars_to_vec("max ease").as_slice()) {
            match parse_milli(v) {
                None => Err(ParsingError::ParseFloat),
                Some(x) => {
                    self.current_tag_settings.max_ease = x;
                    proof {
                        assert(self@ =~= spec_tag_line(old(self)@, l@).unwrap());
                    }
                    Ok(())
                },
            }
        } else if eq_chars(k, chars_to_vec("ease increase").as_slice()) {
            match parse_milli_list(v) {
                Err(e) => Err(e),
                Ok(ns) => match to_score_array(ns) {
                    Err(e) => Err(e),
                    Ok(a) => {
                        self.current_tag_settings.ease_increase = a;
                        proof {
                            assert(self@ =~= spec_tag_line(old(self)@, l@).unwrap());
                        }
                        Ok(())
                    },
                },
            }
        } else if eq_chars(k, chars_to_vec("interval modifier").as_slice()) {
            match parse_milli(v) {
                None => Err(ParsingError::ParseFloat),
                Some(x) => {
                    self.current_tag_settings.interval_modifier = x;
                    proof {
                        assert(self@ =~= spec_tag_line(old(self)@, l@).unwrap());
                    }
                    Ok(())
                },
            }
        } else if eq_chars(k, chars_to_vec("score modifiers").as_slice()) {
            match parse_milli_list(v) {
                Err(e) => Err(e),
                Ok(ns) => match to_score_array(ns) {
                    Err(e) => Err(e),
                    Ok(a) => {
                        self.current_tag_settings.score_modifiers = a;
                        proof {
                            assert(self@ =~= spec_tag_line(old(self)@, l@).unwrap());
                        }
                        Ok(())
                    },
                },
            }
        } else if eq_chars(k, chars_to_vec("priority modifiers").as_slice()) {
            match parse_milli_list(v) {
                Err(e) => Err(e),
                Ok(ns) => match to_score_array(ns) {
                    Err(e) => Err(e),
                    Ok(a) => {
                        self.current_tag_settings.priority_modifiers = a;
                        proof {
                            assert(self@ =~= spec_tag_line(old(self)@, l@).unwrap());
                        }
                        Ok(())
                    },
                },
            }
        } else if eq_chars(k, chars_to_vec("score weight").as_slice()) {
            match parse_milli(v) {
                None => Err(ParsingError::ParseFloat),
                Some(x) => {
                    self.current_tag_settings.score_weight = x;
                    proof {
                        assert(self@ =~= spec_tag_line(old(self)@, l@).unwrap());
                    }
                    Ok(())
                },
            }
        } else if eq_chars(k, chars_to_vec("familiarity delta").as_slice()) {
            match parse_milli(v) {
                None => Err(ParsingError::ParseFloat),
                Some(x) => {
                    self.current_tag_settings.familiarity_delta = x;
                    proof {
                        assert(self@ =~= spec_tag_line(old(self)@, l@).unwrap());
                    }
                    Ok(())
                },
            }
        } else if eq_chars(k, chars_to_vec("max familiarity").as_slice()) {
            match parse_milli(v) {
                None => Err(ParsingError::ParseFloat),
                Some(x) => {
                    self.current_tag_settings.max_familiarity = x;
                    proof {
                        assert(self@ =~= spec_tag_line(old(self)@, l@).unwrap());
                    }
                    Ok(())
                },
            }
        } else if eq_chars(k, chars_to_vec("min familiarity").as_slice()) {
            match parse_milli(v) {
                None => Err(ParsingError::ParseFloat),
                Some(x) => {
                    self.current_tag_settings.min_familiarity = x;
                    proof {
                        assert(self@ =~= spec_tag_line(old(self)@, l@).unwrap());
                    }
                    Ok(())
                },
            }
        } else if eq_chars(k, chars_to_vec("desired retention rate").as_slice()) {
            match parse_milli(v) {
                None => Err(ParsingError::ParseFloat),
                Some(x) => {
                    self.current_tag_settings.desired_retention_rate = x;
                    proof {
                        assert(self@ =~= spec_tag_line(old(self)@, l@).unwrap());
                    }
                    Ok(())
                },
            }
        } else {
            Err(ParsingError::UnknownKey)
        }
    }

    /// One line of a card section.
    fn card_line(&mut self, l: &[char]) -> (r: Result<(), ParsingError>)
        ensures
            match r {
                Ok(()) => spec_card_line(old(self)@, l@) == Ok::<ParserModel, ParsingError>(
                    final(self)@,
                ),
                Err(e) => spec_card_line(old(self)@, l@) == Err::<ParserModel, _>(e),
            },
    {
        let (key, value) = match key_value(l) {
            Ok(kv) => kv,
            Err(e) => {
                return Err(e);
            },
        };
        let k = key.as_slice();
        if eq_chars(k, chars_to_vec("pdf").as_slice()) {
            let pieces = split_char(value.as_slice(), ',');
            let ghost vs = views(pieces@);
            let ghost views0 = self.current_card@.views;
            let mut j: usize = 0;
            proof {
                assert(views0 + vs.take(0).map_values(
                    |x: Seq<char>| CardViewModel::Pdf(spec_trim(x)),
                ) =~= views0);
            }
            while j < pieces.len()
                invariant
                    j <= pieces@.len(),
                    vs == views(pieces@),
                    vs == spec_split(value@, ','),
                    self@.deck == old(self)@.deck,
                    self@.state == old(self)@.state,
                    self@.current_tag_settings == old(self)@.current_tag_settings,
                    self.current_card@.tags == old(self)@.current_card.tags,
                    self.current_card@.priority == old(self)@.current_card.priority,
                    self.current_card@.max_interval == old(self)@.current_card.max_interval,
                    views0 == old(self)@.current_card.views,
                    self.current_card@.views == views0 + vs.take(j as int).map_values(
                        |x: Seq<char>| CardViewModel::Pdf(spec_trim(x)),
                    ),
                decreases pieces@.len() - j,
            {
                let item = trim(pieces[j].as_slice());
                let sname = crate::text::string_from_chars(&item);
                self.current_card.view.push(crate::cards::View::Pdf(sname));
                proof {
                    let f = |x: Seq<char>| CardViewModel::Pdf(spec_trim(x));
                    assert(vs[j as int] == pieces@[j as int]@);
                    assert(sname@ == spec_trim(vs[j as int]));
                    let pre = views0 + vs.take(j as int).map_values(f);
                    assert(self.current_card@.views =~= pre.push(
                        CardViewModel::Pdf(spec_trim(vs[j as int])),
                    ));
                    assert(vs.take(j + 1).map_values(f) =~= vs.take(j as int).map_values(f).push(
                        CardViewModel::Pdf(spec_trim(vs[j as int])),
                    ));
                    assert(pre.push(CardViewModel::Pdf(spec_trim(vs[j as int]))) =~= views0
                        + vs.take(j + 1).map_values(f));
                }
                j = j + 1;
            }
            proof {
                assert(vs.take(vs.len() as int) =~= vs);
                assert(self@ =~= spec_card_line(old(self)@, l@).unwrap());
            }
            Ok(())
        } else if eq_chars(k, chars_to_vec("sh").as_slice()) {
            let sname = crate::text::string_from_chars(&value);
            self.current_card.view.push(crate::cards::View::Command(Command(sname)));
            proof {
                assert(self.current_card@.views =~= old(self)@.current_card.views.push(
                    CardViewModel::Command(value@),
                ));
                assert(self@ =~= spec_card_line(old(self)@, l@).unwrap());
            }
            Ok(())
        } else if eq_chars(k, chars_to_vec("tags").as_slice()) {
            let pieces = split_char(value.as_slice(), ',');
            let ghost vs = views(pieces@);
            let ghost tags0 = self.current_card@.tags;
            let mut j: usize = 0;
            proof {
                assert(tags0 + vs.take(0).map_values(|x: Seq<char>| spec_trim(x)) =~= tags0);
            }
            while j < pieces.len()
                invariant
                    j <= pieces@.len(),
                    vs == views(pieces@),
                    vs == spec_split(value@, ','),
                    self@.deck == old(self)@.deck,
                    self@.state == old(self)@.state,
                    self@.current_tag_settings == old(self)@.current_tag_settings,
                    self.current_card@.views == old(self)@.current_card.views,
                    self.current_card@.priority == old(self)@.current_card.priority,
                    self.current_card@.max_interval == old(self)@.current_card.max_interval,
                    tags0 == old(self)@.current_card.tags,
                    self.current_card@.tags == tags0 + vs.take(j as int).map_values(
                        |x: Seq<char>| spec_trim(x),
                    ),
                decreases pieces@.len() - j,
            {
                let item = trim(pieces[j].as_slice());
                let sname = crate::text::string_from_chars(&item);
                self.current_card.tags.push(sname);
                proof {
                    let f = |x: Seq<char>| spec_trim(x);
                    assert(vs[j as int] == pieces@[j as int]@);
                    assert(sname@ == spec_trim(vs[j as int]));
                    let pre = tags0 + vs.take(j as int).map_values(f);
                    assert(self.current_card@.tags =~= pre.push(spec_trim(vs[j as int])));
                    assert(vs.take(j + 1).map_values(f) =~= vs.take(j as int).map_values(f).push(
                        spec_trim(vs[j as int]),
                    ));
                    assert(pre.push(spec_trim(vs[j as int])) =~= tags0 + vs.take(j + 1).map_values(
                        f,
                    ));
                }
                j = j + 1;
            }
            proof {
                assert(vs.take(vs.len() as int) =~= vs);
                assert(self@ =~= spec_card_line(old(self)@, l@).unwrap());
            }
            Ok(())
        } else if eq_chars(k, chars_to_vec("max interval").as_slice()) {
            match parse_duration(value.as_slice()) {
                Err(e) => Err(e),
                Ok(d) => {
                    self.current_card.max_interval = d;
                    proof {
                        assert(self@ =~= spec_card_line(old(self)@, l@).unwrap());
                    }
                    Ok(())
                },
            }
        } else if eq_chars(k, chars_to_vec("priority").as_slice()) {
            match crate::text::parse_u64(value.as_slice()) {
                None => Err(ParsingError::ParseInt),
                Some(n) => {
                    if n > 255 {
                        Err(ParsingError::ParseInt)
                    } else if n < 1 || n > 5 {
                        Err(ParsingError::InvalidPriority)
                    } else {
                        self.current_card.priority = (n as u8) - 1;
                        proof {
                            assert(self@ =~= spec_card_line(old(self)@, l@).unwrap());
                        }
                        Ok(())
                    }
                },
            }
        } else {
            Err(ParsingError::UnknownKey)
        }
    }

    /// Parse a single line and update the parser, as `spec_parse_line`
    /// describes.
    ///
    /// On an error the parser is to be discarded: the contract leaves its
    /// state open, and `Deck::parse` never reads it again.
    pub fn parse_line(&mut self, line: &[char]) -> (r: Result<(), ParsingError>)
        requires
            old(self)@.wf(),
        ensures
            match r {
                Ok(()) => spec_parse_line(old(self)@, line@) == Ok::<ParserModel, ParsingError>(
                    final(self)@,
                ) && final(self)@.wf(),
                Err(e) => spec_parse_line(old(self)@, line@) == Err::<ParserModel, _>(e),
            },
    {
        let l = trim(line);
        if l.len() == 0 {
            return Ok(());
        }
        let c0 = l[0];
        if c0 == '#' {
            return Ok(());
        }
        if c0 == '[' && l[l.len() - 1] == ']' {
            match self.flush() {
                Err(e) => {
                    return Err(e);
                },
                Ok(()) => {},
            }
            let mut inner: Vec<char> = Vec::new();
            let mut i: usize = 1;
            while i < l.len() - 1
                invariant
                    1 <= i <= l@.len() - 1,
                    inner@ =~= l@.subrange(1, i as int),
                decreases l@.len() - i,
            {
                inner.push(l[i]);
                proof {
                    assert(inner@ =~= l@.subrange(1, i + 1));
                }
                i = i + 1;
            }
            let title_vec = trim(inner.as_slice());
            let title = title_vec.as_slice();
            if eq_chars(title, chars_to_vec("settings").as_slice()) {
                self.state = ParserState::GlobalSettings;
                proof {
                    assert(self@ =~= spec_parse_line(old(self)@, line@).unwrap());
                }
                return Ok(());
            }
            if eq_chars(title, chars_to_vec("tag default").as_slice()) {
                self.state = ParserState::TagSettings(String::new());
                proof {
                    assert(self@ =~= spec_parse_line(old(self)@, line@).unwrap());
                }
                return Ok(());
            }
            let lit_tag = chars_to_vec("tag ");
            if starts_with(title, lit_tag.as_slice()) {
                proof {
                    reveal_strlit("tag ");
                }
                let rest = slice_suffix(title, 4);
                let name_chars = trim_front(rest.as_slice());
                let name = crate::text::string_from_chars(&name_chars);
                self.state = ParserState::TagSettings(name);
                proof {
                    assert(self@ =~= spec_parse_line(old(self)@, line@).unwrap());
                }
                return Ok(());
            }
            let lit_card = chars_to_vec("card ");
            if starts_with(title, lit_card.as_slice()) {
                proof {
                    reveal_strlit("card ");
                }
                let rest = slice_suffix(title, 5);
                let id_chars = trim_front(rest.as_slice());
                let id = crate::text::string_from_chars(&id_chars);
                self.state = ParserState::Card(id);
                proof {
                    assert(self@ =~= spec_parse_line(old(self)@, line@).unwrap());
                }
                return Ok(());
            }
            return Err(ParsingError::UnknownSection);
        }
        match &self.state {
            ParserState::Flushed => Err(ParsingError::NoSection),
            ParserState::GlobalSettings => self.global_line(l.as_slice()),
            ParserState::TagSettings(_) => self.tag_line(l.as_slice()),
            ParserState::Card(_) => self.card_line(l.as_slice()),
        }
    }
}

impl Parser {
    /// Parse a whole source text: every line in order, then a final commit
    /// of the open section, as `spec_parse_text` describes.
    pub fn parse(&mut self, src: &str) -> (r: Result<(), ParsingErrorLine>)
        requires
            old(self)@.wf(),
        ensures
            match r {
                Ok(()) => spec_parse_text(old(self)@, spec_lines(src@)) == Ok::<
                    ParserModel,
                    ParsingErrorLine,
                >(final(self)@) && final(self)@.wf(),
                Err(e) => spec_parse_text(old(self)@, spec_lines(src@)) == Err::<ParserModel, _>(
                    e,
                ),
            },
    {
        let cs = chars_to_vec(src);
        let lines = split_lines(cs.as_slice());
        let ghost ls = spec_lines(src@);
        let mut i: usize = 0;
        proof {
            assert(views(lines@) =~= ls);
            assert(ls.skip(0) =~= ls);
        }
        while i < lines.len()
            invariant
                i <= lines@.len(),
                ls == views(lines@),
                ls == spec_lines(src@),
                self@.wf(),
                spec_run(old(self)@, ls, 0) == spec_run(self@, ls.skip(i as int), i as int),
            decreases lines@.len() - i,
        {
            let ghost pre = self@;
            proof {
                assert(ls.skip(i as int)[0] == lines@[i as int]@);
                assert(ls.skip(i as int).drop_first() =~= ls.skip(i + 1));
            }
            match self.parse_line(lines[i].as_slice()) {
                Ok(()) => {
                    proof {
                        assert(spec_run(pre, ls.skip(i as int), i as int) == spec_run(
                            self@,
                            ls.skip(i + 1),
                            i + 1,
                        ));
                    }
                },
                Err(e) => {
                    proof {
                        assert(spec_run(pre, ls.skip(i as int), i as int)
                            == Err::<ParserModel, ParsingErrorLine>(
                            ParsingErrorLine { line_num: i, err: e },
                        ));
                    }
                    return Err(ParsingErrorLine { line_num: i, err: e });
                },
            }
            i = i + 1;
        }
        proof {
            assert(ls.skip(ls.len() as int) =~= Seq::<Seq<char>>::empty());
            assert(spec_run(old(self)@, ls, 0) == Ok::<ParserModel, ParsingErrorLine>(self@));
        }
        let line_count = lines.len();
        match self.flush() {
            Ok(()) => Ok(()),
            Err(e) => Err(ParsingErrorLine { line_num: line_count, err: e }),
        }
    }
}

impl Deck {
    /// Parse a deck from its line-oriented source format.
    ///
    /// Returns exactly what `spec_parse` describes: the deck denoted by the
    /// text, or the first error with its 0-based line number; an input that
    /// yields no cards is the empty-deck error.
    pub fn parse(src: &str) -> (r: Result<Deck, ParsingErrorLine>)
        ensures
            match r {
                Ok(d) => spec_parse(src@) == Ok::<DeckModel, ParsingErrorLine>(d@) && d@.wf(),
                Err(e) => spec_parse(src@) == Err::<DeckModel, _>(e),
            },
    {
        proof {
            lemma_parse_wf(src@);
        }
        let mut parser = Parser::new();
        match parser.parse(src) {
            Err(e) => {
                return Err(e);
            },
            Ok(()) => {},
        }
        if parser.deck.cards.len() == 0 {
            return Err(ParsingErrorLine { line_num: 0, err: ParsingError::EmptyDeck });
        }
        Ok(parser.finish())
    }
}

/// Everything the parser keeps well-formed while it runs: the deck, the
/// accumulated settings group, and the accumulated card.
pub open spec fn spec_parser_wf(p: ParserModel) -> bool {
    &&& p.deck.wf()
    &&& p.current_tag_settings.wf()
    &&& p.current_card.priority < SCORES
    &&& 0 <= p.current_card.max_interval <= MAX_MINUTES
}

proof fn lemma_insert_tags_wf(
    s: Seq<(Seq<char>, TagSettingsModel)>,
    k: Seq<char>,
    v: TagSettingsModel,
)
    requires
        forall|i: int| 0 <= i < s.len() ==> (#[trigger] s[i]).1.wf(),
        v.wf(),
    ensures
        forall|i: int|
            0 <= i < assoc_insert(s, k, v).len() ==> (#[trigger] assoc_insert(s, k, v)[i]).1.wf(),
    decreases s.len(),
{
    let r = assoc_insert(s, k, v);
    if s.len() == 0 {
        assert(r =~= seq![(k, v)]);
    } else if s[0].0 == k {
        assert(r =~= seq![(k, v)] + s.drop_first());
        assert forall|i: int| 0 <= i < r.len() implies (#[trigger] r[i]).1.wf() by {
            if i > 0 {
                assert(r[i] == s[i]);
            }
        }
    } else {
        assert forall|i: int|
            0 <= i < s.drop_first().len() implies (#[trigger] s.drop_first()[i]).1.wf() by {
            assert(s.drop_first()[i] == s[i + 1]);
        }
        lemma_insert_tags_wf(s.drop_first(), k, v);
        assert(r =~= seq![s[0]] + assoc_insert(s.drop_first(), k, v));
        assert forall|i: int| 0 <= i < r.len() implies (#[trigger] r[i]).1.wf() by {
            if i > 0 {
                assert(r[i] == assoc_insert(s.drop_first(), k, v)[i - 1]);
            }
        }
    }
}

proof fn lemma_flush_wf(p: ParserModel)
    requires
        spec_parser_wf(p),
    ensures
        spec_flush(p) is Ok ==> spec_parser_wf(spec_flush(p).unwrap()),
{
    match p.state {
        ParserStateModel::TagSettings(tag) => {
            if !(tag != Seq::<char>::empty() && assoc_has(p.deck.tags, tag)) {
                lemma_assoc_found_wf(p.deck.tags, Seq::empty());
                lemma_insert_tags_wf(p.deck.tags, tag, p.current_tag_settings);
                lemma_assoc_insert_find(
                    p.deck.tags,
                    tag,
                    p.current_tag_settings,
                    Seq::empty(),
                );
            }
        },
        ParserStateModel::Card(id) => {
            if !assoc_has(p.deck.cards, id) {
                let p2 = spec_flush(p).unwrap();
                assert forall|i: int|
                    0 <= i < p2.deck.cards.len() implies (#[trigger] p2.deck.cards[i]).1.priority
                    < SCORES && 0 <= p2.deck.cards[i].1.max_interval <= MAX_MINUTES by {
                    if i < p.deck.cards.len() {
                        assert(p2.deck.cards[i] == p.deck.cards[i]);
                    }
                }
            }
        },
        _ => {},
    }
}

proof fn lemma_duration_items_wf(items: Seq<Seq<char>>)
    ensures
        spec_duration_items(items) matches Ok(ds) ==> ds.len() == items.len() && forall|j: int|
            0 <= j < ds.len() ==> 0 <= #[trigger] ds[j] <= MAX_MINUTES,
    decreases items.len(),
{
    if items.len() > 0 {
        lemma_duration_items_wf(items.drop_first());
        if spec_duration_items(items) is Ok {
            let d = spec_parse_duration(spec_trim(items[0])).unwrap();
            let rest = spec_duration_items(items.drop_first()).unwrap();
            let ds = spec_duration_items(items).unwrap();
            assert(ds =~= seq![d] + rest);
            assert forall|j: int| 0 <= j < ds.len() implies 0 <= #[trigger] ds[j] <= MAX_MINUTES by {
                if j > 0 {
                    assert(ds[j] == rest[j - 1]);
                }
            }
        }
    }
}

proof fn lemma_tag_line_wf(p: ParserModel, l: Seq<char>)
    requires
        spec_parser_wf(p),
    ensures
        spec_tag_line(p, l) is Ok ==> spec_parser_wf(spec_tag_line(p, l).unwrap()),
{
    if spec_tag_line(p, l) is Ok {
        match spec_key_value(l) {
            Err(_) => {},
            Ok((key, value)) => {
                if key == "INHERIT"@ {
                    if assoc_find(p.deck.tags, value) is Some {
                        lemma_assoc_found_wf(p.deck.tags, value);
                    }
                } else if key == "learning intervals"@ {
                    lemma_duration_items_wf(spec_split(value, ','));
                    lemma_split_from_len(Seq::empty(), value, ',');
                } else if key == "relearning intervals"@ {
                    lemma_duration_items_wf(spec_split(value, ','));
                    lemma_split_from_len(Seq::empty(), value, ',');
                }
            },
        }
    }
}

proof fn lemma_parse_line_wf(p: ParserModel, line: Seq<char>)
    requires
        spec_parser_wf(p),
    ensures
        spec_parse_line(p, line) is Ok ==> spec_parser_wf(spec_parse_line(p, line).unwrap()),
{
    lemma_flush_wf(p);
    match p.state {
        ParserStateModel::TagSettings(_) => {
            lemma_tag_line_wf(p, spec_trim(line));
        },
        _ => {},
    }
}

proof fn lemma_run_wf(p: ParserModel, lines: Seq<Seq<char>>, idx: int)
    requires
        spec_parser_wf(p),
    ensures
        spec_run(p, lines, idx) matches Ok(p2) ==> spec_parser_wf(p2),
    decreases lines.len(),
{
    if lines.len() > 0 {
        lemma_parse_line_wf(p, lines[0]);
        match spec_parse_line(p, lines[0]) {
            Err(_) => {},
            Ok(p2) => {
                lemma_run_wf(p2, lines.drop_first(), idx + 1);
            },
        }
    }
}

/// A successfully parsed deck is well-formed: the default settings group is
/// bound, every settings group is well-formed, and every card has a valid
/// priority and a bounded maximal interval.
pub proof fn lemma_parse_wf(src: Seq<char>)
    ensures
        spec_parse(src) matches Ok(d) ==> d.wf(),
{
    if spec_parse(src) is Ok {
        assert(spec_parser_wf(spec_initial_parser())) by {
            assert(spec_initial_deck().tags[0].1.wf());
            lemma_assoc_find_at(spec_initial_deck().tags, Seq::empty(), 0);
        }
        lemma_run_wf(spec_initial_parser(), spec_lines(src), 0);
        match spec_run(spec_initial_parser(), spec_lines(src), 0) {
            Err(_) => {},
            Ok(p2) => {
                lemma_flush_wf(p2);
            },
        }
    }
}

/// Whether a line opens a settings or tag section.
pub open spec fn opens_non_card_section(line: Seq<char>) -> bool {
    let l = spec_trim(line);
    l.len() > 0 && l[0] == '[' && l.last() == ']' && {
        let title = spec_trim(l.subrange(1, l.len() - 1));
        title == "settings"@ || title == "tag default"@ || spec_starts_with(title, "tag "@)
    }
}

/// Whether a line opens a card section.
pub open spec fn opens_card_section(line: Seq<char>) -> bool {
    let l = spec_trim(line);
    l.len() > 0 && l[0] == '[' && l.last() == ']' && {
        let title = spec_trim(l.subrange(1, l.len() - 1));
        !(title == "settings"@ || title == "tag default"@ || spec_starts_with(title, "tag "@))
            && spec_starts_with(title, "card "@)
    }
}

/// What holds of a parser that has seen no settings or tag section: it is
/// between sections or inside a card section, and the global settings and
/// the tag groups are still the initial ones.
pub open spec fn card_only_state(p: ParserModel) -> bool {
    &&& (p.state is Flushed || p.state is Card)
    &&& p.deck.settings == spec_initial_deck().settings
    &&& p.deck.tags == spec_initial_deck().tags
}

proof fn lemma_parse_line_card_only(p: ParserModel, line: Seq<char>)
    requires
        card_only_state(p),
        !opens_non_card_section(line),
    ensures
        spec_parse_line(p, line) matches Ok(p2) ==> card_only_state(p2),
{
}

proof fn lemma_run_card_only(p: ParserModel, lines: Seq<Seq<char>>, idx: int)
    requires
        card_only_state(p),
        forall|i: int| 0 <= i < lines.len() ==> !opens_non_card_section(#[trigger] lines[i]),
    ensures
        spec_run(p, lines, idx) matches Ok(p2) ==> card_only_state(p2),
    decreases lines.len(),
{
    if lines.len() > 0 {
        lemma_parse_line_card_only(p, lines[0]);
        match spec_parse_line(p, lines[0]) {
            Err(_) => {},
            Ok(p2) => {
                assert(forall|i: int|
                    0 <= i < lines.drop_first().len() ==> !opens_non_card_section(
                        #[trigger] lines.drop_first()[i],
                    ));
                lemma_run_card_only(p2, lines.drop_first(), idx + 1);
            },
        }
    }
}

/// An input without settings or tag sections that parses keeps the default
/// global settings and only the default settings group.
pub proof fn lemma_card_only_input_keeps_defaults(src: Seq<char>)
    requires
        forall|i: int|
            0 <= i < spec_lines(src).len() ==> !opens_non_card_section(
                #[trigger] spec_lines(src)[i],
            ),
    ensures
        spec_parse(src) matches Ok(d) ==> d.settings == spec_initial_deck().settings && d.tags
            == spec_initial_deck().tags,
{
    lemma_run_card_only(spec_initial_parser(), spec_lines(src), 0);
    match spec_run(spec_initial_parser(), spec_lines(src), 0) {
        Err(_) => {},
        Ok(p2) => {
            assert(spec_flush(p2) matches Ok(p3) ==> p3.deck.settings == spec_initial_deck().settings
                && p3.deck.tags == spec_initial_deck().tags);
        },
    }
}

/// An empty input is exactly the empty-deck error at line zero.
pub proof fn lemma_empty_input_is_empty_deck()
    ensures
        spec_parse(Seq::empty()) == Err::<DeckModel, ParsingErrorLine>(
            ParsingErrorLine { line_num: 0, err: ParsingError::EmptyDeck },
        ),
{
    assert(spec_lines(Seq::empty()) =~= Seq::<Seq<char>>::empty());
    assert(spec_initial_deck().cards.len() == 0);
}

/// What holds of a parser that has seen no card section: it is in no card
/// section and the deck holds no cards.
pub open spec fn no_card_state(p: ParserModel) -> bool {
    &&& !(p.state is Card)
    &&& p.deck.cards.len() == 0
}

proof fn lemma_parse_line_no_card(p: ParserModel, line: Seq<char>)
    requires
        no_card_state(p),
        !opens_card_section(line),
    ensures
        spec_parse_line(p, line) matches Ok(p2) ==> no_card_state(p2),
{
}

proof fn lemma_run_no_card(p: ParserModel, lines: Seq<Seq<char>>, idx: int)
    requires
        no_card_state(p),
        forall|i: int| 0 <= i < lines.len() ==> !opens_card_section(#[trigger] lines[i]),
    ensures
        spec_run(p, lines, idx) matches Ok(p2) ==> no_card_state(p2),
    decreases lines.len(),
{
    if lines.len() > 0 {
        lemma_parse_line_no_card(p, lines[0]);
        match spec_parse_line(p, lines[0]) {
            Err(_) => {},
            Ok(p2) => {
                assert(forall|i: int|
                    0 <= i < lines.drop_first().len() ==> !opens_card_section(
                        #[trigger] lines.drop_first()[i],
                    ));
                lemma_run_no_card(p2, lines.drop_first(), idx + 1);
            },
        }
    }
}

/// An input without card sections never parses: at best it is the
/// empty-deck error, at worst an earlier one.
pub proof fn lemma_no_card_sections_is_an_error(src: Seq<char>)
    requires
        forall|i: int|
            0 <= i < spec_lines(src).len() ==> !opens_card_section(#[trigger] spec_lines(src)[i]),
    ensures
        !(spec_parse(src) is Ok),
{
    lemma_run_no_card(spec_initial_parser(), spec_lines(src), 0);
}

} // verus!
