//! Text utilities for the deck parser.
//!
//! Everything works on sequences of characters: the specification functions
//! define trimming, line and list splitting and number parsing over
//! `Seq<char>`, and each executable function is proved to return exactly
//! what its specification function describes.

use vstd::prelude::*;

verus! {

/// ASCII whitespace: space, tab, line feed, carriage return, form feed.
pub open spec fn is_ws(c: char) -> bool {
    c == ' ' || c == '\t' || c == '\n' || c == '\r' || c == '\u{c}'
}

/// Decide whether a character is ASCII whitespace.
pub fn is_ws_exec(c: char) -> (r: bool)
    ensures
        r == is_ws(c),
{
    c == ' ' || c == '\t' || c == '\n' || c == '\r' || c == '\u{c}'
}

/// The sequence without its leading whitespace.
pub open spec fn spec_trim_front(s: Seq<char>) -> Seq<char>
    decreases s.len(),
{
    if s.len() > 0 && is_ws(s[0]) {
        spec_trim_front(s.drop_first())
    } else {
        s
    }
}

/// The sequence without its trailing whitespace.
pub open spec fn spec_trim_back(s: Seq<char>) -> Seq<char>
    decreases s.len(),
{
    if s.len() > 0 && is_ws(s.last()) {
        spec_trim_back(s.drop_last())
    } else {
        s
    }
}

/// The sequence without leading and trailing whitespace.
pub open spec fn spec_trim(s: Seq<char>) -> Seq<char> {
    spec_trim_back(spec_trim_front(s))
}

proof fn lemma_trim_front_skip(s: Seq<char>, a: int)
    requires
        0 <= a <= s.len(),
        forall|j: int| 0 <= j < a ==> is_ws(#[trigger] s[j]),
        a < s.len() ==> !is_ws(s[a]),
    ensures
        spec_trim_front(s) =~= s.skip(a),
    decreases a,
{
    if a == 0 {
        assert(s.skip(0) =~= s);
    } else {
        assert(is_ws(s[0]));
        lemma_trim_front_skip(s.drop_first(), a - 1);
        assert(s.drop_first().skip(a - 1) =~= s.skip(a));
    }
}

proof fn lemma_trim_back_take(s: Seq<char>, b: int)
    requires
        0 <= b <= s.len(),
        forall|j: int| b <= j < s.len() ==> is_ws(#[trigger] s[j]),
        b > 0 ==> !is_ws(s[b - 1]),
    ensures
        spec_trim_back(s) =~= s.take(b),
    decreases s.len() - b,
{
    if b == s.len() {
        assert(s.take(b) =~= s);
    } else {
        assert(is_ws(s.last()));
        lemma_trim_back_take(s.drop_last(), b);
        assert(s.drop_last().take(b) =~= s.take(b));
    }
}

/// Copy the suffix of a character slice from position `a` on.
pub fn slice_suffix(s: &[char], a: usize) -> (r: Vec<char>)
    requires
        a <= s@.len(),
    ensures
        r@ =~= s@.skip(a as int),
{
    let mut r: Vec<char> = Vec::new();
    let mut i: usize = a;
    while i < s.len()
        invariant
            a <= i <= s@.len(),
            r@ =~= s@.subrange(a as int, i as int),
        decreases s@.len() - i,
    {
        r.push(s[i]);
        proof {
            assert(r@ =~= s@.subrange(a as int, i + 1));
        }
        i = i + 1;
    }
    proof {
        assert(s@.subrange(a as int, s@.len() as int) =~= s@.skip(a as int));
    }
    r
}

/// Strip leading and trailing whitespace.
pub fn trim(s: &[char]) -> (r: Vec<char>)
    ensures
        r@ =~= spec_trim(s@),
{
    let mut a: usize = 0;
    while a < s.len() && is_ws_exec(s[a])
        invariant
            a <= s@.len(),
            forall|j: int| 0 <= j < a ==> is_ws(#[trigger] s@[j]),
        decreases s@.len() - a,
    {
        a = a + 1;
    }
    proof {
        lemma_trim_front_skip(s@, a as int);
    }
    if a == s.len() {
        proof {
            assert(spec_trim_back(s@.skip(a as int)) =~= s@.skip(a as int));
        }
        Vec::new()
    } else {
        let mut b: usize = s.len();
        while b > a + 1 && is_ws_exec(s[b - 1])
            invariant
                a < b <= s@.len(),
                forall|j: int| b <= j < s@.len() ==> is_ws(#[trigger] s@[j]),
            decreases b,
        {
            b = b - 1;
        }
        // the downward loop stops either at a non-whitespace character or at
        // `a + 1`, where `s[a]` is known not to be whitespace
        proof {
            let t = s@.skip(a as int);
            assert(!is_ws(t[(b - 1 - a) as int]));
            assert(forall|j: int|
                b - a <= j < t.len() ==> is_ws(#[trigger] t[j]) == is_ws(s@[j + a]));
            lemma_trim_back_take(t, b - a);
        }
        let mut r: Vec<char> = Vec::new();
        let mut i: usize = a;
        while i < b
            invariant
                a <= i <= b <= s@.len(),
                r@ =~= s@.subrange(a as int, i as int),
            decreases b - i,
        {
            r.push(s[i]);
            proof {
                assert(r@ =~= s@.subrange(a as int, i + 1));
            }
            i = i + 1;
        }
        proof {
            assert(s@.skip(a as int).take(b - a) =~= s@.subrange(a as int, b as int));
        }
        r
    }
}

/// Whether `s` begins with `p`.
pub open spec fn spec_starts_with(s: Seq<char>, p: Seq<char>) -> bool {
    s.len() >= p.len() && s.take(p.len() as int) == p
}

/// Decide whether `s` begins with `p`.
pub fn starts_with(s: &[char], p: &[char]) -> (r: bool)
    ensures
        r == spec_starts_with(s@, p@),
{
    if s.len() < p.len() {
        return false;
    }
    let mut i: usize = 0;
    while i < p.len()
        invariant
            i <= p@.len() <= s@.len(),
            forall|j: int| 0 <= j < i ==> s@[j] == p@[j],
        decreases p@.len() - i,
    {
        if s[i] != p[i] {
            proof {
                assert(s@.take(p@.len() as int)[i as int] != p@[i as int]);
            }
            return false;
        }
        i = i + 1;
    }
    proof {
        assert(s@.take(p@.len() as int) =~= p@);
    }
    true
}

/// Decide whether two character sequences are equal.
pub fn eq_chars(a: &[char], b: &[char]) -> (r: bool)
    ensures
        r == (a@ == b@),
{
    if a.len() != b.len() {
        return false;
    }
    let mut i: usize = 0;
    while i < a.len()
        invariant
            i <= a@.len() == b@.len(),
            forall|j: int| 0 <= j < i ==> a@[j] == b@[j],
        decreases a@.len() - i,
    {
        if a[i] != b[i] {
            return false;
        }
        i = i + 1;
    }
    proof {
        assert(a@ =~= b@);
    }
    true
}

/// The first position of `c` in `s`, if any.
pub fn find_char(s: &[char], c: char) -> (r: Option<usize>)
    ensures
        match r {
            Some(i) => i < s@.len() && s@[i as int] == c && forall|j: int|
                0 <= j < i ==> s@[j] != c,
            None => forall|j: int| 0 <= j < s@.len() ==> s@[j] != c,
        },
{
    let mut i: usize = 0;
    while i < s.len()
        invariant
            i <= s@.len(),
            forall|j: int| 0 <= j < i ==> s@[j] != c,
        decreases s@.len() - i,
    {
        if s[i] == c {
            return Some(i);
        }
        i = i + 1;
    }
    None
}

/// Drop a final carriage return, as line splitting does for `\r\n` endings.
pub open spec fn strip_cr(s: Seq<char>) -> Seq<char> {
    if s.len() > 0 && s.last() == '\r' {
        s.drop_last()
    } else {
        s
    }
}

/// Every chunk of `s` delimited by `\n`, continuing the partial chunk `cur`;
/// a chunk before a `\n` loses a final `\r`.
pub open spec fn spec_raw_lines(cur: Seq<char>, s: Seq<char>) -> Seq<Seq<char>>
    decreases s.len(),
{
    if s.len() == 0 {
        seq![cur]
    } else if s[0] == '\n' {
        seq![strip_cr(cur)] + spec_raw_lines(Seq::empty(), s.drop_first())
    } else {
        spec_raw_lines(cur.push(s[0]), s.drop_first())
    }
}

/// The lines of a text, as line iteration yields them: split at `\n`, a
/// preceding `\r` stripped, and no empty final line after a trailing
/// newline.
pub open spec fn spec_lines(s: Seq<char>) -> Seq<Seq<char>> {
    if s.len() == 0 {
        Seq::empty()
    } else if s.last() == '\n' {
        spec_raw_lines(Seq::empty(), s).drop_last()
    } else {
        spec_raw_lines(Seq::empty(), s)
    }
}

/// The views of a vector of character vectors.
pub open spec fn views(v: Seq<Vec<char>>) -> Seq<Seq<char>> {
    v.map_values(|x: Vec<char>| x@)
}

proof fn lemma_raw_lines_last_newline(cur: Seq<char>, s: Seq<char>)
    requires
        s.len() > 0,
        s.last() == '\n',
    ensures
        spec_raw_lines(cur, s).last() =~= Seq::<char>::empty(),
        spec_raw_lines(cur, s).len() > 1,
    decreases s.len(),
{
    if s.len() == 1 {
        assert(s[0] == '\n');
        assert(spec_raw_lines(Seq::empty(), s.drop_first()) =~= seq![Seq::<char>::empty()]);
    } else {
        if s[0] == '\n' {
            lemma_raw_lines_last_newline(Seq::empty(), s.drop_first());
        } else {
            lemma_raw_lines_last_newline(cur.push(s[0]), s.drop_first());
        }
    }
}

/// Split a text into lines.
pub fn split_lines(s: &[char]) -> (r: Vec<Vec<char>>)
    ensures
        views(r@) =~= spec_lines(s@),
{
    let mut r: Vec<Vec<char>> = Vec::new();
    if s.len() == 0 {
        return r;
    }
    let mut cur: Vec<char> = Vec::new();
    let mut i: usize = 0;
    proof {
        assert(s@.skip(0) =~= s@);
        assert(cur@ =~= Seq::<char>::empty());
        assert(views(r@) + spec_raw_lines(cur@, s@) =~= spec_raw_lines(cur@, s@));
    }
    while i < s.len()
        invariant
            i <= s@.len(),
            spec_raw_lines(Seq::empty(), s@) =~= views(r@) + spec_raw_lines(
                cur@,
                s@.skip(i as int),
            ),
        decreases s@.len() - i,
    {
        let c = s[i];
        proof {
            assert(s@.skip(i as int)[0] == c);
            assert(s@.skip(i as int).drop_first() =~= s@.skip(i + 1));
        }
        if c == '\n' {
            let ghost old_cur = cur@;
            let mut line = cur;
            cur = Vec::new();
            if line.len() > 0 && line[line.len() - 1] == '\r' {
                line.pop();
            }
            proof {
                assert(line@ =~= strip_cr(old_cur));
            }
            r.push(line);
            proof {
                assert(views(r@) =~= views(r@.drop_last()) + seq![line@]);
                assert(spec_raw_lines(old_cur, s@.skip(i as int)) =~= seq![strip_cr(old_cur)]
                    + spec_raw_lines(Seq::empty(), s@.skip(i + 1)));
            }
        } else {
            cur.push(c);
        }
        i = i + 1;
    }
    proof {
        assert(s@.skip(s@.len() as int) =~= Seq::<char>::empty());
        assert(spec_raw_lines(Seq::empty(), s@) =~= views(r@) + seq![cur@]);
    }
    if s[s.len() - 1] != '\n' {
        r.push(cur);
        proof {
            assert(views(r@) =~= views(r@.drop_last()) + seq![cur@]);
        }
    } else {
        proof {
            lemma_raw_lines_last_newline(Seq::empty(), s@);
            assert(spec_raw_lines(Seq::empty(), s@).drop_last() =~= views(r@));
        }
    }
    r
}

/// Every chunk of `s` delimited by `sep`, continuing the partial chunk
/// `cur`.
pub open spec fn spec_split_from(cur: Seq<char>, s: Seq<char>, sep: char) -> Seq<Seq<char>>
    decreases s.len(),
{
    if s.len() == 0 {
        seq![cur]
    } else if s[0] == sep {
        seq![cur] + spec_split_from(Seq::empty(), s.drop_first(), sep)
    } else {
        spec_split_from(cur.push(s[0]), s.drop_first(), sep)
    }
}

/// The chunks of `s` delimited by `sep`; an empty `s` is one empty chunk.
pub open spec fn spec_split(s: Seq<char>, sep: char) -> Seq<Seq<char>> {
    spec_split_from(Seq::empty(), s, sep)
}

/// Split a character sequence at every occurrence of `sep`.
pub fn split_char(s: &[char], sep: char) -> (r: Vec<Vec<char>>)
    requires
        sep != '\n',
    ensures
        views(r@) =~= spec_split(s@, sep),
{
    let mut r: Vec<Vec<char>> = Vec::new();
    let mut cur: Vec<char> = Vec::new();
    let mut i: usize = 0;
    proof {
        assert(s@.skip(0) =~= s@);
        assert(cur@ =~= Seq::<char>::empty());
        assert(views(r@) + spec_split_from(cur@, s@, sep) =~= spec_split_from(cur@, s@, sep));
    }
    while i < s.len()
        invariant
            i <= s@.len(),
            spec_split(s@, sep) =~= views(r@) + spec_split_from(cur@, s@.skip(i as int), sep),
        decreases s@.len() - i,
    {
        let c = s[i];
        proof {
            assert(s@.skip(i as int)[0] == c);
            assert(s@.skip(i as int).drop_first() =~= s@.skip(i + 1));
        }
        if c == sep {
            let line = cur;
            cur = Vec::new();
            r.push(line);
            proof {
                assert(views(r@) =~= views(r@.drop_last()) + seq![r@.last()@]);
            }
        } else {
            cur.push(c);
        }
        i = i + 1;
    }
    proof {
        assert(s@.skip(s@.len() as int) =~= Seq::<char>::empty());
    }
    r.push(cur);
    proof {
        assert(views(r@) =~= views(r@.drop_last()) + seq![r@.last()@]);
    }
    r
}

/// Whether `c` is a decimal digit.
pub open spec fn is_digit(c: char) -> bool {
    48 <= c as u32 <= 57
}

/// The value of a decimal digit.
pub open spec fn digit_val(c: char) -> int {
    c as u32 - 48
}

/// Whether every character of `s` is a decimal digit.
pub open spec fn all_digits(s: Seq<char>) -> bool {
    forall|j: int| 0 <= j < s.len() ==> is_digit(#[trigger] s[j])
}

/// The number written by the digits of `s`, most significant first.
pub open spec fn digits_val(s: Seq<char>) -> int
    decreases s.len(),
{
    if s.len() == 0 {
        0
    } else {
        digits_val(s.drop_last()) * 10 + digit_val(s.last())
    }
}

pub proof fn lemma_digits_val_nonneg(s: Seq<char>)
    requires
        all_digits(s),
    ensures
        digits_val(s) >= 0,
    decreases s.len(),
{
    if s.len() > 0 {
        assert(all_digits(s.drop_last()));
        lemma_digits_val_nonneg(s.drop_last());
    }
}

proof fn lemma_digits_val_singleton(c: char)
    ensures
        digits_val(seq![c]) == digit_val(c),
{
    assert(seq![c].drop_last() =~= Seq::<char>::empty());
    assert(digits_val(Seq::<char>::empty()) == 0);
    assert(seq![c].last() == c);
    assert(digits_val(seq![c]) == digits_val(seq![c].drop_last()) * 10 + digit_val(seq![c].last()));
}

proof fn lemma_digits_val_prefix_le(s: Seq<char>, j: int)
    requires
        all_digits(s),
        0 <= j <= s.len(),
    ensures
        digits_val(s.take(j)) <= digits_val(s),
    decreases s.len() - j,
{
    if j == s.len() {
        assert(s.take(j) =~= s);
    } else {
        assert(s.take(s.len() - 1) =~= s.drop_last());
        assert(all_digits(s.drop_last()));
        lemma_digits_val_nonneg(s.drop_last());
        assert(digits_val(s) == digits_val(s.drop_last()) * 10 + digit_val(s.last()));
        assert(digits_val(s.drop_last()) <= digits_val(s));
        assert(s.drop_last().take(j) =~= s.take(j));
        lemma_digits_val_prefix_le(s.drop_last(), j);
    }
}

/// The number the digit string `s` denotes, when `s` is nonempty, all
/// digits, and small enough for a `u64`.
pub open spec fn spec_parse_u64(s: Seq<char>) -> Option<u64> {
    if s.len() > 0 && all_digits(s) && digits_val(s) <= u64::MAX {
        Some(digits_val(s) as u64)
    } else {
        None
    }
}

/// Parse an unsigned decimal number.
pub fn parse_u64(s: &[char]) -> (r: Option<u64>)
    ensures
        r == spec_parse_u64(s@),
{
    if s.len() == 0 {
        return None;
    }
    let mut acc: u64 = 0;
    let mut i: usize = 0;
    proof {
        assert(s@.take(0) =~= Seq::<char>::empty());
    }
    while i < s.len()
        invariant
            i <= s@.len(),
            all_digits(s@.take(i as int)),
            acc == digits_val(s@.take(i as int)),
        decreases s@.len() - i,
    {
        let c = s[i];
        let cu: u32 = c as u32;
        if cu < 48 || cu > 57 {
            proof {
                assert(!is_digit(s@[i as int]));
            }
            return None;
        }
        let d: u64 = (cu - 48) as u64;
        proof {
            assert(s@.take(i + 1).drop_last() =~= s@.take(i as int));
            assert(s@.take(i + 1).last() == c);
        }
        let shifted = match acc.checked_mul(10) {
            Some(x) => x,
            None => {
                proof {
                    if all_digits(s@) {
                        lemma_digits_val_prefix_le(s@, i + 1);
                    }
                }
                return None;
            },
        };
        let next = match shifted.checked_add(d) {
            Some(x) => x,
            None => {
                proof {
                    if all_digits(s@) {
                        lemma_digits_val_prefix_le(s@, i + 1);
                    }
                }
                return None;
            },
        };
        acc = next;
        i = i + 1;
    }
    proof {
        assert(s@.take(s@.len() as int) =~= s@);
    }
    Some(acc)
}

/// The signed number the string denotes: an optional sign, then digits,
/// within the range of an `i64`.
pub open spec fn spec_parse_i64(s: Seq<char>) -> Option<i64> {
    if s.len() == 0 {
        None
    } else {
        let neg = s[0] == '-';
        let mag = if s[0] == '-' || s[0] == '+' {
            s.drop_first()
        } else {
            s
        };
        if mag.len() > 0 && all_digits(mag) {
            let v = digits_val(mag);
            if neg && v <= 0x8000_0000_0000_0000 {
                Some((-v) as i64)
            } else if !neg && v <= 0x7fff_ffff_ffff_ffff {
                Some(v as i64)
            } else {
                None
            }
        } else {
            None
        }
    }
}

/// Parse a signed decimal number.
pub fn parse_i64(s: &[char]) -> (r: Option<i64>)
    ensures
        r == spec_parse_i64(s@),
{
    if s.len() == 0 {
        return None;
    }
    let c0 = s[0];
    let neg = c0 == '-';
    let mag: Vec<char> = if c0 == '-' || c0 == '+' {
        slice_suffix(s, 1)
    } else {
        slice_suffix(s, 0)
    };
    proof {
        if c0 == '-' || c0 == '+' {
            assert(mag@ =~= s@.drop_first());
        } else {
            assert(mag@ =~= s@);
        }
    }
    let m = match parse_u64(mag.as_slice()) {
        Some(m) => {
            proof {
                lemma_digits_val_nonneg(mag@);
            }
            m
        },
        None => {
            proof {
                if mag@.len() > 0 && all_digits(mag@) {
                    lemma_digits_val_nonneg(mag@);
                }
            }
            return None;
        },
    };
    if neg {
        if m <= 0x7fff_ffff_ffff_ffff {
            Some(-(m as i64))
        } else if m == 0x8000_0000_0000_0000 {
            Some(i64::MIN)
        } else {
            None
        }
    } else {
        if m <= 0x7fff_ffff_ffff_ffff {
            Some(m as i64)
        } else {
            None
        }
    }
}

/// The value of a fraction part, in thousandths: the first three digits,
/// padded with zeros on the right.
pub open spec fn frac_milli(frac: Seq<char>) -> int {
    if frac.len() == 0 {
        0
    } else if frac.len() == 1 {
        digit_val(frac[0]) * 100
    } else if frac.len() == 2 {
        digits_val(frac) * 10
    } else {
        digits_val(frac.take(3))
    }
}

/// The fixed-point thousandths a decimal string denotes: an optional sign,
/// digits with at most one decimal point and at least one digit in all,
/// truncated after the third fractional digit, within the range of an
/// `i64`.
pub open spec fn spec_parse_milli(s: Seq<char>) -> Option<i64> {
    if s.len() == 0 {
        None
    } else {
        let neg = s[0] == '-';
        let body = if s[0] == '-' || s[0] == '+' {
            s.drop_first()
        } else {
            s
        };
        let int_part = if body.contains('.') {
            body.take(body.index_of_first('.').unwrap())
        } else {
            body
        };
        let frac = if body.contains('.') {
            body.skip(body.index_of_first('.').unwrap() + 1)
        } else {
            Seq::empty()
        };
        if all_digits(int_part) && all_digits(frac) && int_part.len() + frac.len() > 0 {
            let v = digits_val(int_part) * 1000 + frac_milli(frac);
            if neg && v <= 0x8000_0000_0000_0000 {
                Some((-v) as i64)
            } else if !neg && v <= 0x7fff_ffff_ffff_ffff {
                Some(v as i64)
            } else {
                None
            }
        } else {
            None
        }
    }
}

/// Parse a decimal number into fixed-point thousandths.
pub fn parse_milli(s: &[char]) -> (r: Option<i64>)
    ensures
        r == spec_parse_milli(s@),
{
    if s.len() == 0 {
        return None;
    }
    let c0 = s[0];
    let neg = c0 == '-';
    let body: Vec<char> = if c0 == '-' || c0 == '+' {
        slice_suffix(s, 1)
    } else {
        slice_suffix(s, 0)
    };
    proof {
        if c0 == '-' || c0 == '+' {
            assert(body@ =~= s@.drop_first());
        } else {
            assert(body@ =~= s@);
        }
    }
    let (int_part, frac): (Vec<char>, Vec<char>) = match find_char(body.as_slice(), '.') {
        Some(dot) => {
            proof {
                assert(body@[dot as int] == '.');
                assert(body@.contains('.'));
                body@.index_of_first_ensures('.');
                let k = body@.index_of_first('.').unwrap();
                assert(k == dot as int);
            }
            let mut ip: Vec<char> = Vec::new();
            let mut i: usize = 0;
            while i < dot
                invariant
                    i <= dot < body@.len(),
                    ip@ =~= body@.subrange(0, i as int),
                decreases dot - i,
            {
                ip.push(body[i]);
                proof {
                    assert(ip@ =~= body@.subrange(0, i + 1));
                }
                i = i + 1;
            }
            proof {
                assert(ip@ =~= body@.take(dot as int));
            }
            (ip, slice_suffix(body.as_slice(), dot + 1))
        },
        None => {
            proof {
                body@.index_of_first_ensures('.');
                if body@.contains('.') {
                    let k = body@.index_of_first('.').unwrap();
                    assert(body@[k] == '.');
                }
            }
            let e: Vec<char> = Vec::new();
            (slice_suffix(body.as_slice(), 0), e)
        },
    };
    proof {
        if !body@.contains('.') {
            assert(int_part@ =~= body@);
        }
    }
    if int_part.len() == 0 && frac.len() == 0 {
        return None;
    }
    let iv = match check_digits_val(int_part.as_slice()) {
        Some(v) => v,
        None => {
            proof {
                if all_digits(int_part@) && all_digits(frac@) {
                    lemma_digits_val_nonneg(int_part@);
                    frac_milli_nonneg(frac@);
                }
            }
            return None;
        },
    };
    let fv = match frac_milli_exec(frac.as_slice()) {
        Some(v) => v,
        None => { return None },
    };
    proof {
        lemma_digits_val_nonneg(int_part@);
        frac_milli_nonneg(frac@);
    }
    let shifted = match iv.checked_mul(1000) {
        Some(x) => x,
        None => {
            return None;
        },
    };
    let total = match shifted.checked_add(fv) {
        Some(x) => x,
        None => {
            return None;
        },
    };
    if neg {
        if total <= 0x7fff_ffff_ffff_ffff {
            Some(-(total as i64))
        } else if total == 0x8000_0000_0000_0000 {
            Some(i64::MIN)
        } else {
            None
        }
    } else {
        if total <= 0x7fff_ffff_ffff_ffff {
            Some(total as i64)
        } else {
            None
        }
    }
}

proof fn frac_milli_nonneg(frac: Seq<char>)
    requires
        all_digits(frac),
    ensures
        frac_milli(frac) >= 0,
{
    if frac.len() == 0 {
    } else if frac.len() == 1 {
    } else if frac.len() == 2 {
        lemma_digits_val_nonneg(frac);
    } else {
        assert(all_digits(frac.take(3)));
        lemma_digits_val_nonneg(frac.take(3));
    }
}

/// The digits value of a slice when it consists of digits and fits a `u64`.
fn check_digits_val(s: &[char]) -> (r: Option<u64>)
    ensures
        match r {
            Some(v) => all_digits(s@) && v == digits_val(s@),
            None => !(all_digits(s@) && digits_val(s@) <= u64::MAX),
        },
{
    let mut acc: u64 = 0;
    let mut i: usize = 0;
    proof {
        assert(s@.take(0) =~= Seq::<char>::empty());
    }
    while i < s.len()
        invariant
            i <= s@.len(),
            all_digits(s@.take(i as int)),
            acc == digits_val(s@.take(i as int)),
        decreases s@.len() - i,
    {
        let c = s[i];
        let cu: u32 = c as u32;
        if cu < 48 || cu > 57 {
            proof {
                assert(!is_digit(s@[i as int]));
            }
            return None;
        }
        let d: u64 = (cu - 48) as u64;
        proof {
            assert(s@.take(i + 1).drop_last() =~= s@.take(i as int));
            assert(s@.take(i + 1).last() == c);
        }
        let shifted = match acc.checked_mul(10) {
            Some(x) => x,
            None => {
                proof {
                    if all_digits(s@) {
                        lemma_digits_val_prefix_le(s@, i + 1);
                    }
                }
                return None;
            },
        };
        let next = match shifted.checked_add(d) {
            Some(x) => x,
            None => {
                proof {
                    if all_digits(s@) {
                        lemma_digits_val_prefix_le(s@, i + 1);
                    }
                }
                return None;
            },
        };
        acc = next;
        i = i + 1;
    }
    proof {
        assert(s@.take(s@.len() as int) =~= s@);
    }
    Some(acc)
}

/// The thousandths value of a fraction part, when it is all digits.
fn frac_milli_exec(frac: &[char]) -> (r: Option<u64>)
    ensures
        match r {
            Some(v) => all_digits(frac@) && v == frac_milli(frac@),
            None => !all_digits(frac@),
        },
{
    let mut i: usize = 0;
    while i < frac.len()
        invariant
            i <= frac@.len(),
            forall|j: int| 0 <= j < i ==> is_digit(#[trigger] frac@[j]),
        decreases frac@.len() - i,
    {
        let cu: u32 = frac[i] as u32;
        if cu < 48 || cu > 57 {
            return None;
        }
        i = i + 1;
    }
    proof {
        assert(all_digits(frac@));
    }
    if frac.len() == 0 {
        Some(0)
    } else if frac.len() == 1 {
        proof {
            assert(is_digit(frac@[0]));
        }
        let d: u64 = (frac[0] as u32 - 48) as u64;
        proof {
            assert(d as int == digit_val(frac@[0]));
            assert(frac_milli(frac@) == digit_val(frac@[0]) * 100);
            assert(d * 100 == frac_milli(frac@));
        }
        Some(d * 100)
    } else if frac.len() == 2 {
        proof {
            assert(is_digit(frac@[0]));
            assert(is_digit(frac@[1]));
        }
        let d0: u64 = (frac[0] as u32 - 48) as u64;
        let d1: u64 = (frac[1] as u32 - 48) as u64;
        proof {
            assert(frac@.drop_last() =~= seq![frac@[0]]);
            assert(seq![frac@[0]].drop_last() =~= Seq::<char>::empty());
        }
        proof {
            lemma_digits_val_singleton(frac@[0]);
            assert(digits_val(frac@) == digit_val(frac@[0]) * 10 + digit_val(frac@[1]));
            assert((d0 * 10 + d1) * 10 == frac_milli(frac@));
        }
        Some((d0 * 10 + d1) * 10)
    } else {
        proof {
            assert(is_digit(frac@[0]));
            assert(is_digit(frac@[1]));
            assert(is_digit(frac@[2]));
        }
        let d0: u64 = (frac[0] as u32 - 48) as u64;
        let d1: u64 = (frac[1] as u32 - 48) as u64;
        let d2: u64 = (frac[2] as u32 - 48) as u64;
        proof {
            let t = frac@.take(3);
            assert(t.drop_last() =~= frac@.take(2));
            assert(frac@.take(2).drop_last() =~= seq![frac@[0]]);
            assert(seq![frac@[0]].drop_last() =~= Seq::<char>::empty());
            assert(t.last() == frac@[2]);
            assert(frac@.take(2).last() == frac@[1]);
        }
        proof {
            lemma_digits_val_singleton(frac@[0]);
            assert(digits_val(frac@.take(2)) == digit_val(frac@[0]) * 10 + digit_val(frac@[1]));
            assert(digits_val(frac@.take(3)) == (digit_val(frac@[0]) * 10 + digit_val(frac@[1])) * 10 + digit_val(frac@[2]));
            assert((d0 * 10 + d1) * 10 + d2 == frac_milli(frac@));
        }
        Some((d0 * 10 + d1) * 10 + d2)
    }
}

/// The number the string denotes when it fits a `usize`.
pub open spec fn spec_parse_usize(s: Seq<char>) -> Option<usize> {
    if s.len() > 0 && all_digits(s) && digits_val(s) <= usize::MAX {
        Some(digits_val(s) as usize)
    } else {
        None
    }
}

/// Parse an unsigned decimal number that must fit a `usize`.
pub fn parse_usize(s: &[char]) -> (r: Option<usize>)
    ensures
        r == spec_parse_usize(s@),
{
    match parse_u64(s) {
        Some(v) => {
            proof {
                lemma_digits_val_nonneg(s@);
            }
            if v <= usize::MAX as u64 {
                Some(v as usize)
            } else {
                None
            }
        },
        None => {
            proof {
                if s@.len() > 0 && all_digits(s@) {
                    lemma_digits_val_nonneg(s@);
                }
            }
            None
        },
    }
}

/// The position of the first occurrence of `c` in `s`, if any.
pub open spec fn first_index_of(s: Seq<char>, c: char) -> Option<int>
    decreases s.len(),
{
    if s.len() == 0 {
        None
    } else if s[0] == c {
        Some(0)
    } else {
        match first_index_of(s.drop_first(), c) {
            Some(i) => Some(i + 1),
            None => None,
        }
    }
}

pub proof fn lemma_first_index_some(s: Seq<char>, c: char, i: int)
    requires
        0 <= i < s.len(),
        s[i] == c,
        forall|j: int| 0 <= j < i ==> s[j] != c,
    ensures
        first_index_of(s, c) == Some(i),
    decreases i,
{
    if i == 0 {
    } else {
        assert(s[0] != c);
        lemma_first_index_some(s.drop_first(), c, i - 1);
    }
}

pub proof fn lemma_first_index_none(s: Seq<char>, c: char)
    requires
        forall|j: int| 0 <= j < s.len() ==> s[j] != c,
    ensures
        first_index_of(s, c) == None::<int>,
    decreases s.len(),
{
    if s.len() > 0 {
        lemma_first_index_none(s.drop_first(), c);
    }
}

/// Strip leading whitespace only.
pub fn trim_front(s: &[char]) -> (r: Vec<char>)
    ensures
        r@ =~= spec_trim_front(s@),
{
    let mut a: usize = 0;
    while a < s.len() && is_ws_exec(s[a])
        invariant
            a <= s@.len(),
            forall|j: int| 0 <= j < a ==> is_ws(#[trigger] s@[j]),
        decreases s@.len() - a,
    {
        a = a + 1;
    }
    proof {
        lemma_trim_front_skip(s@, a as int);
    }
    slice_suffix(s, a)
}

/// The characters of a string, as a vector.
pub fn chars_to_vec(s: &str) -> (r: Vec<char>)
    ensures
        r@ =~= s@,
{
    broadcast use vstd::string::group_string_axioms;

    let mut it = s.chars();
    let mut r: Vec<char> = Vec::new();
    let mut done = false;
    while !done
        invariant
            r@ + vstd::std_specs::iter::IteratorSpec::remaining(&it) =~= s@,
            vstd::std_specs::iter::IteratorSpec::obeys_prophetic_iter_laws(&it),
            done ==> vstd::std_specs::iter::IteratorSpec::remaining(&it).len() == 0,
        decreases (if done {
            0int
        } else {
            s@.len() - r@.len() + 1
        }),
    {
        match it.next() {
            Some(c) => {
                r.push(c);
            },
            None => {
                done = true;
            },
        }
    }
    r
}

/// Relies on core's character-iterator `collect` into `String`: the
/// resulting string holds exactly the characters of `v`, in order.
#[verifier::external_body]
pub fn string_from_chars(v: &Vec<char>) -> (r: String)
    ensures
        r@ == v@,
{
    v.iter().collect()
}

} // verus!
