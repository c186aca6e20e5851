//! Reading text: splitting a line into words and reading decimal numbers the
//! way `str::split_whitespace` and `str::parse` read them.

use vstd::prelude::*;

verus! {

/// The characters that separate the words of a text.
#[derive(Clone, Copy, PartialEq, Eq, Structural)]
pub enum Separator {
    /// Unicode white space, as `char::is_whitespace` and
    /// `str::split_whitespace` take it.
    Whitespace,
    /// A comma or a space.
    CommaOrSpace,
}

/// Unicode white space (the `White_Space` property), as `char::is_whitespace`
/// documents it.
pub open spec fn is_unicode_whitespace(c: char) -> bool {
    ||| ('\u{9}' <= c && c <= '\u{d}')
    ||| c == ' '
    ||| c == '\u{85}'
    ||| c == '\u{a0}'
    ||| c == '\u{1680}'
    ||| ('\u{2000}' <= c && c <= '\u{200a}')
    ||| c == '\u{2028}'
    ||| c == '\u{2029}'
    ||| c == '\u{202f}'
    ||| c == '\u{205f}'
    ||| c == '\u{3000}'
}

pub open spec fn is_separator(c: char, sep: Separator) -> bool {
    match sep {
        Separator::Whitespace => is_unicode_whitespace(c),
        Separator::CommaOrSpace => c == ',' || c == ' ',
    }
}

/// The words of a text: its longest runs of characters that are not
/// separators, in order.
pub open spec fn words(s: Seq<char>, sep: Separator) -> Seq<Seq<char>>
    decreases s.len(),
{
    if s.len() == 0 {
        Seq::empty()
    } else {
        let before = words(s.drop_last(), sep);
        let c = s.last();
        if is_separator(c, sep) {
            before
        } else if s.len() >= 2 && !is_separator(s[s.len() - 2], sep) {
            before.update(before.len() - 1, before.last().push(c))
        } else {
            before.push(seq![c])
        }
    }
}

/// The views of a list of strings.
pub open spec fn views(v: Seq<String>) -> Seq<Seq<char>> {
    v.map_values(|t: String| t@)
}

/// Whether `c` separates words.
pub fn separates(c: char, sep: Separator) -> (b: bool)
    ensures
        b == is_separator(c, sep),
{
    match sep {
        Separator::Whitespace => {
            ('\u{9}' <= c && c <= '\u{d}') || c == ' ' || c == '\u{85}' || c == '\u{a0}'
                || c == '\u{1680}' || ('\u{2000}' <= c && c <= '\u{200a}') || c == '\u{2028}'
                || c == '\u{2029}' || c == '\u{202f}' || c == '\u{205f}' || c == '\u{3000}'
        },
        Separator::CommaOrSpace => c == ',' || c == ' ',
    }
}

/// Every word of a text has no separator in it.
pub open spec fn is_word(w: Seq<char>, sep: Separator) -> bool {
    w.len() > 0 && forall|j: int| 0 <= j < w.len() ==> !is_separator(#[trigger] w[j], sep)
}

proof fn lemma_words_nonempty(s: Seq<char>, sep: Separator)
    requires
        s.len() > 0,
        !is_separator(s.last(), sep),
    ensures
        words(s, sep).len() > 0,
    decreases s.len(),
{
    if s.len() >= 2 && !is_separator(s[s.len() - 2], sep) {
        assert(s.drop_last().last() == s[s.len() - 2]);
        lemma_words_nonempty(s.drop_last(), sep);
    }
}

/// Law: the words of a text are not empty and hold no separator.
pub proof fn lemma_words_are_words(s: Seq<char>, sep: Separator)
    ensures
        forall|i: int| 0 <= i < words(s, sep).len() ==> is_word(#[trigger] words(s, sep)[i], sep),
    decreases s.len(),
{
    if s.len() > 0 {
        let before = words(s.drop_last(), sep);
        lemma_words_are_words(s.drop_last(), sep);
        let c = s.last();
        if !is_separator(c, sep) {
            if s.len() >= 2 && !is_separator(s[s.len() - 2], sep) {
                assert(s.drop_last().last() == s[s.len() - 2]);
                lemma_words_nonempty(s.drop_last(), sep);
                {
                    let w = before.last().push(c);
                    assert(is_word(before[before.len() - 1], sep));
                    assert(is_word(w, sep)) by {
                        assert forall|j: int| 0 <= j < w.len() implies !is_separator(#[trigger] w[j], sep) by {
                            if j < w.len() - 1 {
                                assert(w[j] == before[before.len() - 1][j]);
                            }
                        }
                    }
                    let r = before.update(before.len() - 1, w);
                    assert forall|i: int| 0 <= i < r.len() implies is_word(#[trigger] r[i], sep) by {
                        if i < r.len() - 1 {
                            assert(r[i] == before[i]);
                        }
                    }
                }
            } else {
                assert(is_word(seq![c], sep));
                let r = before.push(seq![c]);
                assert forall|i: int| 0 <= i < r.len() implies is_word(#[trigger] r[i], sep) by {
                    if i < r.len() - 1 {
                        assert(r[i] == before[i]);
                    }
                }
            }
        }
    }
}

/// Where the word that holds position `i` starts.
pub open spec fn word_start(s: Seq<char>, sep: Separator, i: int) -> int
    decreases i,
{
    if i <= 0 {
        0
    } else if is_separator(s[i - 1], sep) {
        i
    } else {
        word_start(s, sep, i - 1)
    }
}

/// Splits a text into its words.
pub fn split_words(text: &str, sep: Separator) -> (parts: Vec<String>)
    ensures
        views(parts@) == words(text@, sep),
{
    let n = text.unicode_len();
    let mut parts: Vec<String> = Vec::new();
    let mut in_word = false;
    let mut start: usize = 0;
    let mut i: usize = 0;
    while i < n
        invariant
            n == text@.len(),
            i <= n,
            start <= i,
            in_word ==> start < i && start == word_start(text@, sep, i - 1)
                && !is_separator(text@[i - 1], sep),
            !in_word ==> i == 0 || is_separator(text@[i - 1], sep),
            words(text@.take(i as int), sep) == if in_word {
                views(parts@).push(text@.subrange(start as int, i as int))
            } else {
                views(parts@)
            },
        decreases n - i,
    {
        let c = text.get_char(i);
        let ghost pre = text@.take(i as int);
        let ghost cur = text@.take(i + 1);
        assert(cur.drop_last() == pre);
        assert(cur.last() == c);
        if separates(c, sep) {
            if in_word {
                let word = text.substring_char(start, i);
                let owned = String::from_str(word);
                let ghost before = parts@;
                parts.push(owned);
                assert(views(parts@) == views(before).push(owned@)) by {
                    assert(parts@.drop_last() == before);
                }
            }
            in_word = false;
        } else {
            if in_word {
                proof {
                    assert(cur.len() >= 2 && cur[cur.len() - 2] == text@[i - 1]);
                    assert(text@.subrange(start as int, i as int).push(c)
                        == text@.subrange(start as int, i + 1));
                    assert(word_start(text@, sep, i as int) == word_start(text@, sep, i - 1));
                }
            } else {
                start = i;
                proof {
                    if i > 0 {
                        assert(cur[cur.len() - 2] == text@[i - 1]);
                    }
                    assert(seq![c] == text@.subrange(i as int, i + 1));
                    assert(word_start(text@, sep, i as int) == i);
                }
                in_word = true;
            }
        }
        i = i + 1;
    }
    assert(text@.take(n as int) == text@);
    if in_word {
        let word = text.substring_char(start, n);
        let owned = String::from_str(word);
        let ghost before = parts@;
        parts.push(owned);
        assert(views(parts@) == views(before).push(owned@)) by {
            assert(parts@.drop_last() == before);
        }
    }
    parts
}

// ---------------------------------------------------------------------------
// Numbers
// ---------------------------------------------------------------------------

pub open spec fn is_digit(c: char) -> bool {
    '0' <= c && c <= '9'
}

pub open spec fn all_digits(d: Seq<char>) -> bool {
    forall|i: int| 0 <= i < d.len() ==> is_digit(#[trigger] d[i])
}

/// The value of a run of decimal digits.
pub open spec fn digits_value(d: Seq<char>) -> nat
    decreases d.len(),
{
    if d.len() == 0 {
        0
    } else {
        digits_value(d.drop_last()) * 10 + (d.last() as nat - '0' as nat) as nat
    }
}

/// The digits of an unsigned number: an optional `+`, then the rest.
pub open spec fn unsigned_digits(s: Seq<char>) -> Seq<char> {
    if s.len() > 0 && s[0] == '+' { s.drop_first() } else { s }
}

/// `u64::from_str`: an optional `+` and at least one decimal digit, of a value
/// that fits in a `u64`.
pub open spec fn spec_parse_u64(s: Seq<char>) -> Option<u64> {
    let d = unsigned_digits(s);
    if d.len() > 0 && all_digits(d) && digits_value(d) <= u64::MAX {
        Some(digits_value(d) as u64)
    } else {
        None
    }
}

/// `i16::from_str`: an optional sign and at least one decimal digit, of a
/// value that fits in an `i16`.
pub open spec fn spec_parse_i16(s: Seq<char>) -> Option<i16> {
    let negative = s.len() > 0 && s[0] == '-';
    let d = if s.len() > 0 && (s[0] == '-' || s[0] == '+') { s.drop_first() } else { s };
    let v: int = if negative { -(digits_value(d) as int) } else { digits_value(d) as int };
    if d.len() > 0 && all_digits(d) && i16::MIN <= v <= i16::MAX {
        Some(v as i16)
    } else {
        None
    }
}

proof fn lemma_digits_value_monotone(d: Seq<char>, k: int)
    requires
        0 <= k <= d.len(),
        all_digits(d),
    ensures
        digits_value(d.take(k)) <= digits_value(d),
    decreases d.len(),
{
    if k < d.len() {
        assert(d.drop_last().take(k) == d.take(k));
        assert(all_digits(d.drop_last())) by {
            assert forall|i: int| 0 <= i < d.drop_last().len() implies is_digit(#[trigger] d.drop_last()[i]) by {
                assert(d.drop_last()[i] == d[i]);
            }
        }
        lemma_digits_value_monotone(d.drop_last(), k);
    } else {
        assert(d.take(k) == d);
    }
}

/// Reads the decimal digits of `text` from position `from` on: their value
/// when they are at least one digit, all digits, and fit in a `u64`.
fn read_digits(text: &str, from: usize) -> (value: Option<u64>)
    requires
        from <= text@.len(),
    ensures
        ({
            let d = text@.skip(from as int);
            value == if d.len() > 0 && all_digits(d) && digits_value(d) <= u64::MAX {
                Some(digits_value(d) as u64)
            } else {
                None::<u64>
            }
        }),
{
    let n = text.unicode_len();
    let ghost d = text@.skip(from as int);
    if from == n {
        return None;
    }
    let mut k: usize = from;
    while k < n
        invariant
            n == text@.len(),
            from <= k <= n,
            d == text@.skip(from as int),
            forall|t: int| from <= t < k ==> is_digit(#[trigger] text@[t]),
        decreases n - k,
    {
        let c = text.get_char(k);
        if !('0' <= c && c <= '9') {
            assert(!is_digit(d[k - from]));
            return None;
        }
        k = k + 1;
    }
    assert(all_digits(d)) by {
        assert forall|i: int| 0 <= i < d.len() implies is_digit(#[trigger] d[i]) by {
            assert(d[i] == text@[from + i]);
        }
    }
    let mut value: u64 = 0;
    let mut j: usize = from;
    while j < n
        invariant
            n == text@.len(),
            from <= j <= n,
            d == text@.skip(from as int),
            all_digits(d),
            value == digits_value(d.take(j - from)),
        decreases n - j,
    {
        let c = text.get_char(j);
        proof {
            assert(d.take(j - from + 1).drop_last() == d.take(j - from));
            assert(d.take(j - from + 1).last() == c);
            assert(is_digit(d[j - from]));
        }
        let digit = (c as u32 - '0' as u32) as u64;
        match value.checked_mul(10) {
            Some(tens) => match tens.checked_add(digit) {
                Some(next) => {
                    value = next;
                },
                None => {
                    proof {
                        lemma_digits_value_monotone(d, j - from + 1);
                    }
                    return None;
                },
            },
            None => {
                proof {
                    lemma_digits_value_monotone(d, j - from + 1);
                }
                return None;
            },
        }
        j = j + 1;
    }
    assert(d.take(n - from) == d);
    Some(value)
}

/// Reads an unsigned number as `u64::from_str` does.
pub fn parse_u64(text: &str) -> (value: Option<u64>)
    ensures
        value == spec_parse_u64(text@),
{
    let n = text.unicode_len();
    if n > 0 && text.get_char(0) == '+' {
        assert(text@.skip(1) == text@.drop_first());
        read_digits(text, 1)
    } else {
        assert(text@.skip(0) == text@);
        read_digits(text, 0)
    }
}

/// Reads a signed number as `i16::from_str` does.
pub fn parse_i16(text: &str) -> (value: Option<i16>)
    ensures
        value == spec_parse_i16(text@),
{
    let n = text.unicode_len();
    let negative = n > 0 && text.get_char(0) == '-';
    let signed = n > 0 && (text.get_char(0) == '-' || text.get_char(0) == '+');
    let from: usize = if signed { 1 } else { 0 };
    proof {
        if signed {
            assert(text@.skip(1) == text@.drop_first());
        } else {
            assert(text@.skip(0) == text@);
        }
    }
    match read_digits(text, from) {
        Some(magnitude) => {
            if negative {
                if magnitude <= 32768 {
                    Some((0 - magnitude as i32) as i16)
                } else {
                    None
                }
            } else if magnitude <= 32767 {
                Some(magnitude as i16)
            } else {
                None
            }
        },
        None => {
            proof {
                let d = text@.skip(from as int);
                if d.len() > 0 && all_digits(d) {
                    assert(digits_value(d) > u64::MAX);
                }
            }
            None
        },
    }
}

/// Whether two texts are the same.
pub fn text_is(text: &str, other: &str) -> (same: bool)
    ensures
        same == (text@ == other@),
{
    let n = text.unicode_len();
    let m = other.unicode_len();
    if n != m {
        return false;
    }
    let mut i: usize = 0;
    while i < n
        invariant
            n == text@.len(),
            m == other@.len(),
            n == m,
            i <= n,
            forall|t: int| 0 <= t < i ==> text@[t] == other@[t],
        decreases n - i,
    {
        if text.get_char(i) != other.get_char(i) {
            return false;
        }
        i = i + 1;
    }
    assert(text@ == other@);
    true
}

/// Words joined by a separator.
pub open spec fn join_with(ws: Seq<Seq<char>>, sep: Seq<char>) -> Seq<char>
    decreases ws.len(),
{
    if ws.len() == 0 {
        Seq::empty()
    } else if ws.len() == 1 {
        ws[0]
    } else {
        join_with(ws.drop_last(), sep) + sep + ws.last()
    }
}

/// Joins `parts[from..to]` with `sep` between them.
pub fn join_texts(parts: &Vec<String>, from: usize, to: usize, sep: &str) -> (joined: String)
    requires
        from <= to <= parts@.len(),
    ensures
        joined@ == join_with(views(parts@).subrange(from as int, to as int), sep@),
{
    let ghost pv = views(parts@);
    let mut joined = String::new();
    let mut i: usize = from;
    while i < to
        invariant
            from <= i <= to,
            to <= parts@.len(),
            pv == views(parts@),
            joined@ == join_with(pv.subrange(from as int, i as int), sep@),
        decreases to - i,
    {
        let ghost done_part = pv.subrange(from as int, i as int);
        let ghost next_part = pv.subrange(from as int, i + 1);
        assert(next_part.drop_last() == done_part);
        assert(next_part.last() == parts@[i as int]@);
        if i > from {
            joined.append(sep);
        } else {
            assert(done_part.len() == 0);
        }
        joined.append(parts[i].as_str());
        i = i + 1;
    }
    joined
}

} // verus!
