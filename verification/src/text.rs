//! Words and numbers in a line of counter text.
//!
//! A line is a sequence of characters. Its words are the longest runs of
//! characters that are not white space, in the order in which they stand.
//! A word is a number when it is written in decimal digits, with at most
//! one `+` in front, and fits in 64 bits.

use vstd::prelude::*;

verus! {

/// Whether a character separates words: the characters that Unicode
/// classes as white space.
pub open spec fn is_space(c: char) -> bool {
    ||| '\u{9}' <= c <= '\u{d}'
    ||| c == ' '
    ||| c == '\u{85}'
    ||| c == '\u{a0}'
    ||| c == '\u{1680}'
    ||| '\u{2000}' <= c <= '\u{200a}'
    ||| c == '\u{2028}'
    ||| c == '\u{2029}'
    ||| c == '\u{202f}'
    ||| c == '\u{205f}'
    ||| c == '\u{3000}'
}

/// The first position at or after `from` that holds no space; the length of
/// the line where only spaces follow.
pub open spec fn word_start(line: Seq<char>, from: int) -> int
    decreases line.len() - from,
{
    if 0 <= from < line.len() && is_space(line[from]) {
        word_start(line, from + 1)
    } else {
        from
    }
}

/// The first position at or after `from` that holds a space; the length of
/// the line where none follows.
pub open spec fn word_end(line: Seq<char>, from: int) -> int
    decreases line.len() - from,
{
    if 0 <= from < line.len() && !is_space(line[from]) {
        word_end(line, from + 1)
    } else {
        from
    }
}

/// The words that begin at or after `from`.
pub open spec fn words_from(line: Seq<char>, from: int) -> Seq<Seq<char>>
    decreases line.len() - from,
    via words_from_terminates
{
    let start = word_start(line, from);
    if 0 <= start < line.len() {
        let end = word_end(line, start);
        seq![line.subrange(start, end)] + words_from(line, end)
    } else {
        Seq::empty()
    }
}

#[via_fn]
proof fn words_from_terminates(line: Seq<char>, from: int) {
    let start = word_start(line, from);
    if 0 <= start < line.len() {
        lemma_word_start(line, from);
        lemma_word_end(line, start);
    }
}

/// The words of a line.
pub open spec fn words(line: Seq<char>) -> Seq<Seq<char>> {
    words_from(line, 0)
}

/// `word_start` skips spaces and nothing else.
pub proof fn lemma_word_start(line: Seq<char>, from: int)
    requires
        0 <= from <= line.len(),
    ensures
        from <= word_start(line, from) <= line.len(),
        forall|i: int| from <= i < word_start(line, from) ==> is_space(#[trigger] line[i]),
        word_start(line, from) < line.len() ==> !is_space(line[word_start(line, from)]),
    decreases line.len() - from,
{
    if from < line.len() && is_space(line[from]) {
        lemma_word_start(line, from + 1);
    }
}

/// `word_end` skips what is no space and nothing else; it moves where a
/// word begins.
pub proof fn lemma_word_end(line: Seq<char>, from: int)
    requires
        0 <= from <= line.len(),
    ensures
        from <= word_end(line, from) <= line.len(),
        forall|i: int| from <= i < word_end(line, from) ==> !is_space(#[trigger] line[i]),
        word_end(line, from) < line.len() ==> is_space(line[word_end(line, from)]),
        from < line.len() && !is_space(line[from]) ==> from < word_end(line, from),
    decreases line.len() - from,
{
    if from < line.len() && !is_space(line[from]) {
        lemma_word_end(line, from + 1);
    }
}

/// Whether some characters make a word: there is at least one, and no
/// space among them.
pub open spec fn is_word(chars: Seq<char>) -> bool {
    chars.len() > 0 && forall|i: int| 0 <= i < chars.len() ==> !is_space(#[trigger] chars[i])
}

/// Whether a line is blank: it holds nothing but spaces.
pub open spec fn is_blank(chars: Seq<char>) -> bool {
    forall|i: int| 0 <= i < chars.len() ==> is_space(#[trigger] chars[i])
}

/// Each of the words of a line has at least one character and no space.
pub proof fn lemma_words_are_words(line: Seq<char>, from: int)
    requires
        0 <= from <= line.len(),
    ensures
        forall|i: int|
            0 <= i < words_from(line, from).len() ==> is_word(#[trigger] words_from(line, from)[i]),
    decreases line.len() - from,
{
    lemma_word_start(line, from);
    let start = word_start(line, from);
    if start < line.len() {
        lemma_word_end(line, start);
        let end = word_end(line, start);
        lemma_words_are_words(line, end);
        assert(is_word(line.subrange(start, end)));
        assert forall|i: int| 0 <= i < words_from(line, from).len() implies is_word(
            #[trigger] words_from(line, from)[i],
        ) by {
            if i > 0 {
                assert(words_from(line, from)[i] == words_from(line, end)[i - 1]);
            }
        }
    }
}

/// Within the first of two joined lines, spaces are skipped as in that line
/// alone; where they reach its end, the search goes on from there.
proof fn lemma_word_start_joined(left: Seq<char>, right: Seq<char>, from: int)
    requires
        0 <= from <= left.len(),
    ensures
        word_start(left, from) < left.len() ==> word_start(left + right, from) == word_start(
            left,
            from,
        ),
        word_start(left, from) >= left.len() ==> word_start(left + right, from) == word_start(
            left + right,
            left.len() as int,
        ),
    decreases left.len() - from,
{
    if from < left.len() {
        assert((left + right)[from] == left[from]);
        if is_space(left[from]) {
            lemma_word_start_joined(left, right, from + 1);
        }
    }
}

/// Within the first of two joined lines, a word ends as in that line alone;
/// where it reaches its end, the search goes on from there.
proof fn lemma_word_end_joined(left: Seq<char>, right: Seq<char>, from: int)
    requires
        0 <= from <= left.len(),
    ensures
        word_end(left, from) < left.len() ==> word_end(left + right, from) == word_end(left, from),
        word_end(left, from) >= left.len() ==> word_end(left + right, from) == word_end(
            left + right,
            left.len() as int,
        ),
    decreases left.len() - from,
{
    if from < left.len() {
        assert((left + right)[from] == left[from]);
        if !is_space(left[from]) {
            lemma_word_end_joined(left, right, from + 1);
        }
    }
}

/// Positions in the second of two joined lines are those of that line
/// alone, moved by the length of the first.
proof fn lemma_bounds_moved(left: Seq<char>, right: Seq<char>, from: int)
    requires
        0 <= from <= right.len(),
    ensures
        word_start(left + right, left.len() + from) == left.len() + word_start(right, from),
        word_end(left + right, left.len() + from) == left.len() + word_end(right, from),
    decreases right.len() - from,
{
    if from < right.len() {
        assert((left + right)[left.len() + from] == right[from]);
        lemma_bounds_moved(left, right, from + 1);
    }
}

/// The words in the second of two joined lines are those of that line
/// alone.
proof fn lemma_words_moved(left: Seq<char>, right: Seq<char>, from: int)
    requires
        0 <= from <= right.len(),
    ensures
        words_from(left + right, left.len() + from) == words_from(right, from),
    decreases right.len() - from,
{
    lemma_bounds_moved(left, right, from);
    lemma_word_start(right, from);
    let start = word_start(right, from);
    if start < right.len() {
        lemma_bounds_moved(left, right, start);
        lemma_word_end(right, start);
        let end = word_end(right, start);
        lemma_words_moved(left, right, end);
        assert((left + right).subrange(left.len() + start, left.len() + end) == right.subrange(
            start,
            end,
        ));
    }
}

/// The words from a position on are the words of the rest of the line.
pub proof fn lemma_words_of_rest(line: Seq<char>, from: int)
    requires
        0 <= from <= line.len(),
    ensures
        words_from(line, from) == words(line.skip(from)),
{
    assert(line.take(from) + line.skip(from) == line);
    lemma_words_moved(line.take(from), line.skip(from), 0);
}

/// Joining two lines joins their words, provided that no word runs across
/// the joint: one of the two is empty, or the first ends in a space, or the
/// second begins with one.
pub proof fn lemma_words_of_joined(left: Seq<char>, right: Seq<char>)
    requires
        left.len() == 0 || right.len() == 0 || is_space(left.last()) || is_space(right[0]),
    ensures
        words(left + right) == words(left) + words(right),
{
    lemma_words_joined_from(left, right, 0);
}

proof fn lemma_words_joined_from(left: Seq<char>, right: Seq<char>, from: int)
    requires
        0 <= from <= left.len(),
        left.len() == 0 || right.len() == 0 || is_space(left.last()) || is_space(right[0]),
    ensures
        words_from(left + right, from) == words_from(left, from) + words(right),
    decreases left.len() - from,
{
    let joined = left + right;
    lemma_word_start(left, from);
    lemma_word_start_joined(left, right, from);
    lemma_words_moved(left, right, 0);
    let start = word_start(left, from);
    if start < left.len() {
        lemma_word_end(left, start);
        lemma_word_end_joined(left, right, start);
        let end = word_end(left, start);
        if end == left.len() {
            // The word runs to the end of `left`, so it is no space that
            // stands there, and the joint must be marked on the other side.
            assert(!is_space(left[end - 1]));
            if right.len() > 0 {
                assert(joined[left.len() as int] == right[0]);
            }
            assert(word_end(joined, left.len() as int) == left.len());
        }
        assert(word_end(joined, start) == end);
        assert(joined.subrange(start, end) == left.subrange(start, end));
        lemma_words_joined_from(left, right, end);
        assert(words_from(joined, from) == seq![left.subrange(start, end)] + (words_from(left, end)
            + words(right)));
        assert(words_from(joined, from) == words_from(left, from) + words(right));
    } else {
        assert(words_from(left, from) == Seq::<Seq<char>>::empty());
        assert(word_start(joined, from) == word_start(joined, left.len() as int));
        assert(words_from(joined, from) == words_from(joined, left.len() as int));
        assert(words_from(joined, from) == words_from(left, from) + words(right));
    }
}

/// A blank line has no words.
pub proof fn lemma_words_of_blank(line: Seq<char>)
    requires
        is_blank(line),
    ensures
        words(line) == Seq::<Seq<char>>::empty(),
{
    lemma_word_start(line, 0);
}

/// A word alone on a line is the one word of that line.
pub proof fn lemma_words_of_word(word: Seq<char>)
    requires
        is_word(word),
    ensures
        words(word) == seq![word],
{
    lemma_word_start(word, 0);
    lemma_word_end(word, 0);
    lemma_word_start(word, word.len() as int);
    assert(word.subrange(0, word.len() as int) == word);
    assert(words_from(word, word.len() as int) == Seq::<Seq<char>>::empty());
}

/// Decides `is_space`.
pub fn separates(c: char) -> (b: bool)
    ensures
        b == is_space(c),
{
    ('\u{9}' <= c && c <= '\u{d}') || c == ' ' || c == '\u{85}' || c == '\u{a0}' || c == '\u{1680}'
        || ('\u{2000}' <= c && c <= '\u{200a}') || c == '\u{2028}' || c == '\u{2029}' || c
        == '\u{202f}' || c == '\u{205f}' || c == '\u{3000}'
}

/// The characters of a line, one by one.
pub fn characters(line: &str) -> (chars: Vec<char>)
    ensures
        chars@ == line@,
{
    let mut chars: Vec<char> = Vec::new();
    for c in it: line.chars()
        invariant
            chars@ == it.seq().take(it.index()),
    {
        chars.push(c);
    }
    chars
}

/// Finds the next word at or after `from`: where it begins and where it
/// ends, or nothing where only spaces follow.
pub fn next_word(chars: &[char], from: usize) -> (bounds: Option<(usize, usize)>)
    requires
        from <= chars.len(),
    ensures
        match bounds {
            Some((start, end)) => {
                &&& start == word_start(chars@, from as int)
                &&& end == word_end(chars@, start as int)
                &&& from <= start < end <= chars.len()
                &&& words_from(chars@, from as int) == seq![
                    chars@.subrange(start as int, end as int),
                ] + words_from(chars@, end as int)
            },
            None => {
                &&& word_start(chars@, from as int) == chars.len()
                &&& words_from(chars@, from as int) == Seq::<Seq<char>>::empty()
            },
        },
{
    let mut start: usize = from;
    while start < chars.len() && separates(chars[start])
        invariant
            from <= start <= chars.len(),
            word_start(chars@, from as int) == word_start(chars@, start as int),
        decreases chars.len() - start,
    {
        start += 1;
    }
    if start == chars.len() {
        return None;
    }
    let mut end: usize = start + 1;
    while end < chars.len() && !separates(chars[end])
        invariant
            start < end <= chars.len(),
            word_end(chars@, start as int) == word_end(chars@, end as int),
        decreases chars.len() - end,
    {
        end += 1;
    }
    Some((start, end))
}

/// Whether a character is one of the ten decimal digits.
pub open spec fn is_digit(c: char) -> bool {
    '0' <= c <= '9'
}

/// The value of a decimal digit.
pub open spec fn digit_value(c: char) -> nat
    recommends
        is_digit(c),
{
    (c as int - '0' as int) as nat
}

/// The value of a run of decimal digits, the leftmost weighing most.
pub open spec fn decimal(digits: Seq<char>) -> nat
    decreases digits.len(),
{
    if digits.len() == 0 {
        0
    } else {
        10 * decimal(digits.drop_last()) + digit_value(digits.last())
    }
}

/// A word without the one `+` that may stand in front of a number.
pub open spec fn unsigned_part(word: Seq<char>) -> Seq<char> {
    if word.len() > 0 && word[0] == '+' {
        word.skip(1)
    } else {
        word
    }
}

/// The number that a word writes, if it writes one: after an optional `+`,
/// at least one character, all of them decimal digits, with a value of at
/// most `u64::MAX`.
pub open spec fn number_of(word: Seq<char>) -> Option<u64> {
    let digits = unsigned_part(word);
    if digits.len() > 0 && (forall|i: int| 0 <= i < digits.len() ==> is_digit(#[trigger] digits[i]))
        && decimal(digits) <= u64::MAX {
        Some(decimal(digits) as u64)
    } else {
        None
    }
}

/// A run of digits is worth at least as much as any of its beginnings.
pub proof fn lemma_decimal_grows(digits: Seq<char>, n: int)
    requires
        0 <= n <= digits.len(),
    ensures
        decimal(digits.take(n)) <= decimal(digits),
    decreases digits.len(),
{
    if n < digits.len() {
        assert(digits.drop_last().take(n) == digits.take(n));
        lemma_decimal_grows(digits.drop_last(), n);
    } else {
        assert(digits.take(n) == digits);
    }
}

/// Reads the number that the characters from `start` up to `end` write.
pub fn read_number(chars: &[char], start: usize, end: usize) -> (number: Option<u64>)
    requires
        start <= end <= chars.len(),
    ensures
        number == number_of(chars@.subrange(start as int, end as int)),
{
    let ghost word = chars@.subrange(start as int, end as int);
    let first: usize = if start < end && chars[start] == '+' {
        start + 1
    } else {
        start
    };
    let ghost digits = chars@.subrange(first as int, end as int);
    assert(digits == unsigned_part(word));
    if first == end {
        return None;
    }
    let mut value: u64 = 0;
    let mut at: usize = first;
    while at < end
        invariant
            start <= first <= at <= end <= chars.len(),
            first < end,
            word == chars@.subrange(start as int, end as int),
            digits == chars@.subrange(first as int, end as int),
            digits == unsigned_part(word),
            forall|i: int| 0 <= i < at - first ==> is_digit(#[trigger] digits[i]),
            value == decimal(digits.take(at - first)),
        decreases end - at,
    {
        let c: char = chars[at];
        if c < '0' || c > '9' {
            assert(!is_digit(digits[at - first]));
            return None;
        }
        let digit: u64 = (c as u32 - '0' as u32) as u64;
        proof {
            let seen = digits.take(at - first + 1);
            assert(seen.drop_last() == digits.take(at - first));
            assert(seen.last() == c);
            assert(decimal(seen) == 10 * value + digit);
            lemma_decimal_grows(digits, at - first + 1);
        }
        value = match value.checked_mul(10) {
            Some(tens) => match tens.checked_add(digit) {
                Some(sum) => sum,
                None => return None,
            },
            None => return None,
        };
        at += 1;
    }
    assert(digits.take(at - first) == digits);
    Some(value)
}

} // verus!
