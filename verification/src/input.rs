//! What a line typed by the user means: a count, the letter of a choice, a
//! list of letters, a request for hints, a yes or a no.

use crate::order::ints;
use crate::text::chars_of;
use crate::text_set::same_text;
use vstd::prelude::*;

verus! {

/// Why a line was not accepted. The user is asked again.
#[derive(Clone, Copy, PartialEq, Eq, Structural, Debug, Hash)]
pub enum InputError {
    /// The line is not a count of at least one.
    UnparsableCount,
    /// The line names a choice that the question does not offer.
    UnrecognizedChoice,
    /// Hints were asked for where the question has none.
    HintsUnavailable,
    /// The line is neither a yes nor a no.
    UnrecognizedOption,
}

/// Whether a character is white space.
pub open spec fn is_blank(c: char) -> bool {
    ||| '\u{9}' <= c <= '\u{d}'
    ||| c == ' '
    ||| c == '\u{85}'
    ||| c == '\u{a0}'
    ||| c == '\u{1680}'
    ||| '\u{2000}' <= c <= '\u{200a}'
    ||| c == '\u{2028}'
    ||| c == '\u{2029}'
    ||| c == '\u{202f}'
    ||| c == '\u{205f}'
    ||| c == '\u{3000}'
}

/// A text without the white space that it begins with.
pub open spec fn without_leading_blanks(s: Seq<char>) -> Seq<char>
    decreases s.len(),
{
    if s.len() > 0 && is_blank(s[0]) {
        without_leading_blanks(s.skip(1))
    } else {
        s
    }
}

/// A text without the white space that it ends with.
pub open spec fn without_trailing_blanks(s: Seq<char>) -> Seq<char>
    decreases s.len(),
{
    if s.len() > 0 && is_blank(s.last()) {
        without_trailing_blanks(s.drop_last())
    } else {
        s
    }
}

/// A text without the white space around it.
pub open spec fn trimmed(s: Seq<char>) -> Seq<char> {
    without_trailing_blanks(without_leading_blanks(s))
}

/// Where the text begins once the white space before it is gone.
proof fn lemma_without_leading_blanks(s: Seq<char>) -> (from: int)
    ensures
        0 <= from <= s.len(),
        without_leading_blanks(s) == s.skip(from),
        forall|i: int| 0 <= i < from ==> is_blank(s[i]),
        from < s.len() ==> !is_blank(s[from]),
    decreases s.len(),
{
    if s.len() > 0 && is_blank(s[0]) {
        let inner = lemma_without_leading_blanks(s.skip(1));
        assert(s.skip(1).skip(inner) =~= s.skip(inner + 1));
        assert forall|i: int| 0 <= i < inner + 1 implies is_blank(s[i]) by {
            if i > 0 {
                assert(s.skip(1)[i - 1] == s[i]);
            }
        }
        inner + 1
    } else {
        assert(s.skip(0) =~= s);
        0
    }
}

/// Where the text ends once the white space after it is gone.
proof fn lemma_without_trailing_blanks(s: Seq<char>) -> (to: int)
    ensures
        0 <= to <= s.len(),
        without_trailing_blanks(s) == s.take(to),
        forall|i: int| to <= i < s.len() ==> is_blank(s[i]),
        to > 0 ==> !is_blank(s[to - 1]),
    decreases s.len(),
{
    if s.len() > 0 && is_blank(s.last()) {
        let inner = lemma_without_trailing_blanks(s.drop_last());
        assert(s.drop_last().take(inner) =~= s.take(inner));
        assert forall|i: int| inner <= i < s.len() implies is_blank(s[i]) by {
            if i < s.len() - 1 {
                assert(s.drop_last()[i] == s[i]);
            }
        }
        if inner > 0 {
            assert(s.drop_last()[inner - 1] == s[inner - 1]);
        }
        inner
    } else {
        assert(s.take(s.len() as int) =~= s);
        s.len() as int
    }
}

/// A text without the white space around it is the part of the text from
/// its first character that is no white space to its last one. It is empty
/// exactly when the text holds white space only.
pub proof fn lemma_trimmed(s: Seq<char>) -> (bounds: (int, int))
    ensures
        0 <= bounds.0 <= bounds.1 <= s.len(),
        trimmed(s) == s.subrange(bounds.0, bounds.1),
        forall|i: int| 0 <= i < bounds.0 || bounds.1 <= i < s.len() ==> is_blank(s[i]),
        bounds.0 < bounds.1 ==> !is_blank(s[bounds.0]) && !is_blank(s[bounds.1 - 1]),
        trimmed(s).len() == 0 <==> forall|i: int| 0 <= i < s.len() ==> is_blank(s[i]),
{
    let from = lemma_without_leading_blanks(s);
    let rest = s.skip(from);
    let kept = lemma_without_trailing_blanks(rest);
    assert(rest.take(kept) =~= s.subrange(from, from + kept));
    assert forall|i: int| from + kept <= i < s.len() implies is_blank(s[i]) by {
        assert(rest[i - from] == s[i]);
    }
    if kept > 0 {
        assert(rest[kept - 1] == s[from + kept - 1]);
        assert(rest[0] == s[from]);
    }
    (from, from + kept)
}

/// Whether a character is white space.
fn blank(c: char) -> (blank: bool)
    ensures
        blank == is_blank(c),
{
    (c >= '\u{9}' && c <= '\u{d}') || c == ' ' || c == '\u{85}' || c == '\u{a0}' || c
        == '\u{1680}' || (c >= '\u{2000}' && c <= '\u{200a}') || c == '\u{2028}' || c
        == '\u{2029}' || c == '\u{202f}' || c == '\u{205f}' || c == '\u{3000}'
}

/// Takes a line as the user typed it: the line without the white space
/// around it, or nothing where only white space was typed. An empty line is
/// no input; the user is asked again.
pub fn accept_line(raw: &str) -> (line: Option<&str>)
    ensures
        line is None <==> trimmed(raw@).len() == 0,
        line matches Some(text) ==> text@ == trimmed(raw@),
{
    let chars = chars_of(raw);
    let n = chars.len();
    let mut from: usize = 0;
    assert(raw@.skip(0) =~= raw@);
    while from < n && blank(chars[from])
        invariant
            from <= n,
            n == chars.len(),
            chars@ == raw@,
            without_leading_blanks(raw@) == without_leading_blanks(raw@.skip(from as int)),
        decreases n - from,
    {
        assert(raw@.skip(from as int).skip(1) =~= raw@.skip(from as int + 1));
        from += 1;
    }
    let ghost rest = raw@.skip(from as int);
    let mut to: usize = n;
    while to > from && blank(chars[to - 1])
        invariant
            from <= to <= n,
            n == chars.len(),
            chars@ == raw@,
            without_trailing_blanks(rest) == without_trailing_blanks(
                raw@.subrange(from as int, to as int),
            ),
        decreases to,
    {
        assert(raw@.subrange(from as int, to as int).drop_last() =~= raw@.subrange(
            from as int,
            to as int - 1,
        ));
        to -= 1;
    }
    if from == to {
        None
    } else {
        Some(raw.substring_char(from, to))
    }
}

/// Takes an entry that was typed twice: the entry, where both times the
/// same was typed, and nothing where they differ.
pub fn confirm_entry<'a>(first: &str, second: &'a str) -> (entry: Option<&'a str>)
    ensures
        entry is Some <==> first@ == second@,
        entry matches Some(text) ==> text@ == second@,
{
    if same_text(first, second) {
        Some(second)
    } else {
        None
    }
}

/// Whether `c` is one of the ten decimal digits.
pub open spec fn is_digit(c: char) -> bool {
    '0' <= c <= '9'
}

/// The number that a digit stands for.
pub open spec fn digit_value(c: char) -> nat {
    (c as u32 - '0' as u32) as nat
}

/// The number that a sequence of digits stands for in base ten.
pub open spec fn decimal_value(s: Seq<char>) -> nat
    decreases s.len(),
{
    if s.len() == 0 {
        0
    } else {
        decimal_value(s.drop_last()) * 10 + digit_value(s.last())
    }
}

/// Every character of `s` is a decimal digit.
pub open spec fn all_digits(s: Seq<char>) -> bool {
    forall|i: int| 0 <= i < s.len() ==> is_digit(#[trigger] s[i])
}

/// The digits of a line: the line itself, without a plus sign in front.
pub open spec fn numeral(line: Seq<char>) -> Seq<char> {
    if line.len() > 0 && line[0] == '+' {
        line.skip(1)
    } else {
        line
    }
}

/// The count that a line stands for: a decimal number of at least one that
/// fits the machine's word, written in digits with at most a plus sign in
/// front.
pub open spec fn count_of(line: Seq<char>) -> Option<usize> {
    let digits = numeral(line);
    if digits.len() > 0 && all_digits(digits) && 0 < decimal_value(digits) <= usize::MAX {
        Some(decimal_value(digits) as usize)
    } else {
        None
    }
}

/// A longer numeral stands for no smaller number than its beginning.
proof fn lemma_decimal_value_grows(s: Seq<char>, k: int)
    requires
        0 <= k <= s.len(),
    ensures
        decimal_value(s.take(k)) <= decimal_value(s),
    decreases s.len() - k,
{
    if k == s.len() {
        assert(s.take(k) =~= s);
    } else {
        lemma_decimal_value_grows(s, k + 1);
        assert(s.take(k + 1).drop_last() =~= s.take(k));
    }
}

/// Reads the number of questions that the user asks for.
pub fn parse_count(line: &str) -> (parsed: Result<usize, InputError>)
    ensures
        match parsed {
            Ok(n) => count_of(line@) == Some(n),
            Err(e) => e == InputError::UnparsableCount && count_of(line@) is None,
        },
{
    let chars = chars_of(line);
    let start: usize = if chars.len() > 0 && chars[0] == '+' {
        1
    } else {
        0
    };
    let ghost digits = numeral(line@);
    if start == chars.len() {
        return Err(InputError::UnparsableCount);
    }
    let mut value: usize = 0;
    let mut i: usize = start;
    while i < chars.len()
        invariant
            start <= i <= chars.len(),
            digits == numeral(line@),
            digits == chars@.skip(start as int),
            all_digits(digits.take(i - start)),
            value == decimal_value(digits.take(i - start)),
        decreases chars.len() - i,
    {
        let c = chars[i];
        assert(c == digits[i - start]);
        if c < '0' || c > '9' {
            return Err(InputError::UnparsableCount);
        }
        let d: usize = (c as u32 - '0' as u32) as usize;
        proof {
            assert(digits.take(i - start + 1).drop_last() =~= digits.take(i - start));
            lemma_decimal_value_grows(digits, i - start + 1);
        }
        let next = match value.checked_mul(10) {
            Some(tens) => tens.checked_add(d),
            None => None,
        };
        match next {
            Some(n) => {
                value = n;
            },
            None => {
                return Err(InputError::UnparsableCount);
            },
        }
        i += 1;
    }
    assert(digits.take(i - start) =~= digits);
    if value == 0 {
        Err(InputError::UnparsableCount)
    } else {
        Ok(value)
    }
}

/// The number of choices that have a letter: the letters are the
/// characters from `a` up to the last one of a single byte.
pub const LABELS: usize = 159;

/// The letter that the choice at `index` is shown under.
pub open spec fn label_of(index: int) -> Option<char> {
    if 0 <= index < LABELS {
        Some((index + 97) as u8 as char)
    } else {
        None
    }
}

/// The index of the choice that a letter stands for.
pub open spec fn index_of_label(c: char) -> Option<int> {
    if 97 <= c as u32 <= 255 {
        Some(c as u32 - 97)
    } else {
        None
    }
}

/// The letter that the choice at `index` is shown under: `a` for the first,
/// `b` for the second, and so on.
pub fn choice_label(index: usize) -> (label: Option<char>)
    ensures
        label == label_of(index as int),
{
    if index < LABELS {
        let code: u8 = (index + 97) as u8;
        Some(code as char)
    } else {
        None
    }
}

/// A letter and the index it is shown for stand for each other.
pub proof fn lemma_label_round_trip(index: int)
    requires
        0 <= index < LABELS,
    ensures
        label_of(index) matches Some(c) && index_of_label(c) == Some(index),
{
}

/// The choice that a line picks out of `options` choices: the one whose
/// letter the line starts with.
pub open spec fn choice_of(line: Seq<char>, options: nat) -> Option<int> {
    if line.len() == 0 {
        None
    } else {
        match index_of_label(line[0]) {
            Some(i) if i < options => Some(i),
            _ => None,
        }
    }
}

/// The choice that a run of characters picks, as `choice_of` says.
fn pick(chars: &Vec<char>, from: usize, to: usize, options: usize) -> (picked: Option<usize>)
    requires
        from <= to <= chars.len(),
    ensures
        picked matches Some(i) ==> choice_of(
            chars@.subrange(from as int, to as int),
            options as nat,
        ) == Some(i as int),
        picked is None ==> choice_of(chars@.subrange(from as int, to as int), options as nat)
            is None,
{
    if from == to {
        return None;
    }
    let code: u32 = chars[from] as u32;
    if code < 97 || code > 255 {
        return None;
    }
    let index: usize = (code - 97) as usize;
    if index < options {
        Some(index)
    } else {
        None
    }
}

/// Reads the letter of the one choice that the user picks.
pub fn parse_choice(line: &str, options: usize) -> (parsed: Result<usize, InputError>)
    ensures
        match parsed {
            Ok(i) => choice_of(line@, options as nat) == Some(i as int),
            Err(e) => e == InputError::UnrecognizedChoice && choice_of(line@, options as nat)
                is None,
        },
{
    let chars = chars_of(line);
    match pick(&chars, 0, chars.len(), options) {
        Some(i) => Ok(i),
        None => Err(InputError::UnrecognizedChoice),
    }
}

/// Whether the separator of a list, a comma and a blank, stands at `k`.
pub open spec fn separator_at(s: Seq<char>, k: int) -> bool {
    0 <= k && k + 1 < s.len() && s[k] == ',' && s[k + 1] == ' '
}

/// The pieces that the separators cut the rest of a list into, where the
/// piece at hand starts at `start` and has been read up to `at`.
pub open spec fn pieces_from(s: Seq<char>, start: int, at: int) -> Seq<Seq<char>>
    decreases s.len() - at,
{
    if at >= s.len() {
        seq![s.subrange(start, s.len() as int)]
    } else if separator_at(s, at) {
        seq![s.subrange(start, at)] + pieces_from(s, at + 2, at + 2)
    } else {
        pieces_from(s, start, at + 1)
    }
}

/// The pieces of a list: what stands before, between and after its
/// separators. A list without a separator is one piece.
pub open spec fn pieces(s: Seq<char>) -> Seq<Seq<char>> {
    pieces_from(s, 0, 0)
}

/// Pieces put together again, with a separator between each two.
pub open spec fn joined(parts: Seq<Seq<char>>) -> Seq<char>
    decreases parts.len(),
{
    if parts.len() == 0 {
        Seq::empty()
    } else if parts.len() == 1 {
        parts[0]
    } else {
        parts[0] + seq![',', ' '] + joined(parts.drop_first())
    }
}

/// The pieces of the rest of a list hold no separator, and put together
/// they are that rest.
proof fn lemma_pieces_from(s: Seq<char>, start: int, at: int)
    requires
        0 <= start <= at <= s.len(),
        forall|k: int| start <= k < at ==> !separator_at(s, k),
    ensures
        pieces_from(s, start, at).len() > 0,
        joined(pieces_from(s, start, at)) == s.subrange(start, s.len() as int),
        forall|i: int, k: int|
            0 <= i < pieces_from(s, start, at).len() ==> !#[trigger] separator_at(
                pieces_from(s, start, at)[i],
                k,
            ),
    decreases s.len() - at,
{
    let all = pieces_from(s, start, at);
    if at >= s.len() {
        let piece = s.subrange(start, s.len() as int);
        assert forall|k: int| !separator_at(piece, k) by {
            if separator_at(piece, k) {
                assert(separator_at(s, start + k));
            }
        }
    } else if separator_at(s, at) {
        let piece = s.subrange(start, at);
        let rest = pieces_from(s, at + 2, at + 2);
        lemma_pieces_from(s, at + 2, at + 2);
        assert forall|k: int| !separator_at(piece, k) by {
            if separator_at(piece, k) {
                assert(separator_at(s, start + k));
            }
        }
        assert(all.drop_first() =~= rest);
        assert(joined(all) == piece + seq![',', ' '] + joined(rest));
        assert(joined(all) =~= s.subrange(start, s.len() as int));
    } else {
        lemma_pieces_from(s, start, at + 1);
    }
}

/// A list is cut at each of its separators, and nowhere else: its pieces
/// hold no separator, and put together with separators between them they
/// are the list.
pub proof fn lemma_pieces(s: Seq<char>)
    ensures
        joined(pieces(s)) == s,
        forall|i: int, k: int|
            0 <= i < pieces(s).len() ==> !#[trigger] separator_at(pieces(s)[i], k),
{
    lemma_pieces_from(s, 0, 0);
    assert(s.subrange(0, s.len() as int) =~= s);
}

/// The choices that a line picks out of `options` choices: one for each
/// piece of the list, in order. A line with a piece that picks none picks
/// nothing at all.
pub open spec fn selection_of(line: Seq<char>, options: nat) -> Option<Seq<int>> {
    let parts = pieces(line);
    if forall|i: int| 0 <= i < parts.len() ==> choice_of(#[trigger] parts[i], options) is Some {
        Some(parts.map_values(|p: Seq<char>| choice_of(p, options).unwrap()))
    } else {
        None
    }
}

/// Reads the letters of the choices that the user picks, given as a list
/// with a comma and a blank between them.
pub fn parse_selection(line: &str, options: usize) -> (parsed: Result<Vec<usize>, InputError>)
    ensures
        match parsed {
            Ok(picks) => selection_of(line@, options as nat) == Some(ints(picks@)),
            Err(e) => e == InputError::UnrecognizedChoice && selection_of(line@, options as nat)
                is None,
        },
{
    let chars = chars_of(line);
    let n = chars.len();
    let mut picks: Vec<usize> = Vec::new();
    let ghost s = line@;
    let ghost mut done: Seq<Seq<char>> = Seq::empty();
    let mut start: usize = 0;
    let mut at: usize = 0;
    while at < n
        invariant
            start <= at <= n,
            n == chars.len(),
            s == line@,
            chars@ == s,
            pieces(s) == done + pieces_from(s, start as int, at as int),
            picks@.len() == done.len(),
            forall|k: int|
                0 <= k < done.len() ==> choice_of(#[trigger] done[k], options as nat) == Some(
                    picks@[k] as int,
                ),
        decreases n - at,
    {
        if chars[at] == ',' && at + 1 < n && chars[at + 1] == ' ' {
            let ghost piece = s.subrange(start as int, at as int);
            match pick(&chars, start, at, options) {
                Some(i) => {
                    picks.push(i);
                },
                None => {
                    assert(pieces(s)[done.len() as int] == piece);
                    return Err(InputError::UnrecognizedChoice);
                },
            }
            proof {
                done = done.push(piece);
            }
            at += 2;
            start = at;
        } else {
            at += 1;
        }
    }
    let ghost piece = s.subrange(start as int, n as int);
    match pick(&chars, start, n, options) {
        Some(i) => {
            picks.push(i);
        },
        None => {
            assert(pieces(s)[done.len() as int] == piece);
            return Err(InputError::UnrecognizedChoice);
        },
    }
    Ok(picks)
}

/// Whether a line asks for the hints: the word `hint`, in capitals or not.
pub open spec fn asks_for_hint(line: Seq<char>) -> bool {
    &&& line.len() == 4
    &&& (line[0] == 'h' || line[0] == 'H')
    &&& (line[1] == 'i' || line[1] == 'I')
    &&& (line[2] == 'n' || line[2] == 'N')
    &&& (line[3] == 't' || line[3] == 'T')
}

/// Whether the user asks for the hints in place of an answer.
pub fn is_hint_request(line: &str) -> (asked: bool)
    ensures
        asked == asks_for_hint(line@),
{
    let chars = chars_of(line);
    chars.len() == 4 && (chars[0] == 'h' || chars[0] == 'H') && (chars[1] == 'i' || chars[1]
        == 'I') && (chars[2] == 'n' || chars[2] == 'N') && (chars[3] == 't' || chars[3] == 'T')
}

/// What a line answers to a yes-or-no question: yes where it starts with
/// `y`, no where it starts with `n`, in capitals or not.
pub open spec fn yes_or_no(line: Seq<char>) -> Option<bool> {
    if line.len() > 0 && (line[0] == 'y' || line[0] == 'Y') {
        Some(true)
    } else if line.len() > 0 && (line[0] == 'n' || line[0] == 'N') {
        Some(false)
    } else {
        None
    }
}

/// Reads the answer to a yes-or-no question.
pub fn parse_yes_no(line: &str) -> (parsed: Result<bool, InputError>)
    ensures
        match parsed {
            Ok(yes) => yes_or_no(line@) == Some(yes),
            Err(e) => e == InputError::UnrecognizedOption && yes_or_no(line@) is None,
        },
{
    let chars = chars_of(line);
    if chars.len() == 0 {
        Err(InputError::UnrecognizedOption)
    } else if chars[0] == 'y' || chars[0] == 'Y' {
        Ok(true)
    } else if chars[0] == 'n' || chars[0] == 'N' {
        Ok(false)
    } else {
        Err(InputError::UnrecognizedOption)
    }
}

/// Whether the user wants to go through the exam again: only a line that
/// says yes does.
pub fn wants_replay(line: &str) -> (again: bool)
    ensures
        again == (yes_or_no(line@) == Some(true)),
{
    match parse_yes_no(line) {
        Ok(yes) => yes,
        Err(_) => false,
    }
}

} // verus!
