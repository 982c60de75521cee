//! Reading grids, numbers and fields from lines of text.

use vstd::prelude::*;
use super::pattern::captures;
use super::pattern::captures_of;
use super::pattern::compile;
use super::pattern::compiled;
use super::pattern::find_all;
use super::pattern::group_texts;
use super::pattern::matches_of;
use crate::grids::grid::matrix_view;
use crate::grids::grid::uniform;
use crate::grids::grid::Grid;
use crate::grids::grid::GridError;
use crate::text::chars_of;
use crate::text::find_from;
use crate::text::first_occurrence;
use crate::text::lemma_first_occurrence;
use crate::text::parse_signed;
use crate::text::parse_unsigned;
use crate::text::split_bounds;
use crate::text::string_of;
use crate::text::texts;
use crate::text::trim_bounds;
use crate::text::is_letter;
use crate::text::signed_value;
use crate::text::split_by;
use crate::text::trimmed;
use crate::text::unsigned_value;
use regex::Regex;

verus! {

/// The pattern of a whole number with or without a sign.
pub const SIGNED_NUMBER: &'static str = "[+-]?\\d+";

/// The pattern of a whole number without a sign.
pub const UNSIGNED_NUMBER: &'static str = "\\d+";

/// Why lines could not be read.
#[derive(Debug, Clone, Copy, PartialEq, Eq, Structural)]
pub enum ParseError {
    /// The pattern is no regular expression that can be compiled.
    Pattern,
    /// The line of this index holds a letter where only numbers may stand.
    Letter(usize),
    /// A number in the line of this index is too large or too small.
    Number(usize),
    /// The line of this index does not hold exactly one number.
    Count(usize),
    /// The pattern does not occur in the line.
    NotFound,
    /// What follows the pattern in the line is no number.
    NotANumber,
}

/// The borrowed lines as sequences of characters.
pub open spec fn borrowed_texts(lines: Seq<&str>) -> Seq<Seq<char>> {
    Seq::new(lines.len(), |i: int| lines[i]@)
}

/// Whether the line holds a letter.
pub open spec fn has_letter(line: Seq<char>) -> bool {
    exists|i: int| 0 <= i < line.len() && is_letter(#[trigger] line[i])
}

/// The signed numbers that the tokens write, if each of them writes one.
pub open spec fn signed_numbers(tokens: Seq<Seq<char>>) -> Option<Seq<isize>> {
    if forall|i: int| 0 <= i < tokens.len() ==> signed_value(#[trigger] tokens[i]) is Some {
        Some(Seq::new(tokens.len(), |i: int| signed_value(tokens[i])->0 as isize))
    } else {
        None
    }
}

/// The unsigned numbers that the tokens write, if each of them writes one.
pub open spec fn unsigned_numbers(tokens: Seq<Seq<char>>) -> Option<Seq<usize>> {
    if forall|i: int| 0 <= i < tokens.len() ==> unsigned_value(#[trigger] tokens[i]) is Some {
        Some(Seq::new(tokens.len(), |i: int| unsigned_value(tokens[i])->0 as usize))
    } else {
        None
    }
}

/// The numbers of line `index`: those that the tokens write which `regex`
/// finds in the line. A line with a letter is refused before anything is
/// looked for in it, and a line with a token that writes no number that
/// fits is refused too.
pub open spec fn signed_row(regex: Regex, line: Seq<char>, index: usize) -> Result<
    Seq<isize>,
    ParseError,
> {
    if has_letter(line) {
        Err(ParseError::Letter(index))
    } else {
        match signed_numbers(matches_of(regex, line)) {
            Some(numbers) => Ok(numbers),
            None => Err(ParseError::Number(index)),
        }
    }
}

/// The unsigned numbers of line `index`, found and refused as the signed
/// ones are.
pub open spec fn unsigned_row(regex: Regex, line: Seq<char>, index: usize) -> Result<
    Seq<usize>,
    ParseError,
> {
    if has_letter(line) {
        Err(ParseError::Letter(index))
    } else {
        match unsigned_numbers(matches_of(regex, line)) {
            Some(numbers) => Ok(numbers),
            None => Err(ParseError::Number(index)),
        }
    }
}

/// The numbers of all lines, line by line, or the fault of the first line
/// that is refused.
pub open spec fn signed_rows(regex: Regex, lines: Seq<Seq<char>>) -> Result<
    Seq<Seq<isize>>,
    ParseError,
>
    decreases lines.len(),
{
    if lines.len() == 0 {
        Ok(Seq::empty())
    } else {
        match signed_rows(regex, lines.drop_last()) {
            Err(fault) => Err(fault),
            Ok(rows) => match signed_row(regex, lines.last(), (lines.len() - 1) as usize) {
                Err(fault) => Err(fault),
                Ok(row) => Ok(rows.push(row)),
            },
        }
    }
}

/// The unsigned numbers of all lines, line by line, or the fault of the
/// first line that is refused.
pub open spec fn unsigned_rows(regex: Regex, lines: Seq<Seq<char>>) -> Result<
    Seq<Seq<usize>>,
    ParseError,
>
    decreases lines.len(),
{
    if lines.len() == 0 {
        Ok(Seq::empty())
    } else {
        match unsigned_rows(regex, lines.drop_last()) {
            Err(fault) => Err(fault),
            Ok(rows) => match unsigned_row(regex, lines.last(), (lines.len() - 1) as usize) {
                Err(fault) => Err(fault),
                Ok(row) => Ok(rows.push(row)),
            },
        }
    }
}

/// The one number of each row, or the index of the first row that does not
/// hold exactly one.
pub open spec fn only_numbers<T>(rows: Seq<Seq<T>>) -> Result<Seq<T>, ParseError>
    decreases rows.len(),
{
    if rows.len() == 0 {
        Ok(Seq::empty())
    } else {
        match only_numbers(rows.drop_last()) {
            Err(fault) => Err(fault),
            Ok(numbers) => if rows.last().len() == 1 {
                Ok(numbers.push(rows.last()[0]))
            } else {
                Err(ParseError::Count((rows.len() - 1) as usize))
            },
        }
    }
}

/// Why lines could not be read with a regular expression and the caller's
/// decoder.
#[derive(Debug, PartialEq, Eq)]
pub enum LineError<E> {
    /// The pattern is no regular expression that can be compiled.
    Pattern,
    /// The expression does not match the line of this index.
    Mismatch(usize),
    /// In the line of the first index, the group of the second index took
    /// no part in the match. The groups are counted from 0 and without the
    /// whole match.
    MissingGroup(usize, usize),
    /// The decoder refused the groups of a line.
    Decode(E),
}

/// The fields of a line: what stands between the occurrences of `pattern`
/// in the line without the white space at its ends, each field without the
/// white space at its ends.
pub open spec fn fields_of(line: Seq<char>, pattern: Seq<char>) -> Seq<Seq<char>> {
    split_by(trimmed(line), pattern).map_values(|part: Seq<char>| trimmed(part))
}

/// What follows the first occurrence of `pattern` in the line, without the
/// white space at its ends; none where the pattern does not occur.
pub open spec fn value_after(line: Seq<char>, pattern: Seq<char>) -> Option<Seq<char>> {
    match first_occurrence(line, pattern, 0) {
        Some(at) => Some(trimmed(line.skip(at + pattern.len()))),
        None => None,
    }
}

/// The lines of the group that is still open at the end of `lines`: the
/// lines behind the last empty one.
pub open spec fn open_group(lines: Seq<Seq<char>>) -> Seq<Seq<char>>
    decreases lines.len(),
{
    if lines.len() == 0 || lines.last().len() == 0 {
        Seq::empty()
    } else {
        open_group(lines.drop_last()).push(lines.last())
    }
}

/// The groups that an empty line has closed: the runs of lines that are not
/// empty and have an empty line behind them.
pub open spec fn closed_groups(lines: Seq<Seq<char>>) -> Seq<Seq<Seq<char>>>
    decreases lines.len(),
{
    if lines.len() == 0 {
        Seq::empty()
    } else if lines.last().len() == 0 && open_group(lines.drop_last()).len() > 0 {
        closed_groups(lines.drop_last()).push(open_group(lines.drop_last()))
    } else {
        closed_groups(lines.drop_last())
    }
}

/// The groups of the lines: the runs of lines that are not empty, in their
/// order. Empty lines part the groups and belong to none.
pub open spec fn groups_of(lines: Seq<Seq<char>>) -> Seq<Seq<Seq<char>>> {
    if open_group(lines).len() > 0 {
        closed_groups(lines).push(open_group(lines))
    } else {
        closed_groups(lines)
    }
}

/// Whether the line is not empty.
pub open spec fn is_filled(line: Seq<char>) -> bool {
    line.len() > 0
}

/// What grouping keeps and what it leaves out: no group is empty, no line
/// of a group is empty, and the groups one after another are the lines
/// without the empty ones, in their order.
pub proof fn lemma_groups_of(lines: Seq<Seq<char>>)
    ensures
        forall|i: int|
            0 <= i < groups_of(lines).len() ==> (#[trigger] groups_of(lines)[i]).len() > 0,
        forall|i: int, j: int|
            0 <= i < groups_of(lines).len() && 0 <= j < groups_of(lines)[i].len() ==> is_filled(
                #[trigger] groups_of(lines)[i][j],
            ),
        groups_of(lines).flatten() == lines.filter(|line: Seq<char>| is_filled(line)),
{
    lemma_grouping(lines);
    if open_group(lines).len() > 0 {
        closed_groups(lines).lemma_flatten_push(open_group(lines));
    } else {
        assert(closed_groups(lines).flatten() + open_group(lines) =~= closed_groups(
            lines,
        ).flatten());
    }
}

/// What holds of the closed groups and of the open group while the lines
/// are read.
proof fn lemma_grouping(lines: Seq<Seq<char>>)
    ensures
        forall|i: int|
            0 <= i < closed_groups(lines).len() ==> (#[trigger] closed_groups(lines)[i]).len() > 0,
        forall|i: int, j: int|
            0 <= i < closed_groups(lines).len() && 0 <= j < closed_groups(lines)[i].len()
                ==> is_filled(#[trigger] closed_groups(lines)[i][j]),
        forall|j: int| 0 <= j < open_group(lines).len() ==> is_filled(#[trigger] open_group(lines)[j]),
        closed_groups(lines).flatten() + open_group(lines) == lines.filter(
            |line: Seq<char>| is_filled(line),
        ),
    decreases lines.len(),
{
    let filled = |line: Seq<char>| is_filled(line);
    if lines.len() == 0 {
        assert(closed_groups(lines).flatten() + open_group(lines) =~= lines.filter(filled));
    } else {
        let before = lines.drop_last();
        lemma_grouping(before);
        assert(lines =~= before.push(lines.last()));
        before.lemma_filter_push(lines.last(), filled);
        if lines.last().len() == 0 {
            if open_group(before).len() > 0 {
                closed_groups(before).lemma_flatten_push(open_group(before));
            }
            assert(closed_groups(lines).flatten() + open_group(lines) =~= closed_groups(
                before,
            ).flatten() + open_group(before));
        } else {
            assert(closed_groups(lines).flatten() + open_group(lines) =~= (closed_groups(
                before,
            ).flatten() + open_group(before)).push(lines.last()));
        }
    }
}

/// The groups as sequences of sequences of characters.
pub open spec fn group_views(groups: Seq<Vec<String>>) -> Seq<Seq<Seq<char>>> {
    Seq::new(groups.len(), |i: int| texts(groups[i]@))
}

/// The index of the first group that took no part in the match, if there
/// is one.
pub open spec fn first_missing(groups: Seq<Option<Seq<char>>>) -> Option<int>
    decreases groups.len(),
{
    if groups.len() == 0 {
        None
    } else {
        match first_missing(groups.drop_last()) {
            Some(index) => Some(index),
            None => if groups.last() is None {
                Some(groups.len() - 1)
            } else {
                None
            },
        }
    }
}

/// What the groups of a match hold, the whole match left out, or the index
/// of the first of them that took no part in the match.
pub open spec fn fields_of_match(found: Seq<Option<Seq<char>>>) -> Result<Seq<Seq<char>>, usize> {
    let groups = if found.len() > 0 {
        found.skip(1)
    } else {
        found
    };
    match first_missing(groups) {
        Some(index) => Err(index as usize),
        None => Ok(Seq::new(groups.len(), |i: int| groups[i]->0)),
    }
}

/// Whether `outcome` is what reading line `index` may end in: a mismatch
/// where the expression does not match the line, a missing group where one
/// took no part in the match, and else what the decoder makes of the
/// groups.
pub open spec fn decoded<F: Fn(Vec<String>) -> Result<U, E>, U, E>(
    regex: Regex,
    line: Seq<char>,
    index: usize,
    func: F,
    outcome: Result<U, LineError<E>>,
) -> bool {
    match captures_of(regex, line) {
        None => outcome == Err::<U, LineError<E>>(LineError::Mismatch(index)),
        Some(found) => match fields_of_match(found) {
            Err(group) => outcome == Err::<U, LineError<E>>(LineError::MissingGroup(index, group)),
            Ok(fields) => exists|groups: Vec<String>|
                #![trigger texts(groups@)]
                texts(groups@) == fields && match outcome {
                    Ok(value) => call_ensures(func, (groups,), Ok::<U, E>(value)),
                    Err(LineError::Decode(refusal)) => call_ensures(
                        func,
                        (groups,),
                        Err::<U, E>(refusal),
                    ),
                    Err(_) => false,
                },
        },
    }
}

/// Whether reading line `index` may end in a value.
pub open spec fn decodable<F: Fn(Vec<String>) -> Result<U, E>, U, E>(
    regex: Regex,
    line: Seq<char>,
    index: usize,
    func: F,
) -> bool {
    exists|value: U| decoded(regex, line, index, func, Ok::<U, LineError<E>>(value))
}

/// The rows as sequences.
pub open spec fn row_views<T>(rows: Seq<Vec<T>>) -> Seq<Seq<T>> {
    Seq::new(rows.len(), |i: int| rows[i]@)
}

/// Whether the line holds a letter.
pub fn holds_letter(line: &str) -> (found: bool)
    ensures
        found == has_letter(line@),
{
    let chars = chars_of(line);
    let mut i: usize = 0;
    while i < chars.len()
        invariant
            chars@ == line@,
            i <= chars@.len(),
            forall|k: int| 0 <= k < i ==> !is_letter(#[trigger] line@[k]),
        decreases chars@.len() - i,
    {
        if chars[i].is_alphabetic() {
            return true;
        }
        i = i + 1;
    }
    false
}

/// The signed numbers that the tokens write, if each of them writes one
/// that fits.
pub fn signed_numbers_of(tokens: &Vec<String>) -> (numbers: Option<Vec<isize>>)
    ensures
        match numbers {
            Some(values) => signed_numbers(texts(tokens@)) == Some(values@),
            None => signed_numbers(texts(tokens@)) is None,
        },
{
    let mut values: Vec<isize> = Vec::new();
    let mut i: usize = 0;
    while i < tokens.len()
        invariant
            i <= tokens@.len(),
            values@.len() == i,
            forall|k: int|
                0 <= k < i ==> signed_value(#[trigger] texts(tokens@)[k]) == Some(
                    values@[k] as int,
                ),
        decreases tokens@.len() - i,
    {
        let chars = chars_of(tokens[i].as_str());
        assert(chars@.subrange(0, chars@.len() as int) =~= texts(tokens@)[i as int]);
        match parse_signed(&chars, 0, chars.len()) {
            Some(value) => {
                values.push(value);
            },
            None => {
                return None;
            },
        }
        i = i + 1;
    }
    assert(signed_numbers(texts(tokens@))->0 =~= values@);
    Some(values)
}

/// The unsigned numbers that the tokens write, if each of them writes one
/// that fits.
pub fn unsigned_numbers_of(tokens: &Vec<String>) -> (numbers: Option<Vec<usize>>)
    ensures
        match numbers {
            Some(values) => unsigned_numbers(texts(tokens@)) == Some(values@),
            None => unsigned_numbers(texts(tokens@)) is None,
        },
{
    let mut values: Vec<usize> = Vec::new();
    let mut i: usize = 0;
    while i < tokens.len()
        invariant
            i <= tokens@.len(),
            values@.len() == i,
            forall|k: int|
                0 <= k < i ==> unsigned_value(#[trigger] texts(tokens@)[k]) == Some(
                    values@[k] as int,
                ),
        decreases tokens@.len() - i,
    {
        let chars = chars_of(tokens[i].as_str());
        assert(chars@.subrange(0, chars@.len() as int) =~= texts(tokens@)[i as int]);
        match parse_unsigned(&chars, 0, chars.len()) {
            Some(value) => {
                values.push(value);
            },
            None => {
                return None;
            },
        }
        i = i + 1;
    }
    assert(unsigned_numbers(texts(tokens@))->0 =~= values@);
    Some(values)
}

/// The one number of each row, or the first row that does not hold exactly
/// one.
pub fn only_numbers_of<T: Copy>(rows: &Vec<Vec<T>>) -> (numbers: Result<Vec<T>, ParseError>)
    ensures
        match numbers {
            Ok(values) => only_numbers(row_views(rows@)) == Ok::<Seq<T>, ParseError>(values@),
            Err(fault) => only_numbers(row_views(rows@)) == Err::<Seq<T>, ParseError>(fault),
        },
{
    let mut values: Vec<T> = Vec::new();
    let mut i: usize = 0;
    while i < rows.len()
        invariant
            i <= rows@.len(),
            only_numbers(row_views(rows@).take(i as int)) == Ok::<Seq<T>, ParseError>(values@),
        decreases rows@.len() - i,
    {
        assert(row_views(rows@).take(i + 1).drop_last() =~= row_views(rows@).take(i as int));
        if rows[i].len() != 1 {
            proof {
                lemma_only_numbers_fault(row_views(rows@), i + 1);
            }
            return Err(ParseError::Count(i));
        }
        values.push(rows[i][0]);
        i = i + 1;
    }
    assert(row_views(rows@).take(i as int) =~= row_views(rows@));
    Ok(values)
}

/// A fault among the first rows is the fault of all rows.
pub proof fn lemma_only_numbers_fault<T>(rows: Seq<Seq<T>>, some: int)
    requires
        0 <= some <= rows.len(),
        only_numbers(rows.take(some)) is Err,
    ensures
        only_numbers(rows) == only_numbers(rows.take(some)),
    decreases rows.len(),
{
    if some == rows.len() {
        assert(rows.take(some) =~= rows);
    } else {
        assert(rows.drop_last().take(some) =~= rows.take(some));
        lemma_only_numbers_fault(rows.drop_last(), some);
    }
}

/// A fault among the first lines is the fault of all lines.
pub proof fn lemma_signed_rows_fault(regex: Regex, lines: Seq<Seq<char>>, some: int)
    requires
        0 <= some <= lines.len(),
        signed_rows(regex, lines.take(some)) is Err,
    ensures
        signed_rows(regex, lines) == signed_rows(regex, lines.take(some)),
    decreases lines.len(),
{
    if some == lines.len() {
        assert(lines.take(some) =~= lines);
    } else {
        assert(lines.drop_last().take(some) =~= lines.take(some));
        lemma_signed_rows_fault(regex, lines.drop_last(), some);
    }
}

/// A fault among the first lines is the fault of all lines.
pub proof fn lemma_unsigned_rows_fault(regex: Regex, lines: Seq<Seq<char>>, some: int)
    requires
        0 <= some <= lines.len(),
        unsigned_rows(regex, lines.take(some)) is Err,
    ensures
        unsigned_rows(regex, lines) == unsigned_rows(regex, lines.take(some)),
    decreases lines.len(),
{
    if some == lines.len() {
        assert(lines.take(some) =~= lines);
    } else {
        assert(lines.drop_last().take(some) =~= lines.take(some));
        lemma_unsigned_rows_fault(regex, lines.drop_last(), some);
    }
}

/// What the groups of a match hold, the whole match left out, or the index
/// of the first of them that took no part in the match.
pub fn matched_groups(found: &Vec<Option<String>>) -> (made: Result<Vec<String>, usize>)
    ensures
        match made {
            Ok(groups) => fields_of_match(group_texts(found@)) == Ok::<Seq<Seq<char>>, usize>(
                texts(groups@),
            ),
            Err(index) => fields_of_match(group_texts(found@)) == Err::<Seq<Seq<char>>, usize>(
                index,
            ),
        },
{
    let ghost rest = if found@.len() > 0 {
        group_texts(found@).skip(1)
    } else {
        group_texts(found@)
    };
    let mut groups: Vec<String> = Vec::new();
    let mut i: usize = 1;
    assert(rest.take(0) =~= Seq::<Option<Seq<char>>>::empty());
    while i < found.len()
        invariant
            1 <= i,
            found@.len() > 0 ==> i <= found@.len(),
            found@.len() == 0 ==> i == 1,
            rest == if found@.len() > 0 {
                group_texts(found@).skip(1)
            } else {
                group_texts(found@)
            },
            first_missing(rest.take(i - 1)) is None,
            groups@.len() == i - 1,
            forall|k: int| 0 <= k < i - 1 ==> (#[trigger] groups@[k])@ == rest[k]->0,
        decreases found@.len() - i,
    {
        assert(rest.take(i as int).drop_last() =~= rest.take(i - 1));
        assert(rest.take(i as int).last() == group_texts(found@)[i as int]);
        match &found[i] {
            Some(text) => {
                groups.push(text.clone());
            },
            None => {
                proof {
                    lemma_first_missing(rest, i as int);
                }
                return Err(i - 1);
            },
        }
        i = i + 1;
    }
    proof {
        if found@.len() > 0 {
            assert(rest.take(i - 1) =~= rest);
        } else {
            assert(rest.take(0) =~= rest);
        }
        assert(group_texts(found@).len() == found@.len());
        if found@.len() > 0 {
            assert(i == found@.len());
            assert(rest.len() == found@.len() - 1);
        } else {
            assert(rest.len() == 0);
            assert(i == 1);
        }
        assert(rest.len() == groups@.len());
        assert(texts(groups@) =~= Seq::new(rest.len(), |k: int| rest[k]->0));
    }
    Ok(groups)
}

/// A group that is missing among the first groups is missing among all.
pub proof fn lemma_first_missing(groups: Seq<Option<Seq<char>>>, some: int)
    requires
        0 <= some <= groups.len(),
        first_missing(groups.take(some)) is Some,
    ensures
        first_missing(groups) == first_missing(groups.take(some)),
    decreases groups.len(),
{
    if some == groups.len() {
        assert(groups.take(some) =~= groups);
    } else {
        assert(groups.drop_last().take(some) =~= groups.take(some));
        lemma_first_missing(groups.drop_last(), some);
    }
}

/// The parser: a namespace for the functions that read lines.
pub struct Parser {}

impl Parser {
    /// Reads the signed numbers of each line. A line may hold any number
    /// of them, with anything but letters between them.
    pub fn parse_lines_to_integers(lines: Vec<String>) -> (made: Result<
        Vec<Vec<isize>>,
        ParseError,
    >)
        ensures
            compiled(SIGNED_NUMBER@) is None ==> made == Err::<Vec<Vec<isize>>, ParseError>(
                ParseError::Pattern,
            ),
            compiled(SIGNED_NUMBER@) is Some ==> match made {
                Ok(rows) => signed_rows(compiled(SIGNED_NUMBER@)->0, texts(lines@)) == Ok::<
                    Seq<Seq<isize>>,
                    ParseError,
                >(row_views(rows@)),
                Err(fault) => signed_rows(compiled(SIGNED_NUMBER@)->0, texts(lines@)) == Err::<
                    Seq<Seq<isize>>,
                    ParseError,
                >(fault),
            },
    {
        let regex = match compile(SIGNED_NUMBER) {
            Ok(regex) => regex,
            Err(_) => {
                return Err(ParseError::Pattern);
            },
        };
        Self::signed_rows_of(&lines, &regex)
    }

    /// Reads the signed numbers that `regex` finds in each line.
    pub fn signed_rows_of(lines: &Vec<String>, regex: &Regex) -> (made: Result<
        Vec<Vec<isize>>,
        ParseError,
    >)
        ensures
            match made {
                Ok(rows) => signed_rows(*regex, texts(lines@)) == Ok::<Seq<Seq<isize>>, ParseError>(
                    row_views(rows@),
                ),
                Err(fault) => signed_rows(*regex, texts(lines@)) == Err::<
                    Seq<Seq<isize>>,
                    ParseError,
                >(fault),
            },
    {
        let mut rows: Vec<Vec<isize>> = Vec::new();
        let mut i: usize = 0;
        assert(row_views(rows@) =~= Seq::<Seq<isize>>::empty());
        while i < lines.len()
            invariant
                i <= lines@.len(),
                signed_rows(*regex, texts(lines@).take(i as int)) == Ok::<
                    Seq<Seq<isize>>,
                    ParseError,
                >(row_views(rows@)),
            decreases lines@.len() - i,
        {
            let ghost before = row_views(rows@);
            assert(texts(lines@).take(i + 1).drop_last() =~= texts(lines@).take(i as int));
            assert(texts(lines@).take(i + 1).last() == lines@[i as int]@);
            if holds_letter(lines[i].as_str()) {
                proof {
                    lemma_signed_rows_fault(*regex, texts(lines@), i + 1);
                }
                return Err(ParseError::Letter(i));
            }
            let tokens = find_all(regex, lines[i].as_str());
            assert(texts(tokens@) =~= matches_of(*regex, lines@[i as int]@));
            match signed_numbers_of(&tokens) {
                Some(row) => {
                    rows.push(row);
                    assert(row_views(rows@) =~= before.push(row@));
                },
                None => {
                    proof {
                        lemma_signed_rows_fault(*regex, texts(lines@), i + 1);
                    }
                    return Err(ParseError::Number(i));
                },
            }
            i = i + 1;
        }
        assert(texts(lines@).take(i as int) =~= texts(lines@));
        Ok(rows)
    }

    /// Reads the one signed number of each line.
    pub fn parse_lines_to_integer(lines: Vec<String>) -> (made: Result<Vec<isize>, ParseError>)
        ensures
            compiled(SIGNED_NUMBER@) is None ==> made == Err::<Vec<isize>, ParseError>(
                ParseError::Pattern,
            ),
            compiled(SIGNED_NUMBER@) is Some ==> match signed_rows(
                compiled(SIGNED_NUMBER@)->0,
                texts(lines@),
            ) {
                Err(fault) => made == Err::<Vec<isize>, ParseError>(fault),
                Ok(rows) => match made {
                    Ok(numbers) => only_numbers(rows) == Ok::<Seq<isize>, ParseError>(numbers@),
                    Err(fault) => only_numbers(rows) == Err::<Seq<isize>, ParseError>(fault),
                },
            },
    {
        match Self::parse_lines_to_integers(lines) {
            Ok(rows) => only_numbers_of(&rows),
            Err(fault) => Err(fault),
        }
    }

    /// Reads the unsigned numbers of each line. A line may hold any number
    /// of them, with anything but letters between them.
    pub fn parse_lines_to_unsigned_integers(lines: Vec<String>) -> (made: Result<
        Vec<Vec<usize>>,
        ParseError,
    >)
        ensures
            compiled(UNSIGNED_NUMBER@) is None ==> made == Err::<Vec<Vec<usize>>, ParseError>(
                ParseError::Pattern,
            ),
            compiled(UNSIGNED_NUMBER@) is Some ==> match made {
                Ok(rows) => unsigned_rows(compiled(UNSIGNED_NUMBER@)->0, texts(lines@)) == Ok::<
                    Seq<Seq<usize>>,
                    ParseError,
                >(row_views(rows@)),
                Err(fault) => unsigned_rows(compiled(UNSIGNED_NUMBER@)->0, texts(lines@)) == Err::<
                    Seq<Seq<usize>>,
                    ParseError,
                >(fault),
            },
    {
        let regex = match compile(UNSIGNED_NUMBER) {
            Ok(regex) => regex,
            Err(_) => {
                return Err(ParseError::Pattern);
            },
        };
        Self::unsigned_rows_of(&lines, &regex)
    }

    /// Reads the unsigned numbers that `regex` finds in each line.
    pub fn unsigned_rows_of(lines: &Vec<String>, regex: &Regex) -> (made: Result<
        Vec<Vec<usize>>,
        ParseError,
    >)
        ensures
            match made {
                Ok(rows) => unsigned_rows(*regex, texts(lines@)) == Ok::<
                    Seq<Seq<usize>>,
                    ParseError,
                >(row_views(rows@)),
                Err(fault) => unsigned_rows(*regex, texts(lines@)) == Err::<
                    Seq<Seq<usize>>,
                    ParseError,
                >(fault),
            },
    {
        let mut rows: Vec<Vec<usize>> = Vec::new();
        let mut i: usize = 0;
        assert(row_views(rows@) =~= Seq::<Seq<usize>>::empty());
        while i < lines.len()
            invariant
                i <= lines@.len(),
                unsigned_rows(*regex, texts(lines@).take(i as int)) == Ok::<
                    Seq<Seq<usize>>,
                    ParseError,
                >(row_views(rows@)),
            decreases lines@.len() - i,
        {
            let ghost before = row_views(rows@);
            assert(texts(lines@).take(i + 1).drop_last() =~= texts(lines@).take(i as int));
            assert(texts(lines@).take(i + 1).last() == lines@[i as int]@);
            if holds_letter(lines[i].as_str()) {
                proof {
                    lemma_unsigned_rows_fault(*regex, texts(lines@), i + 1);
                }
                return Err(ParseError::Letter(i));
            }
            let tokens = find_all(regex, lines[i].as_str());
            assert(texts(tokens@) =~= matches_of(*regex, lines@[i as int]@));
            match unsigned_numbers_of(&tokens) {
                Some(row) => {
                    rows.push(row);
                    assert(row_views(rows@) =~= before.push(row@));
                },
                None => {
                    proof {
                        lemma_unsigned_rows_fault(*regex, texts(lines@), i + 1);
                    }
                    return Err(ParseError::Number(i));
                },
            }
            i = i + 1;
        }
        assert(texts(lines@).take(i as int) =~= texts(lines@));
        Ok(rows)
    }

    /// Reads the one unsigned number of each line.
    pub fn parse_lines_to_unsigned_integer(lines: Vec<String>) -> (made: Result<
        Vec<usize>,
        ParseError,
    >)
        ensures
            compiled(UNSIGNED_NUMBER@) is None ==> made == Err::<Vec<usize>, ParseError>(
                ParseError::Pattern,
            ),
            compiled(UNSIGNED_NUMBER@) is Some ==> match unsigned_rows(
                compiled(UNSIGNED_NUMBER@)->0,
                texts(lines@),
            ) {
                Err(fault) => made == Err::<Vec<usize>, ParseError>(fault),
                Ok(rows) => match made {
                    Ok(numbers) => only_numbers(rows) == Ok::<Seq<usize>, ParseError>(numbers@),
                    Err(fault) => only_numbers(rows) == Err::<Seq<usize>, ParseError>(fault),
                },
            },
    {
        match Self::parse_lines_to_unsigned_integers(lines) {
            Ok(rows) => only_numbers_of(&rows),
            Err(fault) => Err(fault),
        }
    }

    /// Splits each line into its fields: the line is taken without the
    /// white space at its ends and split at each occurrence of `pattern`,
    /// and each field is taken without the white space at its ends.
    pub fn parse_lines_to_strings(lines: Vec<String>, pattern: &str) -> (made: Result<
        Vec<Vec<String>>,
        ParseError,
    >)
        ensures
            made is Ok,
            made->Ok_0@.len() == lines@.len(),
            forall|i: int|
                0 <= i < lines@.len() ==> texts((#[trigger] made->Ok_0@[i])@) == fields_of(
                    lines@[i]@,
                    pattern@,
                ),
    {
        let parting = chars_of(pattern);
        let mut rows: Vec<Vec<String>> = Vec::new();
        let mut i: usize = 0;
        while i < lines.len()
            invariant
                parting@ == pattern@,
                i <= lines@.len(),
                rows@.len() == i,
                forall|k: int|
                    0 <= k < i ==> texts((#[trigger] rows@[k])@) == fields_of(
                        lines@[k]@,
                        pattern@,
                    ),
            decreases lines@.len() - i,
        {
            let row = Self::fields(lines[i].as_str(), &parting);
            rows.push(row);
            i = i + 1;
        }
        Ok(rows)
    }

    /// The fields of one line.
    fn fields(line: &str, pattern: &Vec<char>) -> (row: Vec<String>)
        ensures
            texts(row@) == fields_of(line@, pattern@),
    {
        let whole = chars_of(line);
        assert(whole@.subrange(0, whole@.len() as int) =~= line@);
        let (from, to) = trim_bounds(&whole, 0, whole.len());
        let mut chars: Vec<char> = Vec::new();
        let mut k: usize = from;
        while k < to
            invariant
                from <= k <= to <= whole@.len(),
                chars@ == whole@.subrange(from as int, k as int),
            decreases to - k,
        {
            chars.push(whole[k]);
            assert(whole@.subrange(from as int, k + 1) =~= whole@.subrange(
                from as int,
                k as int,
            ).push(whole@[k as int]));
            k = k + 1;
        }
        assert(chars@ == trimmed(line@));
        let parts = split_bounds(&chars, pattern);
        let ghost expected = fields_of(line@, pattern@);
        let mut row: Vec<String> = Vec::new();
        let mut j: usize = 0;
        while j < parts.len()
            invariant
                j <= parts@.len(),
                chars@ == trimmed(line@),
                expected == fields_of(line@, pattern@),
                parts@.len() == split_by(chars@, pattern@).len(),
                forall|i: int|
                    0 <= i < parts@.len() ==> {
                        &&& (#[trigger] parts@[i]).0 <= parts@[i].1 <= chars@.len()
                        &&& chars@.subrange(parts@[i].0 as int, parts@[i].1 as int) == split_by(
                            chars@,
                            pattern@,
                        )[i]
                    },
                row@.len() == j,
                forall|i: int| 0 <= i < j ==> (#[trigger] row@[i])@ == expected[i],
            decreases parts@.len() - j,
        {
            let (start, end) = parts[j];
            let (first, last) = trim_bounds(&chars, start, end);
            row.push(string_of(&chars, first, last));
            j = j + 1;
        }
        assert(texts(row@) =~= expected);
        row
    }

    /// Reads each line with the regular expression `regex` and hands what
    /// its groups matched to `func`, which makes a value of them. The line
    /// must match, and each group must have taken part in the match. The
    /// first line that fails ends the reading.
    pub fn parse_lines_with_regex<F, U, E>(lines: Vec<String>, regex: &str, func: F) -> (made:
        Result<Vec<U>, LineError<E>>) where F: Fn(Vec<String>) -> Result<U, E>
        requires
            forall|groups: Vec<String>| call_requires(func, (groups,)),
        ensures
            compiled(regex@) is None ==> made == Err::<Vec<U>, LineError<E>>(LineError::Pattern),
            compiled(regex@) is Some ==> Self::read_with(
                compiled(regex@)->0,
                texts(lines@),
                func,
                made,
            ),
    {
        let expression = match compile(regex) {
            Ok(expression) => expression,
            Err(_) => {
                return Err(LineError::Pattern);
            },
        };
        Self::decode_lines(&lines, &expression, &func)
    }

    /// Whether `made` is what reading the lines with `regex` and `func` may
    /// end in: a value for each line, in the order of the lines, or the
    /// fault of the first line that fails.
    pub open spec fn read_with<F: Fn(Vec<String>) -> Result<U, E>, U, E>(
        regex: Regex,
        lines: Seq<Seq<char>>,
        func: F,
        made: Result<Vec<U>, LineError<E>>,
    ) -> bool {
        match made {
            Ok(values) => {
                &&& values@.len() == lines.len()
                &&& forall|i: int|
                    0 <= i < lines.len() ==> decoded(
                        regex,
                        #[trigger] lines[i],
                        i as usize,
                        func,
                        Ok::<U, LineError<E>>(values@[i]),
                    )
            },
            Err(fault) => exists|failing: int|
                {
                    &&& 0 <= failing < lines.len()
                    &&& decoded(
                        regex,
                        #[trigger] lines[failing],
                        failing as usize,
                        func,
                        Err::<U, LineError<E>>(fault),
                    )
                    &&& forall|i: int|
                        0 <= i < failing ==> decodable::<F, U, E>(
                            regex,
                            #[trigger] lines[i],
                            i as usize,
                            func,
                        )
                },
        }
    }

    /// The fault of a line ends the reading where each line before it gave
    /// a value.
    pub proof fn lemma_read_failed<F: Fn(Vec<String>) -> Result<U, E>, U, E>(
        regex: Regex,
        lines: Seq<Seq<char>>,
        func: F,
        values: Seq<U>,
        failing: int,
        fault: LineError<E>,
    )
        requires
            0 <= failing < lines.len(),
            values.len() == failing,
            forall|k: int|
                0 <= k < failing ==> decoded(
                    regex,
                    #[trigger] lines[k],
                    k as usize,
                    func,
                    Ok::<U, LineError<E>>(values[k]),
                ),
            decoded(regex, lines[failing], failing as usize, func, Err::<U, LineError<E>>(fault)),
        ensures
            Self::read_with(regex, lines, func, Err::<Vec<U>, LineError<E>>(fault)),
    {
        assert forall|i: int| 0 <= i < failing implies decodable::<F, U, E>(
            regex,
            #[trigger] lines[i],
            i as usize,
            func,
        ) by {
            assert(decoded(regex, lines[i], i as usize, func, Ok::<U, LineError<E>>(values[i])));
        }
    }

    /// Reads each line with the compiled expression and the decoder.
    pub fn decode_lines<F, U, E>(lines: &Vec<String>, regex: &Regex, func: &F) -> (made: Result<
        Vec<U>,
        LineError<E>,
    >) where F: Fn(Vec<String>) -> Result<U, E>
        requires
            forall|groups: Vec<String>| call_requires(*func, (groups,)),
        ensures
            Self::read_with(*regex, texts(lines@), *func, made),
    {
        let mut values: Vec<U> = Vec::new();
        let mut i: usize = 0;
        while i < lines.len()
            invariant
                forall|groups: Vec<String>| call_requires(*func, (groups,)),
                i <= lines@.len(),
                values@.len() == i,
                forall|k: int|
                    0 <= k < i ==> decoded(
                        *regex,
                        #[trigger] texts(lines@)[k],
                        k as usize,
                        *func,
                        Ok::<U, LineError<E>>(values@[k]),
                    ),
            decreases lines@.len() - i,
        {
            assert(texts(lines@)[i as int] == lines@[i as int]@);
            let found = match captures(regex, lines[i].as_str()) {
                Some(found) => found,
                None => {
                    assert(decoded(
                        *regex,
                        texts(lines@)[i as int],
                        i,
                        *func,
                        Err::<U, LineError<E>>(LineError::Mismatch(i)),
                    ));
                    proof {
                        Self::lemma_read_failed(
                            *regex,
                            texts(lines@),
                            *func,
                            values@,
                            i as int,
                            LineError::<E>::Mismatch(i),
                        );
                    }
                    return Err(LineError::Mismatch(i));
                },
            };
            let groups = match matched_groups(&found) {
                Ok(groups) => groups,
                Err(group) => {
                    assert(decoded(
                        *regex,
                        texts(lines@)[i as int],
                        i,
                        *func,
                        Err::<U, LineError<E>>(LineError::MissingGroup(i, group)),
                    ));
                    proof {
                        Self::lemma_read_failed(
                            *regex,
                            texts(lines@),
                            *func,
                            values@,
                            i as int,
                            LineError::<E>::MissingGroup(i, group),
                        );
                    }
                    return Err(LineError::MissingGroup(i, group));
                },
            };
            let ghost handed = groups;
            match func(groups) {
                Ok(value) => {
                    assert(texts(handed@) == fields_of_match(group_texts(found@))->Ok_0);
                    assert(decoded(
                        *regex,
                        texts(lines@)[i as int],
                        i,
                        *func,
                        Ok::<U, LineError<E>>(value),
                    ));
                    values.push(value);
                },
                Err(refusal) => {
                    assert(texts(handed@) == fields_of_match(group_texts(found@))->Ok_0);
                    assert(decoded(
                        *regex,
                        texts(lines@)[i as int],
                        i,
                        *func,
                        Err::<U, LineError<E>>(LineError::Decode(refusal)),
                    ));
                    proof {
                        Self::lemma_read_failed(
                            *regex,
                            texts(lines@),
                            *func,
                            values@,
                            i as int,
                            LineError::Decode(refusal),
                        );
                    }
                    return Err(LineError::Decode(refusal));
                },
            }
            i = i + 1;
        }
        Ok(values)
    }

    /// Gathers the lines into groups: a group is a run of lines that are
    /// not empty, and empty lines part the groups.
    pub fn group_lines(lines: Vec<String>) -> (groups: Vec<Vec<String>>)
        ensures
            group_views(groups@) == groups_of(texts(lines@)),
    {
        let mut groups: Vec<Vec<String>> = Vec::new();
        let mut group: Vec<String> = Vec::new();
        let mut i: usize = 0;
        assert(group_views(groups@) =~= Seq::<Seq<Seq<char>>>::empty());
        assert(texts(group@) =~= Seq::<Seq<char>>::empty());
        while i < lines.len()
            invariant
                i <= lines@.len(),
                group_views(groups@) == closed_groups(texts(lines@).take(i as int)),
                texts(group@) == open_group(texts(lines@).take(i as int)),
            decreases lines@.len() - i,
        {
            let ghost closed = group_views(groups@);
            let ghost open = texts(group@);
            assert(texts(lines@).take(i + 1).drop_last() =~= texts(lines@).take(i as int));
            assert(texts(lines@).take(i + 1).last() == lines@[i as int]@);
            if lines[i].as_str().is_empty() {
                if group.len() > 0 {
                    groups.push(group);
                    group = Vec::new();
                    assert(group_views(groups@) =~= closed.push(open));
                }
                assert(texts(group@) =~= Seq::<Seq<char>>::empty());
            } else {
                group.push(lines[i].clone());
                assert(texts(group@) =~= open.push(lines@[i as int]@));
            }
            i = i + 1;
        }
        assert(texts(lines@).take(i as int) =~= texts(lines@));
        if group.len() > 0 {
            let ghost closed = group_views(groups@);
            let ghost open = texts(group@);
            groups.push(group);
            assert(group_views(groups@) =~= closed.push(open));
        }
        groups
    }

    /// Reads the unsigned number that follows the first occurrence of `pat`
    /// in the line, white space around it left out.
    pub fn decode_line_to_unsigned_integer(line: &str, pat: &str) -> (made: Result<
        usize,
        ParseError,
    >)
        ensures
            made == match value_after(line@, pat@) {
                None => Err::<usize, ParseError>(ParseError::NotFound),
                Some(text) => match unsigned_value(text) {
                    Some(value) => Ok::<usize, ParseError>(value as usize),
                    None => Err::<usize, ParseError>(ParseError::NotANumber),
                },
            },
    {
        let chars = chars_of(line);
        match Self::bounds_after(&chars, pat) {
            None => Err(ParseError::NotFound),
            Some((from, to)) => match parse_unsigned(&chars, from, to) {
                Some(value) => Ok(value),
                None => Err(ParseError::NotANumber),
            },
        }
    }

    /// Reads the signed number that follows the first occurrence of `pat` in
    /// the line, white space around it left out.
    pub fn decode_line_to_signed_integer(line: &str, pat: &str) -> (made: Result<
        isize,
        ParseError,
    >)
        ensures
            made == match value_after(line@, pat@) {
                None => Err::<isize, ParseError>(ParseError::NotFound),
                Some(text) => match signed_value(text) {
                    Some(value) => Ok::<isize, ParseError>(value as isize),
                    None => Err::<isize, ParseError>(ParseError::NotANumber),
                },
            },
    {
        let chars = chars_of(line);
        match Self::bounds_after(&chars, pat) {
            None => Err(ParseError::NotFound),
            Some((from, to)) => match parse_signed(&chars, from, to) {
                Some(value) => Ok(value),
                None => Err(ParseError::NotANumber),
            },
        }
    }

    /// Reads what follows the first occurrence of `pat` in the line, white
    /// space around it left out.
    pub fn decode_line_to_string(line: &str, pat: &str) -> (made: Result<String, ParseError>)
        ensures
            value_after(line@, pat@) is None ==> made == Err::<String, ParseError>(
                ParseError::NotFound,
            ),
            value_after(line@, pat@) is Some ==> made is Ok && made->Ok_0@ == value_after(
                line@,
                pat@,
            )->0,
    {
        let chars = chars_of(line);
        match Self::bounds_after(&chars, pat) {
            None => Err(ParseError::NotFound),
            Some((from, to)) => Ok(string_of(&chars, from, to)),
        }
    }

    /// Where what follows the first occurrence of `pat` begins and ends,
    /// white space around it left out.
    fn bounds_after(chars: &Vec<char>, pat: &str) -> (bounds: Option<(usize, usize)>)
        ensures
            match bounds {
                Some((from, to)) => from <= to <= chars@.len() && value_after(chars@, pat@)
                    == Some(chars@.subrange(from as int, to as int)),
                None => value_after(chars@, pat@) is None,
            },
    {
        let pattern = chars_of(pat);
        let length = chars.len();
        proof {
            lemma_first_occurrence(chars@, pattern@, 0);
        }
        match find_from(chars, &pattern, 0) {
            None => None,
            Some(at) => {
                let start = at + pattern.len();
                assert(chars@.skip(start as int) =~= chars@.subrange(
                    start as int,
                    chars@.len() as int,
                ));
                Some(trim_bounds(chars, start, length))
            },
        }
    }

    /// Reads a grid from its rows: line `i` is row `i` and character `j` of
    /// a line is column `j`. No lines at all and an empty first line are
    /// refused. That the lines are equally long is left to the caller.
    pub fn parse_lines_to_grid(lines: Vec<String>) -> (made: Result<Grid, GridError>)
        requires
            lines@.len() <= isize::MAX,
            lines@.len() > 0 ==> lines@[0]@.len() <= isize::MAX,
            lines@.len() > 0 && lines@[0]@.len() > 0 ==> uniform(texts(lines@)),
        ensures
            lines@.len() == 0 ==> made == Err::<Grid, GridError>(GridError::Empty),
            lines@.len() > 0 && lines@[0]@.len() == 0 ==> made == Err::<Grid, GridError>(
                GridError::EmptyFirstRow,
            ),
            lines@.len() > 0 && lines@[0]@.len() > 0 ==> made is Ok && made->Ok_0.wf()
                && made->Ok_0@ == texts(lines@),
    {
        let mut data: Vec<Vec<char>> = Vec::new();
        let mut i: usize = 0;
        while i < lines.len()
            invariant
                i <= lines@.len(),
                data@.len() == i,
                forall|k: int| 0 <= k < i ==> (#[trigger] data@[k])@ == lines@[k]@,
            decreases lines@.len() - i,
        {
            data.push(chars_of(lines[i].as_str()));
            i = i + 1;
        }
        assert(matrix_view(data@) =~= texts(lines@));
        Grid::new(data)
    }

    /// Reads a grid from borrowed rows, as `parse_lines_to_grid` does from
    /// owned ones.
    pub fn parse_lines_to_grid_str(lines: &[&str]) -> (made: Result<Grid, GridError>)
        requires
            lines@.len() <= isize::MAX,
            lines@.len() > 0 ==> lines@[0]@.len() <= isize::MAX,
            lines@.len() > 0 && lines@[0]@.len() > 0 ==> uniform(borrowed_texts(lines@)),
        ensures
            lines@.len() == 0 ==> made == Err::<Grid, GridError>(GridError::Empty),
            lines@.len() > 0 && lines@[0]@.len() == 0 ==> made == Err::<Grid, GridError>(
                GridError::EmptyFirstRow,
            ),
            lines@.len() > 0 && lines@[0]@.len() > 0 ==> made is Ok && made->Ok_0.wf()
                && made->Ok_0@ == borrowed_texts(lines@),
    {
        let mut data: Vec<Vec<char>> = Vec::new();
        let mut i: usize = 0;
        while i < lines.len()
            invariant
                i <= lines@.len(),
                data@.len() == i,
                forall|k: int| 0 <= k < i ==> (#[trigger] data@[k])@ == lines@[k]@,
            decreases lines@.len() - i,
        {
            data.push(chars_of(lines[i]));
            i = i + 1;
        }
        assert(matrix_view(data@) =~= borrowed_texts(lines@));
        Grid::new(data)
    }
}

} // verus!
