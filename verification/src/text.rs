//! Text as sequences of characters: the few things this library needs of
//! strings, and what it takes on trust of the standard library's.

use vstd::prelude::*;

verus! {

/// `String::push` appends the one character to the end of the string and
/// leaves what the string held before as it was.
pub assume_specification[ String::push ](text: &mut String, ch: char)
    ensures
        final(text)@ == old(text)@.push(ch),
;

/// The texts as sequences of characters.
pub open spec fn texts(lines: Seq<String>) -> Seq<Seq<char>> {
    Seq::new(lines.len(), |i: int| lines[i]@)
}

/// The characters of `text`, in order.
pub fn chars_of(text: &str) -> (chars: Vec<char>)
    ensures
        chars@ == text@,
{
    let mut chars: Vec<char> = Vec::new();
    for ch in it: text.chars()
        invariant
            it.seq() == text@,
            chars@ == it.seq().take(it.index() as int),
    {
        chars.push(ch);
        assert(it.seq().take(it.index() + 1) =~= it.seq().take(it.index() as int).push(ch));
    }
    assert(text@.take(text@.len() as int) =~= text@);
    chars
}

/// The text made of the characters of `chars` from place `from` up to, but
/// without, place `to`.
pub fn string_of(chars: &Vec<char>, from: usize, to: usize) -> (text: String)
    requires
        from <= to <= chars@.len(),
    ensures
        text@ == chars@.subrange(from as int, to as int),
{
    let mut text = String::new();
    let mut i: usize = from;
    while i < to
        invariant
            from <= i <= to <= chars@.len(),
            text@ == chars@.subrange(from as int, i as int),
        decreases to - i,
    {
        text.push(chars[i]);
        assert(chars@.subrange(from as int, i + 1) =~= chars@.subrange(from as int, i as int).push(
            chars@[i as int],
        ));
        i = i + 1;
    }
    text
}

/// Whether `char::is_alphabetic` says that the character is a letter.
pub uninterp spec fn is_letter(ch: char) -> bool;

/// `char::is_alphabetic` depends on the character alone: it looks it up in
/// the tables of letters that the standard library holds.
pub assume_specification[ char::is_alphabetic ](ch: char) -> (letter: bool)
    ensures
        letter == is_letter(ch),
;

/// Whether `char::is_whitespace` says that the character is white space.
pub uninterp spec fn is_space(ch: char) -> bool;

/// `char::is_whitespace` depends on the character alone: it looks it up in
/// the table of white space that the standard library holds.
pub assume_specification[ char::is_whitespace ](ch: char) -> (space: bool)
    ensures
        space == is_space(ch),
;

/// The text without the white space at its start and at its end.
pub open spec fn trimmed(text: Seq<char>) -> Seq<char>
    decreases text.len(),
{
    if text.len() == 0 {
        text
    } else if is_space(text.first()) {
        trimmed(text.drop_first())
    } else if is_space(text.last()) {
        trimmed(text.drop_last())
    } else {
        text
    }
}

/// Whether all characters of `text` from place `from` up to, but without,
/// place `to` are white space.
pub open spec fn blank_between(text: Seq<char>, from: int, to: int) -> bool {
    forall|i: int| from <= i < to ==> is_space(#[trigger] text[i])
}

/// Trimming leaves the part between the white space at the start and the
/// white space at the end.
pub proof fn lemma_trimmed(text: Seq<char>, from: int, to: int)
    requires
        0 <= from <= to <= text.len(),
        blank_between(text, 0, from),
        blank_between(text, to, text.len() as int),
        from < to ==> !is_space(text[from]) && !is_space(text[to - 1]),
    ensures
        trimmed(text) == text.subrange(from, to),
    decreases text.len(),
{
    if text.len() == 0 {
        assert(text.subrange(from, to) =~= text);
    } else if is_space(text.first()) {
        let rest = text.drop_first();
        if from == 0 {
            assert(from == to);
            assert forall|i: int| 0 <= i < rest.len() implies is_space(
                #[trigger] rest[i],
            ) by {
                assert(rest[i] == text[i + 1]);
            }
            lemma_trimmed(rest, 0, 0);
            assert(rest.subrange(0, 0) =~= text.subrange(from, to));
        } else {
            assert forall|i: int| 0 <= i < from - 1 implies is_space(#[trigger] rest[i]) by {
                assert(rest[i] == text[i + 1]);
            }
            assert forall|i: int| to - 1 <= i < rest.len() implies is_space(
                #[trigger] rest[i],
            ) by {
                assert(rest[i] == text[i + 1]);
            }
            lemma_trimmed(rest, from - 1, to - 1);
            assert(rest.subrange(from - 1, to - 1) =~= text.subrange(from, to));
        }
    } else if is_space(text.last()) {
        let rest = text.drop_last();
        assert(from == 0);
        if to == text.len() {
            assert(from == to);
        }
        assert(to < text.len());
        lemma_trimmed(rest, from, to);
        assert(rest.subrange(from, to) =~= text.subrange(from, to));
    } else {
        assert(from == 0);
        if to < text.len() {
            assert(is_space(text[text.len() - 1]));
        }
        assert(text.subrange(from, to) =~= text);
    }
}

/// The text without the white space at its start and at its end.
pub fn trim(text: &str) -> (kept: String)
    ensures
        kept@ == trimmed(text@),
{
    let chars = chars_of(text);
    assert(chars@.subrange(0, chars@.len() as int) =~= text@);
    let (from, to) = trim_bounds(&chars, 0, chars.len());
    string_of(&chars, from, to)
}

/// Where the part of `chars` between `start` and `end` begins and ends once
/// the white space at both of its ends is left out.
pub fn trim_bounds(chars: &Vec<char>, start: usize, end: usize) -> (bounds: (usize, usize))
    requires
        start <= end <= chars@.len(),
    ensures
        start <= bounds.0 <= bounds.1 <= end,
        chars@.subrange(bounds.0 as int, bounds.1 as int) == trimmed(
            chars@.subrange(start as int, end as int),
        ),
{
    let mut from: usize = start;
    while from < end && chars[from].is_whitespace()
        invariant
            start <= from <= end <= chars@.len(),
            blank_between(chars@, start as int, from as int),
        decreases end - from,
    {
        from = from + 1;
    }
    let mut to: usize = end;
    while to > from && chars[to - 1].is_whitespace()
        invariant
            from <= to <= end <= chars@.len(),
            blank_between(chars@, to as int, end as int),
        decreases to,
    {
        to = to - 1;
    }
    proof {
        let part = chars@.subrange(start as int, end as int);
        assert forall|i: int| 0 <= i < from - start implies is_space(#[trigger] part[i]) by {
            assert(part[i] == chars@[start + i]);
        }
        assert forall|i: int| to - start <= i < part.len() implies is_space(
            #[trigger] part[i],
        ) by {
            assert(part[i] == chars@[start + i]);
        }
        lemma_trimmed(part, from - start, to - start);
        assert(part.subrange(from - start, to - start) =~= chars@.subrange(
            from as int,
            to as int,
        ));
    }
    (from, to)
}

/// Whether `pattern` stands in `text` at place `at`.
pub open spec fn occurs_at(text: Seq<char>, pattern: Seq<char>, at: int) -> bool {
    &&& 0 <= at
    &&& at + pattern.len() <= text.len()
    &&& text.subrange(at, at + pattern.len()) == pattern
}

/// The first place at or after `from` at which `pattern` stands in `text`,
/// if there is one.
pub open spec fn first_occurrence(text: Seq<char>, pattern: Seq<char>, from: int) -> Option<int>
    decreases text.len() - from,
{
    if from < 0 || from + pattern.len() > text.len() {
        None
    } else if occurs_at(text, pattern, from) {
        Some(from)
    } else if from < text.len() {
        first_occurrence(text, pattern, from + 1)
    } else {
        None
    }
}

/// The first occurrence is an occurrence, and there is none before it; where
/// there is no first occurrence, there is none at all.
pub proof fn lemma_first_occurrence(text: Seq<char>, pattern: Seq<char>, from: int)
    requires
        0 <= from,
    ensures
        match first_occurrence(text, pattern, from) {
            Some(at) => {
                &&& from <= at
                &&& occurs_at(text, pattern, at)
                &&& forall|earlier: int| from <= earlier < at ==> !occurs_at(text, pattern, earlier)
            },
            None => forall|at: int| from <= at ==> !occurs_at(text, pattern, at),
        },
    decreases text.len() - from,
{
    if from + pattern.len() <= text.len() && !occurs_at(text, pattern, from) {
        if from < text.len() {
            lemma_first_occurrence(text, pattern, from + 1);
        } else {
            assert(text.subrange(from, from + pattern.len()) =~= pattern);
        }
    }
}

/// The parts of `text` between the occurrences of `pattern`, found one after
/// another from place `from` on, each search starting behind the occurrence
/// found before.
pub open spec fn split_from(text: Seq<char>, pattern: Seq<char>, from: int) -> Seq<Seq<char>>
    decreases text.len() - from,
{
    match first_occurrence(text, pattern, from) {
        Some(at) if from <= at && at + pattern.len() <= text.len() && pattern.len() > 0 => seq![
            text.subrange(from, at),
        ] + split_from(text, pattern, at + pattern.len()),
        _ => seq![text.subrange(from, text.len() as int)],
    }
}

/// The parts into which the occurrences of `pattern` split `text`. The
/// occurrences are taken from left to right and do not overlap. A text in
/// which the pattern does not occur is its own single part. The empty
/// pattern occurs before each character and at the end: it splits off an
/// empty part at both ends and each character as a part of its own.
pub open spec fn split_by(text: Seq<char>, pattern: Seq<char>) -> Seq<Seq<char>> {
    if pattern.len() == 0 {
        seq![Seq::<char>::empty()] + Seq::new(text.len(), |i: int| seq![text[i]]) + seq![
            Seq::<char>::empty(),
        ]
    } else {
        split_from(text, pattern, 0)
    }
}

/// Whether `pattern` stands in `text` at place `at`.
pub fn stands_at(text: &Vec<char>, pattern: &Vec<char>, at: usize) -> (stands: bool)
    ensures
        stands == occurs_at(text@, pattern@, at as int),
{
    if pattern.len() > text.len() || at > text.len() - pattern.len() {
        return false;
    }
    let mut i: usize = 0;
    while i < pattern.len()
        invariant
            i <= pattern@.len(),
            at + pattern@.len() <= text@.len() <= usize::MAX,
            forall|k: int| 0 <= k < i ==> text@[at + k] == pattern@[k],
        decreases pattern@.len() - i,
    {
        if text[at + i] != pattern[i] {
            assert(text@.subrange(at as int, at + pattern@.len())[i as int] != pattern@[i as int]);
            return false;
        }
        i = i + 1;
    }
    assert(text@.subrange(at as int, at + pattern@.len()) =~= pattern@);
    true
}

/// The first place at or after `from` at which `pattern` stands in `text`.
pub fn find_from(text: &Vec<char>, pattern: &Vec<char>, from: usize) -> (found: Option<usize>)
    ensures
        match found {
            Some(at) => first_occurrence(text@, pattern@, from as int) == Some(at as int),
            None => first_occurrence(text@, pattern@, from as int) is None,
        },
{
    if pattern.len() > text.len() {
        return None;
    }
    let last = text.len() - pattern.len();
    if from > last {
        return None;
    }
    let mut at: usize = from;
    loop
        invariant
            from <= at <= last,
            last == text@.len() - pattern@.len(),
            first_occurrence(text@, pattern@, from as int) == first_occurrence(
                text@,
                pattern@,
                at as int,
            ),
        decreases last - at,
    {
        if stands_at(text, pattern, at) {
            return Some(at);
        }
        if at == last {
            proof {
                if at < text@.len() {
                    assert(first_occurrence(text@, pattern@, at + 1) is None);
                }
            }
            return None;
        }
        at = at + 1;
    }
}

/// Where the parts begin and end into which the occurrences of `pattern`
/// split `text`.
pub fn split_bounds(text: &Vec<char>, pattern: &Vec<char>) -> (parts: Vec<(usize, usize)>)
    ensures
        parts@.len() == split_by(text@, pattern@).len(),
        forall|i: int|
            0 <= i < parts@.len() ==> {
                &&& (#[trigger] parts@[i]).0 <= parts@[i].1 <= text@.len()
                &&& text@.subrange(parts@[i].0 as int, parts@[i].1 as int) == split_by(
                    text@,
                    pattern@,
                )[i]
            },
{
    let mut parts: Vec<(usize, usize)> = Vec::new();
    if pattern.len() == 0 {
        parts.push((0, 0));
        let mut i: usize = 0;
        while i < text.len()
            invariant
                pattern@.len() == 0,
                i <= text@.len(),
                parts@.len() == i + 1,
                parts@[0] == (0usize, 0usize),
                forall|k: int| 1 <= k <= i ==> #[trigger] parts@[k] == ((k - 1) as usize, k as usize),
            decreases text@.len() - i,
        {
            parts.push((i, i + 1));
            i = i + 1;
        }
        parts.push((text.len(), text.len()));
        proof {
            let expected = split_by(text@, pattern@);
            assert(parts@.len() == expected.len());
            assert forall|k: int| 0 <= k < parts@.len() implies {
                &&& (#[trigger] parts@[k]).0 <= parts@[k].1 <= text@.len()
                &&& text@.subrange(parts@[k].0 as int, parts@[k].1 as int) == expected[k]
            } by {
                assert(text@.subrange(parts@[k].0 as int, parts@[k].1 as int) =~= expected[k]);
            }
        }
        return parts;
    }
    let length = text.len();
    let mut from: usize = 0;
    loop
        invariant_except_break
            split_by(text@, pattern@) == Seq::new(
                parts@.len(),
                |i: int| text@.subrange(parts@[i].0 as int, parts@[i].1 as int),
            ) + split_from(text@, pattern@, from as int),
        invariant
            pattern@.len() > 0,
            from <= text@.len() == length,
            forall|i: int|
                0 <= i < parts@.len() ==> (#[trigger] parts@[i]).0 <= parts@[i].1 <= text@.len(),
        ensures
            split_by(text@, pattern@) == Seq::new(
                parts@.len(),
                |i: int| text@.subrange(parts@[i].0 as int, parts@[i].1 as int),
            ),
            forall|i: int| 0 <= i < parts@.len() ==> (#[trigger] parts@[i]).0 <= parts@[i].1 <= text@.len(),
        decreases text@.len() - from,
    {
        let ghost before = Seq::new(
            parts@.len(),
            |i: int| text@.subrange(parts@[i].0 as int, parts@[i].1 as int),
        );
        proof {
            lemma_first_occurrence(text@, pattern@, from as int);
        }
        match find_from(text, pattern, from) {
            Some(at) => {
                parts.push((from, at));
                let ghost after = Seq::new(
                    parts@.len(),
                    |i: int| text@.subrange(parts@[i].0 as int, parts@[i].1 as int),
                );
                assert(after =~= before + seq![text@.subrange(from as int, at as int)]);
                from = at + pattern.len();
            },
            None => {
                parts.push((from, length));
                let ghost after = Seq::new(
                    parts@.len(),
                    |i: int| text@.subrange(parts@[i].0 as int, parts@[i].1 as int),
                );
                assert(after =~= before + seq![text@.subrange(from as int, text@.len() as int)]);
                break;
            },
        }
    }
    proof {
        let expected = split_by(text@, pattern@);
        assert forall|k: int| 0 <= k < parts@.len() implies text@.subrange(
            (#[trigger] parts@[k]).0 as int,
            parts@[k].1 as int,
        ) == expected[k] by {}
    }
    parts
}

/// Whether the character is one of the ten decimal digits.
pub open spec fn is_digit(ch: char) -> bool {
    '0' <= ch <= '9'
}

/// Whether the text is made of decimal digits, and of one at least.
pub open spec fn all_digits(text: Seq<char>) -> bool {
    &&& text.len() > 0
    &&& forall|i: int| 0 <= i < text.len() ==> is_digit(#[trigger] text[i])
}

/// The number that the decimal digits write.
pub open spec fn digits_value(digits: Seq<char>) -> int
    decreases digits.len(),
{
    if digits.len() == 0 {
        0
    } else {
        digits_value(digits.drop_last()) * 10 + (digits.last() as int - '0' as int)
    }
}

/// The number that the text writes in the way of an unsigned machine
/// integer: decimal digits, with `+` before them or not. A text of another
/// form writes none, and neither does a number that is too large.
pub open spec fn unsigned_value(text: Seq<char>) -> Option<int> {
    let digits = if text.len() > 0 && text[0] == '+' {
        text.drop_first()
    } else {
        text
    };
    if all_digits(digits) && digits_value(digits) <= usize::MAX {
        Some(digits_value(digits))
    } else {
        None
    }
}

/// The number that the text writes in the way of a signed machine integer:
/// decimal digits, with `+` or `-` before them or not. A text of another
/// form writes none, and neither does a number that is too large or too
/// small.
pub open spec fn signed_value(text: Seq<char>) -> Option<int> {
    let signed = text.len() > 0 && (text[0] == '+' || text[0] == '-');
    let digits = if signed {
        text.drop_first()
    } else {
        text
    };
    let value = if signed && text[0] == '-' {
        -digits_value(digits)
    } else {
        digits_value(digits)
    };
    if all_digits(digits) && isize::MIN <= value <= isize::MAX {
        Some(value)
    } else {
        None
    }
}

/// Digits written behind a number never make it smaller.
pub proof fn lemma_digits_value_grows(digits: Seq<char>, shorter: int)
    requires
        0 <= shorter <= digits.len(),
        forall|i: int| 0 <= i < digits.len() ==> is_digit(#[trigger] digits[i]),
    ensures
        0 <= digits_value(digits.take(shorter)) <= digits_value(digits),
    decreases digits.len(),
{
    if digits.len() == 0 {
        assert(digits.take(shorter) =~= digits);
    } else if shorter == digits.len() {
        assert(digits.take(shorter) =~= digits);
        lemma_digits_value_grows(digits.drop_last(), shorter - 1);
        assert(is_digit(digits[digits.len() - 1]));
    } else {
        lemma_digits_value_grows(digits.drop_last(), shorter);
        assert(digits.drop_last().take(shorter) =~= digits.take(shorter));
        assert(is_digit(digits[digits.len() - 1]));
    }
}

/// The number that the characters of `text` from place `from` up to, but
/// without, place `to` write, if they are decimal digits, one at least, and
/// the number fits.
pub fn number_of_digits(text: &Vec<char>, from: usize, to: usize) -> (number: Option<usize>)
    requires
        from <= to <= text@.len(),
    ensures
        number is Some <==> all_digits(text@.subrange(from as int, to as int)) && digits_value(
            text@.subrange(from as int, to as int),
        ) <= usize::MAX,
        number is Some ==> number->0 == digits_value(text@.subrange(from as int, to as int)),
{
    let ghost digits = text@.subrange(from as int, to as int);
    if from == to {
        return None;
    }
    let mut value: usize = 0;
    let mut i: usize = from;
    while i < to
        invariant
            from <= i <= to <= text@.len(),
            digits == text@.subrange(from as int, to as int),
            forall|k: int| 0 <= k < i - from ==> is_digit(#[trigger] digits[k]),
            value == digits_value(digits.take(i - from)),
        decreases to - i,
    {
        let ch = text[i];
        assert(digits[i - from] == ch);
        if ch < '0' || ch > '9' {
            return None;
        }
        let digit = (ch as u32 - '0' as u32) as usize;
        proof {
            assert(digits.take(i - from + 1).drop_last() =~= digits.take(i - from));
            assert(digits_value(digits.take(i - from + 1)) == value * 10 + digit);
            if forall|k: int| 0 <= k < digits.len() ==> is_digit(#[trigger] digits[k]) {
                lemma_digits_value_grows(digits, i - from + 1);
            }
        }
        let tenfold = match value.checked_mul(10) {
            Some(tenfold) => tenfold,
            None => {
                return None;
            },
        };
        value = match tenfold.checked_add(digit) {
            Some(sum) => sum,
            None => {
                return None;
            },
        };
        i = i + 1;
    }
    assert(digits.take(to - from) =~= digits);
    Some(value)
}

/// The unsigned number that the characters of `text` from place `from` up
/// to, but without, place `to` write.
pub fn parse_unsigned(text: &Vec<char>, from: usize, to: usize) -> (number: Option<usize>)
    requires
        from <= to <= text@.len(),
    ensures
        match number {
            Some(value) => unsigned_value(text@.subrange(from as int, to as int)) == Some(
                value as int,
            ),
            None => unsigned_value(text@.subrange(from as int, to as int)) is None,
        },
{
    let ghost part = text@.subrange(from as int, to as int);
    if from < to && text[from] == '+' {
        assert(part[0] == '+');
        assert(part.drop_first() =~= text@.subrange(from + 1, to as int));
        number_of_digits(text, from + 1, to)
    } else {
        if from < to {
            assert(part[0] == text@[from as int]);
        }
        number_of_digits(text, from, to)
    }
}

/// The signed number that the characters of `text` from place `from` up to,
/// but without, place `to` write.
pub fn parse_signed(text: &Vec<char>, from: usize, to: usize) -> (number: Option<isize>)
    requires
        from <= to <= text@.len(),
    ensures
        match number {
            Some(value) => signed_value(text@.subrange(from as int, to as int)) == Some(
                value as int,
            ),
            None => signed_value(text@.subrange(from as int, to as int)) is None,
        },
{
    let ghost part = text@.subrange(from as int, to as int);
    let negative = from < to && text[from] == '-';
    let signed = from < to && (text[from] == '+' || text[from] == '-');
    if from < to {
        assert(part[0] == text@[from as int]);
    }
    let start = if signed {
        assert(part.drop_first() =~= text@.subrange(from + 1, to as int));
        from + 1
    } else {
        from
    };
    match number_of_digits(text, start, to) {
        Some(size) => {
            if negative {
                if size <= isize::MAX as usize {
                    Some(-(size as isize))
                } else if size == isize::MAX as usize + 1 {
                    Some(isize::MIN)
                } else {
                    None
                }
            } else {
                if size <= isize::MAX as usize {
                    Some(size as isize)
                } else {
                    None
                }
            }
        },
        None => {
            proof {
                let digits = text@.subrange(start as int, to as int);
                if all_digits(digits) {
                    assert(digits_value(digits) > usize::MAX);
                }
            }
            None
        },
    }
}

} // verus!
