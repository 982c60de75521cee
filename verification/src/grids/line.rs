//! Shifting and rotating a line of characters: what the row and column
//! operations of the grid do to the one line they touch.
//!
//! A shift moves the content and fills the vacated end with a default
//! character, so what leaves the line is lost. A rotation wraps around and
//! loses nothing.

use vstd::prelude::*;
use vstd::arithmetic::div_mod::lemma_add_mod_noop_right;
use vstd::arithmetic::div_mod::lemma_fundamental_div_mod_converse;
use vstd::arithmetic::div_mod::lemma_mod_bound;
use vstd::arithmetic::div_mod::lemma_small_mod;
use vstd::arithmetic::div_mod::lemma_sub_mod_noop;
use vstd::arithmetic::div_mod::lemma_sub_mod_noop_right;
use vstd::seq_lib::lemma_seq_union_to_multiset_commutative;

verus! {

/// The line moved by `shuffle` places towards its start. The first `shuffle`
/// characters are lost and the last `shuffle` places hold `default`.
pub open spec fn shifted_left(line: Seq<char>, shuffle: int, default: char) -> Seq<char> {
    Seq::new(
        line.len(),
        |i: int|
            if i + shuffle < line.len() {
                line[i + shuffle]
            } else {
                default
            },
    )
}

/// The line moved by `shuffle` places towards its end. The last `shuffle`
/// characters are lost and the first `shuffle` places hold `default`.
pub open spec fn shifted_right(line: Seq<char>, shuffle: int, default: char) -> Seq<char> {
    Seq::new(
        line.len(),
        |i: int|
            if shuffle <= i {
                line[i - shuffle]
            } else {
                default
            },
    )
}

/// The line turned by `shuffle` places towards its start: what stood at
/// place `(i + shuffle) mod length` stands at place `i`.
pub open spec fn rotated_left(line: Seq<char>, shuffle: int) -> Seq<char> {
    Seq::new(line.len(), |i: int| line[(i + shuffle) % (line.len() as int)])
}

/// The line turned by `shuffle` places towards its end: what stood at place
/// `i` stands at place `(i + shuffle) mod length`.
pub open spec fn rotated_right(line: Seq<char>, shuffle: int) -> Seq<char> {
    Seq::new(line.len(), |i: int| line[(i - shuffle) % (line.len() as int)])
}

/// Going `shuffle` places forward around a ring of `length` places and
/// then `shuffle` places back, or the other way round, ends at the place
/// where one started.
pub proof fn lemma_ring_round_trip(i: int, shuffle: int, length: int)
    requires
        0 <= i < length,
    ensures
        0 <= (i + shuffle) % length < length,
        0 <= (i - shuffle) % length < length,
        ((i + shuffle) % length - shuffle) % length == i,
        ((i - shuffle) % length + shuffle) % length == i,
{
    let forth = (i + shuffle) % length;
    let back = (i - shuffle) % length;
    lemma_small_mod(i as nat, length as nat);
    lemma_sub_mod_noop(i + shuffle, shuffle, length);
    lemma_sub_mod_noop_right(forth, shuffle, length);
    lemma_sub_mod_noop(shuffle, i - shuffle, length);
    assert((back - (-shuffle)) % length == i) by {
        lemma_sub_mod_noop(i - shuffle, -shuffle, length);
        lemma_sub_mod_noop_right(back, -shuffle, length);
    }
}

/// Rotation is a permutation of the places: turning a line left and then
/// right by the same amount restores it exactly.
pub proof fn lemma_rotate_left_then_right(line: Seq<char>, shuffle: int)
    ensures
        rotated_right(rotated_left(line, shuffle), shuffle) == line,
{
    let length = line.len() as int;
    let back = rotated_right(rotated_left(line, shuffle), shuffle);
    assert forall|i: int| 0 <= i < length implies back[i] == line[i] by {
        lemma_ring_round_trip(i, shuffle, length);
    }
    assert(back =~= line);
}

/// Turning a line right and then left by the same amount restores it
/// exactly.
pub proof fn lemma_rotate_right_then_left(line: Seq<char>, shuffle: int)
    ensures
        rotated_left(rotated_right(line, shuffle), shuffle) == line,
{
    let length = line.len() as int;
    let back = rotated_left(rotated_right(line, shuffle), shuffle);
    assert forall|i: int| 0 <= i < length implies back[i] == line[i] by {
        lemma_ring_round_trip(i, shuffle, length);
    }
    assert(back =~= line);
}

/// A rotation by a multiple of the length of the line changes nothing.
pub proof fn lemma_rotate_by_multiple(line: Seq<char>, shuffle: int)
    requires
        line.len() > 0,
        shuffle % (line.len() as int) == 0,
    ensures
        rotated_left(line, shuffle) == line,
        rotated_right(line, shuffle) == line,
{
    let length = line.len() as int;
    let left = rotated_left(line, shuffle);
    let right = rotated_right(line, shuffle);
    assert forall|i: int| 0 <= i < length implies left[i] == line[i] && right[i] == line[i] by {
        lemma_small_mod(i as nat, length as nat);
        lemma_add_mod_noop_right(i, shuffle, length);
        lemma_sub_mod_noop_right(i, shuffle, length);
    }
    assert(left =~= line);
    assert(right =~= line);
}

/// Only the remainder of the amount by the length of the line matters to a
/// rotation.
pub proof fn lemma_rotate_by_remainder(line: Seq<char>, shuffle: int)
    requires
        line.len() > 0,
    ensures
        rotated_left(line, shuffle) == rotated_left(line, shuffle % (line.len() as int)),
        rotated_right(line, shuffle) == rotated_right(line, shuffle % (line.len() as int)),
{
    let length = line.len() as int;
    let left = rotated_left(line, shuffle);
    let right = rotated_right(line, shuffle);
    let left_short = rotated_left(line, shuffle % length);
    let right_short = rotated_right(line, shuffle % length);
    assert forall|i: int| 0 <= i < length implies left[i] == left_short[i] && right[i]
        == right_short[i] by {
        lemma_add_mod_noop_right(i, shuffle, length);
        lemma_sub_mod_noop_right(i, shuffle, length);
    }
    assert(left =~= left_short);
    assert(right =~= right_short);
}

/// A turn to the left cuts the line behind its first characters, as many as
/// the amount leaves when divided by the length, and puts what was cut off
/// behind the rest. A turn to the right cuts off as many at the end and puts
/// them before the rest.
pub proof fn lemma_rotate_cuts(line: Seq<char>, shuffle: int)
    requires
        line.len() > 0,
    ensures
        0 <= shuffle % (line.len() as int) < line.len(),
        rotated_left(line, shuffle) == line.skip(shuffle % (line.len() as int)) + line.take(
            shuffle % (line.len() as int),
        ),
        rotated_right(line, shuffle) == line.skip(line.len() - shuffle % (line.len() as int))
            + line.take(line.len() - shuffle % (line.len() as int)),
{
    let length = line.len() as int;
    let turn = shuffle % length;
    lemma_mod_bound(shuffle, length);
    let left = rotated_left(line, shuffle);
    let left_cut = line.skip(turn) + line.take(turn);
    let right = rotated_right(line, shuffle);
    let right_cut = line.skip(length - turn) + line.take(length - turn);
    assert forall|i: int| 0 <= i < length implies left[i] == left_cut[i] && right[i]
        == right_cut[i] by {
        lemma_add_mod_noop_right(i, shuffle, length);
        lemma_sub_mod_noop_right(i, shuffle, length);
        if i + turn < length {
            lemma_small_mod((i + turn) as nat, length as nat);
        } else {
            lemma_fundamental_div_mod_converse(i + turn, length, 1, i + turn - length);
        }
        if i - turn >= 0 {
            lemma_small_mod((i - turn) as nat, length as nat);
        } else {
            lemma_fundamental_div_mod_converse(i - turn, length, -1, i - turn + length);
        }
    }
    assert(left =~= left_cut);
    assert(right =~= right_cut);
}

/// A rotation loses nothing and adds nothing: the turned line holds each
/// character as many times as the line did.
pub proof fn lemma_rotation_keeps_characters(line: Seq<char>, shuffle: int)
    ensures
        rotated_left(line, shuffle).to_multiset() == line.to_multiset(),
        rotated_right(line, shuffle).to_multiset() == line.to_multiset(),
{
    if line.len() == 0 {
        assert(rotated_left(line, shuffle) =~= line);
        assert(rotated_right(line, shuffle) =~= line);
    } else {
        let length = line.len() as int;
        let turn = shuffle % length;
        lemma_rotate_cuts(line, shuffle);
        lemma_seq_union_to_multiset_commutative(line.take(turn), line.skip(turn));
        assert(line.take(turn) + line.skip(turn) =~= line);
        lemma_seq_union_to_multiset_commutative(
            line.take(length - turn),
            line.skip(length - turn),
        );
        assert(line.take(length - turn) + line.skip(length - turn) =~= line);
    }
}

/// Two rotations to the same side add up.
pub proof fn lemma_rotate_twice(line: Seq<char>, first: int, second: int)
    ensures
        rotated_left(rotated_left(line, first), second) == rotated_left(line, first + second),
        rotated_right(rotated_right(line, first), second) == rotated_right(line, first + second),
{
    let length = line.len() as int;
    let left = rotated_left(rotated_left(line, first), second);
    let right = rotated_right(rotated_right(line, first), second);
    let left_once = rotated_left(line, first + second);
    let right_once = rotated_right(line, first + second);
    assert forall|i: int| 0 <= i < length implies left[i] == left_once[i] && right[i]
        == right_once[i] by {
        lemma_ring_round_trip(i, second, length);
        lemma_sub_mod_noop(i + second, -first, length);
        lemma_sub_mod_noop_right((i + second) % length, -first, length);
        lemma_sub_mod_noop_right(i + second, -first, length);
        lemma_sub_mod_noop(i - second, first, length);
        lemma_sub_mod_noop_right((i - second) % length, first, length);
        lemma_sub_mod_noop_right(i - second, first, length);
    }
    assert(left =~= left_once);
    assert(right =~= right_once);
}

/// A shift by no places changes nothing, and a shift by the length of the
/// line or more leaves nothing but the default character.
pub proof fn lemma_shift_bounds(line: Seq<char>, shuffle: int, default: char)
    requires
        0 <= shuffle,
    ensures
        shuffle == 0 ==> shifted_left(line, shuffle, default) == line && shifted_right(
            line,
            shuffle,
            default,
        ) == line,
        shuffle >= line.len() ==> shifted_left(line, shuffle, default) == Seq::new(
            line.len(),
            |i: int| default,
        ) && shifted_right(line, shuffle, default) == Seq::new(line.len(), |i: int| default),
{
    if shuffle == 0 {
        assert(shifted_left(line, shuffle, default) =~= line);
        assert(shifted_right(line, shuffle, default) =~= line);
    }
    if shuffle >= line.len() {
        assert(shifted_left(line, shuffle, default) =~= Seq::new(line.len(), |i: int| default));
        assert(shifted_right(line, shuffle, default) =~= Seq::new(line.len(), |i: int| default));
    }
}

/// Two shifts to the same side with the same default character add up.
pub proof fn lemma_shift_twice(line: Seq<char>, first: int, second: int, default: char)
    requires
        0 <= first,
        0 <= second,
    ensures
        shifted_left(shifted_left(line, first, default), second, default) == shifted_left(
            line,
            first + second,
            default,
        ),
        shifted_right(shifted_right(line, first, default), second, default) == shifted_right(
            line,
            first + second,
            default,
        ),
{
    assert(shifted_left(shifted_left(line, first, default), second, default) =~= shifted_left(
        line,
        first + second,
        default,
    ));
    assert(shifted_right(shifted_right(line, first, default), second, default) =~= shifted_right(
        line,
        first + second,
        default,
    ));
}

} // verus!
