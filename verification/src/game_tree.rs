//! The 13x13 grid of canonical starting hands ("buckets").

use vstd::prelude::*;

use crate::cards::{rank_char_at, rank_index_of, rank_index};
use crate::text::{chars_of, push_char};

verus! {

/// Number of canonical preflop hands (13x13 grid).
pub const NUM_HANDS: usize = 169;

/// Grid row/column `g` holds rank A, K, Q, ... 2 for g = 0, 1, ... 12.
pub open spec fn grid_char(g: int) -> char {
    rank_char_at(12 - g)
}

/// Grid position of a rank character.
pub open spec fn grid_pos(c: char) -> Option<int> {
    match rank_index_of(c) {
        Some(i) => Some(12 - i),
        None => None,
    }
}

fn grid_pos_exec(c: char) -> (r: Option<usize>)
    ensures
        r matches Some(g) ==> grid_pos(c) == Some(g as int),
        r is None ==> grid_pos(c) is None,
{
    match rank_index(c) {
        Some(i) => Some(12 - i),
        None => None,
    }
}

pub(crate) fn grid_char_exec(g: usize) -> (c: char)
    requires
        g < 13,
    ensures
        c == grid_char(g as int),
{
    let chars = ['A', 'K', 'Q', 'J', 'T', '9', '8', '7', '6', '5', '4', '3', '2'];
    chars[g]
}

/// The bucket of a hand notation such as "AA", "AKs" or "72o".
pub open spec fn bucket_of(t: Seq<char>) -> Option<int> {
    if t.len() < 2 || grid_pos(t[0]) is None || grid_pos(t[1]) is None {
        None
    } else {
        let r1 = grid_pos(t[0])->0;
        let r2 = grid_pos(t[1])->0;
        if t.len() == 2 && t[0] == t[1] {
            Some(r1 * 13 + r1)
        } else if t.len() == 3 && t[2] == 's' {
            Some(if r1 <= r2 { r1 * 13 + r2 } else { r2 * 13 + r1 })
        } else if t.len() == 3 && t[2] == 'o' {
            Some(if r1 >= r2 { r1 * 13 + r2 } else { r2 * 13 + r1 })
        } else {
            None
        }
    }
}

/// The notation of bucket `b`: pairs on the diagonal, suited above it, offsuit below.
pub open spec fn bucket_text(b: int) -> Seq<char> {
    let row = b / 13;
    let col = b % 13;
    if row == col {
        seq![grid_char(row), grid_char(col)]
    } else if row < col {
        seq![grid_char(row), grid_char(col), 's']
    } else {
        seq![grid_char(col), grid_char(row), 'o']
    }
}

/// Maps a canonical hand notation ("AA", "AKs", "72o") to its bucket (0-168).
pub fn hand_to_bucket(notation: &str) -> (r: Option<usize>)
    ensures
        r matches Some(b) ==> bucket_of(notation@) == Some(b as int),
        r is None ==> bucket_of(notation@) is None,
{
    let chars = chars_of(notation);
    bucket_of_chars(&chars)
}

pub fn bucket_of_chars(chars: &Vec<char>) -> (r: Option<usize>)
    ensures
        r matches Some(b) ==> bucket_of(chars@) == Some(b as int),
        r is None ==> bucket_of(chars@) is None,
{
    if chars.len() < 2 {
        return None;
    }
    let r1 = grid_pos_exec(chars[0])?;
    let r2 = grid_pos_exec(chars[1])?;
    if chars.len() == 2 && chars[0] == chars[1] {
        return Some(r1 * 13 + r1);
    }
    if chars.len() == 3 {
        if chars[2] == 's' {
            let (row, col) = if r1 <= r2 { (r1, r2) } else { (r2, r1) };
            Some(row * 13 + col)
        } else if chars[2] == 'o' {
            let (row, col) = if r1 >= r2 { (r1, r2) } else { (r2, r1) };
            Some(row * 13 + col)
        } else {
            None
        }
    } else {
        None
    }
}

/// The canonical notation of a bucket (0-168).
pub fn bucket_to_hand(bucket: usize) -> (s: String)
    requires
        bucket < 169,
    ensures
        s@ == bucket_text(bucket as int),
{
    let row = bucket / 13;
    let col = bucket % 13;
    let mut s = String::new();
    if row == col {
        push_char(&mut s, grid_char_exec(row));
        push_char(&mut s, grid_char_exec(col));
    } else if row < col {
        push_char(&mut s, grid_char_exec(row));
        push_char(&mut s, grid_char_exec(col));
        push_char(&mut s, 's');
    } else {
        push_char(&mut s, grid_char_exec(col));
        push_char(&mut s, grid_char_exec(row));
        push_char(&mut s, 'o');
    }
    s
}

proof fn lemma_grid_pos_char(g: int)
    requires
        0 <= g < 13,
    ensures
        grid_pos(grid_char(g)) == Some(g),
{
}

/// Every bucket's notation maps back to the bucket.
pub proof fn law_bucket_roundtrip(b: int)
    requires
        0 <= b < 169,
    ensures
        bucket_of(bucket_text(b)) == Some(b),
{
    lemma_grid_pos_char(b / 13);
    lemma_grid_pos_char(b % 13);
}

/// Distinct buckets have distinct notations.
pub proof fn law_bucket_text_injective(b1: int, b2: int)
    requires
        0 <= b1 < 169,
        0 <= b2 < 169,
        bucket_text(b1) == bucket_text(b2),
    ensures
        b1 == b2,
{
    law_bucket_roundtrip(b1);
    law_bucket_roundtrip(b2);
}

} // verus!
