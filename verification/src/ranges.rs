//! Range notation ("TT+", "ATs-AKs"), combo counting and blockers.

use vstd::prelude::*;

use crate::cards::{Card, hand_combos, combos_spec, four_char_split_inside, rank_index, rank_char_at, rank_index_of};
use crate::error::GtoError;
use crate::game_tree::{bucket_of, bucket_text, bucket_of_chars, law_bucket_roundtrip};
use vstd::string::StringExecFns;
use crate::text::{chars_of, string_of, trim, trim_chars, without, remove_char, utf8_len, char_byte_len};

verus! {

/// Number of card combinations of a hand class: pair 6, suited 4, offsuit 12, else 0.
pub open spec fn combo_count_of(t: Seq<char>) -> int {
    if t.len() == 2 && t[0] == t[1] {
        6
    } else if t.len() == 3 && t[2] == 's' {
        4
    } else if t.len() == 3 && t[2] == 'o' {
        12
    } else {
        0
    }
}

pub fn combo_count_chars(chars: &Vec<char>) -> (n: u32)
    ensures
        n == combo_count_of(chars@),
{
    if chars.len() == 2 && chars[0] == chars[1] {
        return 6;
    }
    if chars.len() == 3 {
        if chars[2] == 's' {
            return 4;
        }
        if chars[2] == 'o' {
            return 12;
        }
    }
    0
}

/// Number of card combinations of a hand class such as "AA" (6), "AKs" (4) or "AKo" (12).
pub fn combo_count(notation: &str) -> (n: u32)
    ensures
        n == combo_count_of(notation@),
{
    let chars = chars_of(notation);
    combo_count_chars(&chars)
}

/// Starting hands from strongest to weakest, as grid buckets.
pub open spec fn ranking() -> Seq<int> {
    seq![
        0int, 14, 28, 1, 42, 2, 15, 3, 16, 56, 13, 4, 29, 17, 30, 43,
        70, 26, 5, 27, 18, 57, 44, 31, 6, 84, 9, 7, 10, 8, 11, 19,
        58, 12, 71, 45, 98, 32, 20, 39, 85, 112, 21, 52, 72, 99, 59, 22,
        52, 126, 46, 86, 40, 113, 33, 23, 24, 25, 73, 140, 41, 100, 127, 65,
        60, 53, 47, 34, 154, 87, 114, 54, 168, 128, 55, 66, 68, 69, 67, 101,
        141, 78, 117, 91, 130, 104, 143, 74, 115, 156, 129, 88, 142, 82, 83, 81,
        80, 102, 97, 155, 116, 96, 111, 79, 110, 125, 75, 76, 77, 95, 139, 89,
        124, 90, 92, 105, 103, 109, 94, 118, 108, 131, 144, 157, 123, 93, 138, 152,
        107, 106, 119, 132, 145, 158, 137, 153, 122, 151, 136, 166, 121, 134, 147, 160,
        165, 120, 133, 146, 159, 150, 167, 164, 135, 148, 161, 149, 162, 163,
    ]
}

fn ranking_vec() -> (v: Vec<usize>)
    ensures
        v@.len() == ranking().len(),
        forall|i: int| 0 <= i < v@.len() ==> #[trigger] v@[i] as int == ranking()[i] && v@[i] < 169,
{
    let v: Vec<usize> = vec![
        0, 14, 28, 1, 42, 2, 15, 3, 16, 56, 13, 4, 29, 17, 30, 43,
        70, 26, 5, 27, 18, 57, 44, 31, 6, 84, 9, 7, 10, 8, 11, 19,
        58, 12, 71, 45, 98, 32, 20, 39, 85, 112, 21, 52, 72, 99, 59, 22,
        52, 126, 46, 86, 40, 113, 33, 23, 24, 25, 73, 140, 41, 100, 127, 65,
        60, 53, 47, 34, 154, 87, 114, 54, 168, 128, 55, 66, 68, 69, 67, 101,
        141, 78, 117, 91, 130, 104, 143, 74, 115, 156, 129, 88, 142, 82, 83, 81,
        80, 102, 97, 155, 116, 96, 111, 79, 110, 125, 75, 76, 77, 95, 139, 89,
        124, 90, 92, 105, 103, 109, 94, 118, 108, 131, 144, 157, 123, 93, 138, 152,
        107, 106, 119, 132, 145, 158, 137, 153, 122, 151, 136, 166, 121, 134, 147, 160,
        165, 120, 133, 146, 159, 150, 167, 164, 135, 148, 161, 149, 162, 163,
    ];
    assert(v@.len() == ranking().len());
    assert forall|i: int| 0 <= i < v@.len() implies #[trigger] v@[i] as int == ranking()[i] && v@[i] < 169 by {
        assert(v@.map_values(|x: usize| x as int) =~= ranking());
        assert(v@.map_values(|x: usize| x as int)[i] == v@[i] as int);
    }
    v
}

/// The starting-hand ranking as hand notations, strongest first.
pub fn hand_ranking() -> (r: Vec<String>)
    ensures
        r@.len() == ranking().len(),
        forall|i: int| 0 <= i < r@.len() ==> (#[trigger] r@[i])@ == bucket_text(ranking()[i]),
{
    let v = ranking_vec();
    let mut r: Vec<String> = Vec::new();
    let mut i: usize = 0;
    while i < v.len()
        invariant
            i <= v@.len(),
            v@.len() == ranking().len(),
            forall|i: int| 0 <= i < v@.len() ==> #[trigger] v@[i] as int == ranking()[i] && v@[i] < 169,
            r@.len() == i,
            forall|k: int| 0 <= k < i ==> (#[trigger] r@[k])@ == bucket_text(ranking()[k]),
        decreases v@.len() - i,
    {
        r.push(crate::game_tree::bucket_to_hand(v[i]));
        i = i + 1;
    }
    r
}

/// Position of the first ranking entry written as `h`, at or after `i` (158 if none).
pub open spec fn first_rank_from(h: Seq<char>, i: int) -> int
    decreases 158 - i,
{
    if i >= 158 {
        158
    } else if bucket_text(ranking()[i]) == h {
        i
    } else {
        first_rank_from(h, i + 1)
    }
}

/// Strength position of a hand notation (158 for hands outside the ranking).
pub open spec fn strength_index(h: Seq<char>) -> int {
    first_rank_from(h, 0)
}

fn bucket_chars(b: usize) -> (v: Vec<char>)
    requires
        b < 169,
    ensures
        v@ == bucket_text(b as int),
{
    let s = crate::game_tree::bucket_to_hand(b);
    chars_of(s.as_str())
}

pub fn chars_equal(a: &Vec<char>, b: &Vec<char>) -> (r: bool)
    ensures
        r == (a@ == b@),
{
    if a.len() != b.len() {
        return false;
    }
    let mut i: usize = 0;
    while i < a.len()
        invariant
            a@.len() == b@.len(),
            i <= a@.len(),
            forall|k: int| 0 <= k < i ==> a@[k] == b@[k],
        decreases a@.len() - i,
    {
        if a[i] != b[i] {
            return false;
        }
        i = i + 1;
    }
    assert(a@ =~= b@);
    true
}

proof fn lemma_first_rank_from(h: Seq<char>, i: int)
    requires
        0 <= i <= 158,
    ensures
        i <= first_rank_from(h, i) <= 158,
        first_rank_from(h, i) < 158 ==> bucket_text(ranking()[first_rank_from(h, i)]) == h,
        forall|k: int| i <= k < first_rank_from(h, i) ==> bucket_text(#[trigger] ranking()[k]) != h,
    decreases 158 - i,
{
    if i < 158 && bucket_text(ranking()[i]) != h {
        lemma_first_rank_from(h, i + 1);
    }
}

/// Position of the hand in the strength ranking (158 when it is not ranked).
pub fn hand_strength_index(hand: &Vec<char>) -> (r: usize)
    ensures
        r == strength_index(hand@),
{
    let v = ranking_vec();
    proof {
        lemma_first_rank_from(hand@, 0);
    }
    let ob = bucket_of_chars(hand);
    let b = match ob {
        Some(b) => b,
        None => {
            proof {
                if strength_index(hand@) < 158 {
                    law_bucket_roundtrip(ranking()[strength_index(hand@)]);
                }
            }
            return 158;
        },
    };
    if b >= 169 || !chars_equal(&bucket_chars(b), hand) {
        proof {
            if strength_index(hand@) < 158 {
                law_bucket_roundtrip(ranking()[strength_index(hand@)]);
            }
        }
        return 158;
    }
    let mut i: usize = 0;
    while i < v.len()
        invariant
            i <= v@.len(),
            v@.len() == ranking().len() == 158,
            forall|i: int| 0 <= i < v@.len() ==> #[trigger] v@[i] as int == ranking()[i] && v@[i] < 169,
            b < 169,
            bucket_text(b as int) == hand@,
            forall|k: int| 0 <= k < i ==> bucket_text(#[trigger] ranking()[k]) != hand@,
            first_rank_from(hand@, 0) == first_rank_from(hand@, i as int),
        decreases v@.len() - i,
    {
        if v[i] == b {
            return i;
        }
        proof {
            if bucket_text(ranking()[i as int]) == hand@ {
                crate::game_tree::law_bucket_text_injective(ranking()[i as int], b as int);
            }
        }
        i = i + 1;
    }
    158
}


// ---------------------------------------------------------------------------
// Range notation
// ---------------------------------------------------------------------------

/// `str::split` on a single character: the pieces between separators.
pub open spec fn split_on(s: Seq<char>, c: char) -> Seq<Seq<char>>
    decreases s.len(),
{
    if s.len() == 0 {
        seq![Seq::<char>::empty()]
    } else {
        let prev = split_on(s.drop_last(), c);
        if s.last() == c {
            prev.push(Seq::<char>::empty())
        } else {
            prev.update(prev.len() - 1, prev.last().push(s.last()))
        }
    }
}

proof fn lemma_split_nonempty(s: Seq<char>, c: char)
    ensures
        split_on(s, c).len() >= 1,
    decreases s.len(),
{
    if s.len() > 0 {
        lemma_split_nonempty(s.drop_last(), c);
    }
}

/// The views of a vector of character vectors.
pub open spec fn views(v: Seq<Vec<char>>) -> Seq<Seq<char>> {
    v.map_values(|x: Vec<char>| x@)
}

pub proof fn lemma_views_push(v: Seq<Vec<char>>, x: Vec<char>)
    ensures
        views(v.push(x)) == views(v).push(x@),
{
    assert(views(v.push(x)) =~= views(v).push(x@));
}

pub fn split_chars(v: &Vec<char>, sep: char) -> (r: Vec<Vec<char>>)
    ensures
        views(r@) == split_on(v@, sep),
{
    let mut r: Vec<Vec<char>> = Vec::new();
    r.push(Vec::new());
    let mut i: usize = 0;
    assert(views(r@) =~= split_on(v@.subrange(0, 0), sep));
    while i < v.len()
        invariant
            i <= v@.len(),
            r@.len() >= 1,
            views(r@) == split_on(v@.subrange(0, i as int), sep),
        decreases v@.len() - i,
    {
        let ghost pre = v@.subrange(0, i as int);
        assert(v@.subrange(0, i + 1).drop_last() =~= pre);
        proof {
            lemma_split_nonempty(pre, sep);
        }
        if v[i] == sep {
            r.push(Vec::new());
            assert(views(r@) =~= split_on(v@.subrange(0, i + 1), sep));
        } else {
            let last = r.len() - 1;
            let mut cur = r.pop().unwrap();
            cur.push(v[i]);
            r.push(cur);
            assert(views(r@) =~= split_on(v@.subrange(0, i + 1), sep));
        }
        i = i + 1;
    }
    assert(v@.subrange(0, v@.len() as int) =~= v@);
    r
}

/// The expansion of "TT+" (pairs from TT up) or "ATs+" (kickers from T up to below A).
pub open spec fn expand_plus_spec(b: Seq<char>) -> Seq<Seq<char>> {
    if b.len() == 2 && b[0] == b[1] {
        match rank_index_of(b[0]) {
            Some(ri) => Seq::new((13 - ri) as nat, |k: int| seq![rank_char_at(ri + k), rank_char_at(ri + k)]),
            None => seq![b],
        }
    } else if b.len() == 3 && rank_index_of(b[1]) is Some && rank_index_of(b[0]) is Some {
        let lo = rank_index_of(b[1])->0;
        let hi = rank_index_of(b[0])->0;
        Seq::new(if hi > lo { (hi - lo) as nat } else { 0nat }, |k: int| seq![b[0], rank_char_at(lo + k), b[2]])
    } else {
        seq![b]
    }
}

/// The expansion of "77-TT" or "KTs-KQs" (inclusive, either order).
pub open spec fn expand_dash_spec(s: Seq<char>) -> Seq<Seq<char>> {
    let parts = split_on(s, '-');
    if parts.len() != 2 {
        seq![s]
    } else {
        let a = parts[0];
        let e = parts[1];
        if a.len() == 2 && e.len() == 2 && a[0] == a[1] && e[0] == e[1] && rank_index_of(a[0]) is Some
            && rank_index_of(e[0]) is Some {
            let si = rank_index_of(a[0])->0;
            let ei = rank_index_of(e[0])->0;
            let lo = if si <= ei { si } else { ei };
            let hi = if si <= ei { ei } else { si };
            Seq::new((hi - lo + 1) as nat, |k: int| seq![rank_char_at(lo + k), rank_char_at(lo + k)])
        } else if a.len() == 3 && e.len() == 3 && a[0] == e[0] && a[2] == e[2] && rank_index_of(a[1]) is Some
            && rank_index_of(e[1]) is Some {
            let si = rank_index_of(a[1])->0;
            let ei = rank_index_of(e[1])->0;
            let lo = if si <= ei { si } else { ei };
            let hi = if si <= ei { ei } else { si };
            Seq::new((hi - lo + 1) as nat, |k: int| seq![a[0], rank_char_at(lo + k), a[2]])
        } else {
            seq![s]
        }
    }
}

/// The hands one trimmed, non-empty range part stands for.
pub open spec fn part_hands(t: Seq<char>) -> Seq<Seq<char>> {
    if t.last() == '+' {
        expand_plus_spec(t.drop_last())
    } else if t.contains('-') && utf8_len(t) > 3 {
        expand_dash_spec(t)
    } else {
        seq![t]
    }
}

/// The hands of the comma-separated parts, in order (repeats kept).
pub open spec fn parts_hands(parts: Seq<Seq<char>>) -> Seq<Seq<char>>
    decreases parts.len(),
{
    if parts.len() == 0 {
        Seq::empty()
    } else {
        parts_hands(parts.drop_last()) + if trim(parts.last()).len() == 0 {
            Seq::<Seq<char>>::empty()
        } else {
            part_hands(trim(parts.last()))
        }
    }
}

/// Every hand a range string names (spaces ignored, parts separated by commas).
pub open spec fn range_hands(s: Seq<char>) -> Seq<Seq<char>> {
    parts_hands(split_on(without(s, ' '), ','))
}

pub fn chars2(a: char, b: char) -> (v: Vec<char>)
    ensures
        v@ == seq![a, b],
{
    let mut v: Vec<char> = Vec::new();
    v.push(a);
    v.push(b);
    assert(v@ =~= seq![a, b]);
    v
}

pub fn chars3(a: char, b: char, c: char) -> (v: Vec<char>)
    ensures
        v@ == seq![a, b, c],
{
    let mut v: Vec<char> = Vec::new();
    v.push(a);
    v.push(b);
    v.push(c);
    assert(v@ =~= seq![a, b, c]);
    v
}

fn rank_char(i: usize) -> (c: char)
    requires
        i < 13,
    ensures
        c == rank_char_at(i as int),
{
    let chars = ['2', '3', '4', '5', '6', '7', '8', '9', 'T', 'J', 'Q', 'K', 'A'];
    chars[i]
}

fn expand_plus(b: &Vec<char>) -> (r: Vec<Vec<char>>)
    ensures
        views(r@) == expand_plus_spec(b@),
{
    let mut r: Vec<Vec<char>> = Vec::new();
    if b.len() == 2 && b[0] == b[1] {
        match rank_index(b[0]) {
            Some(ri) => {
                let mut i: usize = ri;
                while i < 13
                    invariant
                        ri <= i <= 13,
                        b@.len() == 2 && b@[0] == b@[1],
                        rank_index_of(b@[0]) == Some(ri as int),
                        views(r@) == expand_plus_spec(b@).subrange(0, (i - ri) as int),
                    decreases 13 - i,
                {
                    let c = rank_char(i);
                    let ghost old_r = r@;
                    let nv = chars2(c, c);
                    proof {
                        lemma_views_push(old_r, nv);
                        assert(expand_plus_spec(b@)[(i - ri) as int] == seq![c, c]);
                        assert(expand_plus_spec(b@).subrange(0, (i + 1 - ri) as int) =~= expand_plus_spec(b@).subrange(0, (i - ri) as int).push(seq![c, c]));
                    }
                    r.push(nv);
                    i = i + 1;
                }
                assert(views(r@) =~= expand_plus_spec(b@));
                return r;
            },
            None => {
                r.push(b.clone());
                assert(views(r@) =~= expand_plus_spec(b@));
                return r;
            },
        }
    }
    if b.len() == 3 {
        match (rank_index(b[1]), rank_index(b[0])) {
            (Some(lo), Some(hi)) => {
                let mut i: usize = lo;
                let ghost n: int = if hi > lo { (hi - lo) as int } else { 0 };
                while i < hi
                    invariant
                        lo <= i,
                        i <= hi || i == lo,
                        lo < 13,
                        hi < 13,
                        b@.len() == 3,
                        rank_index_of(b@[1]) == Some(lo as int),
                        rank_index_of(b@[0]) == Some(hi as int),
                        views(r@) == expand_plus_spec(b@).subrange(0, (i - lo) as int),
                    decreases hi - i,
                {
                    let ghost old_r = r@;
                    let nv = chars3(b[0], rank_char(i), b[2]);
                    proof {
                        lemma_views_push(old_r, nv);
                        assert(expand_plus_spec(b@)[(i - lo) as int] == nv@);
                        assert(expand_plus_spec(b@).subrange(0, (i + 1 - lo) as int) =~= expand_plus_spec(b@).subrange(0, (i - lo) as int).push(nv@));
                    }
                    r.push(nv);
                    i = i + 1;
                }
                assert(views(r@) =~= expand_plus_spec(b@));
                return r;
            },
            _ => {},
        }
    }
    r.push(b.clone());
    assert(views(r@) =~= expand_plus_spec(b@));
    r
}

fn expand_dash(s: &Vec<char>) -> (r: Vec<Vec<char>>)
    ensures
        views(r@) == expand_dash_spec(s@),
{
    let parts = split_chars(s, '-');
    let mut r: Vec<Vec<char>> = Vec::new();
    if parts.len() != 2 {
        r.push(s.clone());
        assert(views(r@) =~= expand_dash_spec(s@));
        return r;
    }
    let a = &parts[0];
    let e = &parts[1];
    assert(a@ == split_on(s@, '-')[0]);
    assert(e@ == split_on(s@, '-')[1]);
    if a.len() == 2 && e.len() == 2 && a[0] == a[1] && e[0] == e[1] {
        match (rank_index(a[0]), rank_index(e[0])) {
            (Some(si), Some(ei)) => {
                let lo = if si <= ei { si } else { ei };
                let hi = if si <= ei { ei } else { si };
                let mut i: usize = lo;
                while i <= hi
                    invariant
                        lo <= i <= hi + 1,
                        hi < 13,
                        lo == (if si <= ei { si } else { ei }),
                        hi == (if si <= ei { ei } else { si }),
                        a@ == split_on(s@, '-')[0],
                        e@ == split_on(s@, '-')[1],
                        split_on(s@, '-').len() == 2,
                        a@.len() == 2 && e@.len() == 2 && a@[0] == a@[1] && e@[0] == e@[1],
                        rank_index_of(a@[0]) == Some(si as int),
                        rank_index_of(e@[0]) == Some(ei as int),
                        views(r@) == expand_dash_spec(s@).subrange(0, (i - lo) as int),
                    decreases hi + 1 - i,
                {
                    let c = rank_char(i);
                    let ghost old_r = r@;
                    let nv = chars2(c, c);
                    proof {
                        lemma_views_push(old_r, nv);
                        assert(expand_dash_spec(s@)[(i - lo) as int] == nv@);
                        assert(expand_dash_spec(s@).subrange(0, (i + 1 - lo) as int) =~= expand_dash_spec(s@).subrange(0, (i - lo) as int).push(nv@));
                    }
                    r.push(nv);
                    i = i + 1;
                }
                assert(views(r@) =~= expand_dash_spec(s@));
                return r;
            },
            _ => {},
        }
    }
    if a.len() == 3 && e.len() == 3 && a[0] == e[0] && a[2] == e[2] {
        match (rank_index(a[1]), rank_index(e[1])) {
            (Some(si), Some(ei)) => {
                let lo = if si <= ei { si } else { ei };
                let hi = if si <= ei { ei } else { si };
                let mut i: usize = lo;
                while i <= hi
                    invariant
                        lo <= i <= hi + 1,
                        hi < 13,
                        lo == (if si <= ei { si } else { ei }),
                        hi == (if si <= ei { ei } else { si }),
                        a@ == split_on(s@, '-')[0],
                        e@ == split_on(s@, '-')[1],
                        split_on(s@, '-').len() == 2,
                        a@.len() == 3 && e@.len() == 3 && a@[0] == e@[0] && a@[2] == e@[2],
                        !(a@.len() == 2 && e@.len() == 2),
                        rank_index_of(a@[1]) == Some(si as int),
                        rank_index_of(e@[1]) == Some(ei as int),
                        views(r@) == expand_dash_spec(s@).subrange(0, (i - lo) as int),
                    decreases hi + 1 - i,
                {
                    let ghost old_r = r@;
                    let nv = chars3(a[0], rank_char(i), a[2]);
                    proof {
                        lemma_views_push(old_r, nv);
                        assert(expand_dash_spec(s@)[(i - lo) as int] == nv@);
                        assert(expand_dash_spec(s@).subrange(0, (i + 1 - lo) as int) =~= expand_dash_spec(s@).subrange(0, (i - lo) as int).push(nv@));
                    }
                    r.push(nv);
                    i = i + 1;
                }
                assert(views(r@) =~= expand_dash_spec(s@));
                return r;
            },
            _ => {},
        }
    }
    r.push(s.clone());
    assert(views(r@) =~= expand_dash_spec(s@));
    r
}


/// The views of a sequence of strings.
pub open spec fn string_views(v: Seq<String>) -> Seq<Seq<char>> {
    v.map_values(|x: String| x@)
}

/// Strictly ordered by strength index is not required: equal indices may come in any order.
pub open spec fn sorted_unique(v: Seq<Seq<char>>) -> bool {
    &&& forall|i: int, k: int| 0 <= i < k < v.len() ==> strength_index(#[trigger] v[i]) <= strength_index(#[trigger] v[k])
    &&& forall|i: int, k: int| 0 <= i < k < v.len() ==> #[trigger] v[i] != #[trigger] v[k]
}

proof fn lemma_views_insert(v: Seq<Vec<char>>, p: int, x: Vec<char>)
    requires
        0 <= p <= v.len(),
    ensures
        views(v.insert(p, x)) == views(v).insert(p, x@),
{
    assert(views(v.insert(p, x)) =~= views(v).insert(p, x@));
}

fn insert_sorted_unique(res: &mut Vec<Vec<char>>, h: Vec<char>)
    requires
        sorted_unique(views(old(res)@)),
    ensures
        sorted_unique(views(final(res)@)),
        forall|x: Seq<char>| #[trigger] views(final(res)@).contains(x) <==> (views(old(res)@).contains(x) || x == h@),
{
    let ghost old_v = views(res@);
    let mut i: usize = 0;
    while i < res.len()
        invariant
            i <= res@.len(),
            views(res@) == old_v,
            old_v == views(old(res)@),
            sorted_unique(old_v),
            res@ == old(res)@,
            forall|k: int| 0 <= k < i ==> res@[k]@ != h@,
        decreases res@.len() - i,
    {
        if chars_equal(&res[i], &h) {
            assert(views(res@)[i as int] == h@);
            assert(views(res@).contains(h@));
            assert(sorted_unique(views(res@)));
            return;
        }
        i = i + 1;
    }
    assert(!old_v.contains(h@)) by {
        if old_v.contains(h@) {
            let k = choose|k: int| 0 <= k < old_v.len() && old_v[k] == h@;
            assert(res@[k]@ == h@);
        }
    }
    let kh = hand_strength_index(&h);
    let mut p: usize = 0;
    while p < res.len() && hand_strength_index(&res[p]) <= kh
        invariant
            p <= res@.len(),
            views(res@) == old_v,
            sorted_unique(old_v),
            kh == strength_index(h@),
            forall|k: int| 0 <= k < p ==> strength_index(#[trigger] old_v[k]) <= kh,
        decreases res@.len() - p,
    {
        assert(old_v[p as int] == res@[p as int]@);
        p = p + 1;
    }
    if p < res.len() {
        assert(old_v[p as int] == res@[p as int]@);
    }
    let ghost hv = h@;
    res.insert(p, h);
    proof {
        lemma_views_insert(old(res)@, p as int, res@[p as int]);
        let nv = views(res@);
        assert(nv == old_v.insert(p as int, hv));
        assert forall|a: int, b: int| 0 <= a < b < nv.len() implies strength_index(#[trigger] nv[a]) <= strength_index(#[trigger] nv[b]) by {
            if b < p {
                assert(nv[a] == old_v[a] && nv[b] == old_v[b]);
            } else if b == p {
                assert(nv[a] == old_v[a]);
            } else if a == p {
                assert(nv[b] == old_v[b - 1]);
                if p < old_v.len() {
                    if b - 1 > p {
                        assert(strength_index(old_v[p as int]) <= strength_index(old_v[b - 1]));
                    }
                }
            } else if a < p {
                assert(nv[a] == old_v[a] && nv[b] == old_v[b - 1]);
            } else {
                assert(nv[a] == old_v[a - 1] && nv[b] == old_v[b - 1]);
            }
        }
        assert forall|a: int, b: int| 0 <= a < b < nv.len() implies #[trigger] nv[a] != #[trigger] nv[b] by {
            if a == p {
                assert(nv[b] == old_v[b - 1]);
                assert(old_v.contains(old_v[b - 1]));
            } else if b == p {
                assert(nv[a] == old_v[a]);
                assert(old_v.contains(old_v[a]));
            } else if b < p {
                assert(nv[a] == old_v[a] && nv[b] == old_v[b]);
            } else if a < p {
                assert(nv[a] == old_v[a] && nv[b] == old_v[b - 1]);
            } else {
                assert(nv[a] == old_v[a - 1] && nv[b] == old_v[b - 1]);
            }
        }
        assert forall|x: Seq<char>| #[trigger] nv.contains(x) <==> (old_v.contains(x) || x == hv) by {
            if nv.contains(x) {
                let k = choose|k: int| 0 <= k < nv.len() && #[trigger] nv[k] == x;
                if k < p {
                    assert(old_v[k] == x);
                } else if k > p {
                    assert(old_v[k - 1] == x);
                }
            }
            if old_v.contains(x) {
                let k = choose|k: int| 0 <= k < old_v.len() && #[trigger] old_v[k] == x;
                if k < p {
                    assert(nv[k] == x);
                } else {
                    assert(nv[k + 1] == x);
                }
            }
            if x == hv {
                assert(nv[p as int] == x);
            }
        }
    }
}

fn utf8_len_exceeds_3(v: &Vec<char>) -> (b: bool)
    ensures
        b == (utf8_len(v@) > 3),
{
    let mut acc: usize = 0;
    let mut i: usize = 0;
    while i < v.len()
        invariant
            i <= v@.len(),
            acc == (if utf8_len(v@.subrange(0, i as int)) > 4 { 4 } else { utf8_len(v@.subrange(0, i as int)) }),
        decreases v@.len() - i,
    {
        assert(v@.subrange(0, i + 1).drop_last() =~= v@.subrange(0, i as int));
        proof {
            lemma_utf8_len_nonneg(v@.subrange(0, i as int));
        }
        let n = char_byte_len(v[i]);
        acc = acc + n;
        if acc > 4 {
            acc = 4;
        }
        i = i + 1;
    }
    assert(v@.subrange(0, v@.len() as int) =~= v@);
    acc > 3
}

proof fn lemma_utf8_len_nonneg(s: Seq<char>)
    ensures
        utf8_len(s) >= 0,
    decreases s.len(),
{
    if s.len() > 0 {
        lemma_utf8_len_nonneg(s.drop_last());
    }
}

fn contains_char(v: &Vec<char>, c: char) -> (b: bool)
    ensures
        b == v@.contains(c),
{
    let mut i: usize = 0;
    while i < v.len()
        invariant
            i <= v@.len(),
            forall|k: int| 0 <= k < i ==> v@[k] != c,
        decreases v@.len() - i,
    {
        if v[i] == c {
            return true;
        }
        i = i + 1;
    }
    false
}

fn part_hands_exec(t: &Vec<char>) -> (r: Vec<Vec<char>>)
    requires
        t@.len() > 0,
    ensures
        views(r@) == part_hands(t@),
{
    if t[t.len() - 1] == '+' {
        let mut b: Vec<char> = Vec::new();
        let mut i: usize = 0;
        while i < t.len() - 1
            invariant
                t@.len() > 0,
                i + 1 <= t@.len(),
                b@ == t@.subrange(0, i as int),
            decreases t@.len() - i,
        {
            b.push(t[i]);
            i = i + 1;
            assert(b@ =~= t@.subrange(0, i as int));
        }
        assert(b@ =~= t@.drop_last());
        return expand_plus(&b);
    }
    if contains_char(t, '-') && utf8_len_exceeds_3(t) {
        return expand_dash(t);
    }
    let mut r: Vec<Vec<char>> = Vec::new();
    r.push(t.clone());
    assert(views(r@) =~= part_hands(t@));
    r
}

/// Parses a range string ("AA,KK,AKs", "TT+", "ATs-AKs") into distinct hands,
/// ordered from strongest to weakest.
pub fn parse_range(range_str: &str) -> (r: Vec<String>)
    ensures
        sorted_unique(string_views(r@)),
        forall|x: Seq<char>| #[trigger] string_views(r@).contains(x) <==> range_hands(range_str@).contains(x),
{
    let v = chars_of(range_str);
    let cleaned = remove_char(&v, ' ');
    let parts = split_chars(&cleaned, ',');
    let ghost ps = split_on(without(range_str@, ' '), ',');
    let mut res: Vec<Vec<char>> = Vec::new();
    let mut j: usize = 0;
    assert(ps.subrange(0, 0) =~= Seq::<Seq<char>>::empty());
    while j < parts.len()
        invariant
            views(parts@) == ps,
            j <= parts@.len(),
            sorted_unique(views(res@)),
            forall|x: Seq<char>| #[trigger] views(res@).contains(x) <==> parts_hands(ps.subrange(0, j as int)).contains(x),
        decreases parts@.len() - j,
    {
        let ghost done = parts_hands(ps.subrange(0, j as int));
        assert(ps.subrange(0, j + 1).drop_last() =~= ps.subrange(0, j as int));
        assert(parts@[j as int]@ == ps[j as int]);
        let t = trim_chars(&parts[j]);
        if t.len() > 0 {
            let hands = part_hands_exec(&t);
            let ghost hs = views(hands@);
            let mut k: usize = 0;
            while k < hands.len()
                invariant
                    k <= hands@.len(),
                    hs == views(hands@),
                    sorted_unique(views(res@)),
                    forall|x: Seq<char>| #[trigger] views(res@).contains(x) <==> (done.contains(x)
                        || hs.subrange(0, k as int).contains(x)),
                decreases hands@.len() - k,
            {
                let h = hands[k].clone();
                let ghost before = views(res@);
                insert_sorted_unique(&mut res, h);
                proof {
                    assert forall|x: Seq<char>| #[trigger] views(res@).contains(x) <==> (done.contains(x)
                        || hs.subrange(0, k + 1).contains(x)) by {
                        if hs.subrange(0, k as int).contains(x) {
                            let q = choose|q: int| 0 <= q < k && #[trigger] hs.subrange(0, k as int)[q] == x;
                            assert(hs.subrange(0, k + 1)[q] == x);
                        }
                        if hs.subrange(0, k + 1).contains(x) {
                            let q = choose|q: int| 0 <= q < k + 1 && #[trigger] hs.subrange(0, k + 1)[q] == x;
                            if q < k {
                                assert(hs.subrange(0, k as int)[q] == x);
                            } else {
                                assert(x == hs[k as int]);
                            }
                        }
                        assert(hs.subrange(0, k + 1)[k as int] == hs[k as int]);
                    }
                }
                k = k + 1;
            }
            proof {
                assert(hs.subrange(0, hs.len() as int) =~= hs);
                let nd = parts_hands(ps.subrange(0, j + 1));
                assert(nd =~= done + hs);
                assert forall|x: Seq<char>| #[trigger] nd.contains(x) <==> (done.contains(x) || hs.contains(x)) by {
                    if nd.contains(x) {
                        let q = choose|q: int| 0 <= q < nd.len() && #[trigger] nd[q] == x;
                        if q < done.len() {
                            assert(done[q] == x);
                        } else {
                            assert(hs[q - done.len()] == x);
                        }
                    }
                    if done.contains(x) {
                        let q = choose|q: int| 0 <= q < done.len() && #[trigger] done[q] == x;
                        assert(nd[q] == x);
                    }
                    if hs.contains(x) {
                        let q = choose|q: int| 0 <= q < hs.len() && #[trigger] hs[q] == x;
                        assert(nd[done.len() + q] == x);
                    }
                }
            }
        } else {
            assert(parts_hands(ps.subrange(0, j + 1)) =~= done);
        }
        j = j + 1;
    }
    assert(ps.subrange(0, ps.len() as int) =~= ps);
    let mut out: Vec<String> = Vec::new();
    let mut i: usize = 0;
    while i < res.len()
        invariant
            i <= res@.len(),
            string_views(out@) == views(res@).subrange(0, i as int),
        decreases res@.len() - i,
    {
        let st = string_of(&res[i]);
        let ghost prev = out@;
        let ghost sv = st@;
        out.push(st);
        assert(string_views(out@) =~= string_views(prev).push(sv));
        assert(views(res@)[i as int] == sv);
        assert(string_views(out@) =~= views(res@).subrange(0, i + 1));
        i = i + 1;
    }
    assert(views(res@).subrange(0, res@.len() as int) =~= views(res@));
    out
}


/// Sum of the combo counts of the hands.
pub open spec fn combos_total(hs: Seq<Seq<char>>) -> int
    decreases hs.len(),
{
    if hs.len() == 0 {
        0
    } else {
        combos_total(hs.drop_last()) + combo_count_of(hs.last())
    }
}

proof fn lemma_combos_total_mono(hs: Seq<Seq<char>>, i: int)
    requires
        0 <= i <= hs.len(),
    ensures
        0 <= combos_total(hs.subrange(0, i)) <= combos_total(hs),
    decreases hs.len() - i,
{
    if i < hs.len() {
        lemma_combos_total_mono(hs, i + 1);
        assert(hs.subrange(0, i + 1).drop_last() =~= hs.subrange(0, i));
    } else {
        assert(hs.subrange(0, i) =~= hs);
    }
    lemma_combos_total_nonneg(hs.subrange(0, i));
}

proof fn lemma_combos_total_nonneg(hs: Seq<Seq<char>>)
    ensures
        combos_total(hs) >= 0,
    decreases hs.len(),
{
    if hs.len() > 0 {
        lemma_combos_total_nonneg(hs.drop_last());
    }
}

/// Total number of card combinations in a list of hands.
pub fn total_combos(hands: &[String]) -> (n: u32)
    requires
        combos_total(string_views(hands@)) <= u32::MAX,
    ensures
        n == combos_total(string_views(hands@)),
{
    let ghost hs = string_views(hands@);
    let mut n: u32 = 0;
    let mut i: usize = 0;
    while i < hands.len()
        invariant
            i <= hands@.len(),
            hs == string_views(hands@),
            combos_total(hs) <= u32::MAX,
            n == combos_total(hs.subrange(0, i as int)),
        decreases hands@.len() - i,
    {
        proof {
            lemma_combos_total_mono(hs, i + 1);
            assert(hs.subrange(0, i + 1).drop_last() =~= hs.subrange(0, i as int));
        }
        let c = combo_count(hands[i].as_str());
        n = n + c;
        i = i + 1;
    }
    assert(hs.subrange(0, hands@.len() as int) =~= hs);
    n
}

/// The views of a sequence of string slices.
pub open spec fn str_views(v: Seq<&str>) -> Seq<Seq<char>> {
    v.map_values(|x: &str| x@)
}

/// Total number of card combinations in a list of hands.
pub fn total_combos_strs(hands: &[&str]) -> (n: u32)
    requires
        combos_total(str_views(hands@)) <= u32::MAX,
    ensures
        n == combos_total(str_views(hands@)),
{
    let ghost hs = str_views(hands@);
    let mut n: u32 = 0;
    let mut i: usize = 0;
    while i < hands.len()
        invariant
            i <= hands@.len(),
            hs == str_views(hands@),
            combos_total(hs) <= u32::MAX,
            n == combos_total(hs.subrange(0, i as int)),
        decreases hands@.len() - i,
    {
        proof {
            lemma_combos_total_mono(hs, i + 1);
            assert(hs.subrange(0, i + 1).drop_last() =~= hs.subrange(0, i as int));
        }
        let c = combo_count(hands[i]);
        n = n + c;
        i = i + 1;
    }
    assert(hs.subrange(0, hands@.len() as int) =~= hs);
    n
}

/// A combo is live when neither of its cards is among `dead`.
pub open spec fn live(c: (Card, Card), dead: Seq<Card>) -> bool {
    !dead.contains(c.0) && !dead.contains(c.1)
}

/// Number of live combos.
pub open spec fn live_count(cs: Seq<(Card, Card)>, dead: Seq<Card>) -> int
    decreases cs.len(),
{
    if cs.len() == 0 {
        0
    } else {
        live_count(cs.drop_last(), dead) + if live(cs.last(), dead) { 1int } else { 0int }
    }
}

/// `hand_combos` does not slice inside a character of this notation.
pub open spec fn combos_defined(h: Seq<char>) -> bool {
    trim(h).len() == 4 ==> !four_char_split_inside(trim(h))
}

/// Whether `hand_combos` can take this notation without slicing inside a character.
pub fn combos_defined_check(h: &str) -> (b: bool)
    ensures
        b == combos_defined(h@),
{
    let v = chars_of(h);
    let t = trim_chars(&v);
    if t.len() != 4 {
        return true;
    }
    let a = char_byte_len(t[0]);
    let b = char_byte_len(t[1]);
    !(a >= 3 || (a == 1 && b >= 2))
}

/// The hand is valid notation and keeps at least one combo not using a dead card.
pub open spec fn keeps_combo(h: Seq<char>, dead: Seq<Card>) -> bool {
    combos_spec(trim(h)) matches Some(cs) && exists|k: int| 0 <= k < cs.len() && live(#[trigger] cs[k], dead)
}

/// The hands (in order) that keep a live combo.
pub open spec fn unblocked_hands(hs: Seq<Seq<char>>, dead: Seq<Card>) -> Seq<Seq<char>>
    decreases hs.len(),
{
    if hs.len() == 0 {
        Seq::empty()
    } else {
        unblocked_hands(hs.drop_last(), dead) + if keeps_combo(hs.last(), dead) {
            seq![hs.last()]
        } else {
            Seq::<Seq<char>>::empty()
        }
    }
}

fn count_live(cs: &Vec<(Card, Card)>, dead: &[Card]) -> (n: usize)
    ensures
        n == live_count(cs@, dead@),
        n <= cs@.len(),
        (n > 0) == (exists|k: int| 0 <= k < cs@.len() && live(#[trigger] cs@[k], dead@)),
{
    let mut n: usize = 0;
    let mut i: usize = 0;
    while i < cs.len()
        invariant
            i <= cs@.len(),
            n <= i,
            n == live_count(cs@.subrange(0, i as int), dead@),
            (n > 0) == (exists|k: int| 0 <= k < i && live(#[trigger] cs@[k], dead@)),
        decreases cs@.len() - i,
    {
        assert(cs@.subrange(0, i + 1).drop_last() =~= cs@.subrange(0, i as int));
        let (a, b) = cs[i];
        if !crate::cards::contains_card(dead, a) && !crate::cards::contains_card(dead, b) {
            n = n + 1;
        }
        i = i + 1;
    }
    assert(cs@.subrange(0, cs@.len() as int) =~= cs@);
    n
}

/// Keeps the hands of a villain range that still have a combo not using a hero card.
pub fn blockers_remove(villain_range: &[String], hero_cards: &[Card]) -> (r: Vec<String>)
    requires
        forall|i: int| 0 <= i < villain_range@.len() ==> combos_defined((#[trigger] villain_range@[i])@),
    ensures
        string_views(r@) == unblocked_hands(string_views(villain_range@), hero_cards@),
{
    let ghost hs = string_views(villain_range@);
    let mut r: Vec<String> = Vec::new();
    let mut i: usize = 0;
    while i < villain_range.len()
        invariant
            i <= villain_range@.len(),
            hs == string_views(villain_range@),
            forall|i: int| 0 <= i < villain_range@.len() ==> combos_defined((#[trigger] villain_range@[i])@),
            string_views(r@) == unblocked_hands(hs.subrange(0, i as int), hero_cards@),
        decreases villain_range@.len() - i,
    {
        assert(hs.subrange(0, i + 1).drop_last() =~= hs.subrange(0, i as int));
        assert(hs[i as int] == villain_range@[i as int]@);
        let ghost prev = r@;
        match hand_combos(villain_range[i].as_str()) {
            Ok(combos) => {
                let n = count_live(&combos, hero_cards);
                if n > 0 {
                    let h = villain_range[i].clone();
                    r.push(h);
                    assert(string_views(r@) =~= string_views(prev).push(hs[i as int]));
                }
            },
            Err(_) => {},
        }
        assert(string_views(r@) =~= unblocked_hands(hs.subrange(0, i + 1), hero_cards@));
        i = i + 1;
    }
    assert(hs.subrange(0, villain_range@.len() as int) =~= hs);
    r
}

/// Hand-class notation written as it is meant: at most three characters and
/// no whitespace (such as "AA", "AKs" or "T9o").
pub open spec fn plain_class_text(h: Seq<char>) -> bool {
    h.len() <= 3 && forall|i: int| 0 <= i < h.len() ==> !crate::text::is_ws(#[trigger] h[i])
}

/// Number of a hand's combos that the hero's cards block: the hand's combo
/// count less its unblocked combos. For plain class notation that difference
/// is never negative. Other notation that names combos while its combo count
/// is smaller (a single combo such as "AsKh", or padded text such as " AKs")
/// makes the subtraction underflow unless enough of its combos are blocked,
/// so those inputs are left out.
pub fn blocked_combos(hand_notation: &str, hero_cards: &[Card]) -> (r: Result<u32, GtoError>)
    requires
        combos_defined(hand_notation@),
        plain_class_text(hand_notation@) || (combos_spec(trim(hand_notation@)) matches Some(cs)
            ==> live_count(cs, hero_cards@) <= combo_count_of(hand_notation@)),
    ensures
        combos_spec(trim(hand_notation@)) matches Some(cs) ==> r == Ok::<u32, GtoError>(
            (combo_count_of(hand_notation@) - live_count(cs, hero_cards@)) as u32,
        ),
        combos_spec(trim(hand_notation@)) is None ==> (r is Err && crate::cards::combos_error(r->Err_0, trim(hand_notation@))),
{
    proof {
        let h = hand_notation@;
        if plain_class_text(h) {
            assert(crate::text::trim_start(h) == h);
            assert(crate::text::trim_end(h) == h);
            if let Some(cs) = combos_spec(trim(h)) {
                assert(cs.len() == combo_count_of(h));
                law_live_count_bounded(cs, hero_cards@);
            }
        }
    }
    let combos = hand_combos(hand_notation)?;
    let remaining = count_live(&combos, hero_cards);
    let total = combo_count(hand_notation);
    Ok(total - remaining as u32)
}

/// The hands `range_from_top_bp` takes: ranking positions `i..` while adding them keeps
/// within the target of `1326 * bp / 10000` combos (`bp` in hundredths of a percent).
pub open spec fn take_count(bp: int, i: int, run: int) -> int
    decreases 158 - i,
{
    if i >= 158 {
        158
    } else {
        let c = combo_count_of(bucket_text(ranking()[i]));
        if run + c > (1326 * bp) / 10000 && run > 0 {
            i
        } else if (run + c) * 10000 >= 1326 * bp {
            i + 1
        } else {
            take_count(bp, i + 1, run + c)
        }
    }
}

pub proof fn lemma_take_count_range(bp: int, i: int, run: int)
    requires
        0 <= i <= 158,
    ensures
        i <= take_count(bp, i, run) <= 158,
    decreases 158 - i,
{
    if i < 158 {
        lemma_take_count_range(bp, i + 1, run + combo_count_of(bucket_text(ranking()[i])));
    }
}

proof fn lemma_take_count_monotone(bp1: int, bp2: int, i: int, run: int)
    requires
        0 <= bp1 <= bp2,
        0 <= i <= 158,
        run >= 0,
    ensures
        take_count(bp1, i, run) <= take_count(bp2, i, run),
    decreases 158 - i,
{
    lemma_take_count_range(bp1, i, run);
    lemma_take_count_range(bp2, i, run);
    if i < 158 {
        let c = combo_count_of(bucket_text(ranking()[i]));
        assert((1326 * bp1) / 10000 <= (1326 * bp2) / 10000) by (nonlinear_arith)
            requires
                0 <= bp1 <= bp2,
        ;
        assert(c >= 0);
        lemma_take_count_range(bp1, i + 1, run + c);
        lemma_take_count_range(bp2, i + 1, run + c);
        lemma_take_count_monotone(bp1, bp2, i + 1, run + c);
    }
}

/// The top ranges are nested: the top range for a larger percentage extends
/// the one for a smaller percentage (`take_count` grows with `bp`, and both
/// ranges are prefixes of the same ranking).
pub proof fn law_top_ranges_nested(bp1: int, bp2: int)
    requires
        0 < bp1 <= bp2 <= 10000,
    ensures
        take_count(bp1, 0, 0) <= take_count(bp2, 0, 0),
        top_hands(take_count(bp2, 0, 0)).subrange(0, take_count(bp1, 0, 0)) == top_hands(take_count(bp1, 0, 0)),
{
    lemma_take_count_monotone(bp1, bp2, 0, 0);
    lemma_take_count_range(bp1, 0, 0);
    assert(top_hands(take_count(bp2, 0, 0)).subrange(0, take_count(bp1, 0, 0)) =~= top_hands(take_count(bp1, 0, 0)));
}

/// The first `n` hands of the ranking.
pub open spec fn top_hands(n: int) -> Seq<Seq<char>> {
    Seq::new(n as nat, |i: int| bucket_text(ranking()[i]))
}

/// The combo budget of a top range: `1326 * bp / 10000` rounded down, but at
/// least the 6 combos of the strongest hand.
pub open spec fn combo_budget(bp: int) -> int {
    if (1326 * bp) / 10000 >= 6 { (1326 * bp) / 10000 } else { 6 }
}

proof fn lemma_bucket_combos(b: int)
    ensures
        combo_count_of(bucket_text(b)) >= 4,
        b == 0 ==> combo_count_of(bucket_text(b)) == 6,
{
}

proof fn lemma_take_count_total(bp: int, i: int, run: int)
    requires
        bp > 0,
        0 <= i <= 158,
        run == combos_total(top_hands(i)),
        run <= combo_budget(bp),
        i == 0 ==> run == 0,
        i > 0 ==> run > 0,
    ensures
        combos_total(top_hands(take_count(bp, i, run))) <= combo_budget(bp),
        i == 0 ==> take_count(bp, i, run) >= 1,
    decreases 158 - i,
{
    if i < 158 {
        let c = combo_count_of(bucket_text(ranking()[i]));
        lemma_bucket_combos(ranking()[i]);
        if i == 0 {
            assert(ranking()[0] == 0);
        }
        assert(top_hands(i + 1).drop_last() =~= top_hands(i));
        assert(combos_total(top_hands(i + 1)) == run + c);
        if run + c > (1326 * bp) / 10000 && run > 0 {
        } else if (run + c) * 10000 >= 1326 * bp {
        } else {
            lemma_take_count_total(bp, i + 1, run + c);
            lemma_take_count_range(bp, i + 1, run + c);
        }
    }
}

/// A top range is a non-empty prefix of the ranking holding at most
/// `1326 * bp / 10000` combos, or the 6 of the strongest hand when the
/// budget is smaller.
pub proof fn law_top_range_combo_bound(bp: int)
    requires
        0 < bp <= 10000,
    ensures
        take_count(bp, 0, 0) >= 1,
        combos_total(top_hands(take_count(bp, 0, 0))) <= combo_budget(bp),
{
    assert(top_hands(0) =~= Seq::<Seq<char>>::empty());
    lemma_take_count_total(bp, 0, 0);
}

/// The strongest hands making up about `bp` hundredths of a percent of all 1326 combos.
pub fn range_from_top_bp(bp: u32) -> (r: Result<Vec<String>, GtoError>)
    ensures
        (bp == 0 || bp > 10000) ==> (r matches Err(GtoError::InvalidValue(m)) && m@ == "Percentage must be between 0 and 100"@),
        0 < bp <= 10000 ==> (r matches Ok(v) && v@.len() == take_count(bp as int, 0, 0)
            && forall|i: int| 0 <= i < v@.len() ==> (#[trigger] v@[i])@ == bucket_text(ranking()[i])),
{
    if bp == 0 || bp > 10000 {
        let m = String::from_str("Percentage must be between 0 and 100");
        return Err(GtoError::InvalidValue(m));
    }
    let ranking_v = ranking_vec();
    let target_floor: u64 = (1326 * bp as u64) / 10000;
    let mut result: Vec<String> = Vec::new();
    let mut running: u64 = 0;
    let mut i: usize = 0;
    proof {
        lemma_take_count_range(bp as int, 0, 0);
    }
    while i < ranking_v.len()
        invariant
            0 < bp <= 10000,
            target_floor == (1326 * bp) / 10000,
            ranking_v@.len() == ranking().len() == 158,
            forall|i: int| 0 <= i < ranking_v@.len() ==> #[trigger] ranking_v@[i] as int == ranking()[i] && ranking_v@[i] < 169,
            i <= 158,
            running <= 12 * i,
            take_count(bp as int, 0, 0) == take_count(bp as int, i as int, running as int),
            result@.len() == i,
            forall|k: int| 0 <= k < i ==> (#[trigger] result@[k])@ == bucket_text(ranking()[k]),
        decreases 158 - i,
    {
        let hand = crate::game_tree::bucket_to_hand(ranking_v[i]);
        let count = combo_count(hand.as_str());
        assert(count <= 12);
        if running + count as u64 > target_floor && running > 0 {
            return Ok(result);
        }
        result.push(hand);
        running = running + count as u64;
        if running * 10000 >= 1326 * bp as u64 {
            return Ok(result);
        }
        i = i + 1;
    }
    Ok(result)
}


// ---------------------------------------------------------------------------
// Laws
// ---------------------------------------------------------------------------

/// For every canonical hand, `combo_count` equals the number of combos
/// `hand_combos` lists (6 for pairs, 4 suited, 12 offsuit).
pub proof fn law_combo_count_matches_combos(b: int)
    requires
        0 <= b < 169,
    ensures
        combos_spec(trim(bucket_text(b))) matches Some(cs) && cs.len() == combo_count_of(bucket_text(b)),
{
    let t = bucket_text(b);
    assert forall|i: int| 0 <= i < t.len() implies !crate::text::is_ws(#[trigger] t[i]) by {}
    assert(crate::text::trim_start(t) == t);
    assert(crate::text::trim_end(t) == t);
}

/// Removing blocked hands keeps a sub-list of the range, in order.
pub proof fn law_blockers_remove_shrinks(hs: Seq<Seq<char>>, dead: Seq<Card>)
    ensures
        unblocked_hands(hs, dead).len() <= hs.len(),
        forall|x: Seq<char>| #[trigger] unblocked_hands(hs, dead).contains(x) ==> hs.contains(x) && keeps_combo(x, dead),
    decreases hs.len(),
{
    if hs.len() > 0 {
        law_blockers_remove_shrinks(hs.drop_last(), dead);
        let prev = unblocked_hands(hs.drop_last(), dead);
        assert forall|x: Seq<char>| #[trigger] unblocked_hands(hs, dead).contains(x) implies hs.contains(x) && keeps_combo(x, dead) by {
            let u = unblocked_hands(hs, dead);
            let k = choose|k: int| 0 <= k < u.len() && #[trigger] u[k] == x;
            if k < prev.len() {
                assert(prev[k] == x);
                assert(prev.contains(x));
                let q = choose|q: int| 0 <= q < hs.drop_last().len() && #[trigger] hs.drop_last()[q] == x;
                assert(hs[q] == x);
            } else {
                assert(x == hs.last());
                assert(hs[hs.len() - 1] == x);
            }
        }
    }
}

/// A hand's blocked and unblocked combos add up to its combos.
pub proof fn law_live_count_bounded(cs: Seq<(Card, Card)>, dead: Seq<Card>)
    ensures
        0 <= live_count(cs, dead) <= cs.len(),
        dead.len() == 0 ==> live_count(cs, dead) == cs.len(),
    decreases cs.len(),
{
    if cs.len() > 0 {
        law_live_count_bounded(cs.drop_last(), dead);
    }
}

/// The two ends of a dash range written as hands of one shape: two pairs
/// ("JJ", "88"), or two suited or two offsuit hands sharing their first card
/// ("KQs", "K9s").
pub open spec fn dash_ends(a: Seq<char>, e: Seq<char>) -> bool {
    ||| (a.len() == 2 && e.len() == 2 && a[0] == a[1] && e[0] == e[1]
        && rank_index_of(a[0]) is Some && rank_index_of(e[0]) is Some)
    ||| (a.len() == 3 && e.len() == 3 && a[0] == e[0] && a[2] == e[2] && (a[2] == 's' || a[2] == 'o')
        && rank_index_of(a[0]) is Some && rank_index_of(a[1]) is Some && rank_index_of(e[1]) is Some)
}

/// Rank position of a rank character (the character's place among 2..A).
pub open spec fn rank_pos(c: char) -> int {
    rank_index_of(c)->0
}

/// A hand lies between the two ends of a dash range: of the same shape, with
/// the varying rank between the ends' ranks.
pub open spec fn between_ends(x: Seq<char>, a: Seq<char>, e: Seq<char>) -> bool {
    if a.len() == 2 {
        &&& x.len() == 2 && x[0] == x[1] && rank_index_of(x[0]) is Some
        &&& (rank_pos(a[0]) <= rank_pos(x[0]) <= rank_pos(e[0]) || rank_pos(e[0]) <= rank_pos(x[0]) <= rank_pos(a[0]))
    } else {
        &&& x.len() == 3 && x[0] == a[0] && x[2] == a[2] && rank_index_of(x[1]) is Some
        &&& (rank_pos(a[1]) <= rank_pos(x[1]) <= rank_pos(e[1]) || rank_pos(e[1]) <= rank_pos(x[1]) <= rank_pos(a[1]))
    }
}

proof fn lemma_split_tail(p: Seq<char>, y: Seq<char>, c: char)
    requires
        forall|i: int| 0 <= i < y.len() ==> y[i] != c,
    ensures
        split_on(p + y, c).len() == split_on(p, c).len(),
        split_on(p + y, c) == split_on(p, c).update(split_on(p, c).len() - 1, split_on(p, c).last() + y),
    decreases y.len(),
{
    lemma_split_nonempty(p, c);
    let sp = split_on(p, c);
    if y.len() == 0 {
        assert(p + y =~= p);
        assert(sp.last() + y =~= sp.last());
        assert(sp.update(sp.len() - 1, sp.last() + y) =~= sp);
    } else {
        lemma_split_tail(p, y.drop_last(), c);
        assert((p + y).drop_last() =~= p + y.drop_last());
        assert((p + y).last() == y.last());
        let prev = split_on(p + y.drop_last(), c);
        assert(prev.last() == sp.last() + y.drop_last());
        assert(prev.last().push(y.last()) =~= sp.last() + y);
        assert(split_on(p + y, c) =~= sp.update(sp.len() - 1, sp.last() + y));
    }
}

proof fn lemma_without_absent(s: Seq<char>, c: char)
    requires
        forall|i: int| 0 <= i < s.len() ==> s[i] != c,
    ensures
        without(s, c) == s,
    decreases s.len(),
{
    if s.len() > 0 {
        lemma_without_absent(s.drop_last(), c);
        assert(s.drop_last().push(s.last()) =~= s);
    }
}

proof fn lemma_utf8_len_at_least(s: Seq<char>)
    ensures
        utf8_len(s) >= s.len(),
    decreases s.len(),
{
    if s.len() > 0 {
        lemma_utf8_len_at_least(s.drop_last());
    }
}

/// A hand character: a rank, or the suited / offsuit mark.
pub open spec fn hand_char(c: char) -> bool {
    rank_index_of(c) is Some || c == 's' || c == 'o'
}

/// The text "a-e" as one range part.
pub open spec fn dash_text(a: Seq<char>, e: Seq<char>) -> Seq<char> {
    a + seq!['-'] + e
}

proof fn lemma_dash_part(a: Seq<char>, e: Seq<char>)
    requires
        dash_ends(a, e),
    ensures
        range_hands(dash_text(a, e)) == expand_dash_spec(dash_text(a, e)),
        split_on(dash_text(a, e), '-') == seq![a, e],
{
    let t = dash_text(a, e);
    assert(forall|i: int| 0 <= i < a.len() ==> hand_char(#[trigger] a[i]));
    assert(forall|i: int| 0 <= i < e.len() ==> hand_char(#[trigger] e[i]));
    assert forall|i: int| 0 <= i < t.len() implies #[trigger] t[i] != ' ' && t[i] != ',' && !crate::text::is_ws(t[i]) by {
        if i < a.len() {
            assert(t[i] == a[i]);
            assert(hand_char(a[i]));
        } else if i == a.len() {
            assert(t[i] == '-');
        } else {
            assert(t[i] == e[i - a.len() - 1]);
            assert(hand_char(e[i - a.len() - 1]));
        }
    }
    // The dash splits the text into its two ends.
    lemma_split_tail(Seq::<char>::empty(), a, '-');
    assert(Seq::<char>::empty() + a =~= a);
    assert(seq![Seq::<char>::empty()].update(0, Seq::<char>::empty() + a) =~= seq![a]);
    let a1 = a + seq!['-'];
    assert(a1.drop_last() =~= a);
    assert(split_on(a1, '-') =~= seq![a, Seq::<char>::empty()]);
    lemma_split_tail(a1, e, '-');
    assert(a1 + e =~= t);
    assert(Seq::<char>::empty() + e =~= e);
    assert(split_on(t, '-') =~= seq![a, e]);
    // The part stands alone: no space, no comma, nothing to trim.
    lemma_without_absent(t, ' ');
    lemma_split_tail(Seq::<char>::empty(), t, ',');
    assert(Seq::<char>::empty() + t =~= t);
    let ps = split_on(t, ',');
    assert(ps =~= seq![t]);
    assert(ps.drop_last() =~= Seq::<Seq<char>>::empty());
    assert(crate::text::trim_start(t) == t);
    assert(crate::text::trim_end(t) == t);
    assert(trim(t) == t);
    assert(t.last() == e.last());
    assert(hand_char(e[e.len() - 1]));
    assert(t[a.len() as int] == '-');
    assert(t.contains('-'));
    lemma_utf8_len_at_least(t);
    assert(part_hands(t) == expand_dash_spec(t));
    assert(parts_hands(ps.drop_last()) =~= Seq::<Seq<char>>::empty());
    assert(parts_hands(ps) =~= Seq::<Seq<char>>::empty() + part_hands(t));
    assert(range_hands(t) =~= part_hands(t));
}

proof fn lemma_rank_char_index(k: int)
    requires
        0 <= k < 13,
    ensures
        rank_index_of(rank_char_at(k)) == Some(k),
{
}

proof fn lemma_rank_char_roundtrip(c: char)
    requires
        rank_index_of(c) is Some,
    ensures
        0 <= rank_index_of(c)->0 < 13,
        rank_char_at(rank_index_of(c)->0) == c,
{
}

proof fn lemma_dash_pairs(a: Seq<char>, e: Seq<char>)
    requires
        a.len() == 2 && e.len() == 2 && a[0] == a[1] && e[0] == e[1],
        rank_index_of(a[0]) is Some && rank_index_of(e[0]) is Some,
        split_on(dash_text(a, e), '-') == seq![a, e],
        split_on(dash_text(e, a), '-') == seq![e, a],
    ensures
        expand_dash_spec(dash_text(a, e)) == expand_dash_spec(dash_text(e, a)),
        expand_dash_spec(dash_text(a, e)).contains(a),
        expand_dash_spec(dash_text(a, e)).contains(e),
        forall|i: int| 0 <= i < expand_dash_spec(dash_text(a, e)).len()
            ==> between_ends(#[trigger] expand_dash_spec(dash_text(a, e))[i], a, e),
{
    let x = expand_dash_spec(dash_text(a, e));
    let y = expand_dash_spec(dash_text(e, a));
    let si = rank_index_of(a[0])->0;
    let ei = rank_index_of(e[0])->0;
    lemma_rank_char_roundtrip(a[0]);
    lemma_rank_char_roundtrip(e[0]);
    let lo = if si <= ei { si } else { ei };
    let hi = if si <= ei { ei } else { si };
    assert(x == Seq::new((hi - lo + 1) as nat, |k: int| seq![rank_char_at(lo + k), rank_char_at(lo + k)]));
    assert(x =~= y);
    assert(x[si - lo] =~= a);
    assert(x[ei - lo] =~= e);
    assert forall|i: int| 0 <= i < x.len() implies between_ends(#[trigger] x[i], a, e) by {
        lemma_rank_char_index(lo + i);
    }
}

proof fn lemma_dash_kickers(a: Seq<char>, e: Seq<char>)
    requires
        a.len() == 3 && e.len() == 3 && a[0] == e[0] && a[2] == e[2],
        rank_index_of(a[1]) is Some && rank_index_of(e[1]) is Some,
        split_on(dash_text(a, e), '-') == seq![a, e],
        split_on(dash_text(e, a), '-') == seq![e, a],
    ensures
        expand_dash_spec(dash_text(a, e)) == expand_dash_spec(dash_text(e, a)),
        expand_dash_spec(dash_text(a, e)).contains(a),
        expand_dash_spec(dash_text(a, e)).contains(e),
        forall|i: int| 0 <= i < expand_dash_spec(dash_text(a, e)).len()
            ==> between_ends(#[trigger] expand_dash_spec(dash_text(a, e))[i], a, e),
{
    let x = expand_dash_spec(dash_text(a, e));
    let y = expand_dash_spec(dash_text(e, a));
    let si = rank_index_of(a[1])->0;
    let ei = rank_index_of(e[1])->0;
    lemma_rank_char_roundtrip(a[1]);
    lemma_rank_char_roundtrip(e[1]);
    let lo = if si <= ei { si } else { ei };
    let hi = if si <= ei { ei } else { si };
    assert(x == Seq::new((hi - lo + 1) as nat, |k: int| seq![a[0], rank_char_at(lo + k), a[2]]));
    assert(x =~= y);
    assert(x[si - lo] =~= a);
    assert(x[ei - lo] =~= e);
    assert forall|i: int| 0 <= i < x.len() implies between_ends(#[trigger] x[i], a, e) by {
        lemma_rank_char_index(lo + i);
    }
}

/// A dash range names the same hands whichever end is written first, it
/// names both of its ends, and every hand it names lies between them: "JJ-88"
/// and "88-JJ" give the same hands, JJ and 88 among them, all pairs from 88 to JJ.
pub proof fn law_dash_range_either_order(a: Seq<char>, e: Seq<char>)
    requires
        dash_ends(a, e),
    ensures
        range_hands(dash_text(a, e)) == range_hands(dash_text(e, a)),
        range_hands(dash_text(a, e)).contains(a),
        range_hands(dash_text(a, e)).contains(e),
        forall|i: int| 0 <= i < range_hands(dash_text(a, e)).len()
            ==> between_ends(#[trigger] range_hands(dash_text(a, e))[i], a, e),
{
    assert(dash_ends(e, a));
    lemma_dash_part(a, e);
    lemma_dash_part(e, a);
    if a.len() == 2 {
        lemma_dash_pairs(a, e);
    } else {
        lemma_dash_kickers(a, e);
    }
}

} // verus!
