//! The strategically distinct flops: boards that differ only by a relabeling of
//! suits are the same flop. Each class is written in a canonical form.

use vstd::prelude::*;

use crate::cards::rank_char_at;
use crate::ranges::views;
use crate::text::{utf8_len, char_byte_len, lex_order, lex_compare, lemma_lex_order_antisym, lemma_lex_order_trans, lemma_lex_order_eq, chars_of, string_of};

verus! {

/// Rank characters for rank indices 0..13 (2 ... A).
pub const RANK_CHARS: [char; 13] = ['2', '3', '4', '5', '6', '7', '8', '9', 'T', 'J', 'Q', 'K', 'A'];

/// Suit characters in canonical order.
pub const SUIT_CHARS: [char; 4] = ['s', 'h', 'd', 'c'];

/// A flop card as (rank index 0..13, suit index 0..4).
pub type FlopCard = (u8, u8);

pub open spec fn suit_char_of(i: int) -> char {
    if i == 0 { 's' } else if i == 1 { 'h' } else if i == 2 { 'd' } else { 'c' }
}

pub open spec fn valid_flop_card(c: FlopCard) -> bool {
    c.0 < 13 && c.1 < 4
}

/// The three cards ordered by rank, highest first; cards of equal rank keep their order.
pub open spec fn sort3(c: Seq<FlopCard>) -> Seq<FlopCard> {
    let (a, b, d) = (c[0], c[1], c[2]);
    let s = if b.0 > a.0 { seq![b, a] } else { seq![a, b] };
    if d.0 > s[0].0 {
        seq![d, s[0], s[1]]
    } else if d.0 > s[1].0 {
        seq![s[0], d, s[1]]
    } else {
        seq![s[0], s[1], d]
    }
}

/// The orderings of rank-sorted cards obtained by permuting cards of equal rank.
pub open spec fn rank_group_orderings(s: Seq<FlopCard>) -> Seq<Seq<FlopCard>> {
    let (x, y, z) = (s[0], s[1], s[2]);
    if x.0 == y.0 && y.0 == z.0 {
        seq![seq![x, y, z], seq![x, z, y], seq![y, x, z], seq![y, z, x], seq![z, x, y], seq![z, y, x]]
    } else if x.0 == y.0 {
        seq![seq![x, y, z], seq![y, x, z]]
    } else if y.0 == z.0 {
        seq![seq![x, y, z], seq![x, z, y]]
    } else {
        seq![s]
    }
}

/// Writes the cards with suits renamed 0, 1, 2, ... in order of first appearance.
pub open spec fn first_appearance(o: Seq<FlopCard>) -> Seq<char> {
    let i1: int = if o[1].1 == o[0].1 { 0 } else { 1 };
    let next: int = if i1 == 1 { 2 } else { 1 };
    let i2: int = if o[2].1 == o[0].1 { 0 } else if o[2].1 == o[1].1 { i1 } else { next };
    seq![
        rank_char_at(o[0].0 as int), suit_char_of(0),
        rank_char_at(o[1].0 as int), suit_char_of(i1),
        rank_char_at(o[2].0 as int), suit_char_of(i2),
    ]
}

/// The lexicographically smallest text in a non-empty list (the first one on ties).
pub open spec fn min_text(l: Seq<Seq<char>>) -> Seq<char>
    decreases l.len(),
{
    if l.len() <= 1 {
        l[0]
    } else {
        let m = min_text(l.drop_last());
        if lex_order(l.last(), m) < 0 {
            l.last()
        } else {
            m
        }
    }
}

/// The canonical form of a flop.
pub open spec fn canonical(c: Seq<FlopCard>) -> Seq<char> {
    min_text(rank_group_orderings(sort3(c)).map_values(|o: Seq<FlopCard>| first_appearance(o)))
}

fn suit_char(i: u8) -> (c: char)
    requires
        i < 4,
    ensures
        c == suit_char_of(i as int),
{
    SUIT_CHARS[i as usize]
}

fn rank_char(i: u8) -> (c: char)
    requires
        i < 13,
    ensures
        c == rank_char_at(i as int),
{
    RANK_CHARS[i as usize]
}

fn vec6(a: char, b: char, c: char, d: char, e: char, f: char) -> (v: Vec<char>)
    ensures
        v@ == seq![a, b, c, d, e, f],
{
    let mut v: Vec<char> = Vec::new();
    v.push(a);
    v.push(b);
    v.push(c);
    v.push(d);
    v.push(e);
    v.push(f);
    assert(v@ =~= seq![a, b, c, d, e, f]);
    v
}

proof fn lemma_orderings_shape(s: Seq<FlopCard>)
    requires
        s.len() == 3,
        forall|i: int| 0 <= i < 3 ==> valid_flop_card(#[trigger] s[i]),
    ensures
        rank_group_orderings(s).len() >= 1,
        forall|k: int| 0 <= k < rank_group_orderings(s).len() ==> (#[trigger] rank_group_orderings(s)[k]).len() == 3,
        forall|k: int, i: int| 0 <= k < rank_group_orderings(s).len() && 0 <= i < 3 ==> valid_flop_card(#[trigger] rank_group_orderings(s)[k][i]),
{
    assert(valid_flop_card(s[0]) && valid_flop_card(s[1]) && valid_flop_card(s[2]));
}

proof fn lemma_sort3_valid(c: Seq<FlopCard>)
    requires
        c.len() == 3,
        forall|i: int| 0 <= i < 3 ==> valid_flop_card(#[trigger] c[i]),
    ensures
        sort3(c).len() == 3,
        forall|i: int| 0 <= i < 3 ==> valid_flop_card(#[trigger] sort3(c)[i]),
{
    assert(valid_flop_card(c[0]) && valid_flop_card(c[1]) && valid_flop_card(c[2]));
}

fn first_appearance_canonical(o: &Vec<FlopCard>) -> (r: Vec<char>)
    requires
        o@.len() == 3,
        forall|i: int| 0 <= i < 3 ==> valid_flop_card(#[trigger] o@[i]),
    ensures
        r@ == first_appearance(o@),
{
    let i1: u8 = if o[1].1 == o[0].1 { 0 } else { 1 };
    let next: u8 = if i1 == 1 { 2 } else { 1 };
    let i2: u8 = if o[2].1 == o[0].1 { 0 } else if o[2].1 == o[1].1 { i1 } else { next };
    let c0 = rank_char(o[0].0);
    let c1 = suit_char(0);
    let c2 = rank_char(o[1].0);
    let c3 = suit_char(i1);
    let c4 = rank_char(o[2].0);
    let c5 = suit_char(i2);
    let r = vec6(c0, c1, c2, c3, c4, c5);
    proof {
        let f = first_appearance(o@);
        assert(f == seq![c0, c1, c2, c3, c4, c5]);
    }
    r
}

fn sort_cards(c: &[FlopCard; 3]) -> (s: Vec<FlopCard>)
    ensures
        s@ == sort3(c@),
{
    let (a, b, d) = (c[0], c[1], c[2]);
    let (s0, s1) = if b.0 > a.0 { (b, a) } else { (a, b) };
    let mut s: Vec<FlopCard> = Vec::new();
    if d.0 > s0.0 {
        s.push(d);
        s.push(s0);
        s.push(s1);
    } else if d.0 > s1.0 {
        s.push(s0);
        s.push(d);
        s.push(s1);
    } else {
        s.push(s0);
        s.push(s1);
        s.push(d);
    }
    assert(s@ =~= sort3(c@));
    s
}

fn seq3(x: FlopCard, y: FlopCard, z: FlopCard) -> (v: Vec<FlopCard>)
    ensures
        v@ == seq![x, y, z],
{
    let mut v: Vec<FlopCard> = Vec::new();
    v.push(x);
    v.push(y);
    v.push(z);
    assert(v@ =~= seq![x, y, z]);
    v
}

pub open spec fn card_views(v: Seq<Vec<FlopCard>>) -> Seq<Seq<FlopCard>> {
    v.map_values(|x: Vec<FlopCard>| x@)
}

fn permutations_within_rank_groups(s: &Vec<FlopCard>) -> (r: Vec<Vec<FlopCard>>)
    requires
        s@.len() == 3,
    ensures
        card_views(r@) == rank_group_orderings(s@),
{
    let (x, y, z) = (s[0], s[1], s[2]);
    let mut r: Vec<Vec<FlopCard>> = Vec::new();
    if x.0 == y.0 && y.0 == z.0 {
        r.push(seq3(x, y, z));
        r.push(seq3(x, z, y));
        r.push(seq3(y, x, z));
        r.push(seq3(y, z, x));
        r.push(seq3(z, x, y));
        r.push(seq3(z, y, x));
    } else if x.0 == y.0 {
        r.push(seq3(x, y, z));
        r.push(seq3(y, x, z));
    } else if y.0 == z.0 {
        r.push(seq3(x, y, z));
        r.push(seq3(x, z, y));
    } else {
        r.push(seq3(x, y, z));
        assert(s@ =~= seq![x, y, z]);
    }
    assert(card_views(r@) =~= rank_group_orderings(s@));
    r
}

/// The canonical form of a flop: the lexicographically smallest suit-renamed writing
/// over the rank-sorted orderings of its cards.
pub fn canonicalize(cards: &[FlopCard; 3]) -> (r: String)
    requires
        forall|i: int| 0 <= i < 3 ==> valid_flop_card(#[trigger] cards@[i]),
    ensures
        r@ == canonical(cards@),
{
    let sorted = sort_cards(cards);
    let orderings = permutations_within_rank_groups(&sorted);
    let ghost texts = rank_group_orderings(sort3(cards@)).map_values(|o: Seq<FlopCard>| first_appearance(o));
    proof {
        lemma_sort3_valid(cards@);
        lemma_orderings_shape(sorted@);
        assert(orderings@[0]@ == rank_group_orderings(sorted@)[0]);
    }
    let mut best = first_appearance_canonical(&orderings[0]);
    let mut i: usize = 1;
    assert(texts.subrange(0, 1).len() == 1);
    while i < orderings.len()
        invariant
            1 <= i <= orderings@.len(),
            card_views(orderings@) == rank_group_orderings(sort3(cards@)),
            texts == rank_group_orderings(sort3(cards@)).map_values(|o: Seq<FlopCard>| first_appearance(o)),
            forall|i: int| 0 <= i < 3 ==> valid_flop_card(#[trigger] sorted@[i]),
            sorted@ == sort3(cards@),
            best@ == min_text(texts.subrange(0, i as int)),
        decreases orderings@.len() - i,
    {
        assert(orderings@[i as int]@ == rank_group_orderings(sort3(cards@))[i as int]);
        proof {
            lemma_orderings_shape(sorted@);
        }
        let t = first_appearance_canonical(&orderings[i]);
        assert(texts.subrange(0, i + 1).drop_last() =~= texts.subrange(0, i as int));
        if lex_compare(&t, &best) < 0 {
            best = t;
        }
        i = i + 1;
    }
    assert(texts.subrange(0, texts.len() as int) =~= texts);
    string_of(&best)
}


fn canonicalize_chars(cards: &[FlopCard; 3]) -> (r: Vec<char>)
    requires
        forall|i: int| 0 <= i < 3 ==> valid_flop_card(#[trigger] cards@[i]),
    ensures
        r@ == canonical(cards@),
{
    let s = canonicalize(cards);
    chars_of(s.as_str())
}

/// Strictly increasing in lexicographic order.
pub open spec fn strictly_sorted(l: Seq<Seq<char>>) -> bool {
    forall|i: int, j: int| 0 <= i < j < l.len() ==> lex_order(#[trigger] l[i], #[trigger] l[j]) < 0
}

fn insert_sorted(v: &mut Vec<Vec<char>>, x: Vec<char>)
    requires
        strictly_sorted(views(old(v)@)),
    ensures
        strictly_sorted(views(final(v)@)),
        forall|y: Seq<char>| #[trigger] views(final(v)@).contains(y) <==> (views(old(v)@).contains(y) || y == x@),
{
    let ghost ov = views(v@);
    let mut lo: usize = 0;
    let mut hi: usize = v.len();
    while lo < hi
        invariant
            lo <= hi <= v@.len(),
            ov == views(v@),
            v@ == old(v)@,
            strictly_sorted(ov),
            forall|k: int| 0 <= k < lo ==> lex_order(#[trigger] ov[k], x@) < 0,
            forall|k: int| hi <= k < ov.len() ==> lex_order(#[trigger] ov[k], x@) > 0,
        decreases hi - lo,
    {
        let mid = lo + (hi - lo) / 2;
        let c = lex_compare(&v[mid], &x);
        assert(ov[mid as int] == v@[mid as int]@);
        if c < 0 {
            proof {
                assert forall|k: int| 0 <= k < mid + 1 implies lex_order(#[trigger] ov[k], x@) < 0 by {
                    if k < mid {
                        lemma_lex_order_trans(ov[k], ov[mid as int], x@);
                    }
                }
            }
            lo = mid + 1;
        } else if c > 0 {
            proof {
                assert forall|k: int| mid <= k < ov.len() implies lex_order(#[trigger] ov[k], x@) > 0 by {
                    if k > mid {
                        lemma_lex_order_antisym(ov[mid as int], ov[k]);
                        lemma_lex_order_antisym(ov[k], x@);
                        lemma_lex_order_antisym(ov[mid as int], x@);
                        lemma_lex_order_trans(x@, ov[mid as int], ov[k]);
                    }
                }
            }
            hi = mid;
        } else {
            proof {
                lemma_lex_order_eq(ov[mid as int], x@);
                assert(ov.contains(x@));
            }
            return;
        }
    }
    let ghost xv = x@;
    v.insert(lo, x);
    proof {
        assert(views(v@) =~= ov.insert(lo as int, xv));
        let nv = views(v@);
        assert forall|i: int, j: int| 0 <= i < j < nv.len() implies lex_order(#[trigger] nv[i], #[trigger] nv[j]) < 0 by {
            if j < lo {
                assert(nv[i] == ov[i] && nv[j] == ov[j]);
            } else if j == lo {
                assert(nv[i] == ov[i]);
            } else if i == lo {
                assert(nv[j] == ov[j - 1]);
                lemma_lex_order_antisym(ov[j - 1], xv);
            } else if i < lo {
                assert(nv[i] == ov[i] && nv[j] == ov[j - 1]);
            } else {
                assert(nv[i] == ov[i - 1] && nv[j] == ov[j - 1]);
            }
        }
        assert forall|y: Seq<char>| #[trigger] nv.contains(y) <==> (ov.contains(y) || y == xv) by {
            if nv.contains(y) {
                let k = choose|k: int| 0 <= k < nv.len() && #[trigger] nv[k] == y;
                if k < lo {
                    assert(ov[k] == y);
                } else if k > lo {
                    assert(ov[k - 1] == y);
                }
            }
            if ov.contains(y) {
                let k = choose|k: int| 0 <= k < ov.len() && #[trigger] ov[k] == y;
                if k < lo {
                    assert(nv[k] == y);
                } else {
                    assert(nv[k + 1] == y);
                }
            }
            if y == xv {
                assert(nv[lo as int] == y);
            }
        }
    }
}

/// The flop whose cards have deck positions `a`, `b`, `c` (card i: rank i/4, suit i%4).
pub open spec fn flop_at(a: int, b: int, c: int) -> Seq<FlopCard> {
    seq![((a / 4) as u8, (a % 4) as u8), ((b / 4) as u8, (b % 4) as u8), ((c / 4) as u8, (c % 4) as u8)]
}

/// Positions `a < b < c` name a three-card flop from the deck.
pub open spec fn flop_positions(a: int, b: int, c: int) -> bool {
    0 <= a < b < c < 52
}

/// `(a, b, c)` comes before `(p, q, r)` in enumeration order.
pub open spec fn before(a: int, b: int, c: int, p: int, q: int, r: int) -> bool {
    a < p || (a == p && b < q) || (a == p && b == q && c < r)
}

/// Every enumerated flop before `(p, q, r)` has its canonical form in `l`, and every
/// entry of `l` is such a form.
pub open spec fn covers(l: Seq<Seq<char>>, p: int, q: int, r: int) -> bool {
    &&& forall|a: int, b: int, c: int| flop_positions(a, b, c) && before(a, b, c, p, q, r)
        ==> l.contains(#[trigger] canonical(flop_at(a, b, c)))
    &&& forall|y: Seq<char>| #[trigger] l.contains(y) ==> exists|a: int, b: int, c: int|
        flop_positions(a, b, c) && before(a, b, c, p, q, r) && #[trigger] canonical(flop_at(a, b, c)) == y
}

/// Canonical form of some three-card flop.
pub open spec fn is_canonical_flop(y: Seq<char>) -> bool {
    exists|a: int, b: int, c: int| flop_positions(a, b, c) && #[trigger] canonical(flop_at(a, b, c)) == y
}

/// All strategically distinct flops (1,755 of them), each in canonical form, sorted.
pub fn generate_canonical_flops() -> (r: Vec<String>)
    ensures
        strictly_sorted(crate::ranges::string_views(r@)),
        forall|y: Seq<char>| #[trigger] crate::ranges::string_views(r@).contains(y) <==> is_canonical_flop(y),
{
    let mut set: Vec<Vec<char>> = Vec::new();
    let mut c1: u8 = 0;
    while c1 < 52
        invariant
            c1 <= 52,
            strictly_sorted(views(set@)),
            covers(views(set@), c1 as int, 0, 0),
        decreases 52 - c1,
    {
        let mut c2: u8 = c1 + 1;
        while c2 < 52
            invariant
                c1 < 52,
                c1 < c2 <= 52,
                strictly_sorted(views(set@)),
                covers(views(set@), c1 as int, c2 as int, 0),
            decreases 52 - c2,
        {
            let mut c3: u8 = c2 + 1;
            while c3 < 52
                invariant
                    c1 < c2 < 52,
                    c2 < c3 <= 52,
                    strictly_sorted(views(set@)),
                    covers(views(set@), c1 as int, c2 as int, c3 as int),
                decreases 52 - c3,
            {
                let cards: [FlopCard; 3] = [(c1 / 4, c1 % 4), (c2 / 4, c2 % 4), (c3 / 4, c3 % 4)];
                assert(cards@ =~= flop_at(c1 as int, c2 as int, c3 as int));
                let canon = canonicalize_chars(&cards);
                let ghost old_set = views(set@);
                insert_sorted(&mut set, canon);
                proof {
                    let ns = views(set@);
                    let x = canonical(flop_at(c1 as int, c2 as int, c3 as int));
                    assert forall|a: int, b: int, c: int| flop_positions(a, b, c) && before(a, b, c, c1 as int, c2 as int, c3 + 1)
                        implies ns.contains(#[trigger] canonical(flop_at(a, b, c))) by {
                        if before(a, b, c, c1 as int, c2 as int, c3 as int) {
                            assert(old_set.contains(canonical(flop_at(a, b, c))));
                        } else {
                            assert(a == c1 && b == c2 && c == c3);
                        }
                    }
                    assert forall|y: Seq<char>| #[trigger] ns.contains(y) implies exists|a: int, b: int, c: int|
                        flop_positions(a, b, c) && before(a, b, c, c1 as int, c2 as int, c3 + 1) && #[trigger] canonical(flop_at(a, b, c)) == y by {
                        if old_set.contains(y) {
                            let (a, b, c) = choose|a: int, b: int, c: int| flop_positions(a, b, c) && before(a, b, c, c1 as int, c2 as int, c3 as int)
                                && #[trigger] canonical(flop_at(a, b, c)) == y;
                            assert(before(a, b, c, c1 as int, c2 as int, c3 + 1));
                        } else {
                            assert(y == x);
                            assert(flop_positions(c1 as int, c2 as int, c3 as int));
                            assert(before(c1 as int, c2 as int, c3 as int, c1 as int, c2 as int, c3 + 1));
                        }
                    }
                }
                c3 = c3 + 1;
            }
            proof {
                let l = views(set@);
                assert forall|a: int, b: int, c: int| flop_positions(a, b, c) && before(a, b, c, c1 as int, c2 + 1, 0)
                    implies l.contains(#[trigger] canonical(flop_at(a, b, c))) by {
                    assert(before(a, b, c, c1 as int, c2 as int, 52));
                }
                assert forall|y: Seq<char>| #[trigger] l.contains(y) implies exists|a: int, b: int, c: int|
                    flop_positions(a, b, c) && before(a, b, c, c1 as int, c2 + 1, 0) && #[trigger] canonical(flop_at(a, b, c)) == y by {
                    let (a, b, c) = choose|a: int, b: int, c: int| flop_positions(a, b, c) && before(a, b, c, c1 as int, c2 as int, 52)
                        && #[trigger] canonical(flop_at(a, b, c)) == y;
                    assert(before(a, b, c, c1 as int, c2 + 1, 0));
                }
            }
            c2 = c2 + 1;
        }
        proof {
            let l = views(set@);
            assert forall|a: int, b: int, c: int| flop_positions(a, b, c) && before(a, b, c, c1 + 1, 0, 0)
                implies l.contains(#[trigger] canonical(flop_at(a, b, c))) by {
                assert(before(a, b, c, c1 as int, 52, 0));
            }
            assert forall|y: Seq<char>| #[trigger] l.contains(y) implies exists|a: int, b: int, c: int|
                flop_positions(a, b, c) && before(a, b, c, c1 + 1, 0, 0) && #[trigger] canonical(flop_at(a, b, c)) == y by {
                let (a, b, c) = choose|a: int, b: int, c: int| flop_positions(a, b, c) && before(a, b, c, c1 as int, 52, 0)
                    && #[trigger] canonical(flop_at(a, b, c)) == y;
                assert(before(a, b, c, c1 + 1, 0, 0));
            }
        }
        c1 = c1 + 1;
    }
    let mut out: Vec<String> = Vec::new();
    let mut i: usize = 0;
    while i < set.len()
        invariant
            i <= set@.len(),
            crate::ranges::string_views(out@) == views(set@).subrange(0, i as int),
        decreases set@.len() - i,
    {
        let st = string_of(&set[i]);
        let ghost prev = out@;
        let ghost sv = st@;
        out.push(st);
        assert(crate::ranges::string_views(out@) =~= crate::ranges::string_views(prev).push(sv));
        assert(views(set@)[i as int] == sv);
        assert(crate::ranges::string_views(out@) =~= views(set@).subrange(0, i + 1));
        i = i + 1;
    }
    assert(views(set@).subrange(0, set@.len() as int) =~= views(set@));
    proof {
        let l = views(set@);
        assert forall|y: Seq<char>| #[trigger] l.contains(y) <==> is_canonical_flop(y) by {
            if l.contains(y) {
                let (a, b, c) = choose|a: int, b: int, c: int| flop_positions(a, b, c) && before(a, b, c, 52, 0, 0)
                    && #[trigger] canonical(flop_at(a, b, c)) == y;
            }
            if is_canonical_flop(y) {
                let (a, b, c) = choose|a: int, b: int, c: int| flop_positions(a, b, c) && #[trigger] canonical(flop_at(a, b, c)) == y;
                assert(before(a, b, c, 52, 0, 0));
            }
        }
    }
    out
}


/// Numeric value of a rank character (2..14), 0 for anything else.
pub open spec fn rank_value_of(c: char) -> int {
    if c == '2' { 2 }
    else if c == '3' { 3 }
    else if c == '4' { 4 }
    else if c == '5' { 5 }
    else if c == '6' { 6 }
    else if c == '7' { 7 }
    else if c == '8' { 8 }
    else if c == '9' { 9 }
    else if c == 'T' { 10 }
    else if c == 'J' { 11 }
    else if c == 'Q' { 12 }
    else if c == 'K' { 13 }
    else if c == 'A' { 14 }
    else { 0 }
}

pub fn rank_value(c: char) -> (v: u8)
    ensures
        v == rank_value_of(c),
{
    match c {
        '2' => 2,
        '3' => 3,
        '4' => 4,
        '5' => 5,
        '6' => 6,
        '7' => 7,
        '8' => 8,
        '9' => 9,
        'T' => 10,
        'J' => 11,
        'Q' => 12,
        'K' => 13,
        'A' => 14,
        _ => 0,
    }
}

pub open spec fn max3(a: int, b: int, c: int) -> int {
    let m = if a >= b { a } else { b };
    if m >= c { m } else { c }
}

pub open spec fn min3(a: int, b: int, c: int) -> int {
    let m = if a <= b { a } else { b };
    if m <= c { m } else { c }
}

/// Solving priority of a six-character board: high card x 100, +50 broadway,
/// +30 paired, -20 monotone, +20 when all three ranks lie within 4.
pub open spec fn priority_of(b: Seq<char>) -> int {
    if utf8_len(b) != 6 {
        0
    } else {
        let r1 = rank_value_of(b[0]);
        let r2 = rank_value_of(b[2]);
        let r3 = rank_value_of(b[4]);
        let high = max3(r1, r2, r3);
        let monotone = b[1] == b[3] && b[3] == b[5];
        let paired = r1 == r2 || r2 == r3 || r1 == r3;
        let broadway = r1 >= 10 && r2 >= 10 && r3 >= 10;
        high * 100 + (if broadway { 50int } else { 0 }) + (if paired { 30int } else { 0 })
            - (if monotone { 20int } else { 0 }) + (if max3(r1, r2, r3) - min3(r1, r2, r3) <= 4 { 20int } else { 0 })
    }
}

fn utf8_len_is_6(v: &Vec<char>) -> (b: bool)
    ensures
        b == (utf8_len(v@) == 6),
{
    let mut acc: usize = 0;
    let mut i: usize = 0;
    while i < v.len()
        invariant
            i <= v@.len(),
            acc == (if utf8_len(v@.subrange(0, i as int)) > 7 { 7 } else { utf8_len(v@.subrange(0, i as int)) }),
        decreases v@.len() - i,
    {
        assert(v@.subrange(0, i + 1).drop_last() =~= v@.subrange(0, i as int));
        proof {
            lemma_utf8_nonneg(v@.subrange(0, i as int));
        }
        let n = char_byte_len(v[i]);
        acc = acc + n;
        if acc > 7 {
            acc = 7;
        }
        i = i + 1;
    }
    assert(v@.subrange(0, v@.len() as int) =~= v@);
    acc == 6
}

proof fn lemma_utf8_nonneg(s: Seq<char>)
    ensures
        utf8_len(s) >= 0,
        utf8_len(s) >= s.len(),
    decreases s.len(),
{
    if s.len() > 0 {
        lemma_utf8_nonneg(s.drop_last());
    }
}

/// Strategic priority of a canonical flop (higher is solved first).
pub fn strategic_priority(board: &str) -> (p: u32)
    requires
        utf8_len(board@) == 6 ==> board@.len() >= 6,
    ensures
        p == priority_of(board@),
{
    let chars = chars_of(board);
    if !utf8_len_is_6(&chars) {
        return 0;
    }
    proof {
        lemma_utf8_nonneg(board@);
    }
    let r1 = rank_value(chars[0]) as u32;
    let r2 = rank_value(chars[2]) as u32;
    let r3 = rank_value(chars[4]) as u32;
    let high = if r1 >= r2 { r1 } else { r2 };
    let high = if high >= r3 { high } else { r3 };
    let is_monotone = chars[1] == chars[3] && chars[3] == chars[5];
    let is_paired = r1 == r2 || r2 == r3 || r1 == r3;
    let is_broadway = r1 >= 10 && r2 >= 10 && r3 >= 10;
    let mut score: u32 = high * 100;
    if is_broadway {
        score = score + 50;
    }
    if is_paired {
        score = score + 30;
    }
    if is_monotone {
        score = score - 20;
    }
    let low = if r1 <= r2 { r1 } else { r2 };
    let low = if low <= r3 { low } else { r3 };
    if high - low <= 4 {
        score = score + 20;
    }
    score
}



// ---------------------------------------------------------------------------
// Laws
// ---------------------------------------------------------------------------

/// `sigma` renames the four suits one-to-one.
pub open spec fn suit_permutation(sigma: Seq<u8>) -> bool {
    &&& sigma.len() == 4
    &&& forall|i: int| 0 <= i < 4 ==> #[trigger] sigma[i] < 4
    &&& forall|i: int, j: int| 0 <= i < 4 && 0 <= j < 4 && i != j ==> #[trigger] sigma[i] != #[trigger] sigma[j]
}

/// The flop with every suit renamed by `sigma`.
pub open spec fn relabel(c: Seq<FlopCard>, sigma: Seq<u8>) -> Seq<FlopCard> {
    c.map_values(|x: FlopCard| (x.0, sigma[x.1 as int]))
}

proof fn lemma_min_text_props(l: Seq<Seq<char>>)
    requires
        l.len() >= 1,
    ensures
        l.contains(min_text(l)),
        forall|i: int| 0 <= i < l.len() ==> lex_order(min_text(l), #[trigger] l[i]) <= 0,
    decreases l.len(),
{
    if l.len() == 1 {
        assert(l[0] == min_text(l));
        lemma_lex_order_eq(l[0], l[0]);
    } else {
        let p = l.drop_last();
        lemma_min_text_props(p);
        let m = min_text(p);
        let k = choose|k: int| 0 <= k < p.len() && #[trigger] p[k] == m;
        assert(l[k] == m);
        lemma_lex_order_antisym(l.last(), m);
        lemma_lex_order_eq(l.last(), l.last());
        if lex_order(l.last(), m) < 0 {
            assert forall|i: int| 0 <= i < l.len() implies lex_order(l.last(), #[trigger] l[i]) <= 0 by {
                if i < l.len() - 1 {
                    assert(l[i] == p[i]);
                    lemma_lex_order_trans(l.last(), m, p[i]);
                }
            }
        } else {
            assert forall|i: int| 0 <= i < l.len() implies lex_order(m, #[trigger] l[i]) <= 0 by {
                if i < l.len() - 1 {
                    assert(l[i] == p[i]);
                }
            }
        }
    }
}

/// Lists with the same entries have the same minimum.
proof fn lemma_min_text_same_entries(l1: Seq<Seq<char>>, l2: Seq<Seq<char>>)
    requires
        l1.len() >= 1,
        l2.len() >= 1,
        forall|x: Seq<char>| #[trigger] l1.contains(x) <==> l2.contains(x),
    ensures
        min_text(l1) == min_text(l2),
{
    lemma_min_text_props(l1);
    lemma_min_text_props(l2);
    let m1 = min_text(l1);
    let m2 = min_text(l2);
    assert(l2.contains(m1));
    assert(l1.contains(m2));
    let k2 = choose|k: int| 0 <= k < l2.len() && #[trigger] l2[k] == m1;
    let k1 = choose|k: int| 0 <= k < l1.len() && #[trigger] l1[k] == m2;
    assert(lex_order(m2, l2[k2]) <= 0);
    assert(lex_order(m1, l1[k1]) <= 0);
    lemma_lex_order_antisym(m1, m2);
    lemma_lex_order_eq(m1, m2);
}

proof fn lemma_sort3_relabel(c: Seq<FlopCard>, sigma: Seq<u8>)
    requires
        c.len() == 3,
    ensures
        sort3(relabel(c, sigma)) == relabel(sort3(c), sigma),
{
    let rc = relabel(c, sigma);
    assert(rc[0] == (c[0].0, sigma[c[0].1 as int]));
    assert(rc[1] == (c[1].0, sigma[c[1].1 as int]));
    assert(rc[2] == (c[2].0, sigma[c[2].1 as int]));
    assert(sort3(rc) =~= relabel(sort3(c), sigma));
}

proof fn lemma_orderings_relabel(s: Seq<FlopCard>, sigma: Seq<u8>)
    requires
        s.len() == 3,
    ensures
        rank_group_orderings(relabel(s, sigma)).len() == rank_group_orderings(s).len(),
        forall|k: int| 0 <= k < rank_group_orderings(s).len() ==> #[trigger] rank_group_orderings(relabel(s, sigma))[k]
            == relabel(rank_group_orderings(s)[k], sigma),
{
    let rs = relabel(s, sigma);
    assert(rs[0] == (s[0].0, sigma[s[0].1 as int]));
    assert(rs[1] == (s[1].0, sigma[s[1].1 as int]));
    assert(rs[2] == (s[2].0, sigma[s[2].1 as int]));
    let os = rank_group_orderings(s);
    let ors = rank_group_orderings(rs);
    assert forall|k: int| 0 <= k < os.len() implies #[trigger] ors[k] == relabel(os[k], sigma) by {
        assert(ors[k] =~= relabel(os[k], sigma));
    }
}

proof fn lemma_first_appearance_relabel(o: Seq<FlopCard>, sigma: Seq<u8>)
    requires
        o.len() == 3,
        o[0].1 < 4 && o[1].1 < 4 && o[2].1 < 4,
        suit_permutation(sigma),
    ensures
        first_appearance(relabel(o, sigma)) == first_appearance(o),
{
    let ro = relabel(o, sigma);
    assert(ro[0] == (o[0].0, sigma[o[0].1 as int]));
    assert(ro[1] == (o[1].0, sigma[o[1].1 as int]));
    assert(ro[2] == (o[2].0, sigma[o[2].1 as int]));
    assert((o[1].1 == o[0].1) == (ro[1].1 == ro[0].1));
    assert((o[2].1 == o[0].1) == (ro[2].1 == ro[0].1));
    assert((o[2].1 == o[1].1) == (ro[2].1 == ro[1].1));
    assert(first_appearance(ro) =~= first_appearance(o));
}

/// Renaming the suits of a flop one-to-one does not change its canonical form.
pub proof fn law_canonical_suit_isomorphism(c: Seq<FlopCard>, sigma: Seq<u8>)
    requires
        c.len() == 3,
        forall|i: int| 0 <= i < 3 ==> valid_flop_card(#[trigger] c[i]),
        suit_permutation(sigma),
    ensures
        canonical(relabel(c, sigma)) == canonical(c),
{
    let rc = relabel(c, sigma);
    lemma_sort3_relabel(c, sigma);
    lemma_sort3_valid(c);
    let s = sort3(c);
    lemma_orderings_relabel(s, sigma);
    lemma_orderings_shape(s);
    let os = rank_group_orderings(s);
    let ors = rank_group_orderings(relabel(s, sigma));
    let t1 = ors.map_values(|o: Seq<FlopCard>| first_appearance(o));
    let t2 = os.map_values(|o: Seq<FlopCard>| first_appearance(o));
    assert forall|k: int| 0 <= k < os.len() implies #[trigger] t1[k] == t2[k] by {
        assert(valid_flop_card(os[k][0]) && valid_flop_card(os[k][1]) && valid_flop_card(os[k][2]));
        lemma_first_appearance_relabel(os[k], sigma);
    }
    assert(t1 =~= t2);
}

/// The flop with its cards listed in another order: positions `p`.
pub open spec fn reorder(c: Seq<FlopCard>, p: (int, int, int)) -> Seq<FlopCard> {
    seq![c[p.0], c[p.1], c[p.2]]
}

/// The six orders of three positions.
pub open spec fn is_position_order(p: (int, int, int)) -> bool {
    ||| p == (0int, 1int, 2int)
    ||| p == (0int, 2int, 1int)
    ||| p == (1int, 0int, 2int)
    ||| p == (1int, 2int, 0int)
    ||| p == (2int, 0int, 1int)
    ||| p == (2int, 1int, 0int)
}

/// Listing the three cards of a flop in another order does not change its
/// canonical form.
pub proof fn law_canonical_card_order(c: Seq<FlopCard>, p: (int, int, int))
    requires
        c.len() == 3,
        forall|i: int| 0 <= i < 3 ==> valid_flop_card(#[trigger] c[i]),
        is_position_order(p),
    ensures
        canonical(reorder(c, p)) == canonical(c),
{
    let d = reorder(c, p);
    let t1 = rank_group_orderings(sort3(d)).map_values(|o: Seq<FlopCard>| first_appearance(o));
    let t2 = rank_group_orderings(sort3(c)).map_values(|o: Seq<FlopCard>| first_appearance(o));
    let o1 = rank_group_orderings(sort3(d));
    let o2 = rank_group_orderings(sort3(c));
    assert forall|k: int| 0 <= k < o1.len() implies #[trigger] o2.contains(o1[k]) by {
        assert(o2.len() >= 1);
    }
    assert forall|k: int| 0 <= k < o2.len() implies #[trigger] o1.contains(o2[k]) by {
        assert(o1.len() >= 1);
    }
    assert forall|x: Seq<char>| #[trigger] t1.contains(x) <==> t2.contains(x) by {
        if t1.contains(x) {
            let k = choose|k: int| 0 <= k < t1.len() && #[trigger] t1[k] == x;
            assert(o2.contains(o1[k]));
            let j = choose|j: int| 0 <= j < o2.len() && #[trigger] o2[j] == o1[k];
            assert(t2[j] == x);
        }
        if t2.contains(x) {
            let k = choose|k: int| 0 <= k < t2.len() && #[trigger] t2[k] == x;
            assert(o1.contains(o2[k]));
            let j = choose|j: int| 0 <= j < o1.len() && #[trigger] o1[j] == o2[k];
            assert(t1[j] == x);
        }
    }
    lemma_min_text_same_entries(t1, t2);
}

/// Two flops are related when one is the other with its cards listed in
/// another order and its suits renamed one-to-one.
pub open spec fn flops_related(c: Seq<FlopCard>, d: Seq<FlopCard>) -> bool {
    exists|p: (int, int, int), sigma: Seq<u8>|
        is_position_order(p) && suit_permutation(sigma) && d == #[trigger] relabel(reorder(c, p), sigma)
}

/// Exchanges suits `x` and `y`.
pub open spec fn suit_swap(x: int, y: int) -> Seq<u8> {
    Seq::new(4, |i: int| if i == x { y as u8 } else if i == y { x as u8 } else { i as u8 })
}

/// Renames by `s`, then by `t`.
pub open spec fn suit_then(s: Seq<u8>, t: Seq<u8>) -> Seq<u8> {
    Seq::new(4, |i: int| t[s[i] as int])
}

proof fn lemma_suit_swap_perm(x: int, y: int)
    requires
        0 <= x < 4,
        0 <= y < 4,
    ensures
        suit_permutation(suit_swap(x, y)),
{
}

proof fn lemma_suit_then_perm(s: Seq<u8>, t: Seq<u8>)
    requires
        suit_permutation(s),
        suit_permutation(t),
    ensures
        suit_permutation(suit_then(s, t)),
{
    let u = suit_then(s, t);
    assert forall|i: int, j: int| 0 <= i < 4 && 0 <= j < 4 && i != j implies #[trigger] u[i] != #[trigger] u[j] by {
        assert(s[i] != s[j]);
        assert(s[i] < 4 && s[j] < 4);
    }
    assert forall|i: int| 0 <= i < 4 implies #[trigger] u[i] < 4 by {
        assert(s[i] < 4);
    }
}

/// The composition of two position orders.
pub open spec fn order_then(p: (int, int, int), q: (int, int, int)) -> (int, int, int) {
    let pp = seq![p.0, p.1, p.2];
    (pp[q.0], pp[q.1], pp[q.2])
}

proof fn lemma_order_then(c: Seq<FlopCard>, p: (int, int, int), q: (int, int, int))
    requires
        c.len() == 3,
        is_position_order(p),
        is_position_order(q),
    ensures
        is_position_order(order_then(p, q)),
        reorder(reorder(c, p), q) == reorder(c, order_then(p, q)),
{
    assert(reorder(reorder(c, p), q) =~= reorder(c, order_then(p, q)));
}

/// The inverse of a position order.
pub open spec fn order_inverse(p: (int, int, int)) -> (int, int, int) {
    if p == (1int, 2int, 0int) { (2int, 0int, 1int) } else if p == (2int, 0int, 1int) { (1int, 2int, 0int) } else { p }
}

proof fn lemma_order_inverse(c: Seq<FlopCard>, p: (int, int, int))
    requires
        c.len() == 3,
        is_position_order(p),
    ensures
        is_position_order(order_inverse(p)),
        reorder(reorder(c, p), order_inverse(p)) == c,
{
    assert(reorder(reorder(c, p), order_inverse(p)) =~= c);
}

proof fn lemma_relabel_reorder(c: Seq<FlopCard>, p: (int, int, int), s: Seq<u8>)
    requires
        c.len() == 3,
        is_position_order(p),
    ensures
        relabel(reorder(c, p), s) == reorder(relabel(c, s), p),
{
    assert(relabel(reorder(c, p), s) =~= reorder(relabel(c, s), p));
}

/// Each ordering of the rank-sorted cards lists the flop in some order.
proof fn lemma_orderings_are_reorders(c: Seq<FlopCard>, k: int)
    requires
        c.len() == 3,
        0 <= k < rank_group_orderings(sort3(c)).len(),
    ensures
        exists|p: (int, int, int)| is_position_order(p) && rank_group_orderings(sort3(c))[k] == #[trigger] reorder(c, p),
{
    let s = sort3(c);
    let ps: (int, int, int) = if c[1].0 > c[0].0 {
        if c[2].0 > c[1].0 { (2int, 1int, 0int) } else if c[2].0 > c[0].0 { (1int, 2int, 0int) } else { (1int, 0int, 2int) }
    } else {
        if c[2].0 > c[0].0 { (2int, 0int, 1int) } else if c[2].0 > c[1].0 { (0int, 2int, 1int) } else { (0int, 1int, 2int) }
    };
    assert(s =~= reorder(c, ps));
    let o = rank_group_orderings(s)[k];
    let q: (int, int, int) = if o == seq![s[0], s[1], s[2]] { (0int, 1int, 2int) }
        else if o == seq![s[0], s[2], s[1]] { (0int, 2int, 1int) }
        else if o == seq![s[1], s[0], s[2]] { (1int, 0int, 2int) }
        else if o == seq![s[1], s[2], s[0]] { (1int, 2int, 0int) }
        else if o == seq![s[2], s[0], s[1]] { (2int, 0int, 1int) }
        else { (2int, 1int, 0int) };
    assert(o =~= reorder(s, q));
    lemma_order_then(c, ps, q);
}

proof fn lemma_rank_char_injective(i: int, j: int)
    requires
        0 <= i < 13,
        0 <= j < 13,
        rank_char_at(i) == rank_char_at(j),
    ensures
        i == j,
{
    assert(crate::cards::rank_index_of(rank_char_at(i)) == Some(i));
    assert(crate::cards::rank_index_of(rank_char_at(j)) == Some(j));
}

/// Flops written alike by `first_appearance` differ only by a suit renaming.
proof fn lemma_same_text_renamed(o1: Seq<FlopCard>, o2: Seq<FlopCard>)
    requires
        o1.len() == 3,
        o2.len() == 3,
        forall|i: int| 0 <= i < 3 ==> valid_flop_card(#[trigger] o1[i]),
        forall|i: int| 0 <= i < 3 ==> valid_flop_card(#[trigger] o2[i]),
        first_appearance(o1) == first_appearance(o2),
    ensures
        exists|sigma: Seq<u8>| suit_permutation(sigma) && o2 == #[trigger] relabel(o1, sigma),
{
    assert(valid_flop_card(o1[0]) && valid_flop_card(o1[1]) && valid_flop_card(o1[2]));
    assert(valid_flop_card(o2[0]) && valid_flop_card(o2[1]) && valid_flop_card(o2[2]));
    let t1 = first_appearance(o1);
    let t2 = first_appearance(o2);
    assert(t1[0] == t2[0] && t1[1] == t2[1] && t1[2] == t2[2] && t1[3] == t2[3] && t1[4] == t2[4] && t1[5] == t2[5]);
    lemma_rank_char_injective(o1[0].0 as int, o2[0].0 as int);
    lemma_rank_char_injective(o1[1].0 as int, o2[1].0 as int);
    lemma_rank_char_injective(o1[2].0 as int, o2[2].0 as int);
    let (a0, a1, a2) = (o1[0].1 as int, o1[1].1 as int, o1[2].1 as int);
    let (b0, b1, b2) = (o2[0].1 as int, o2[1].1 as int, o2[2].1 as int);
    assert((a1 == a0) == (b1 == b0));
    assert((a2 == a0) == (b2 == b0));
    assert((a2 == a1) == (b2 == b1));
    let s1 = suit_swap(a0, b0);
    lemma_suit_swap_perm(a0, b0);
    let m1 = s1[a1] as int;
    let s2 = suit_then(s1, suit_swap(m1, b1));
    lemma_suit_swap_perm(m1, b1);
    lemma_suit_then_perm(s1, suit_swap(m1, b1));
    let m2 = s2[a2] as int;
    let s3 = suit_then(s2, suit_swap(m2, b2));
    lemma_suit_swap_perm(m2, b2);
    lemma_suit_then_perm(s2, suit_swap(m2, b2));
    assert(s1[a0] == b0);
    assert(s2[a0] == b0 && s2[a1] == b1);
    assert(s3[a0] == b0 && s3[a1] == b1 && s3[a2] == b2);
    assert(o2 =~= relabel(o1, s3));
}

/// Two flops have the same canonical form only when one is the other with its
/// cards listed in another order and its suits renamed one-to-one.
pub proof fn law_canonical_complete(c1: Seq<FlopCard>, c2: Seq<FlopCard>)
    requires
        c1.len() == 3,
        c2.len() == 3,
        forall|i: int| 0 <= i < 3 ==> valid_flop_card(#[trigger] c1[i]),
        forall|i: int| 0 <= i < 3 ==> valid_flop_card(#[trigger] c2[i]),
        canonical(c1) == canonical(c2),
    ensures
        flops_related(c1, c2),
{
    lemma_sort3_valid(c1);
    lemma_sort3_valid(c2);
    lemma_orderings_shape(sort3(c1));
    lemma_orderings_shape(sort3(c2));
    let l1 = rank_group_orderings(sort3(c1)).map_values(|o: Seq<FlopCard>| first_appearance(o));
    let l2 = rank_group_orderings(sort3(c2)).map_values(|o: Seq<FlopCard>| first_appearance(o));
    lemma_min_text_props(l1);
    lemma_min_text_props(l2);
    let k1 = choose|k: int| 0 <= k < l1.len() && l1[k] == min_text(l1);
    let k2 = choose|k: int| 0 <= k < l2.len() && l2[k] == min_text(l2);
    let o1 = rank_group_orderings(sort3(c1))[k1];
    let o2 = rank_group_orderings(sort3(c2))[k2];
    assert(first_appearance(o1) == first_appearance(o2));
    lemma_orderings_are_reorders(c1, k1);
    lemma_orderings_are_reorders(c2, k2);
    let p1 = choose|p: (int, int, int)| is_position_order(p) && o1 == #[trigger] reorder(c1, p);
    let p2 = choose|p: (int, int, int)| is_position_order(p) && o2 == #[trigger] reorder(c2, p);
    lemma_same_text_renamed(o1, o2);
    let sigma = choose|sigma: Seq<u8>| suit_permutation(sigma) && o2 == #[trigger] relabel(o1, sigma);
    // c2 = reorder(o2, inverse(p2)) = reorder(relabel(reorder(c1, p1), sigma), inverse(p2))
    let q = order_inverse(p2);
    lemma_order_inverse(c2, p2);
    assert(c2 == reorder(o2, q));
    lemma_relabel_reorder(reorder(c1, p1), q, sigma);
    lemma_order_then(c1, p1, q);
    let p = order_then(p1, q);
    assert(reorder(relabel(reorder(c1, p1), sigma), q) == relabel(reorder(reorder(c1, p1), q), sigma));
    assert(c2 == relabel(reorder(c1, p), sigma));
}

} // verus!
