//! Five-to-seven card hand evaluation: the best five-card hand and its kickers.

use vstd::prelude::*;
use core::cmp::Ordering;
use itertools::Itertools;

use crate::cards::Card;
use crate::error::GtoError;

verus! {

#[derive(Debug, Clone, Copy, PartialEq, Eq, PartialOrd, Ord, Hash, Structural)]
pub enum HandCategory {
    HighCard,
    OnePair,
    TwoPair,
    ThreeOfAKind,
    Straight,
    Flush,
    FullHouse,
    FourOfAKind,
    StraightFlush,
    RoyalFlush,
}

/// The category whose numeric rank is `r` (0 = high card ... 9 = royal flush).
pub open spec fn category_of(r: int) -> HandCategory {
    if r == 0 { HandCategory::HighCard }
    else if r == 1 { HandCategory::OnePair }
    else if r == 2 { HandCategory::TwoPair }
    else if r == 3 { HandCategory::ThreeOfAKind }
    else if r == 4 { HandCategory::Straight }
    else if r == 5 { HandCategory::Flush }
    else if r == 6 { HandCategory::FullHouse }
    else if r == 7 { HandCategory::FourOfAKind }
    else if r == 8 { HandCategory::StraightFlush }
    else { HandCategory::RoyalFlush }
}

impl HandCategory {
    /// Display name, e.g. "Three of a Kind".
    pub fn name(self) -> (s: &'static str)
        ensures
            self == HandCategory::HighCard ==> s@ == "High Card"@,
            self == HandCategory::OnePair ==> s@ == "One Pair"@,
            self == HandCategory::TwoPair ==> s@ == "Two Pair"@,
            self == HandCategory::ThreeOfAKind ==> s@ == "Three of a Kind"@,
            self == HandCategory::Straight ==> s@ == "Straight"@,
            self == HandCategory::Flush ==> s@ == "Flush"@,
            self == HandCategory::FullHouse ==> s@ == "Full House"@,
            self == HandCategory::FourOfAKind ==> s@ == "Four of a Kind"@,
            self == HandCategory::StraightFlush ==> s@ == "Straight Flush"@,
            self == HandCategory::RoyalFlush ==> s@ == "Royal Flush"@,
    {
        match self {
            HandCategory::HighCard => "High Card",
            HandCategory::OnePair => "One Pair",
            HandCategory::TwoPair => "Two Pair",
            HandCategory::ThreeOfAKind => "Three of a Kind",
            HandCategory::Straight => "Straight",
            HandCategory::Flush => "Flush",
            HandCategory::FullHouse => "Full House",
            HandCategory::FourOfAKind => "Four of a Kind",
            HandCategory::StraightFlush => "Straight Flush",
            HandCategory::RoyalFlush => "Royal Flush",
        }
    }
}

fn category_from_rank(r: u8) -> (c: HandCategory)
    ensures
        c == category_of(r as int),
{
    if r == 0 { HandCategory::HighCard }
    else if r == 1 { HandCategory::OnePair }
    else if r == 2 { HandCategory::TwoPair }
    else if r == 3 { HandCategory::ThreeOfAKind }
    else if r == 4 { HandCategory::Straight }
    else if r == 5 { HandCategory::Flush }
    else if r == 6 { HandCategory::FullHouse }
    else if r == 7 { HandCategory::FourOfAKind }
    else if r == 8 { HandCategory::StraightFlush }
    else { HandCategory::RoyalFlush }
}

/// An evaluated hand: its category rank, the kickers that break ties, and the five cards.
#[derive(Debug, Clone)]
pub struct HandResult {
    pub rank: u8,
    pub category: HandCategory,
    pub kickers: Vec<u8>,
    pub cards: Vec<Card>,
}

/// Lexicographic comparison of kicker lists (-1, 0 or 1), shorter prefix first.
pub open spec fn seq_order(a: Seq<u8>, b: Seq<u8>) -> int
    decreases a.len(),
{
    if a.len() == 0 && b.len() == 0 {
        0
    } else if a.len() == 0 {
        -1
    } else if b.len() == 0 {
        1
    } else if a[0] < b[0] {
        -1
    } else if a[0] > b[0] {
        1
    } else {
        seq_order(a.drop_first(), b.drop_first())
    }
}

/// Kicker comparison yields -1, 0 or 1.
pub proof fn lemma_seq_order_range(a: Seq<u8>, b: Seq<u8>)
    ensures
        seq_order(a, b) == -1 || seq_order(a, b) == 0 || seq_order(a, b) == 1,
    decreases a.len(),
{
    if a.len() > 0 && b.len() > 0 && a[0] == b[0] {
        lemma_seq_order_range(a.drop_first(), b.drop_first());
    }
}

/// Comparison of (rank, kickers) keys: rank first, then kickers.
pub open spec fn key_order(r1: int, k1: Seq<u8>, r2: int, k2: Seq<u8>) -> int {
    if r1 < r2 {
        -1
    } else if r1 > r2 {
        1
    } else {
        seq_order(k1, k2)
    }
}

/// How two evaluated hands compare: by rank, then by kickers.
pub open spec fn result_order(a: HandResult, b: HandResult) -> int {
    key_order(a.rank as int, a.kickers@, b.rank as int, b.kickers@)
}

fn kickers_order(a: &Vec<u8>, b: &Vec<u8>) -> (c: i8)
    ensures
        c == seq_order(a@, b@),
{
    let mut i: usize = 0;
    assert(a@.subrange(0, a@.len() as int) =~= a@);
    assert(b@.subrange(0, b@.len() as int) =~= b@);
    while i < a.len() && i < b.len()
        invariant
            i <= a@.len(),
            i <= b@.len(),
            seq_order(a@, b@) == seq_order(a@.subrange(i as int, a@.len() as int), b@.subrange(i as int, b@.len() as int)),
        decreases a@.len() - i,
    {
        let ghost sa = a@.subrange(i as int, a@.len() as int);
        let ghost sb = b@.subrange(i as int, b@.len() as int);
        if a[i] < b[i] {
            return -1;
        }
        if a[i] > b[i] {
            return 1;
        }
        assert(sa.drop_first() =~= a@.subrange(i + 1, a@.len() as int));
        assert(sb.drop_first() =~= b@.subrange(i + 1, b@.len() as int));
        i = i + 1;
    }
    if i < a.len() {
        1
    } else if i < b.len() {
        -1
    } else {
        0
    }
}

/// Compares two evaluated hands: -1, 0 or 1.
pub fn compare_results(a: &HandResult, b: &HandResult) -> (c: i8)
    ensures
        c == result_order(*a, *b),
{
    if a.rank < b.rank {
        -1
    } else if a.rank > b.rank {
        1
    } else {
        kickers_order(&a.kickers, &b.kickers)
    }
}

impl HandResult {
    pub fn new(rank: u8, category: HandCategory, kickers: Vec<u8>, cards: Vec<Card>) -> (h: Self)
        ensures
            h.rank == rank,
            h.category == category,
            h.kickers == kickers,
            h.cards == cards,
    {
        HandResult { rank, category, kickers, cards }
    }
}

/// Two results are equal when their ranks and kickers are.
impl PartialEq for HandResult {
    fn eq(&self, other: &Self) -> (r: bool) {
        compare_results(self, other) == 0
    }
}

impl vstd::std_specs::cmp::PartialEqSpecImpl for HandResult {
    open spec fn obeys_eq_spec() -> bool {
        true
    }

    open spec fn eq_spec(&self, other: &HandResult) -> bool {
        result_order(*self, *other) == 0
    }
}

impl Eq for HandResult {
}

/// Results are ordered by rank, then by kickers.
impl PartialOrd for HandResult {
    fn partial_cmp(&self, other: &Self) -> (r: Option<Ordering>) {
        let c = compare_results(self, other);
        if c < 0 {
            Some(Ordering::Less)
        } else if c == 0 {
            Some(Ordering::Equal)
        } else {
            Some(Ordering::Greater)
        }
    }
}

impl vstd::std_specs::cmp::PartialOrdSpecImpl for HandResult {
    open spec fn obeys_partial_cmp_spec() -> bool {
        true
    }

    open spec fn partial_cmp_spec(&self, other: &HandResult) -> Option<Ordering> {
        if result_order(*self, *other) < 0 {
            Some(Ordering::Less)
        } else if result_order(*self, *other) == 0 {
            Some(Ordering::Equal)
        } else {
            Some(Ordering::Greater)
        }
    }
}


// ---------------------------------------------------------------------------
// Five-card evaluation
// ---------------------------------------------------------------------------

/// Number of cards of value `v` (2..14).
pub open spec fn count_val(cs: Seq<Card>, v: int) -> int
    decreases cs.len(),
{
    if cs.len() == 0 {
        0
    } else {
        count_val(cs.drop_last(), v) + if cs.last().rank.val() == v { 1int } else { 0int }
    }
}

/// Value histogram: entry `v` is the number of cards of value `v`.
pub open spec fn counts_of(cs: Seq<Card>) -> Seq<u8> {
    Seq::new(15, |v: int| count_val(cs, v) as u8)
}

/// Highest value in `[v, 15)` seen exactly `k` times (0 if none).
pub open spec fn top_with(cn: Seq<u8>, v: int, k: int) -> int
    decreases 15 - v,
{
    if v >= 15 {
        0
    } else {
        let t = top_with(cn, v + 1, k);
        if t != 0 {
            t
        } else if cn[v] == k {
            v
        } else {
            0
        }
    }
}

/// Highest value in `[v, 15)` that is present and is neither `a` nor `b` (0 if none).
pub open spec fn top_other(cn: Seq<u8>, v: int, a: int, b: int) -> int
    decreases 15 - v,
{
    if v >= 15 {
        0
    } else {
        let t = top_other(cn, v + 1, a, b);
        if t != 0 {
            t
        } else if cn[v] > 0 && v != a && v != b {
            v
        } else {
            0
        }
    }
}

/// Lowest value in `[v, 15)` that is present (0 if none).
pub open spec fn low_present(cn: Seq<u8>, v: int) -> int
    decreases 15 - v,
{
    if v >= 15 {
        0
    } else if cn[v] > 0 {
        v
    } else {
        low_present(cn, v + 1)
    }
}

/// Number of distinct values present in `[v, 15)`.
pub open spec fn distinct(cn: Seq<u8>, v: int) -> int
    decreases 15 - v,
{
    if v >= 15 {
        0
    } else {
        distinct(cn, v + 1) + if cn[v] > 0 { 1int } else { 0int }
    }
}

pub open spec fn repeat(v: int, n: nat) -> Seq<u8> {
    Seq::new(n, |i: int| v as u8)
}

/// Values in `[v, 15)` other than `x`, highest first, each as often as it occurs.
pub open spec fn desc_excl(cn: Seq<u8>, v: int, x: int) -> Seq<u8>
    decreases 15 - v,
{
    if v >= 15 {
        Seq::empty()
    } else {
        desc_excl(cn, v + 1, x) + if v == x { Seq::<u8>::empty() } else { repeat(v, cn[v] as nat) }
    }
}

/// Values in `[v, 15)` seen exactly twice, highest first.
pub open spec fn pairs_desc(cn: Seq<u8>, v: int) -> Seq<int>
    decreases 15 - v,
{
    if v >= 15 {
        Seq::empty()
    } else {
        pairs_desc(cn, v + 1) + if cn[v] == 2 { seq![v] } else { Seq::<int>::empty() }
    }
}

/// High card of the straight the five values make (5 for the wheel), or 0.
pub open spec fn straight_high(cn: Seq<u8>) -> int {
    if distinct(cn, 2) == 5 {
        let hi = top_other(cn, 2, 0, 0);
        let lo = low_present(cn, 2);
        if hi - lo == 4 {
            hi
        } else if cn[14] > 0 && cn[2] > 0 && cn[3] > 0 && cn[4] > 0 && cn[5] > 0 {
            5
        } else {
            0
        }
    } else {
        0
    }
}

/// All five cards share the first card's suit.
pub open spec fn same_suit(cs: Seq<Card>) -> bool {
    forall|i: int| 0 <= i < cs.len() ==> #[trigger] cs[i].suit == cs[0].suit
}

/// Rank and kickers of a five-card hand.
pub open spec fn eval5(cs: Seq<Card>) -> (int, Seq<u8>) {
    let cn = counts_of(cs);
    let flush = same_suit(cs);
    let sh = straight_high(cn);
    let quad = top_with(cn, 2, 4);
    let trip = top_with(cn, 2, 3);
    let pair = top_with(cn, 2, 2);
    let pairs = pairs_desc(cn, 2);
    if flush && sh != 0 {
        if sh == 14 {
            (9, seq![14u8])
        } else {
            (8, seq![sh as u8])
        }
    } else if quad != 0 {
        (7, seq![quad as u8, top_other(cn, 2, quad, quad) as u8])
    } else if trip != 0 && pair != 0 {
        (6, seq![trip as u8, pair as u8])
    } else if flush {
        (5, desc_excl(cn, 2, 0))
    } else if sh != 0 {
        (4, seq![sh as u8])
    } else if trip != 0 {
        (3, seq![trip as u8] + desc_excl(cn, 2, trip))
    } else if pairs.len() == 2 {
        (2, seq![pairs[0] as u8, pairs[1] as u8, top_other(cn, 2, pairs[0], pairs[1]) as u8])
    } else if pairs.len() == 1 {
        (1, seq![pairs[0] as u8] + desc_excl(cn, 2, pairs[0]))
    } else {
        (0, desc_excl(cn, 2, 0))
    }
}

pub proof fn lemma_count_bounds(cs: Seq<Card>, v: int)
    ensures
        0 <= count_val(cs, v) <= cs.len(),
    decreases cs.len(),
{
    if cs.len() > 0 {
        lemma_count_bounds(cs.drop_last(), v);
    }
}

fn value_counts(cards: &[Card]) -> (cn: Vec<u8>)
    requires
        cards@.len() <= 7,
    ensures
        cn@ == counts_of(cards@),
{
    let mut cn: Vec<u8> = vec![0u8; 15];
    let mut i: usize = 0;
    while i < cards.len()
        invariant
            i <= cards@.len() <= 7,
            cn@.len() == 15,
            forall|v: int| 0 <= v < 15 ==> #[trigger] cn@[v] == count_val(cards@.subrange(0, i as int), v),
        decreases cards@.len() - i,
    {
        let ghost pre = cards@.subrange(0, i as int);
        let ghost next = cards@.subrange(0, i + 1);
        assert(next.drop_last() =~= pre);
        let v = cards[i].value() as usize;
        proof {
            lemma_count_bounds(pre, v as int);
        }
        let old_c = cn[v];
        cn.set(v, old_c + 1);
        i = i + 1;
    }
    assert(cards@.subrange(0, cards@.len() as int) =~= cards@);
    assert(cn@ =~= counts_of(cards@)) by {
        assert forall|v: int| 0 <= v < 15 implies cn@[v] == counts_of(cards@)[v] by {
            lemma_count_bounds(cards@, v);
        }
    }
    cn
}

fn top_with_exec(cn: &Vec<u8>, k: u8) -> (t: u8)
    requires
        cn@.len() == 15,
    ensures
        t == top_with(cn@, 2, k as int),
{
    let mut acc: u8 = 0;
    let mut v: usize = 15;
    while v > 2
        invariant
            cn@.len() == 15,
            2 <= v <= 15,
            acc == top_with(cn@, v as int, k as int),
            acc < 15,
        decreases v,
    {
        v = v - 1;
        if acc == 0 && cn[v] == k {
            acc = v as u8;
        }
    }
    acc
}

fn top_other_exec(cn: &Vec<u8>, a: u8, b: u8) -> (t: u8)
    requires
        cn@.len() == 15,
    ensures
        t == top_other(cn@, 2, a as int, b as int),
{
    let mut acc: u8 = 0;
    let mut v: usize = 15;
    while v > 2
        invariant
            cn@.len() == 15,
            2 <= v <= 15,
            acc == top_other(cn@, v as int, a as int, b as int),
            acc < 15,
        decreases v,
    {
        v = v - 1;
        if acc == 0 && cn[v] > 0 && v != a as usize && v != b as usize {
            acc = v as u8;
        }
    }
    acc
}

fn low_present_exec(cn: &Vec<u8>) -> (t: u8)
    requires
        cn@.len() == 15,
    ensures
        t == low_present(cn@, 2),
{
    let mut acc: u8 = 0;
    let mut v: usize = 15;
    while v > 2
        invariant
            cn@.len() == 15,
            2 <= v <= 15,
            acc == low_present(cn@, v as int),
            acc < 15,
        decreases v,
    {
        v = v - 1;
        if cn[v] > 0 {
            acc = v as u8;
        }
    }
    acc
}

fn distinct_exec(cn: &Vec<u8>) -> (d: u8)
    requires
        cn@.len() == 15,
    ensures
        d == distinct(cn@, 2),
{
    let mut acc: u8 = 0;
    let mut v: usize = 15;
    while v > 2
        invariant
            cn@.len() == 15,
            2 <= v <= 15,
            acc == distinct(cn@, v as int),
            acc <= 15 - v,
        decreases v,
    {
        v = v - 1;
        if cn[v] > 0 {
            acc = acc + 1;
        }
    }
    acc
}

fn desc_excl_exec(cn: &Vec<u8>, x: u8) -> (r: Vec<u8>)
    requires
        cn@.len() == 15,
    ensures
        r@ == desc_excl(cn@, 2, x as int),
{
    let mut acc: Vec<u8> = Vec::new();
    let mut v: usize = 15;
    while v > 2
        invariant
            cn@.len() == 15,
            2 <= v <= 15,
            acc@ == desc_excl(cn@, v as int, x as int),
        decreases v,
    {
        v = v - 1;
        if v != x as usize {
            let n = cn[v];
            let ghost base = acc@;
            let mut j: u8 = 0;
            while j < n
                invariant
                    j <= n,
                    2 <= v < 15,
                    acc@ == base + repeat(v as int, j as nat),
                decreases n - j,
            {
                acc.push(v as u8);
                j = j + 1;
                assert(acc@ =~= base + repeat(v as int, j as nat));
            }
        } else {
            assert(acc@ =~= acc@ + Seq::<u8>::empty());
        }
    }
    acc
}

fn pairs_desc_exec(cn: &Vec<u8>) -> (r: Vec<u8>)
    requires
        cn@.len() == 15,
    ensures
        r@.len() == pairs_desc(cn@, 2).len(),
        forall|i: int| 0 <= i < r@.len() ==> r@[i] as int == #[trigger] pairs_desc(cn@, 2)[i],
        forall|i: int| 0 <= i < r@.len() ==> 2 <= #[trigger] r@[i] < 15,
{
    let mut acc: Vec<u8> = Vec::new();
    let mut v: usize = 15;
    while v > 2
        invariant
            cn@.len() == 15,
            2 <= v <= 15,
            acc@.len() == pairs_desc(cn@, v as int).len(),
            forall|i: int| 0 <= i < acc@.len() ==> acc@[i] as int == #[trigger] pairs_desc(cn@, v as int)[i],
            forall|i: int| 0 <= i < acc@.len() ==> v <= #[trigger] acc@[i] < 15,
        decreases v,
    {
        v = v - 1;
        if cn[v] == 2 {
            acc.push(v as u8);
        }
    }
    acc
}

proof fn lemma_top_bounds(cn: Seq<u8>, v: int, k: int)
    requires
        v >= 2,
    ensures
        top_with(cn, v, k) == 0 || (v <= top_with(cn, v, k) < 15),
    decreases 15 - v,
{
    if v < 15 {
        lemma_top_bounds(cn, v + 1, k);
    }
}

proof fn lemma_top_other_bounds(cn: Seq<u8>, v: int, a: int, b: int)
    requires
        v >= 2,
    ensures
        top_other(cn, v, a, b) == 0 || (v <= top_other(cn, v, a, b) < 15),
    decreases 15 - v,
{
    if v < 15 {
        lemma_top_other_bounds(cn, v + 1, a, b);
    }
}

fn all_same_suit(cards: &[Card]) -> (b: bool)
    requires
        cards@.len() >= 1,
    ensures
        b == same_suit(cards@),
{
    let mut i: usize = 1;
    while i < cards.len()
        invariant
            1 <= i <= cards@.len(),
            forall|k: int| 0 <= k < i ==> #[trigger] cards@[k].suit == cards@[0].suit,
        decreases cards@.len() - i,
    {
        if cards[i].suit != cards[0].suit {
            return false;
        }
        i = i + 1;
    }
    true
}

/// Evaluates exactly five cards.
fn evaluate_five(cards: &[Card]) -> (h: HandResult)
    requires
        cards@.len() == 5,
    ensures
        h.rank as int == eval5(cards@).0,
        h.kickers@ == eval5(cards@).1,
        h.category == category_of(h.rank as int),
        h.cards@ == cards@,
{
    let cn = value_counts(cards);
    let flush = all_same_suit(cards);
    let ghost cnv = cn@;
    let d = distinct_exec(&cn);
    let mut sh: u8 = 0;
    if d == 5 {
        let hi = top_other_exec(&cn, 0, 0);
        let lo = low_present_exec(&cn);
        proof {
            lemma_top_other_bounds(cnv, 2, 0, 0);
        }
        if hi >= lo && hi - lo == 4 {
            sh = hi;
        } else if cn[14] > 0 && cn[2] > 0 && cn[3] > 0 && cn[4] > 0 && cn[5] > 0 {
            sh = 5;
        }
    }
    assert(sh as int == straight_high(cnv));
    let mut five: Vec<Card> = Vec::new();
    let mut i: usize = 0;
    while i < 5
        invariant
            i <= 5,
            cards@.len() == 5,
            five@ == cards@.subrange(0, i as int),
        decreases 5 - i,
    {
        five.push(cards[i]);
        i = i + 1;
        assert(five@ =~= cards@.subrange(0, i as int));
    }
    assert(five@ =~= cards@);
    let quad = top_with_exec(&cn, 4);
    let trip = top_with_exec(&cn, 3);
    let pair = top_with_exec(&cn, 2);
    proof {
        lemma_top_bounds(cnv, 2, 4);
        lemma_top_bounds(cnv, 2, 3);
        lemma_top_bounds(cnv, 2, 2);
    }
    let (rank, kickers): (u8, Vec<u8>) = if flush && sh != 0 {
        if sh == 14 {
            (9, vec![14u8])
        } else {
            (8, vec![sh])
        }
    } else if quad != 0 {
        let k = top_other_exec(&cn, quad, quad);
        (7, vec![quad, k])
    } else if trip != 0 && pair != 0 {
        (6, vec![trip, pair])
    } else if flush {
        (5, desc_excl_exec(&cn, 0))
    } else if sh != 0 {
        (4, vec![sh])
    } else if trip != 0 {
        let rest = desc_excl_exec(&cn, trip);
        let mut k = vec![trip];
        let mut j: usize = 0;
        while j < rest.len()
            invariant
                j <= rest@.len(),
                k@ == seq![trip] + rest@.subrange(0, j as int),
            decreases rest@.len() - j,
        {
            k.push(rest[j]);
            j = j + 1;
            assert(k@ =~= seq![trip] + rest@.subrange(0, j as int));
        }
        assert(rest@.subrange(0, rest@.len() as int) =~= rest@);
        (3, k)
    } else {
        let pairs = pairs_desc_exec(&cn);
        if pairs.len() == 2 {
            let k = top_other_exec(&cn, pairs[0], pairs[1]);
            (2, vec![pairs[0], pairs[1], k])
        } else if pairs.len() == 1 {
            let p = pairs[0];
            let rest = desc_excl_exec(&cn, p);
            let mut k = vec![p];
            let mut j: usize = 0;
            while j < rest.len()
                invariant
                    j <= rest@.len(),
                    k@ == seq![p] + rest@.subrange(0, j as int),
                decreases rest@.len() - j,
            {
                k.push(rest[j]);
                j = j + 1;
                assert(k@ =~= seq![p] + rest@.subrange(0, j as int));
            }
            assert(rest@.subrange(0, rest@.len() as int) =~= rest@);
            (1, k)
        } else {
            (0, desc_excl_exec(&cn, 0))
        }
    };
    assert(kickers@ =~= eval5(cards@).1);
    HandResult::new(rank, category_from_rank(rank), kickers, five)
}


// ---------------------------------------------------------------------------
// Best five of five to seven cards
// ---------------------------------------------------------------------------

/// The `k`-element index combinations of `s..n`, in lexicographic order.
pub open spec fn lex_combos(s: int, n: int, k: nat) -> Seq<Seq<usize>>
    decreases n - s, k,
{
    if k == 0 {
        seq![Seq::<usize>::empty()]
    } else if s >= n {
        Seq::empty()
    } else {
        lex_combos(s + 1, n, (k - 1) as nat).map_values(|c: Seq<usize>| seq![s as usize] + c)
            + lex_combos(s + 1, n, k)
    }
}

/// `itertools::Itertools::combinations` over the positions `0..n`: every
/// `k`-element index combination, in lexicographic order.
#[verifier::external_body]
fn index_combinations(n: usize, k: usize) -> (r: Vec<Vec<usize>>)
    ensures
        r@.len() == lex_combos(0, n as int, k as nat).len(),
        forall|i: int| 0 <= i < r@.len() ==> (#[trigger] r@[i])@ == lex_combos(0, n as int, k as nat)[i],
{
    (0..n).combinations(k).collect()
}

/// Each combination has `k` strictly increasing positions in `s..n`.
pub proof fn lemma_lex_combos_shape(s: int, n: int, k: nat)
    requires
        0 <= s,
        n <= usize::MAX,
    ensures
        forall|i: int| 0 <= i < lex_combos(s, n, k).len() ==> {
            let c = #[trigger] lex_combos(s, n, k)[i];
            &&& c.len() == k
            &&& forall|a: int| 0 <= a < c.len() ==> s <= #[trigger] c[a] < n
            &&& forall|a: int, b: int| 0 <= a < b < c.len() ==> #[trigger] c[a] < #[trigger] c[b]
        },
        n - s >= k ==> lex_combos(s, n, k).len() > 0,
    decreases n - s, k,
{
    if k == 0 {
    } else if s >= n {
    } else {
        lemma_lex_combos_shape(s + 1, n, (k - 1) as nat);
        lemma_lex_combos_shape(s + 1, n, k);
        let left = lex_combos(s + 1, n, (k - 1) as nat).map_values(|c: Seq<usize>| seq![s as usize] + c);
        let right = lex_combos(s + 1, n, k);
        assert forall|i: int| 0 <= i < lex_combos(s, n, k).len() implies {
            let c = #[trigger] lex_combos(s, n, k)[i];
            &&& c.len() == k
            &&& forall|a: int| 0 <= a < c.len() ==> s <= #[trigger] c[a] < n
            &&& forall|a: int, b: int| 0 <= a < b < c.len() ==> #[trigger] c[a] < #[trigger] c[b]
        } by {
            if i < left.len() {
                let d = lex_combos(s + 1, n, (k - 1) as nat)[i];
                assert(lex_combos(s, n, k)[i] == seq![s as usize] + d);
                let c = seq![s as usize] + d;
                assert forall|a: int| 0 <= a < c.len() implies s <= #[trigger] c[a] < n by {
                    if a > 0 {
                        assert(c[a] == d[a - 1]);
                    }
                }
                assert forall|a: int, b: int| 0 <= a < b < c.len() implies #[trigger] c[a] < #[trigger] c[b] by {
                    assert(c[b] == d[b - 1]);
                    if a > 0 {
                        assert(c[a] == d[a - 1]);
                    }
                }
            } else {
                assert(lex_combos(s, n, k)[i] == right[i - left.len()]);
            }
        }
    }
}

/// The cards at the given positions.
pub open spec fn pick(cs: Seq<Card>, idx: Seq<usize>) -> Seq<Card> {
    Seq::new(idx.len(), |i: int| cs[idx[i] as int])
}

/// The five-card combinations of `cs`, as positions.
pub open spec fn five_combos(cs: Seq<Card>) -> Seq<Seq<usize>> {
    lex_combos(0, cs.len() as int, 5)
}

/// Rank and kickers of the `j`-th five-card combination.
pub open spec fn combo_key(cs: Seq<Card>, j: int) -> (int, Seq<u8>) {
    eval5(pick(cs, five_combos(cs)[j]))
}

/// Position of the first best combination among the first `j` (scanning in order,
/// a later combination replaces the best only when it is strictly better).
pub open spec fn best_upto(cs: Seq<Card>, j: int) -> int
    decreases j,
{
    if j <= 1 {
        0
    } else {
        let b = best_upto(cs, j - 1);
        if key_order(combo_key(cs, j - 1).0, combo_key(cs, j - 1).1, combo_key(cs, b).0, combo_key(cs, b).1) > 0 {
            j - 1
        } else {
            b
        }
    }
}

/// Position of the chosen five-card combination of `cs`.
pub open spec fn best_index(cs: Seq<Card>) -> int {
    best_upto(cs, five_combos(cs).len() as int)
}

/// Rank and kickers of the best five-card hand in `cs`.
pub open spec fn hand_key(cs: Seq<Card>) -> (int, Seq<u8>) {
    combo_key(cs, best_index(cs))
}

/// Evaluates the best five-card hand from hole cards and board (5 to 7 cards in all).
pub fn evaluate_hand(hole_cards: &[Card], board: &[Card]) -> (r: Result<HandResult, GtoError>)
    requires
        hole_cards@.len() + board@.len() <= usize::MAX,
    ensures
        hole_cards@.len() + board@.len() < 5 ==> (r matches Err(GtoError::NotEnoughCards { need, got })
            && need == 5 && got == hole_cards@.len() + board@.len()),
        hole_cards@.len() + board@.len() >= 5 ==> (r matches Ok(h) && {
            let cs = hole_cards@ + board@;
            &&& h.rank as int == hand_key(cs).0
            &&& h.kickers@ == hand_key(cs).1
            &&& h.category == category_of(h.rank as int)
            &&& h.cards@ == pick(cs, five_combos(cs)[best_index(cs)])
        }),
{
    let mut all: Vec<Card> = Vec::new();
    let mut i: usize = 0;
    while i < hole_cards.len()
        invariant
            i <= hole_cards@.len(),
            all@ == hole_cards@.subrange(0, i as int),
        decreases hole_cards@.len() - i,
    {
        all.push(hole_cards[i]);
        i = i + 1;
        assert(all@ =~= hole_cards@.subrange(0, i as int));
    }
    let mut j: usize = 0;
    while j < board.len()
        invariant
            j <= board@.len(),
            hole_cards@.len() + board@.len() <= usize::MAX,
            all@ == hole_cards@ + board@.subrange(0, j as int),
        decreases board@.len() - j,
    {
        all.push(board[j]);
        j = j + 1;
        assert(all@ =~= hole_cards@ + board@.subrange(0, j as int));
    }
    assert(all@ =~= hole_cards@ + board@);
    let ghost cs = all@;
    let n = all.len();
    if n < 5 {
        return Err(GtoError::NotEnoughCards { need: 5, got: n });
    }
    let combos = index_combinations(n, 5);
    proof {
        lemma_lex_combos_shape(0, n as int, 5);
    }
    let mut best = evaluate_five_at(&all, &combos[0]);
    let mut best_idx: usize = 0;
    let mut k: usize = 1;
    while k < combos.len()
        invariant
            cs == all@,
            cs.len() == n,
            5 <= n,
            combos@.len() == five_combos(cs).len(),
            forall|i: int| 0 <= i < combos@.len() ==> (#[trigger] combos@[i])@ == five_combos(cs)[i],
            forall|i: int| 0 <= i < five_combos(cs).len() ==> {
                let c = #[trigger] five_combos(cs)[i];
                &&& c.len() == 5
                &&& forall|a: int| 0 <= a < c.len() ==> 0 <= #[trigger] c[a] < n
            },
            1 <= k <= combos@.len(),
            best_idx == best_upto(cs, k as int),
            best.rank as int == combo_key(cs, best_idx as int).0,
            best.kickers@ == combo_key(cs, best_idx as int).1,
            best.category == category_of(best.rank as int),
            best.cards@ == pick(cs, five_combos(cs)[best_idx as int]),
        decreases combos@.len() - k,
    {
        let result = evaluate_five_at(&all, &combos[k]);
        if compare_results(&result, &best) > 0 {
            best = result;
            best_idx = k;
        }
        k = k + 1;
    }
    Ok(best)
}

fn evaluate_five_at(all: &Vec<Card>, idx: &Vec<usize>) -> (h: HandResult)
    requires
        idx@.len() == 5,
        forall|a: int| 0 <= a < idx@.len() ==> #[trigger] idx@[a] < all@.len(),
    ensures
        h.rank as int == eval5(pick(all@, idx@)).0,
        h.kickers@ == eval5(pick(all@, idx@)).1,
        h.category == category_of(h.rank as int),
        h.cards@ == pick(all@, idx@),
{
    let mut five: Vec<Card> = Vec::new();
    let mut i: usize = 0;
    while i < 5
        invariant
            i <= 5,
            idx@.len() == 5,
            forall|a: int| 0 <= a < idx@.len() ==> #[trigger] idx@[a] < all@.len(),
            five@ == pick(all@, idx@).subrange(0, i as int),
        decreases 5 - i,
    {
        five.push(all[idx[i]]);
        i = i + 1;
        assert(five@ =~= pick(all@, idx@).subrange(0, i as int));
    }
    assert(five@ =~= pick(all@, idx@));
    evaluate_five(five.as_slice())
}

/// Compares two players' best hands on a shared board: 1, 0 or -1.
pub fn compare_hands(hand1: &[Card], hand2: &[Card], board: &[Card]) -> (r: Result<i32, GtoError>)
    requires
        hand1@.len() + board@.len() <= usize::MAX,
        hand2@.len() + board@.len() <= usize::MAX,
    ensures
        hand1@.len() + board@.len() < 5 ==> (r matches Err(GtoError::NotEnoughCards { need, got })
            && need == 5 && got == hand1@.len() + board@.len()),
        hand1@.len() + board@.len() >= 5 && hand2@.len() + board@.len() < 5 ==> (r matches Err(
            GtoError::NotEnoughCards { need, got },
        ) && need == 5 && got == hand2@.len() + board@.len()),
        hand1@.len() + board@.len() >= 5 && hand2@.len() + board@.len() >= 5 ==> (r matches Ok(c)
            && c == key_order(
            hand_key(hand1@ + board@).0,
            hand_key(hand1@ + board@).1,
            hand_key(hand2@ + board@).0,
            hand_key(hand2@ + board@).1,
        )),
{
    let r1 = evaluate_hand(hand1, board)?;
    let r2 = evaluate_hand(hand2, board)?;
    let c = compare_results(&r1, &r2);
    proof {
        lemma_seq_order_range(r1.kickers@, r2.kickers@);
    }
    if c > 0 {
        Ok(1)
    } else if c < 0 {
        Ok(-1)
    } else {
        Ok(0)
    }
}


// ---------------------------------------------------------------------------
// Laws
// ---------------------------------------------------------------------------

/// Kicker comparison is antisymmetric.
pub proof fn lemma_seq_order_antisym(a: Seq<u8>, b: Seq<u8>)
    ensures
        seq_order(a, b) == -seq_order(b, a),
    decreases a.len(),
{
    if a.len() > 0 && b.len() > 0 && a[0] == b[0] {
        lemma_seq_order_antisym(a.drop_first(), b.drop_first());
    }
}

/// Kicker lists compare equal only when they are the same list.
pub proof fn lemma_seq_order_eq(a: Seq<u8>, b: Seq<u8>)
    ensures
        seq_order(a, b) == 0 <==> a == b,
    decreases a.len(),
{
    if a.len() > 0 && b.len() > 0 && a[0] == b[0] {
        lemma_seq_order_eq(a.drop_first(), b.drop_first());
        if a.drop_first() == b.drop_first() {
            assert(a =~= seq![a[0]] + a.drop_first());
            assert(b =~= seq![b[0]] + b.drop_first());
        }
    }
    if a == b && a.len() > 0 {
        lemma_seq_order_eq(a.drop_first(), b.drop_first());
    }
    if a.len() == 0 && b.len() == 0 {
        assert(a =~= b);
    }
}

/// Kicker comparison is transitive.
pub proof fn lemma_seq_order_trans(a: Seq<u8>, b: Seq<u8>, c: Seq<u8>)
    requires
        seq_order(a, b) <= 0,
        seq_order(b, c) <= 0,
    ensures
        seq_order(a, c) <= 0,
        seq_order(a, b) < 0 || seq_order(b, c) < 0 ==> seq_order(a, c) < 0,
    decreases a.len(),
{
    lemma_seq_order_eq(a, b);
    lemma_seq_order_eq(b, c);
    if a.len() > 0 && b.len() > 0 && c.len() > 0 && a[0] == b[0] && b[0] == c[0] {
        lemma_seq_order_trans(a.drop_first(), b.drop_first(), c.drop_first());
    }
}

/// Comparing hands is antisymmetric: `compare(x, y) == -compare(y, x)`.
pub proof fn law_key_order_antisymmetric(r1: int, k1: Seq<u8>, r2: int, k2: Seq<u8>)
    ensures
        key_order(r1, k1, r2, k2) == -key_order(r2, k2, r1, k1),
{
    lemma_seq_order_antisym(k1, k2);
}

/// The hand order is transitive (strictly so when either step is strict).
pub proof fn law_key_order_transitive(r1: int, k1: Seq<u8>, r2: int, k2: Seq<u8>, r3: int, k3: Seq<u8>)
    requires
        key_order(r1, k1, r2, k2) <= 0,
        key_order(r2, k2, r3, k3) <= 0,
    ensures
        key_order(r1, k1, r3, k3) <= 0,
        key_order(r1, k1, r2, k2) < 0 || key_order(r2, k2, r3, k3) < 0 ==> key_order(r1, k1, r3, k3) < 0,
{
    if r1 == r2 && r2 == r3 {
        lemma_seq_order_trans(k1, k2, k3);
    }
}

/// Two hands compare equal exactly when rank and kickers coincide.
pub proof fn law_key_order_equal(r1: int, k1: Seq<u8>, r2: int, k2: Seq<u8>)
    ensures
        key_order(r1, k1, r2, k2) == 0 <==> (r1 == r2 && k1 == k2),
{
    lemma_seq_order_eq(k1, k2);
}

/// `compare_hands(a, b, board) == -compare_hands(b, a, board)`.
pub proof fn law_compare_hands_antisymmetric(hand1: Seq<Card>, hand2: Seq<Card>, board: Seq<Card>)
    ensures
        key_order(hand_key(hand1 + board).0, hand_key(hand1 + board).1, hand_key(hand2 + board).0, hand_key(hand2 + board).1)
            == -key_order(hand_key(hand2 + board).0, hand_key(hand2 + board).1, hand_key(hand1 + board).0, hand_key(hand1 + board).1),
{
    law_key_order_antisymmetric(hand_key(hand1 + board).0, hand_key(hand1 + board).1, hand_key(hand2 + board).0, hand_key(hand2 + board).1);
}

proof fn lemma_best_upto_max(cs: Seq<Card>, j: int)
    requires
        1 <= j,
    ensures
        0 <= best_upto(cs, j) < j,
        forall|i: int| 0 <= i < j ==> key_order(#[trigger] combo_key(cs, i).0, combo_key(cs, i).1,
            combo_key(cs, best_upto(cs, j)).0, combo_key(cs, best_upto(cs, j)).1) <= 0,
        forall|i: int| 0 <= i < best_upto(cs, j) ==> key_order(#[trigger] combo_key(cs, i).0, combo_key(cs, i).1,
            combo_key(cs, best_upto(cs, j)).0, combo_key(cs, best_upto(cs, j)).1) < 0,
    decreases j,
{
    if j == 1 {
        law_key_order_equal(combo_key(cs, 0).0, combo_key(cs, 0).1, combo_key(cs, 0).0, combo_key(cs, 0).1);
    } else {
        lemma_best_upto_max(cs, j - 1);
        let b = best_upto(cs, j - 1);
        let kb = combo_key(cs, b);
        let kn = combo_key(cs, j - 1);
        if key_order(kn.0, kn.1, kb.0, kb.1) > 0 {
            law_key_order_antisymmetric(kn.0, kn.1, kb.0, kb.1);
            assert forall|i: int| 0 <= i < j implies key_order(#[trigger] combo_key(cs, i).0, combo_key(cs, i).1, kn.0, kn.1) <= 0 by {
                if i < j - 1 {
                    law_key_order_transitive(combo_key(cs, i).0, combo_key(cs, i).1, kb.0, kb.1, kn.0, kn.1);
                } else {
                    law_key_order_equal(kn.0, kn.1, kn.0, kn.1);
                }
            }
            assert forall|i: int| 0 <= i < j - 1 implies key_order(#[trigger] combo_key(cs, i).0, combo_key(cs, i).1, kn.0, kn.1) < 0 by {
                law_key_order_transitive(combo_key(cs, i).0, combo_key(cs, i).1, kb.0, kb.1, kn.0, kn.1);
            }
        } else {
            law_key_order_antisymmetric(kn.0, kn.1, kb.0, kb.1);
        }
    }
}

/// Every strictly increasing `k`-tuple of positions in `s..n` is among the combinations.
pub proof fn lemma_lex_combos_complete(s: int, n: int, k: nat, t: Seq<usize>)
    requires
        0 <= s,
        t.len() == k,
        forall|a: int| 0 <= a < t.len() ==> s <= #[trigger] t[a] < n,
        forall|a: int, b: int| 0 <= a < b < t.len() ==> #[trigger] t[a] < #[trigger] t[b],
    ensures
        lex_combos(s, n, k).contains(t),
    decreases n - s, k,
{
    if k == 0 {
        assert(t =~= Seq::<usize>::empty());
        assert(lex_combos(s, n, k)[0] == t);
    } else {
        assert(t[0] < n);
        let left = lex_combos(s + 1, n, (k - 1) as nat).map_values(|c: Seq<usize>| seq![s as usize] + c);
        if t[0] == s {
            let tail = t.drop_first();
            assert forall|a: int| 0 <= a < tail.len() implies s + 1 <= #[trigger] tail[a] < n by {
                assert(t[0] < t[a + 1]);
            }
            assert forall|a: int, b: int| 0 <= a < b < tail.len() implies #[trigger] tail[a] < #[trigger] tail[b] by {
                assert(t[a + 1] < t[b + 1]);
            }
            lemma_lex_combos_complete(s + 1, n, (k - 1) as nat, tail);
            let i = choose|i: int| 0 <= i < lex_combos(s + 1, n, (k - 1) as nat).len()
                && #[trigger] lex_combos(s + 1, n, (k - 1) as nat)[i] == tail;
            assert(t =~= seq![s as usize] + tail);
            assert(lex_combos(s, n, k)[i] == t);
        } else {
            assert forall|a: int| 0 <= a < t.len() implies s + 1 <= #[trigger] t[a] < n by {
                if a > 0 {
                    assert(t[0] < t[a]);
                }
            }
            lemma_lex_combos_complete(s + 1, n, k, t);
            let i = choose|i: int| 0 <= i < lex_combos(s + 1, n, k).len() && #[trigger] lex_combos(s + 1, n, k)[i] == t;
            assert(lex_combos(s, n, k)[left.len() + i] == t);
        }
    }
}

/// The evaluated hand is at least as good as every five cards chosen from the
/// hole cards and board, and strictly better than every combination listed before it.
pub proof fn law_best_hand_is_maximal(cs: Seq<Card>, t: Seq<usize>)
    requires
        cs.len() >= 5,
        t.len() == 5,
        forall|a: int| 0 <= a < t.len() ==> #[trigger] t[a] < cs.len(),
        forall|a: int, b: int| 0 <= a < b < t.len() ==> #[trigger] t[a] < #[trigger] t[b],
    ensures
        key_order(eval5(pick(cs, t)).0, eval5(pick(cs, t)).1, hand_key(cs).0, hand_key(cs).1) <= 0,
        forall|j: int| 0 <= j < best_index(cs) ==> key_order(#[trigger] combo_key(cs, j).0, combo_key(cs, j).1,
            hand_key(cs).0, hand_key(cs).1) < 0,
{
    lemma_lex_combos_complete(0, cs.len() as int, 5, t);
    let combos = five_combos(cs);
    let j = choose|j: int| 0 <= j < combos.len() && #[trigger] combos[j] == t;
    lemma_best_upto_max(cs, combos.len() as int);
    assert(combo_key(cs, j) == eval5(pick(cs, t)));
}

proof fn lemma_lex_combos_short(s: int, n: int, k: nat)
    requires
        n - s < k,
        k > 0,
    ensures
        lex_combos(s, n, k).len() == 0,
    decreases n - s, k,
{
    if k > 0 && s < n {
        lemma_lex_combos_short(s + 1, n, (k - 1) as nat);
        lemma_lex_combos_short(s + 1, n, k);
    }
}

proof fn lemma_lex_combos_exact(s: int, n: int, k: nat)
    requires
        n - s == k,
        0 <= s,
    ensures
        lex_combos(s, n, k).len() == 1,
        lex_combos(s, n, k)[0] == Seq::new(k, |i: int| (s + i) as usize),
    decreases k,
{
    if k > 0 {
        lemma_lex_combos_exact(s + 1, n, (k - 1) as nat);
        lemma_lex_combos_short(s + 1, n, k);
        let tail = lex_combos(s + 1, n, (k - 1) as nat);
        let mapped = tail.map_values(|c: Seq<usize>| seq![s as usize] + c);
        assert(lex_combos(s, n, k) =~= mapped + lex_combos(s + 1, n, k));
        assert(mapped[0] =~= Seq::new(k, |i: int| (s + i) as usize));
    } else {
        assert(Seq::new(k, |i: int| (s + i) as usize) =~= Seq::<usize>::empty());
    }
}

/// Five cards alone evaluate to their own rank and kickers.
pub proof fn law_five_cards_key(s: Seq<Card>)
    requires
        s.len() == 5,
    ensures
        hand_key(s) == eval5(s),
        five_combos(s).len() == 1,
        pick(s, five_combos(s)[best_index(s)]) == s,
{
    lemma_lex_combos_exact(0, 5, 5);
    let t = five_combos(s)[0];
    assert(best_index(s) == 0);
    assert(pick(s, t) =~= s);
}

/// No five of the cards evaluated on their own make a better hand than the
/// cards evaluated together: for any five positions `t` of `cs`, the key of
/// those five cards alone is at most the key of `cs`.
pub proof fn law_no_better_five(cs: Seq<Card>, t: Seq<usize>)
    requires
        cs.len() >= 5,
        t.len() == 5,
        forall|a: int| 0 <= a < t.len() ==> #[trigger] t[a] < cs.len(),
        forall|a: int, b: int| 0 <= a < b < t.len() ==> #[trigger] t[a] < #[trigger] t[b],
    ensures
        key_order(hand_key(pick(cs, t)).0, hand_key(pick(cs, t)).1, hand_key(cs).0, hand_key(cs).1) <= 0,
{
    law_five_cards_key(pick(cs, t));
    law_best_hand_is_maximal(cs, t);
}

/// How often the value `v` occurs in a list of kickers.
pub open spec fn occurrences(k: Seq<u8>, v: int) -> int
    decreases k.len(),
{
    if k.len() == 0 {
        0
    } else {
        occurrences(k.drop_last(), v) + if k.last() as int == v { 1int } else { 0int }
    }
}

proof fn lemma_occurrences_concat(a: Seq<u8>, b: Seq<u8>, v: int)
    ensures
        occurrences(a + b, v) == occurrences(a, v) + occurrences(b, v),
    decreases b.len(),
{
    if b.len() > 0 {
        assert((a + b).drop_last() =~= a + b.drop_last());
        lemma_occurrences_concat(a, b.drop_last(), v);
    } else {
        assert(a + b =~= a);
    }
}

proof fn lemma_occurrences_repeat(x: int, n: nat, v: int)
    requires
        0 <= x < 256,
    ensures
        occurrences(repeat(x, n), v) == if x == v { n as int } else { 0 },
    decreases n,
{
    if n > 0 {
        assert(repeat(x, n).drop_last() =~= repeat(x, (n - 1) as nat));
        lemma_occurrences_repeat(x, (n - 1) as nat, v);
    } else {
        assert(repeat(x, n) =~= Seq::<u8>::empty());
    }
}

/// Sum of the histogram entries from `v` up.
pub open spec fn hist_total(cn: Seq<u8>, v: int) -> int
    decreases 15 - v,
{
    if v >= 15 { 0 } else { cn[v] + hist_total(cn, v + 1) }
}

proof fn lemma_desc_all(cn: Seq<u8>, v: int, w: int)
    requires
        1 <= v <= 15,
        cn.len() == 15,
    ensures
        occurrences(desc_excl(cn, v, 0), w) == if v <= w < 15 { cn[w] as int } else { 0 },
        desc_excl(cn, v, 0).len() == hist_total(cn, v),
        forall|i: int| 0 <= i < desc_excl(cn, v, 0).len() ==> v <= #[trigger] desc_excl(cn, v, 0)[i] < 15,
        forall|i: int, j: int| 0 <= i < j < desc_excl(cn, v, 0).len()
            ==> #[trigger] desc_excl(cn, v, 0)[i] >= #[trigger] desc_excl(cn, v, 0)[j],
    decreases 15 - v,
{
    if v < 15 {
        lemma_desc_all(cn, v + 1, w);
        let left = desc_excl(cn, v + 1, 0);
        let right = repeat(v, cn[v] as nat);
        assert(desc_excl(cn, v, 0) =~= left + right);
        lemma_occurrences_concat(left, right, w);
        lemma_occurrences_repeat(v, cn[v] as nat, w);
        let d = desc_excl(cn, v, 0);
        assert forall|i: int| 0 <= i < d.len() implies v <= #[trigger] d[i] < 15 by {
            if i < left.len() {
                assert(d[i] == left[i]);
            } else {
                assert(d[i] == right[i - left.len()]);
            }
        }
        assert forall|i: int, j: int| 0 <= i < j < d.len() implies #[trigger] d[i] >= #[trigger] d[j] by {
            if j < left.len() {
                assert(d[i] == left[i] && d[j] == left[j]);
            } else if i < left.len() {
                assert(d[i] == left[i] && d[j] == right[j - left.len()]);
            } else {
                assert(d[i] == right[i - left.len()] && d[j] == right[j - left.len()]);
            }
        }
    } else {
        assert(desc_excl(cn, v, 0) =~= Seq::<u8>::empty());
    }
}

proof fn lemma_count_val_bounds(cs: Seq<Card>, v: int)
    ensures
        0 <= count_val(cs, v) <= cs.len(),
    decreases cs.len(),
{
    if cs.len() > 0 {
        lemma_count_val_bounds(cs.drop_last(), v);
    }
}

/// Sum of `count_val` over the values from `v` up.
spec fn count_total(cs: Seq<Card>, v: int) -> int
    decreases 15 - v,
{
    if v >= 15 { 0 } else { count_val(cs, v) + count_total(cs, v + 1) }
}

proof fn lemma_count_total_step(cs: Seq<Card>, v: int)
    requires
        cs.len() > 0,
        v <= 15,
    ensures
        count_total(cs, v) == count_total(cs.drop_last(), v)
            + if v <= cs.last().rank.val() { 1int } else { 0int },
    decreases 15 - v,
{
    if v < 15 {
        lemma_count_total_step(cs, v + 1);
    }
}

proof fn lemma_count_total(cs: Seq<Card>)
    ensures
        count_total(cs, 2) == cs.len(),
    decreases cs.len(),
{
    if cs.len() > 0 {
        lemma_count_total_step(cs, 2);
        lemma_count_total(cs.drop_last());
    } else {
        lemma_count_total_empty(cs, 2);
    }
}

proof fn lemma_count_total_empty(cs: Seq<Card>, v: int)
    requires
        cs.len() == 0,
    ensures
        count_total(cs, v) == 0,
    decreases 15 - v,
{
    if v < 15 {
        lemma_count_total_empty(cs, v + 1);
    }
}

proof fn lemma_hist_total(cs: Seq<Card>, v: int)
    requires
        cs.len() <= 255,
        0 <= v,
    ensures
        hist_total(counts_of(cs), v) == count_total(cs, v),
    decreases 15 - v,
{
    if v < 15 {
        lemma_count_val_bounds(cs, v);
        lemma_hist_total(cs, v + 1);
    }
}

/// A high-card hand and a flush keep all five card values as kickers,
/// highest first: the kickers are exactly the card values (each value as
/// often as the cards show it) in descending order.
pub proof fn law_high_card_keeps_all_values(cs: Seq<Card>)
    requires
        cs.len() == 5,
        hand_key(cs).0 == 0 || hand_key(cs).0 == 5,
    ensures
        hand_key(cs).1.len() == 5,
        forall|i: int, j: int| 0 <= i < j < 5 ==> #[trigger] hand_key(cs).1[i] >= #[trigger] hand_key(cs).1[j],
        forall|i: int| 0 <= i < 5 ==> 2 <= #[trigger] hand_key(cs).1[i] <= 14,
        forall|w: int| 2 <= w <= 14 ==> #[trigger] occurrences(hand_key(cs).1, w) == count_val(cs, w),
{
    law_five_cards_key(cs);
    let cn = counts_of(cs);
    assert(hand_key(cs).1 == desc_excl(cn, 2, 0));
    lemma_desc_all(cn, 2, 0);
    lemma_hist_total(cs, 2);
    lemma_count_total(cs);
    assert forall|w: int| 2 <= w <= 14 implies #[trigger] occurrences(hand_key(cs).1, w) == count_val(cs, w) by {
        lemma_desc_all(cn, 2, w);
        lemma_count_val_bounds(cs, w);
    }
}

proof fn lemma_seq_order_zero(a: Seq<u8>, b: Seq<u8>)
    requires
        seq_order(a, b) == 0,
    ensures
        a == b,
    decreases a.len(),
{
    if a.len() > 0 && b.len() > 0 {
        lemma_seq_order_zero(a.drop_first(), b.drop_first());
        assert(a =~= seq![a[0]] + a.drop_first());
        assert(b =~= seq![b[0]] + b.drop_first());
    } else {
        assert(a =~= b);
    }
}

/// Two five-card high-card hands tie only when they hold the same card
/// values: if any value occurs a different number of times, one beats the other.
pub proof fn law_high_cards_tie_on_equal_values(a: Seq<Card>, b: Seq<Card>)
    requires
        a.len() == 5,
        b.len() == 5,
        hand_key(a).0 == 0,
        hand_key(b).0 == 0,
        key_order(hand_key(a).0, hand_key(a).1, hand_key(b).0, hand_key(b).1) == 0,
    ensures
        forall|w: int| 2 <= w <= 14 ==> #[trigger] count_val(a, w) == count_val(b, w),
{
    lemma_seq_order_zero(hand_key(a).1, hand_key(b).1);
    law_high_card_keeps_all_values(a);
    law_high_card_keeps_all_values(b);
    assert forall|w: int| 2 <= w <= 14 implies #[trigger] count_val(a, w) == count_val(b, w) by {
        assert(occurrences(hand_key(a).1, w) == count_val(a, w));
        assert(occurrences(hand_key(b).1, w) == count_val(b, w));
    }
}

proof fn lemma_desc_excl_any(cn: Seq<u8>, v: int, x: int, w: int)
    requires
        1 <= v <= 15,
        cn.len() == 15,
    ensures
        occurrences(desc_excl(cn, v, x), w) == if v <= w < 15 && w != x { cn[w] as int } else { 0 },
        desc_excl(cn, v, x).len() == hist_total(cn, v) - if v <= x < 15 { cn[x] as int } else { 0 },
        forall|i: int| 0 <= i < desc_excl(cn, v, x).len() ==> v <= #[trigger] desc_excl(cn, v, x)[i] < 15,
        forall|i: int, j: int| 0 <= i < j < desc_excl(cn, v, x).len()
            ==> #[trigger] desc_excl(cn, v, x)[i] >= #[trigger] desc_excl(cn, v, x)[j],
    decreases 15 - v,
{
    if v < 15 {
        lemma_desc_excl_any(cn, v + 1, x, w);
        let left = desc_excl(cn, v + 1, x);
        let right = if v == x { Seq::<u8>::empty() } else { repeat(v, cn[v] as nat) };
        assert(desc_excl(cn, v, x) =~= left + right);
        lemma_occurrences_concat(left, right, w);
        if v != x {
            lemma_occurrences_repeat(v, cn[v] as nat, w);
        }
        let d = desc_excl(cn, v, x);
        assert forall|i: int| 0 <= i < d.len() implies v <= #[trigger] d[i] < 15 by {
            if i < left.len() {
                assert(d[i] == left[i]);
            } else {
                assert(d[i] == right[i - left.len()]);
            }
        }
        assert forall|i: int, j: int| 0 <= i < j < d.len() implies #[trigger] d[i] >= #[trigger] d[j] by {
            if j < left.len() {
                assert(d[i] == left[i] && d[j] == left[j]);
            } else if i < left.len() {
                assert(d[i] == left[i] && d[j] == right[j - left.len()]);
            } else {
                assert(d[i] == right[i - left.len()] && d[j] == right[j - left.len()]);
            }
        }
    } else {
        assert(desc_excl(cn, v, x) =~= Seq::<u8>::empty());
    }
}

proof fn lemma_pairs_desc_twice(cn: Seq<u8>, v: int)
    requires
        0 <= v <= 15,
        cn.len() == 15,
    ensures
        forall|i: int| 0 <= i < pairs_desc(cn, v).len() ==> v <= #[trigger] pairs_desc(cn, v)[i] < 15
            && cn[pairs_desc(cn, v)[i]] == 2,
    decreases 15 - v,
{
    if v < 15 {
        lemma_pairs_desc_twice(cn, v + 1);
        let p = pairs_desc(cn, v);
        let l = pairs_desc(cn, v + 1);
        assert forall|i: int| 0 <= i < p.len() implies v <= #[trigger] p[i] < 15 && cn[p[i]] == 2 by {
            if i < l.len() {
                assert(p[i] == l[i]);
            }
        }
    }
}

/// A one-pair hand names its pair first, then the three other card values,
/// highest first: the first kicker is a value the five cards show exactly
/// twice, and the other kickers are the remaining card values in descending order.
pub proof fn law_one_pair_kickers(cs: Seq<Card>)
    requires
        cs.len() == 5,
        hand_key(cs).0 == 1,
    ensures
        hand_key(cs).1.len() == 4,
        count_val(cs, hand_key(cs).1[0] as int) == 2,
        forall|i: int, j: int| 1 <= i < j < 4 ==> #[trigger] hand_key(cs).1[i] >= #[trigger] hand_key(cs).1[j],
        forall|i: int| 0 <= i < 4 ==> 2 <= #[trigger] hand_key(cs).1[i] <= 14,
        forall|w: int| 2 <= w <= 14 && w != hand_key(cs).1[0] ==> #[trigger] occurrences(hand_key(cs).1, w) == count_val(cs, w),
{
    law_five_cards_key(cs);
    let cn = counts_of(cs);
    let pairs = pairs_desc(cn, 2);
    lemma_pairs_desc_twice(cn, 2);
    assert(pairs.len() == 1);
    let p = pairs[0];
    let rest = desc_excl(cn, 2, p);
    let k = hand_key(cs).1;
    assert(k == seq![p as u8] + rest);
    lemma_count_val_bounds(cs, p);
    assert(count_val(cs, p) == 2);
    lemma_desc_excl_any(cn, 2, p, 0);
    lemma_hist_total(cs, 2);
    lemma_count_total(cs);
    assert forall|i: int| 1 <= i < 4 implies k[i] == rest[i - 1] by {}
    assert forall|w: int| 2 <= w <= 14 && w != k[0] implies #[trigger] occurrences(k, w) == count_val(cs, w) by {
        lemma_desc_excl_any(cn, 2, p, w);
        lemma_count_val_bounds(cs, w);
        lemma_occurrences_concat(seq![p as u8], rest, w);
        assert(seq![p as u8].drop_last() =~= Seq::<u8>::empty());
        assert(occurrences(Seq::<u8>::empty(), w) == 0);
        assert(p as u8 as int == p);
        assert(occurrences(seq![p as u8], w) == 0);
    }
}

} // verus!
