//! Monte Carlo equity: random runouts of the remaining deck, counting how
//! often the hero's best hand wins, ties or loses.

use vstd::prelude::*;
use rayon::iter::{IntoParallelIterator, IntoParallelRefIterator, ParallelIterator};
use crate::cards::{Card, Deck, hand_combos, contains_card, fresh_deck, deck_upto, card_at, card_idx,
    lemma_idx_card_at, combos_spec, combos_error};
use crate::error::GtoError;
use crate::hand_evaluator::{evaluate_hand, compare_results, hand_key, key_order, lemma_seq_order_range};
use crate::postflop::bit;
use crate::ranges::{combos_defined, live};
use crate::text::trim;

verus! {

/// Win, tie and loss counts of a simulation.
#[derive(Debug, Clone, Copy, PartialEq, Eq, Structural)]
pub struct EquityCounts {
    pub wins: u64,
    pub ties: u64,
    pub losses: u64,
}

impl EquityCounts {
    pub open spec fn total(self) -> int {
        self.wins + self.ties + self.losses
    }
}

/// The deck without the dead cards, in deck order.
pub fn build_remaining_deck(dead: &[Card]) -> (r: Vec<Card>)
    ensures
        r@ == fresh_deck(dead@),
{
    Deck::new(Some(dead)).cards
}

proof fn lemma_concat_contains(ex: Seq<Card>, s: Seq<Card>, c: Card)
    ensures
        (ex + s).contains(c) <==> (ex.contains(c) || s.contains(c)),
{
    if (ex + s).contains(c) {
        let k = choose|k: int| 0 <= k < (ex + s).len() && (ex + s)[k] == c;
        if k < ex.len() {
            assert(ex[k] == c);
        } else {
            assert(s[k - ex.len()] == c);
        }
    }
    if ex.contains(c) {
        let k = choose|k: int| 0 <= k < ex.len() && ex[k] == c;
        assert((ex + s)[k] == c);
    }
    if s.contains(c) {
        let k = choose|k: int| 0 <= k < s.len() && s[k] == c;
        assert((ex + s)[ex.len() + k] == c);
    }
}

proof fn lemma_deck_two_more(n: int, ex: Seq<Card>, a: Card, b: Card)
    requires
        0 <= n <= 52,
    ensures
        deck_upto(n, ex).len() <= deck_upto(n, ex + seq![a, b]).len()
            + bit(card_idx(a) < n) + bit(card_idx(b) < n),
    decreases n,
{
    if n > 0 {
        lemma_deck_two_more(n - 1, ex, a, b);
        let c = card_at(n - 1);
        lemma_idx_card_at(n - 1);
        lemma_concat_contains(ex, seq![a, b], c);
        if !ex.contains(c) && (ex + seq![a, b]).contains(c) {
            assert(seq![a, b].contains(c));
            let k = choose|k: int| 0 <= k < 2 && seq![a, b][k] == c;
            assert(c == a || c == b);
        }
    }
}

/// A deck with two more cards removed is at most two cards shorter.
proof fn lemma_fresh_deck_two_more(ex: Seq<Card>, a: Card, b: Card)
    ensures
        fresh_deck(ex + seq![a, b]).len() + 2 >= fresh_deck(ex).len(),
{
    lemma_deck_two_more(52, ex, a, b);
}

/// How the hero's best hand does against the villain's on a full board:
/// 1 wins, 0 ties, -1 loses.
pub open spec fn showdown(hero: Seq<Card>, villain: Seq<Card>, full_board: Seq<Card>) -> int {
    let a = hand_key(hero + full_board);
    let b = hand_key(villain + full_board);
    key_order(a.0, a.1, b.0, b.1)
}

/// Whether one runout can end in `o`: some reordering of the remaining cards
/// completes the board, and the showdown on that board is `o`.
pub open spec fn possible_outcome(hero: Seq<Card>, villain: Seq<Card>, board: Seq<Card>, remaining: Seq<Card>, o: int) -> bool {
    exists|perm: Seq<Card>| #[trigger] perm.to_multiset() == remaining.to_multiset()
        && perm.len() >= 5 - board.len()
        && o == showdown(hero, villain, board + perm.subrange(0, 5 - board.len()))
}

/// Wins, ties and losses among outcomes (positive, zero, negative).
pub open spec fn tally(outs: Seq<i8>) -> (int, int, int)
    decreases outs.len(),
{
    if outs.len() == 0 {
        (0, 0, 0)
    } else {
        let t = tally(outs.drop_last());
        if outs.last() > 0 {
            (t.0 + 1, t.1, t.2)
        } else if outs.last() == 0 {
            (t.0, t.1 + 1, t.2)
        } else {
            (t.0, t.1, t.2 + 1)
        }
    }
}

/// Counts that `sims` runouts of hero against villain can give: the tally of
/// `sims` outcomes, each one a runout can end in.
pub open spec fn possible_counts(
    hero: Seq<Card>, villain: Seq<Card>, board: Seq<Card>, remaining: Seq<Card>, sims: int, c: EquityCounts,
) -> bool {
    exists|outs: Seq<i8>| #[trigger] tally(outs) == (c.wins as int, c.ties as int, c.losses as int)
        && outs.len() == sims
        && forall|i: int| 0 <= i < outs.len() ==> possible_outcome(hero, villain, board, remaining, #[trigger] outs[i] as int)
}

/// One random runout: 1 if the hero's best hand wins, 0 on a tie, -1 if it
/// loses. The runout is the top of a random reordering of the remaining cards.
pub fn trial_outcome(hero: &Vec<Card>, villain: &Vec<Card>, board: &Vec<Card>, remaining: &Vec<Card>) -> (r: i8)
    requires
        hero@.len() + 5 <= usize::MAX,
        villain@.len() + 5 <= usize::MAX,
        board@.len() <= 5,
        remaining@.len() >= 5 - board@.len(),
    ensures
        -1 <= r <= 1,
        possible_outcome(hero@, villain@, board@, remaining@, r as int),
{
    let mut deck = Deck { cards: remaining.clone() };
    deck.shuffle();
    proof {
        deck.cards@.to_multiset_ensures();
        remaining@.to_multiset_ensures();
    }
    let r = runout_outcome(hero, villain, board, &deck.cards);
    proof {
        assert(deck.cards@.to_multiset() == remaining@.to_multiset());
    }
    r
}

/// The showdown when the board is completed from the top of `deck`: 1 if the
/// hero's best hand wins, 0 on a tie, -1 if it loses.
pub fn runout_outcome(hero: &Vec<Card>, villain: &Vec<Card>, board: &Vec<Card>, deck: &Vec<Card>) -> (r: i8)
    requires
        hero@.len() + 5 <= usize::MAX,
        villain@.len() + 5 <= usize::MAX,
        board@.len() <= 5,
        deck@.len() >= 5 - board@.len(),
    ensures
        -1 <= r <= 1,
        r == showdown(hero@, villain@, board@ + deck@.subrange(0, 5 - board@.len())),
{
    let needed = 5 - board.len();
    let mut full_board: Vec<Card> = Vec::new();
    let mut i: usize = 0;
    while i < board.len()
        invariant
            i <= board@.len(),
            full_board@ == board@.subrange(0, i as int),
        decreases board@.len() - i,
    {
        full_board.push(board[i]);
        i = i + 1;
        assert(full_board@ =~= board@.subrange(0, i as int));
    }
    assert(full_board@ =~= board@);
    let mut j: usize = 0;
    while j < needed
        invariant
            needed == 5 - board@.len(),
            j <= needed,
            deck@.len() >= needed,
            full_board@ == board@ + deck@.subrange(0, j as int),
        decreases needed - j,
    {
        full_board.push(deck[j]);
        j = j + 1;
        assert(full_board@ =~= board@ + deck@.subrange(0, j as int));
    }
    let r1 = evaluate_hand(hero.as_slice(), full_board.as_slice());
    let r2 = evaluate_hand(villain.as_slice(), full_board.as_slice());
    match (r1, r2) {
        (Ok(a), Ok(b)) => {
            let c = compare_results(&a, &b);
            proof {
                lemma_seq_order_range(a.kickers@, b.kickers@);
                assert(c == showdown(hero@, villain@, full_board@));
            }
            c
        },
        _ => 0,
    }
}

fn sum_counts(outcomes: &Vec<i8>) -> (c: EquityCounts)
    ensures
        (c.wins as int, c.ties as int, c.losses as int) == tally(outcomes@),
        c.total() == outcomes@.len(),
{
    let mut c = EquityCounts { wins: 0, ties: 0, losses: 0 };
    let mut i: usize = 0;
    while i < outcomes.len()
        invariant
            i <= outcomes@.len(),
            c.total() == i,
            (c.wins as int, c.ties as int, c.losses as int) == tally(outcomes@.subrange(0, i as int)),
        decreases outcomes@.len() - i,
    {
        assert(outcomes@.subrange(0, i + 1).drop_last() =~= outcomes@.subrange(0, i as int));
        if outcomes[i] > 0 {
            c.wins = c.wins + 1;
        } else if outcomes[i] == 0 {
            c.ties = c.ties + 1;
        } else {
            c.losses = c.losses + 1;
        }
        i = i + 1;
    }
    assert(outcomes@.subrange(0, i as int) =~= outcomes@);
    c
}

/// `rayon`: runs `trial_outcome` `n` times in parallel and collects the
/// outcomes, so each element is a result `trial_outcome` returned.
#[verifier::external_body]
fn parallel_trials(hero: &Vec<Card>, villain: &Vec<Card>, board: &Vec<Card>, remaining: &Vec<Card>, n: usize) -> (r: Vec<i8>)
    requires
        hero@.len() + 5 <= usize::MAX,
        villain@.len() + 5 <= usize::MAX,
        board@.len() <= 5,
        remaining@.len() >= 5 - board@.len(),
    ensures
        r@.len() == n,
        forall|i: int| 0 <= i < n ==> possible_outcome(hero@, villain@, board@, remaining@, #[trigger] r@[i] as int),
{
    (0..n).into_par_iter().map(|_| trial_outcome(hero, villain, board, remaining)).collect()
}

fn to_vec(cards: &[Card]) -> (v: Vec<Card>)
    ensures
        v@ == cards@,
{
    let mut v: Vec<Card> = Vec::new();
    let mut i: usize = 0;
    while i < cards.len()
        invariant
            i <= cards@.len(),
            v@ == cards@.subrange(0, i as int),
        decreases cards@.len() - i,
    {
        v.push(cards[i]);
        i = i + 1;
        assert(v@ =~= cards@.subrange(0, i as int));
    }
    assert(v@ =~= cards@);
    v
}

fn concat3(a: &[Card], b: &[Card], c: &[Card]) -> (v: Vec<Card>)
    ensures
        v@ == a@ + b@ + c@,
{
    let mut v = to_vec(a);
    let mut i: usize = 0;
    while i < b.len()
        invariant
            i <= b@.len(),
            v@ == a@ + b@.subrange(0, i as int),
        decreases b@.len() - i,
    {
        v.push(b[i]);
        i = i + 1;
        assert(v@ =~= a@ + b@.subrange(0, i as int));
    }
    assert(b@.subrange(0, b@.len() as int) =~= b@);
    let mut j: usize = 0;
    while j < c.len()
        invariant
            j <= c@.len(),
            v@ == a@ + b@ + c@.subrange(0, j as int),
        decreases c@.len() - j,
    {
        v.push(c[j]);
        j = j + 1;
        assert(v@ =~= a@ + b@ + c@.subrange(0, j as int));
    }
    assert(c@.subrange(0, c@.len() as int) =~= c@);
    v
}

/// Win/tie/loss counts of `simulations` random runouts of hand one against
/// hand two, given the board so far (no board when `None`).
pub fn equity_counts_vs_hand(hand1: &[Card], hand2: &[Card], board: Option<&[Card]>, simulations: usize) -> (c: EquityCounts)
    requires
        hand1@.len() + 5 <= usize::MAX,
        hand2@.len() + 5 <= usize::MAX,
        match board {
            Some(b) => b@.len() <= 5 && fresh_deck(hand1@ + hand2@ + b@).len() >= 5 - b@.len(),
            None => fresh_deck(hand1@ + hand2@ + Seq::<Card>::empty()).len() >= 5,
        },
    ensures
        c.total() == simulations,
        ({
            let b = match board { Some(b) => b@, None => Seq::<Card>::empty() };
            possible_counts(hand1@, hand2@, b, fresh_deck(hand1@ + hand2@ + b), simulations as int, c)
        }),
{
    let no_board: Vec<Card> = Vec::new();
    let b: &[Card] = match board {
        Some(b) => b,
        None => no_board.as_slice(),
    };
    let dead = concat3(hand1, hand2, b);
    let remaining = build_remaining_deck(dead.as_slice());
    let board_vec = to_vec(b);
    let h1 = to_vec(hand1);
    let h2 = to_vec(hand2);
    let outcomes = parallel_trials(&h1, &h2, &board_vec, &remaining, simulations);
    let c = sum_counts(&outcomes);
    assert(possible_counts(hand1@, hand2@, b@, remaining@, simulations as int, c)) by {
        assert(tally(outcomes@) == (c.wins as int, c.ties as int, c.losses as int));
    }
    c
}

/// The combos that use no dead card, in order.
pub open spec fn live_part(cs: Seq<(Card, Card)>, dead: Seq<Card>) -> Seq<(Card, Card)>
    decreases cs.len(),
{
    if cs.len() == 0 {
        Seq::empty()
    } else {
        live_part(cs.drop_last(), dead) + if live(cs.last(), dead) { seq![cs.last()] } else { Seq::<(Card, Card)>::empty() }
    }
}

/// The villain combos of a range that use none of the hero's or board cards.
pub open spec fn live_combos(hs: Seq<Seq<char>>, dead: Seq<Card>) -> Seq<(Card, Card)>
    decreases hs.len(),
{
    if hs.len() == 0 {
        Seq::empty()
    } else {
        let prev = live_combos(hs.drop_last(), dead);
        match combos_spec(trim(hs.last())) {
            Some(cs) => prev + live_part(cs, dead),
            None => prev,
        }
    }
}

/// Every hand of the list names combos.
pub open spec fn all_valid(hs: Seq<Seq<char>>) -> bool {
    forall|i: int| 0 <= i < hs.len() ==> (#[trigger] combos_spec(trim(hs[i]))) is Some
}

/// The live villain combos of a range; an error for the first hand that names none.
pub fn villain_combos(hand: &[Card], villain_range: &[String], board: &[Card]) -> (r: Result<Vec<(Card, Card)>, GtoError>)
    requires
        forall|i: int| 0 <= i < villain_range@.len() ==> combos_defined((#[trigger] villain_range@[i])@),
    ensures
        all_valid(villain_range@.map_values(|s: String| s@)) ==> (r matches Ok(v)
            && v@ == live_combos(villain_range@.map_values(|s: String| s@), hand@ + board@)),
        !all_valid(villain_range@.map_values(|s: String| s@)) ==> (r matches Err(e) && exists|i: int|
            0 <= i < villain_range@.len() && combos_spec(trim(#[trigger] villain_range@[i]@)) is None
            && combos_error(e, trim(villain_range@[i]@))),
{
    let ghost hs = villain_range@.map_values(|s: String| s@);
    let mut dead = to_vec(hand);
    let mut k: usize = 0;
    while k < board.len()
        invariant
            k <= board@.len(),
            dead@ == hand@ + board@.subrange(0, k as int),
        decreases board@.len() - k,
    {
        dead.push(board[k]);
        k = k + 1;
        assert(dead@ =~= hand@ + board@.subrange(0, k as int));
    }
    assert(board@.subrange(0, board@.len() as int) =~= board@);
    let mut all: Vec<(Card, Card)> = Vec::new();
    let mut i: usize = 0;
    while i < villain_range.len()
        invariant
            i <= villain_range@.len(),
            hs == villain_range@.map_values(|s: String| s@),
            dead@ == hand@ + board@,
            forall|i: int| 0 <= i < villain_range@.len() ==> combos_defined((#[trigger] villain_range@[i])@),
            all_valid(hs.subrange(0, i as int)),
            all@ == live_combos(hs.subrange(0, i as int), dead@),
        decreases villain_range@.len() - i,
    {
        assert(hs.subrange(0, i + 1).drop_last() =~= hs.subrange(0, i as int));
        assert(hs[i as int] == villain_range@[i as int]@);
        let combos = match hand_combos(villain_range[i].as_str()) {
            Ok(cs) => cs,
            Err(e) => {
                return Err(e);
            },
        };
        let ghost before = all@;
        let mut j: usize = 0;
        while j < combos.len()
            invariant
                j <= combos@.len(),
                all@ == before + live_part(combos@.subrange(0, j as int), dead@),
            decreases combos@.len() - j,
        {
            let (c1, c2) = combos[j];
            let ghost sub = combos@.subrange(0, j as int);
            assert(combos@.subrange(0, j + 1).drop_last() =~= sub);
            if !contains_card(dead.as_slice(), c1) && !contains_card(dead.as_slice(), c2) {
                all.push((c1, c2));
                assert(all@ =~= before + live_part(combos@.subrange(0, j + 1), dead@));
            } else {
                assert(all@ =~= before + live_part(combos@.subrange(0, j + 1), dead@));
            }
            j = j + 1;
        }
        assert(combos@.subrange(0, combos@.len() as int) =~= combos@);
        proof {
            assert forall|k: int| 0 <= k < i + 1 implies (#[trigger] combos_spec(trim(hs.subrange(0, i + 1)[k]))) is Some by {
                if k < i {
                    assert(hs.subrange(0, i + 1)[k] == hs.subrange(0, i as int)[k]);
                }
            }
        }
        i = i + 1;
    }
    assert(hs.subrange(0, villain_range@.len() as int) =~= hs);
    Ok(all)
}

/// The two cards of a combo.
pub open spec fn pair_seq(v: (Card, Card)) -> Seq<Card> {
    seq![v.0, v.1]
}

/// Counts that `sims` runouts of the hero against one villain combo can give,
/// dealt from the deck without the hero's, board and combo cards.
pub open spec fn matchup_counts(hero: Seq<Card>, v: (Card, Card), board: Seq<Card>, sims: int, c: EquityCounts) -> bool {
    possible_counts(hero, pair_seq(v), board, fresh_deck(hero + board + pair_seq(v)), sims, c)
}

/// The counts added up.
pub open spec fn sum_of(per: Seq<EquityCounts>) -> (int, int, int)
    decreases per.len(),
{
    if per.len() == 0 {
        (0, 0, 0)
    } else {
        let t = sum_of(per.drop_last());
        (t.0 + per.last().wins, t.1 + per.last().ties, t.2 + per.last().losses)
    }
}

/// Win/tie/loss counts of one villain combo over `sims` random runouts.
pub fn simulate_matchup(hero: &Vec<Card>, villain: (Card, Card), board: &Vec<Card>, sims: usize) -> (c: EquityCounts)
    requires
        hero@.len() + 5 <= usize::MAX,
        board@.len() <= 5,
        fresh_deck(hero@ + board@).len() >= 7 - board@.len(),
    ensures
        c.total() == sims,
        matchup_counts(hero@, villain, board@, sims as int, c),
{
    let mut v: Vec<Card> = Vec::new();
    v.push(villain.0);
    v.push(villain.1);
    let dead = concat3(hero.as_slice(), board.as_slice(), v.as_slice());
    proof {
        assert(v@ =~= seq![villain.0, villain.1]);
        lemma_fresh_deck_two_more(hero@ + board@, villain.0, villain.1);
    }
    let remaining = build_remaining_deck(dead.as_slice());
    let mut c = EquityCounts { wins: 0, ties: 0, losses: 0 };
    let mut k: usize = 0;
    let ghost mut outs: Seq<i8> = Seq::empty();
    while k < sims
        invariant
            k <= sims,
            c.total() == k,
            board@.len() <= 5,
            remaining@.len() >= 5 - board@.len(),
            hero@.len() + 5 <= usize::MAX,
            v@ == pair_seq(villain),
            outs.len() == k,
            tally(outs) == (c.wins as int, c.ties as int, c.losses as int),
            forall|i: int| 0 <= i < outs.len() ==> possible_outcome(hero@, v@, board@, remaining@, #[trigger] outs[i] as int),
        decreases sims - k,
    {
        let o = trial_outcome(hero, &v, board, &remaining);
        proof {
            let old_outs = outs;
            outs = outs.push(o);
            assert(outs.drop_last() =~= old_outs);
            assert(outs.last() == o);
        }
        if o > 0 {
            c.wins = c.wins + 1;
        } else if o == 0 {
            c.ties = c.ties + 1;
        } else {
            c.losses = c.losses + 1;
        }
        k = k + 1;
    }
    assert(remaining@ == fresh_deck(hero@ + board@ + pair_seq(villain)));
    assert(tally(outs) == (c.wins as int, c.ties as int, c.losses as int));
    c
}

/// `rayon`: runs `simulate_matchup` for every combo in parallel and collects
/// the counts in combo order, so element `i` is what `simulate_matchup`
/// returned for combo `i`.
#[verifier::external_body]
fn parallel_matchups(hero: &Vec<Card>, combos: &Vec<(Card, Card)>, board: &Vec<Card>, sims: usize) -> (r: Vec<EquityCounts>)
    requires
        hero@.len() + 5 <= usize::MAX,
        board@.len() <= 5,
        fresh_deck(hero@ + board@).len() >= 7 - board@.len(),
    ensures
        r@.len() == combos@.len(),
        forall|i: int| 0 <= i < r@.len() ==> (#[trigger] r@[i]).total() == sims
            && matchup_counts(hero@, combos@[i], board@, sims as int, r@[i]),
{
    combos.par_iter().map(|v| simulate_matchup(hero, *v, board, sims)).collect()
}

/// Number of runouts each combo gets: the simulations shared out, at least one.
pub open spec fn sims_per_combo(simulations: int, combos: int) -> int {
    if simulations / combos >= 1 { simulations / combos } else { 1 }
}

/// Win/tie/loss counts of the hero hand against a villain range: every live
/// combo gets `sims_per_combo` random runouts. Fails when a hand of the range
/// names no combos, or when no combo is live.
pub fn equity_counts_vs_range(hand: &[Card], villain_range: &[String], board: Option<&[Card]>, simulations: usize) -> (r: Result<EquityCounts, GtoError>)
    requires
        hand@.len() + 5 <= usize::MAX,
        forall|i: int| 0 <= i < villain_range@.len() ==> combos_defined((#[trigger] villain_range@[i])@),
        match board {
            Some(b) => b@.len() <= 5 && fresh_deck(hand@ + b@).len() >= 7 - b@.len(),
            None => fresh_deck(hand@ + Seq::<Card>::empty()).len() >= 7,
        },
    ensures
        ({
            let b = match board { Some(b) => b@, None => Seq::<Card>::empty() };
            let hs = villain_range@.map_values(|s: String| s@);
            let n = live_combos(hs, hand@ + b).len();
            &&& !all_valid(hs) ==> r is Err
            &&& all_valid(hs) && n == 0 ==> r == Err::<EquityCounts, GtoError>(GtoError::NoValidCombos)
            &&& all_valid(hs) && n > 0 ==> (r matches Ok(c) && c.total() == sims_per_combo(simulations as int, n as int) * n
                && exists|per: Seq<EquityCounts>| #[trigger] sum_of(per) == (c.wins as int, c.ties as int, c.losses as int)
                    && per.len() == n
                    && forall|i: int| 0 <= i < n ==> matchup_counts(hand@, live_combos(hs, hand@ + b)[i], b,
                        sims_per_combo(simulations as int, n as int), #[trigger] per[i]))
        }),
{
    let no_board: Vec<Card> = Vec::new();
    let b: &[Card] = match board {
        Some(b) => b,
        None => no_board.as_slice(),
    };
    let combos = villain_combos(hand, villain_range, b)?;
    if combos.len() == 0 {
        return Err(GtoError::NoValidCombos);
    }
    let sims_per = if simulations / combos.len() >= 1 { simulations / combos.len() } else { 1 };
    let board_vec = to_vec(b);
    let hero = to_vec(hand);
    let results = parallel_matchups(&hero, &combos, &board_vec, sims_per);
    let mut c = EquityCounts { wins: 0, ties: 0, losses: 0 };
    let mut i: usize = 0;
    let ghost n = combos@.len() as int;
    let ghost cap: int = if simulations >= n { simulations as int } else { n };
    proof {
        assert(sims_per * n <= cap) by (nonlinear_arith)
            requires
                sims_per == (if (simulations as int) / n >= 1 { (simulations as int) / n } else { 1int }),
                n > 0,
                cap == (if simulations >= n { simulations as int } else { n });
    }
    while i < results.len()
        invariant
            i <= results@.len() == combos@.len(),
            forall|k: int| 0 <= k < results@.len() ==> (#[trigger] results@[k]).total() == sims_per,
            c.total() == sims_per * i,
            n == combos@.len(),
            cap == (if simulations >= n { simulations as int } else { n }),
            cap <= usize::MAX,
            sims_per * n <= cap,
            c.wins <= sims_per * i,
            c.ties <= sims_per * i,
            c.losses <= sims_per * i,
            sum_of(results@.subrange(0, i as int)) == (c.wins as int, c.ties as int, c.losses as int),
        decreases results@.len() - i,
    {
        let x = results[i];
        assert(results@.subrange(0, i + 1).drop_last() =~= results@.subrange(0, i as int));
        assert(sims_per * (i + 1) <= sims_per * n) by (nonlinear_arith)
            requires i + 1 <= n;
        assert(sims_per * (i + 1) == sims_per * i + sims_per) by (nonlinear_arith);
        c.wins = c.wins + x.wins;
        c.ties = c.ties + x.ties;
        c.losses = c.losses + x.losses;
        i = i + 1;
    }
    assert(results@.subrange(0, i as int) =~= results@);
    assert(sum_of(results@) == (c.wins as int, c.ties as int, c.losses as int));
    Ok(c)
}

/// With all five board cards dealt nothing is left to come: every runout ends
/// in the showdown on the board as it stands.
pub proof fn law_complete_board_outcome(hero: Seq<Card>, villain: Seq<Card>, board: Seq<Card>, remaining: Seq<Card>, o: int)
    requires
        board.len() == 5,
        possible_outcome(hero, villain, board, remaining, o),
    ensures
        o == showdown(hero, villain, board),
{
    let perm = choose|perm: Seq<Card>| #[trigger] perm.to_multiset() == remaining.to_multiset()
        && perm.len() >= 5 - board.len()
        && o == showdown(hero, villain, board + perm.subrange(0, 5 - board.len()));
    assert(board + perm.subrange(0, 0) =~= board);
}

proof fn lemma_tally_constant(outs: Seq<i8>, v: int)
    requires
        forall|i: int| 0 <= i < outs.len() ==> outs[i] as int == v,
    ensures
        tally(outs) == (if v > 0 { (outs.len() as int, 0int, 0int) } else if v == 0 {
            (0int, outs.len() as int, 0int)
        } else {
            (0int, 0int, outs.len() as int)
        }),
    decreases outs.len(),
{
    if outs.len() > 0 {
        lemma_tally_constant(outs.drop_last(), v);
        assert(outs.last() as int == v);
    }
}

/// With all five board cards dealt, a simulation's counts are exact: every
/// runout is a win, every one a tie, or every one a loss, as the showdown on
/// the board decides.
pub proof fn law_complete_board_counts(
    hero: Seq<Card>, villain: Seq<Card>, board: Seq<Card>, remaining: Seq<Card>, sims: int, c: EquityCounts,
)
    requires
        board.len() == 5,
        possible_counts(hero, villain, board, remaining, sims, c),
    ensures
        showdown(hero, villain, board) > 0 ==> c.wins == sims && c.ties == 0 && c.losses == 0,
        showdown(hero, villain, board) == 0 ==> c.wins == 0 && c.ties == sims && c.losses == 0,
        showdown(hero, villain, board) < 0 ==> c.wins == 0 && c.ties == 0 && c.losses == sims,
{
    let outs = choose|outs: Seq<i8>| #[trigger] tally(outs) == (c.wins as int, c.ties as int, c.losses as int)
        && outs.len() == sims
        && forall|i: int| 0 <= i < outs.len() ==> possible_outcome(hero, villain, board, remaining, #[trigger] outs[i] as int);
    let v = showdown(hero, villain, board);
    assert forall|i: int| 0 <= i < outs.len() implies outs[i] as int == v by {
        law_complete_board_outcome(hero, villain, board, remaining, outs[i] as int);
    }
    lemma_tally_constant(outs, v);
}

} // verus!
