//! The decisions of the interactive advisor: seat order, explanations, hand
//! strength classes, the villain range estimate and input parsing.

use vstd::prelude::*;
use vstd::string::{StringExecFns};
use crate::cards::{Card, parse_card, parse_board, parse_card_spec, four_char_split_inside,
    board_would_overrun, board_spec};
use crate::hand_evaluator::{HandCategory, HandResult};
use crate::math_engine::SprZone;
use crate::postflop::{Wetness, value_hist, pres, bit, window, suit_count, high_from,
    board_value_hist, board_suit_counts, present, count_bit, window_count, high_value, lemma_high_range};
use crate::preflop::{RangeBook, RangeData, get_rfi_range, rfi_range_of};
use crate::ranges::{range_from_top_bp, blockers_remove, take_count, ranking, unblocked_hands,
    law_top_ranges_nested, lemma_take_count_range,
    string_views, combos_defined};
use crate::game_tree::bucket_text;
use crate::text::{str_eq, chars_of, trim_chars, remove_char, string_of, trim, without, utf8_len,
    char_utf8_len, char_byte_len, utf8_len_equals, utf8_len_is_even, push_char, upper, is_ws,
    trim_start, trim_end};

verus! {

// ---------------------------------------------------------------------------
// Seat order
// ---------------------------------------------------------------------------

/// Postflop acting order of a 6-max seat (unknown seats count as 0).
pub open spec fn seat_order_6max(p: Seq<char>) -> int {
    if p == "SB"@ { 0 }
    else if p == "BB"@ { 1 }
    else if p == "UTG"@ { 2 }
    else if p == "HJ"@ { 3 }
    else if p == "CO"@ { 4 }
    else if p == "BTN"@ { 5 }
    else { 0 }
}

/// Postflop acting order of a 9-max seat (unknown seats count as 0).
pub open spec fn seat_order_9max(p: Seq<char>) -> int {
    if p == "SB"@ { 0 }
    else if p == "BB"@ { 1 }
    else if p == "UTG"@ { 2 }
    else if p == "UTG1"@ { 3 }
    else if p == "UTG2"@ { 4 }
    else if p == "MP"@ { 5 }
    else if p == "HJ"@ { 6 }
    else if p == "CO"@ { 7 }
    else if p == "BTN"@ { 8 }
    else { 0 }
}

pub open spec fn seat_order(p: Seq<char>, table_size: Seq<char>) -> int {
    if table_size == "9max"@ { seat_order_9max(p) } else { seat_order_6max(p) }
}

fn position_order(pos: &str, table_size: &str) -> (o: u8)
    ensures
        o == seat_order(pos@, table_size@),
{
    if str_eq(table_size, "9max") {
        if str_eq(pos, "SB") { 0 }
        else if str_eq(pos, "BB") { 1 }
        else if str_eq(pos, "UTG") { 2 }
        else if str_eq(pos, "UTG1") { 3 }
        else if str_eq(pos, "UTG2") { 4 }
        else if str_eq(pos, "MP") { 5 }
        else if str_eq(pos, "HJ") { 6 }
        else if str_eq(pos, "CO") { 7 }
        else if str_eq(pos, "BTN") { 8 }
        else { 0 }
    } else {
        if str_eq(pos, "SB") { 0 }
        else if str_eq(pos, "BB") { 1 }
        else if str_eq(pos, "UTG") { 2 }
        else if str_eq(pos, "HJ") { 3 }
        else if str_eq(pos, "CO") { 4 }
        else if str_eq(pos, "BTN") { 5 }
        else { 0 }
    }
}

/// Whether the hero acts after the villain postflop.
pub fn is_in_position(hero_pos: &str, villain_pos: &str, table_size: &str) -> (b: bool)
    ensures
        b == (seat_order(hero_pos@, table_size@) > seat_order(villain_pos@, table_size@)),
{
    position_order(hero_pos, table_size) > position_order(villain_pos, table_size)
}

/// Of two different seats of a table, exactly one is in position on the other.
pub proof fn law_in_position_exactly_one(hero: Seq<char>, villain: Seq<char>, table_size: Seq<char>)
    requires
        crate::cli::valid_seats(table_size).contains(hero),
        crate::cli::valid_seats(table_size).contains(villain),
        hero != villain,
    ensures
        (seat_order(hero, table_size) > seat_order(villain, table_size))
            != (seat_order(villain, table_size) > seat_order(hero, table_size)),
{
    let seats = crate::cli::valid_seats(table_size);
    let i = choose|i: int| 0 <= i < seats.len() && seats[i] == hero;
    let j = choose|j: int| 0 <= j < seats.len() && seats[j] == villain;
    reveal_strlit("SB");
    reveal_strlit("BB");
    reveal_strlit("UTG");
    reveal_strlit("UTG1");
    reveal_strlit("UTG2");
    reveal_strlit("MP");
    reveal_strlit("HJ");
    reveal_strlit("CO");
    reveal_strlit("BTN");
    reveal_strlit("9max");
}

// ---------------------------------------------------------------------------
// Explanations
// ---------------------------------------------------------------------------

pub open spec fn position_text(p: Seq<char>) -> Seq<char> {
    if p == "UTG"@ { "Under the Gun \u{2014} first to act, play tight"@ }
    else if p == "UTG1"@ { "UTG+1 \u{2014} early position, play tight"@ }
    else if p == "UTG2"@ { "UTG+2 \u{2014} early position, play tight"@ }
    else if p == "MP"@ { "Middle Position \u{2014} slightly wider than early positions"@ }
    else if p == "HJ"@ { "Hijack \u{2014} one before the Cutoff, starting to open wider"@ }
    else if p == "CO"@ { "Cutoff \u{2014} strong position, wide opening range"@ }
    else if p == "BTN"@ { "Button \u{2014} best seat, you act last after the flop"@ }
    else if p == "SB"@ { "Small Blind \u{2014} worst postflop position, act first"@ }
    else if p == "BB"@ { "Big Blind \u{2014} last to act preflop, defend wide"@ }
    else { "Unknown position"@ }
}

pub fn explain_position(pos: &str) -> (s: &'static str)
    ensures
        s@ == position_text(pos@),
{
    if str_eq(pos, "UTG") { "Under the Gun \u{2014} first to act, play tight" }
    else if str_eq(pos, "UTG1") { "UTG+1 \u{2014} early position, play tight" }
    else if str_eq(pos, "UTG2") { "UTG+2 \u{2014} early position, play tight" }
    else if str_eq(pos, "MP") { "Middle Position \u{2014} slightly wider than early positions" }
    else if str_eq(pos, "HJ") { "Hijack \u{2014} one before the Cutoff, starting to open wider" }
    else if str_eq(pos, "CO") { "Cutoff \u{2014} strong position, wide opening range" }
    else if str_eq(pos, "BTN") { "Button \u{2014} best seat, you act last after the flop" }
    else if str_eq(pos, "SB") { "Small Blind \u{2014} worst postflop position, act first" }
    else if str_eq(pos, "BB") { "Big Blind \u{2014} last to act preflop, defend wide" }
    else { "Unknown position" }
}

pub open spec fn category_text(c: HandCategory) -> Seq<char> {
    match c {
        HandCategory::RoyalFlush => "Royal Flush \u{2014} the absolute best hand possible"@,
        HandCategory::StraightFlush => "Straight Flush \u{2014} nearly unbeatable"@,
        HandCategory::FourOfAKind => "Four of a Kind \u{2014} monster hand"@,
        HandCategory::FullHouse => "Full House \u{2014} very strong, hard to beat"@,
        HandCategory::Flush => "Flush \u{2014} strong, but watch for higher flushes"@,
        HandCategory::Straight => "Straight \u{2014} strong, but vulnerable to flushes and full houses"@,
        HandCategory::ThreeOfAKind => "Three of a Kind \u{2014} strong, good for value"@,
        HandCategory::TwoPair => "Two Pair \u{2014} decent but vulnerable on wet boards"@,
        HandCategory::OnePair => "One Pair \u{2014} solid but vulnerable"@,
        HandCategory::HighCard => "High Card \u{2014} usually not strong enough to bet for value"@,
    }
}

pub fn explain_hand_category(category: HandCategory) -> (s: &'static str)
    ensures
        s@ == category_text(category),
{
    match category {
        HandCategory::RoyalFlush => "Royal Flush \u{2014} the absolute best hand possible",
        HandCategory::StraightFlush => "Straight Flush \u{2014} nearly unbeatable",
        HandCategory::FourOfAKind => "Four of a Kind \u{2014} monster hand",
        HandCategory::FullHouse => "Full House \u{2014} very strong, hard to beat",
        HandCategory::Flush => "Flush \u{2014} strong, but watch for higher flushes",
        HandCategory::Straight => "Straight \u{2014} strong, but vulnerable to flushes and full houses",
        HandCategory::ThreeOfAKind => "Three of a Kind \u{2014} strong, good for value",
        HandCategory::TwoPair => "Two Pair \u{2014} decent but vulnerable on wet boards",
        HandCategory::OnePair => "One Pair \u{2014} solid but vulnerable",
        HandCategory::HighCard => "High Card \u{2014} usually not strong enough to bet for value",
    }
}

pub open spec fn texture_text(w: Wetness) -> Seq<char> {
    match w {
        Wetness::Dry => "DRY board \u{2014} few draws possible, made hands hold up"@,
        Wetness::Medium => "MEDIUM texture \u{2014} some draws possible, be aware of turn/river changes"@,
        Wetness::Wet => "WET board \u{2014} many draws possible, protect your hand or bet for value"@,
    }
}

pub fn explain_board_texture(wetness: Wetness) -> (s: &'static str)
    ensures
        s@ == texture_text(wetness),
{
    match wetness {
        Wetness::Dry => "DRY board \u{2014} few draws possible, made hands hold up",
        Wetness::Medium => "MEDIUM texture \u{2014} some draws possible, be aware of turn/river changes",
        Wetness::Wet => "WET board \u{2014} many draws possible, protect your hand or bet for value",
    }
}

pub open spec fn spr_text(z: SprZone) -> Seq<char> {
    match z {
        SprZone::Low => "Low SPR \u{2014} commit with top pair+, all-in pressure is standard"@,
        SprZone::Medium => "Medium SPR \u{2014} top pair is good for value, be careful about going all-in"@,
        SprZone::High => "High SPR \u{2014} need very strong hands to stack off, implied odds matter"@,
    }
}

pub fn explain_spr(zone: SprZone) -> (s: &'static str)
    ensures
        s@ == spr_text(zone),
{
    match zone {
        SprZone::Low => "Low SPR \u{2014} commit with top pair+, all-in pressure is standard",
        SprZone::Medium => "Medium SPR \u{2014} top pair is good for value, be careful about going all-in",
        SprZone::High => "High SPR \u{2014} need very strong hands to stack off, implied odds matter",
    }
}

pub open spec fn strength_text(s: Seq<char>) -> Seq<char> {
    if s == "nuts"@ { "You have the nuts or near-nuts \u{2014} extract maximum value"@ }
    else if s == "very_strong"@ { "Very strong hand \u{2014} bet for value, build the pot"@ }
    else if s == "strong"@ { "Strong hand \u{2014} bet for value and protection"@ }
    else if s == "medium"@ { "Medium-strength hand \u{2014} control the pot, don't overcommit"@ }
    else if s == "draw"@ { "Drawing hand \u{2014} you need to improve, consider semi-bluffing"@ }
    else if s == "weak"@ { "Weak hand \u{2014} consider giving up or bluffing selectively"@ }
    else if s == "bluff"@ { "Bluffing opportunity \u{2014} need fold equity to profit"@ }
    else { "Unknown strength"@ }
}

pub fn explain_strength(strength: &str) -> (s: &'static str)
    ensures
        s@ == strength_text(strength@),
{
    if str_eq(strength, "nuts") { "You have the nuts or near-nuts \u{2014} extract maximum value" }
    else if str_eq(strength, "very_strong") { "Very strong hand \u{2014} bet for value, build the pot" }
    else if str_eq(strength, "strong") { "Strong hand \u{2014} bet for value and protection" }
    else if str_eq(strength, "medium") { "Medium-strength hand \u{2014} control the pot, don't overcommit" }
    else if str_eq(strength, "draw") { "Drawing hand \u{2014} you need to improve, consider semi-bluffing" }
    else if str_eq(strength, "weak") { "Weak hand \u{2014} consider giving up or bluffing selectively" }
    else if str_eq(strength, "bluff") { "Bluffing opportunity \u{2014} need fold equity to profit" }
    else { "Unknown strength" }
}

// ---------------------------------------------------------------------------
// Hand strength
// ---------------------------------------------------------------------------

/// Where the hero's equity stands against the thresholds the classifier uses.
#[derive(Debug, Clone, Copy, PartialEq, Eq, Structural)]
pub enum EquityBand {
    /// Below 35%.
    Below35,
    /// At least 35%, below 55%.
    From35,
    /// At least 55%, below 65%.
    From55,
    /// At least 65%.
    From65,
}

/// The hole cards followed by the board.
pub open spec fn all_cards(hole: Seq<Card>, board: Seq<Card>) -> Seq<Card> {
    hole + board
}

/// Some suit has four or more cards among hole and board, and the hero holds one of it.
pub open spec fn flush_draw_of(hole: Seq<Card>, board: Seq<Card>) -> bool {
    let a = all_cards(hole, board);
    ||| (suit_count(a, 0) >= 4 && suit_count(hole, 0) >= 1)
    ||| (suit_count(a, 1) >= 4 && suit_count(hole, 1) >= 1)
    ||| (suit_count(a, 2) >= 4 && suit_count(hole, 2) >= 1)
    ||| (suit_count(a, 3) >= 4 && suit_count(hole, 3) >= 1)
}

/// Some hero value lies in `[a, b]`.
pub open spec fn hero_in(h: Seq<usize>, a: int, b: int) -> bool
    decreases b - a + 1,
{
    if a > b { false } else { pres(h, a) || hero_in(h, a + 1, b) }
}

/// A window `[start, start + 4]` with `start` in `[s, 10]` holds four values, one the hero's.
pub open spec fn hero_window_from(c: Seq<usize>, h: Seq<usize>, s: int) -> bool
    decreases 11 - s,
{
    if s > 10 {
        false
    } else {
        (window(c, s) >= 4 && hero_in(h, s, s + 4)) || hero_window_from(c, h, s + 1)
    }
}

/// An open-ended or gutshot straight draw the hero contributes to, an ace counting low too.
pub open spec fn straight_draw_hero_of(hole: Seq<Card>, board: Seq<Card>) -> bool {
    let c = value_hist(all_cards(hole, board));
    let h = value_hist(hole);
    hero_window_from(c, h, 2)
        || (pres(c, 14) && bit(pres(c, 2)) + bit(pres(c, 3)) + bit(pres(c, 4)) + bit(pres(c, 5)) >= 3
            && (pres(h, 14) || hero_in(h, 2, 5)))
}

/// Number of cards of value at least `v`.
pub open spec fn count_ge(c: Seq<usize>, v: int) -> int
    decreases 15 - v,
{
    if v >= 15 || v < 0 { 0 } else { c[v] + count_ge(c, v + 1) }
}

/// The second entry of the values sorted from high to low (0 if fewer than two).
pub open spec fn second_from(c: Seq<usize>, v: int) -> int
    decreases 15 - v,
{
    if v >= 15 || v < 0 {
        0
    } else {
        let t = second_from(c, v + 1);
        if t != 0 { t } else if count_ge(c, v) >= 2 { v } else { 0 }
    }
}

/// Highest value at `v` or above that occurs and is not `x` (0 if none).
pub open spec fn high_except(c: Seq<usize>, v: int, x: int) -> int
    decreases 15 - v,
{
    if v >= 15 || v < 0 {
        0
    } else {
        let t = high_except(c, v + 1, x);
        if t != 0 { t } else if pres(c, v) && v != x { v } else { 0 }
    }
}

/// Some value is a set: once on the board and twice in the hand.
pub open spec fn set_from(b: Seq<usize>, h: Seq<usize>, v: int) -> bool
    decreases 15 - v,
{
    if v >= 15 || v < 0 { false } else { (b[v] == 1 && h[v] == 2) || set_from(b, h, v + 1) }
}

/// The strength class of a made hand; one pair reads its pair from the first kicker.
pub open spec fn strength_of(cat: HandCategory, kickers: Seq<u8>, hole: Seq<Card>, board: Seq<Card>, band: EquityBand) -> Seq<char> {
    let bh = value_hist(board);
    let hh = value_hist(hole);
    match cat {
        HandCategory::RoyalFlush | HandCategory::StraightFlush | HandCategory::FourOfAKind => "nuts"@,
        HandCategory::FullHouse => "very_strong"@,
        HandCategory::Flush | HandCategory::Straight =>
            if band == EquityBand::From65 { "very_strong"@ } else { "strong"@ },
        HandCategory::ThreeOfAKind =>
            if hole.len() == 2 && hole[0].rank == hole[1].rank && pres(bh, hole[0].rank.val()) {
                "very_strong"@
            } else if set_from(bh, hh, 0) {
                "very_strong"@
            } else {
                "strong"@
            },
        HandCategory::TwoPair =>
            if band == EquityBand::From65 || band == EquityBand::From55 { "strong"@ } else { "medium"@ },
        HandCategory::OnePair => {
            let pair = kickers[0] as int;
            let top = board.len() > 0 && pair >= high_from(bh, 0);
            if top && high_except(hh, 0, pair) >= 12 {
                "strong"@
            } else if top {
                "medium"@
            } else if board.len() > 1 && pair >= second_from(bh, 0) {
                "medium"@
            } else {
                "weak"@
            }
        },
        HandCategory::HighCard =>
            if flush_draw_of(hole, board) || straight_draw_hero_of(hole, board) {
                "draw"@
            } else if band != EquityBand::Below35 {
                "medium"@
            } else {
                "weak"@
            },
    }
}

/// Every hand is put in one of the strength classes the street strategy
/// knows: nuts, very strong, strong, medium, draw or weak.
pub proof fn law_strength_is_a_class(cat: HandCategory, kickers: Seq<u8>, hole: Seq<Card>, board: Seq<Card>, band: EquityBand)
    ensures
        ({
            let s = strength_of(cat, kickers, hole, board, band);
            s == "nuts"@ || s == "very_strong"@ || s == "strong"@ || s == "medium"@ || s == "draw"@ || s == "weak"@
        }),
{
}

proof fn lemma_high_except_present(c: Seq<usize>, v: int, x: int)
    ensures
        high_except(c, v, x) != 0 ==> pres(c, high_except(c, v, x)) && high_except(c, v, x) != x
            && high_except(c, v, x) >= v,
    decreases 15 - v,
{
    if 0 <= v < 15 {
        lemma_high_except_present(c, v + 1, x);
    }
}

proof fn lemma_count_val_witness(cs: Seq<Card>, v: int) -> (i: int)
    requires
        crate::hand_evaluator::count_val(cs, v) != 0,
    ensures
        0 <= i < cs.len() && cs[i].rank.val() == v,
    decreases cs.len(),
{
    if cs.len() == 0 {
        0
    } else if cs.last().rank.val() == v {
        cs.len() - 1
    } else {
        let j = lemma_count_val_witness(cs.drop_last(), v);
        assert(cs[j] == cs.drop_last()[j]);
        j
    }
}

/// A one-pair hand is "strong" only with a high kicker of the hero's own: some
/// hole card other than the pair's value is a queen or better. Board cards
/// never count as the hero's kicker, so top pair with a lower second hole card
/// is at most "medium".
pub proof fn law_one_pair_strong_needs_own_kicker(kickers: Seq<u8>, hole: Seq<Card>, board: Seq<Card>, band: EquityBand)
    requires
        kickers.len() >= 1,
        strength_of(HandCategory::OnePair, kickers, hole, board, band) == "strong"@,
    ensures
        exists|i: int| 0 <= i < hole.len() && #[trigger] hole[i].rank.val() >= 12 && hole[i].rank.val() != kickers[0],
{
    reveal_strlit("strong");
    reveal_strlit("medium");
    reveal_strlit("weak");
    assert("medium"@ != "strong"@) by {
        assert("medium"@[0] != "strong"@[0]);
    }
    assert("weak"@ != "strong"@) by {
        assert("weak"@.len() != "strong"@.len());
    }
    let hh = value_hist(hole);
    let pair = kickers[0] as int;
    let k = high_except(hh, 0, pair);
    assert(k >= 12);
    lemma_high_except_present(hh, 0, pair);
    let c = crate::hand_evaluator::count_val(hole, k);
    assert(hh[k] == c as usize);
    assert(c != 0);
    let i = lemma_count_val_witness(hole, k);
    assert(hole[i].rank.val() >= 12 && hole[i].rank.val() != kickers[0]);
}

fn concat_cards(a: &[Card], b: &[Card]) -> (r: Vec<Card>)
    ensures
        r@ == a@ + b@,
{
    let mut r: Vec<Card> = Vec::new();
    let mut i: usize = 0;
    while i < a.len()
        invariant
            i <= a@.len(),
            r@ == a@.subrange(0, i as int),
        decreases a@.len() - i,
    {
        r.push(a[i]);
        i = i + 1;
        assert(r@ =~= a@.subrange(0, i as int));
    }
    let mut j: usize = 0;
    while j < b.len()
        invariant
            j <= b@.len(),
            r@ == a@ + b@.subrange(0, j as int),
        decreases b@.len() - j,
    {
        r.push(b[j]);
        j = j + 1;
        assert(r@ =~= a@ + b@.subrange(0, j as int));
    }
    assert(b@.subrange(0, b@.len() as int) =~= b@);
    r
}

/// Whether the hero has a flush draw (or better) with a card of the suit.
pub fn has_flush_draw(hole_cards: &[Card], board: &[Card]) -> (b: bool)
    ensures
        b == flush_draw_of(hole_cards@, board@),
{
    let all = concat_cards(hole_cards, board);
    let sc = board_suit_counts(all.as_slice());
    let hs = board_suit_counts(hole_cards);
    (sc[0] >= 4 && hs[0] >= 1) || (sc[1] >= 4 && hs[1] >= 1) || (sc[2] >= 4 && hs[2] >= 1)
        || (sc[3] >= 4 && hs[3] >= 1)
}

fn hero_in_exec(h: &Vec<usize>, a: usize, b: usize) -> (r: bool)
    requires
        h@.len() == 15,
        b < 20,
    ensures
        r == hero_in(h@, a as int, b as int),
    decreases b + 1 - a,
{
    if a > b {
        false
    } else {
        present(h, a) || hero_in_exec(h, a + 1, b)
    }
}

/// Whether the hero's cards take part in a four-card straight window.
pub fn has_straight_draw_hero(hole_cards: &[Card], board: &[Card]) -> (r: bool)
    ensures
        r == straight_draw_hero_of(hole_cards@, board@),
{
    let all = concat_cards(hole_cards, board);
    let c = board_value_hist(all.as_slice());
    let h = board_value_hist(hole_cards);
    let mut acc = false;
    let mut s: usize = 11;
    while s > 2
        invariant
            c@ == value_hist(all@),
            h@ == value_hist(hole_cards@),
            c@.len() == 15,
            h@.len() == 15,
            2 <= s <= 11,
            acc == hero_window_from(c@, h@, s as int),
        decreases s,
    {
        s = s - 1;
        acc = (window_count(&c, s) >= 4 && hero_in_exec(&h, s, s + 4)) || acc;
    }
    if acc {
        return true;
    }
    let low = count_bit(present(&c, 2)) + count_bit(present(&c, 3)) + count_bit(present(&c, 4))
        + count_bit(present(&c, 5));
    present(&c, 14) && low >= 3 && (present(&h, 14) || hero_in_exec(&h, 2, 5))
}

proof fn lemma_count_ge_bounds(c: Seq<usize>, v: int)
    ensures
        count_ge(c, v) >= 0,
    decreases 15 - v,
{
    if 0 <= v < 15 {
        lemma_count_ge_bounds(c, v + 1);
    }
}

fn second_value(c: &Vec<usize>) -> (r: usize)
    requires
        c@.len() == 15,
    ensures
        r == second_from(c@, 0),
        r < 15,
{
    let mut acc: usize = 0;
    let mut total: usize = 0;
    let mut v: usize = 15;
    while v > 0
        invariant
            c@.len() == 15,
            v <= 15,
            acc == second_from(c@, v as int),
            acc < 15,
            total == (if count_ge(c@, v as int) >= 2 { 2 } else { count_ge(c@, v as int) }),
        decreases v,
    {
        v = v - 1;
        proof {
            lemma_count_ge_bounds(c@, v + 1);
        }
        if c[v] >= 2 {
            total = 2;
        } else {
            total = total + c[v];
            if total > 2 {
                total = 2;
            }
        }
        if acc == 0 && total >= 2 {
            acc = v;
        }
    }
    acc
}

fn high_except_value(c: &Vec<usize>, x: usize) -> (r: usize)
    requires
        c@.len() == 15,
    ensures
        r == high_except(c@, 0, x as int),
{
    let mut acc: usize = 0;
    let mut v: usize = 15;
    while v > 0
        invariant
            c@.len() == 15,
            v <= 15,
            acc == high_except(c@, v as int, x as int),
            acc < 15,
        decreases v,
    {
        v = v - 1;
        if acc == 0 && present(c, v) && v != x {
            acc = v;
        }
    }
    acc
}

fn any_set(bh: &Vec<usize>, hh: &Vec<usize>) -> (r: bool)
    requires
        bh@.len() == 15,
        hh@.len() == 15,
    ensures
        r == set_from(bh@, hh@, 0),
{
    let mut acc = false;
    let mut v: usize = 15;
    while v > 0
        invariant
            bh@.len() == 15,
            hh@.len() == 15,
            v <= 15,
            acc == set_from(bh@, hh@, v as int),
        decreases v,
    {
        v = v - 1;
        acc = (bh[v] == 1 && hh[v] == 2) || acc;
    }
    acc
}

/// The strength class of a hand given its evaluation, the cards and where
/// its equity stands: "nuts", "very_strong", "strong", "medium", "draw" or "weak".
pub fn classify_hand_strength(
    hand_result: &HandResult,
    hole_cards: &[Card],
    board: &[Card],
    equity: EquityBand,
) -> (s: &'static str)
    requires
        hand_result.category == HandCategory::OnePair ==> hand_result.kickers@.len() >= 1,
    ensures
        s@ == strength_of(hand_result.category, hand_result.kickers@, hole_cards@, board@, equity),
{
    let ghost bh_s = value_hist(board@);
    let ghost hh_s = value_hist(hole_cards@);
    match hand_result.category {
        HandCategory::RoyalFlush | HandCategory::StraightFlush | HandCategory::FourOfAKind => "nuts",
        HandCategory::FullHouse => "very_strong",
        HandCategory::Flush | HandCategory::Straight => {
            if equity == EquityBand::From65 { "very_strong" } else { "strong" }
        },
        HandCategory::ThreeOfAKind => {
            let bh = board_value_hist(board);
            let hh = board_value_hist(hole_cards);
            let is_pocket_pair = hole_cards.len() == 2 && hole_cards[0].rank == hole_cards[1].rank;
            if is_pocket_pair && present(&bh, hole_cards[0].value() as usize) {
                "very_strong"
            } else if any_set(&bh, &hh) {
                "very_strong"
            } else {
                "strong"
            }
        },
        HandCategory::TwoPair => {
            if equity == EquityBand::From65 || equity == EquityBand::From55 { "strong" } else { "medium" }
        },
        HandCategory::OnePair => {
            let pair = hand_result.kickers[0] as usize;
            let bh = board_value_hist(board);
            let hh = board_value_hist(hole_cards);
            let high = high_value(&bh);
            let is_top_pair = board.len() > 0 && pair >= high;
            let kicker = high_except_value(&hh, pair);
            if is_top_pair && kicker >= 12 {
                "strong"
            } else if is_top_pair {
                "medium"
            } else if board.len() > 1 && pair >= second_value(&bh) {
                "medium"
            } else {
                "weak"
            }
        },
        HandCategory::HighCard => {
            if has_flush_draw(hole_cards, board) || has_straight_draw_hero(hole_cards, board) {
                "draw"
            } else if equity != EquityBand::Below35 {
                "medium"
            } else {
                "weak"
            }
        },
    }
}

// ---------------------------------------------------------------------------
// Villain range estimate
// ---------------------------------------------------------------------------

/// The strongest hands making up about `bp` hundredths of a percent of all combos.
pub open spec fn top_range(bp: int) -> Seq<Seq<char>> {
    Seq::new(take_count(bp, 0, 0) as nat, |i: int| bucket_text(ranking()[i]))
}

/// The villain's range before removing what the hero's cards block.
pub open spec fn villain_base(d: RangeData, situation: Seq<char>, villain: Option<Seq<char>>) -> Seq<Seq<char>> {
    if situation == "RFI"@ {
        top_range(2000)
    } else if situation == "vs_RFI"@ {
        match villain {
            Some(vp) => if rfi_range_of(d, vp).len() == 0 { top_range(2000) } else { string_views(rfi_range_of(d, vp)) },
            None => top_range(2000),
        }
    } else if situation == "vs_3bet"@ {
        top_range(700)
    } else if situation == "bb_defense"@ {
        match villain {
            Some(vp) => if rfi_range_of(d, vp).len() == 0 { top_range(2500) } else { string_views(rfi_range_of(d, vp)) },
            None => top_range(2500),
        }
    } else {
        top_range(2000)
    }
}

/// The villain's estimated range: the base range (the top 20% if that is
/// empty) without the hands the hero's cards block completely.
pub open spec fn villain_range_of(d: RangeData, situation: Seq<char>, villain: Option<Seq<char>>, hero: Seq<Card>) -> Seq<Seq<char>> {
    let base = villain_base(d, situation, villain);
    unblocked_hands(if base.len() == 0 { top_range(2000) } else { base }, hero)
}

proof fn lemma_unblocked_prefix(hs: Seq<Seq<char>>, k: int, dead: Seq<Card>)
    requires
        0 <= k <= hs.len(),
    ensures
        unblocked_hands(hs.subrange(0, k), dead).len() <= unblocked_hands(hs, dead).len(),
    decreases hs.len(),
{
    if k == hs.len() {
        assert(hs.subrange(0, k) =~= hs);
    } else {
        assert(hs.drop_last().subrange(0, k) =~= hs.subrange(0, k));
        lemma_unblocked_prefix(hs.drop_last(), k, dead);
    }
}

/// Facing a 3-bet the villain's estimated range is never wider than the range
/// estimated for an open, whatever the charts and seats.
pub proof fn law_three_bet_range_within_open(
    d: RangeData, opener: Option<Seq<char>>, three_bettor: Option<Seq<char>>, hero: Seq<Card>,
)
    ensures
        villain_range_of(d, "vs_3bet"@, three_bettor, hero).len() <= villain_range_of(d, "RFI"@, opener, hero).len(),
{
    reveal_strlit("RFI");
    reveal_strlit("vs_RFI");
    reveal_strlit("vs_3bet");
    assert("vs_3bet"@ != "RFI"@) by {
        assert("vs_3bet"@.len() != "RFI"@.len());
    }
    assert("vs_3bet"@ != "vs_RFI"@) by {
        assert("vs_3bet"@[3] != "vs_RFI"@[3]);
    }
    law_top_ranges_nested(700, 2000);
    lemma_take_count_range(700, 0, 0);
    lemma_take_count_range(2000, 0, 0);
    let wide = top_range(2000);
    let narrow = top_range(700);
    assert(narrow =~= wide.subrange(0, take_count(700, 0, 0)));
    lemma_unblocked_prefix(wide, take_count(700, 0, 0), hero);
    if narrow.len() == 0 {
        lemma_unblocked_prefix(wide, wide.len() as int, hero);
    }
}

/// Every hand of every opening chart of the table can be expanded to combos.
pub open spec fn rfi_hands_defined(d: RangeData) -> bool {
    forall|i: int, j: int| 0 <= i < d.rfi@.len() && 0 <= j < d.rfi@[i].value.raise_range@.len()
        ==> combos_defined((#[trigger] d.rfi@[i].value.raise_range@[j])@)
}

proof fn lemma_bucket_defined(x: int)
    ensures
        combos_defined(bucket_text(x)),
{
    let t = bucket_text(x);
    assert forall|i: int| 0 <= i < t.len() implies !is_ws(#[trigger] t[i]) by {}
    assert(trim_start(t) == t);
    assert(trim_end(t) == t);
}

fn top_hands(bp: u32) -> (r: Vec<String>)
    requires
        0 < bp <= 10000,
    ensures
        string_views(r@) == top_range(bp as int),
        forall|i: int| 0 <= i < r@.len() ==> combos_defined((#[trigger] r@[i])@),
{
    proof {
        crate::ranges::lemma_take_count_range(bp as int, 0, 0);
    }
    match range_from_top_bp(bp) {
        Ok(v) => {
            assert(string_views(v@) =~= top_range(bp as int));
            assert forall|i: int| 0 <= i < v@.len() implies combos_defined((#[trigger] v@[i])@) by {
                lemma_bucket_defined(ranking()[i]);
            }
            v
        },
        Err(_) => Vec::new(),
    }
}

fn chart_or_top(book: &RangeBook, villain_pos: Option<&str>, table_size: &str, bp: u32) -> (r: Vec<String>)
    requires
        0 < bp <= 10000,
        rfi_hands_defined(book.pick(table_size@)),
    ensures
        string_views(r@) == (match villain_pos {
            Some(vp) => if rfi_range_of(book.pick(table_size@), vp@).len() == 0 { top_range(bp as int) }
                else { string_views(rfi_range_of(book.pick(table_size@), vp@)) },
            None => top_range(bp as int),
        }),
        forall|i: int| 0 <= i < r@.len() ==> combos_defined((#[trigger] r@[i])@),
{
    match villain_pos {
        Some(vp) => {
            let r = get_rfi_range(book, vp, table_size);
            if r.len() == 0 {
                top_hands(bp)
            } else {
                proof {
                    let d = book.pick(table_size@);
                    let k = crate::preflop::key_index(d.rfi@, vp@);
                    crate::preflop::lemma_key_index(d.rfi@, vp@);
                    assert(0 <= k < d.rfi@.len());
                    assert forall|j: int| 0 <= j < r@.len() implies combos_defined((#[trigger] r@[j])@) by {
                        assert(r@[j] == d.rfi@[k].value.raise_range@[j]);
                    }
                }
                r
            }
        },
        None => top_hands(bp),
    }
}

/// The villain's likely range in a situation ("RFI", "vs_RFI", "vs_3bet",
/// "bb_defense"), without the hands the hero's cards block.
pub fn estimate_villain_range(
    book: &RangeBook,
    situation: &str,
    hero_pos: &str,
    villain_pos: Option<&str>,
    hero_cards: &[Card],
    table_size: &str,
) -> (r: Vec<String>)
    requires
        rfi_hands_defined(book.pick(table_size@)),
    ensures
        string_views(r@) == villain_range_of(book.pick(table_size@), situation@,
            crate::preflop::opt_view(villain_pos), hero_cards@),
{
    let villain_range = if str_eq(situation, "RFI") {
        top_hands(2000)
    } else if str_eq(situation, "vs_RFI") {
        chart_or_top(book, villain_pos, table_size, 2000)
    } else if str_eq(situation, "vs_3bet") {
        top_hands(700)
    } else if str_eq(situation, "bb_defense") {
        chart_or_top(book, villain_pos, table_size, 2500)
    } else {
        top_hands(2000)
    };
    let range = if villain_range.len() == 0 {
        top_hands(2000)
    } else {
        villain_range
    };
    blockers_remove(&range, hero_cards)
}

// ---------------------------------------------------------------------------
// Input parsing
// ---------------------------------------------------------------------------

/// Text with surrounding whitespace and all spaces removed.
pub open spec fn input_clean(s: Seq<char>) -> Seq<char> {
    without(trim(s), ' ')
}

/// The two hole cards typed as "AhKs" (spaces allowed): four bytes, two
/// different cards.
pub open spec fn hole_cards_of(s: Seq<char>) -> Option<Seq<Card>> {
    let t = input_clean(s);
    if utf8_len(t) != 4 || char_utf8_len(t[0]) != 1 {
        None
    } else {
        let c1 = parse_card_spec(t.subrange(0, 2));
        let c2 = parse_card_spec(t.subrange(2, t.len() as int));
        if c1 is Some && c2 is Some && c1->0 != c2->0 {
            Some(seq![c1->0, c2->0])
        } else {
            None
        }
    }
}

proof fn lemma_utf8_len_split(s: Seq<char>, i: int)
    requires
        0 <= i <= s.len(),
    ensures
        utf8_len(s) == utf8_len(s.subrange(0, i)) + utf8_len(s.subrange(i, s.len() as int)),
    decreases s.len() - i,
{
    if i < s.len() {
        lemma_utf8_len_split(s.drop_last(), if i < s.len() { i } else { i - 1 });
        assert(s.drop_last().subrange(0, i) =~= s.subrange(0, i));
        assert(s.subrange(i, s.len() as int).drop_last() =~= s.drop_last().subrange(i, s.len() - 1));
    } else {
        assert(s.subrange(0, i) =~= s);
    }
}

/// Parses two hole cards such as "AhKs" or "Ah Ks".
pub fn parse_hole_cards(text: &str) -> (r: Option<Vec<Card>>)
    requires
        utf8_len(input_clean(text@)) == 4 ==> !four_char_split_inside(input_clean(text@)),
    ensures
        match hole_cards_of(text@) {
            Some(cs) => r matches Some(v) && v@ == cs,
            None => r is None,
        },
{
    let v = chars_of(text);
    let t0 = trim_chars(&v);
    let t = remove_char(&t0, ' ');
    let ghost ts = input_clean(text@);
    assert(t@ == ts);
    if !utf8_len_equals(&t, 4) {
        return None;
    }
    proof {
        lemma_utf8_len_split(ts, 1);
        assert(ts.subrange(0, 1) =~= seq![ts[0]]);
        assert(utf8_len(seq![ts[0]]) == char_utf8_len(ts[0])) by {
            assert(seq![ts[0]].drop_last() =~= Seq::<char>::empty());
            reveal_with_fuel(utf8_len, 2);
        }
    }
    if char_byte_len(t[0]) != 1 {
        return None;
    }
    proof {
        assert(t@.len() >= 2) by {
            if t@.len() == 1 {
                assert(ts.subrange(1, 1).len() == 0);
                assert(utf8_len(ts.subrange(1, 1)) == 0);
            }
        }
    }
    let mut first: Vec<char> = Vec::new();
    first.push(t[0]);
    first.push(t[1]);
    let mut second: Vec<char> = Vec::new();
    let mut i: usize = 2;
    while i < t.len()
        invariant
            2 <= i <= t@.len(),
            second@ == t@.subrange(2, i as int),
        decreases t@.len() - i,
    {
        second.push(t[i]);
        i = i + 1;
        assert(second@ =~= t@.subrange(2, i as int));
    }
    assert(first@ =~= t@.subrange(0, 2));
    let s1 = string_of(&first);
    let s2 = string_of(&second);
    let c1 = match parse_card(s1.as_str()) {
        Ok(c) => c,
        Err(_) => return None,
    };
    let c2 = match parse_card(s2.as_str()) {
        Ok(c) => c,
        Err(_) => return None,
    };
    if c1 == c2 {
        return None;
    }
    let mut out: Vec<Card> = Vec::new();
    out.push(c1);
    out.push(c2);
    assert(out@ =~= seq![c1, c2]);
    Some(out)
}

/// The board cards typed for a street: an even number of bytes after
/// removing spaces, then what `parse_board` accepts.
pub open spec fn board_input_of(s: Seq<char>) -> Option<Seq<Card>> {
    let t = input_clean(s);
    if utf8_len(t) % 2 != 0 { None } else { board_spec(t) }
}

/// Parses the cards typed for a street, such as "Ks7d2c" or "Jh".
pub fn parse_board_input(text: &str) -> (r: Option<Vec<Card>>)
    requires
        !board_would_overrun(input_clean(text@)),
    ensures
        match board_input_of(text@) {
            Some(cs) => r matches Some(v) && v@ == cs,
            None => r is None,
        },
{
    let v = chars_of(text);
    let t0 = trim_chars(&v);
    let t = remove_char(&t0, ' ');
    if !utf8_len_is_even(&t) {
        return None;
    }
    let s = string_of(&t);
    match parse_board(s.as_str()) {
        Ok(cards) => Some(cards),
        Err(_) => None,
    }
}

/// What `char::to_uppercase` yields for a character: its Unicode uppercase
/// mapping (one or more characters).
pub uninterp spec fn char_uppercase_of(c: char) -> Seq<char>;

/// `char::to_uppercase`, collected: the character's uppercase mapping; an
/// ASCII character maps to its ASCII upper case.
#[verifier::external_body]
fn char_to_uppercase(c: char) -> (r: String)
    ensures
        r@ == char_uppercase_of(c),
        (c as u32) < 128 ==> r@ == seq![upper(c)],
{
    c.to_uppercase().collect::<String>()
}

/// The text with its first character in upper case.
pub fn capitalize(s: &str) -> (r: String)
    ensures
        s@.len() == 0 ==> r@.len() == 0,
        s@.len() > 0 ==> r@ == char_uppercase_of(s@[0]) + s@.subrange(1, s@.len() as int),
        s@.len() > 0 && (s@[0] as u32) < 128 ==> r@ == seq![upper(s@[0])] + s@.subrange(1, s@.len() as int),
{
    let v = chars_of(s);
    if v.len() == 0 {
        return String::new();
    }
    let mut out = char_to_uppercase(v[0]);
    let ghost head = out@;
    let mut i: usize = 1;
    while i < v.len()
        invariant
            1 <= i <= v@.len(),
            v@ == s@,
            out@ == head + v@.subrange(1, i as int),
        decreases v@.len() - i,
    {
        push_char(&mut out, v[i]);
        i = i + 1;
        assert(out@ =~= head + v@.subrange(1, i as int));
    }
    out
}

} // verus!
