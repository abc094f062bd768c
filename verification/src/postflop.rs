//! Board texture analysis and the postflop rule tables built on it:
//! c-bet recommendations, bet sizing and per-street strategy.

use vstd::prelude::*;
use vstd::string::{StrSliceExecFns, StringExecFns};
use crate::cards::{Card, Rank, Suit, rank_char_at};
use crate::error::GtoError;
use crate::hand_evaluator::{count_val, lemma_count_bounds};
use crate::math_engine::SprZone;
use crate::text::{push_char, str_eq, to_uppercase, uppercase_of, dec_text, push_decimal};

verus! {

#[derive(Debug, Clone, Copy, PartialEq, Eq, Structural)]
pub enum Connectedness {
    Disconnected,
    SemiConnected,
    Connected,
}

impl Connectedness {
    pub open spec fn label(self) -> Seq<char> {
        match self {
            Connectedness::Disconnected => "disconnected"@,
            Connectedness::SemiConnected => "semi-connected"@,
            Connectedness::Connected => "connected"@,
        }
    }

    /// The lower-case name shown in board descriptions.
    pub fn as_str(&self) -> (s: &'static str)
        ensures
            s@ == self.label(),
    {
        match self {
            Connectedness::Disconnected => "disconnected",
            Connectedness::SemiConnected => "semi-connected",
            Connectedness::Connected => "connected",
        }
    }
}

#[derive(Debug, Clone, Copy, PartialEq, Eq, Structural)]
pub enum Wetness {
    Dry,
    Medium,
    Wet,
}

impl Wetness {
    pub open spec fn label(self) -> Seq<char> {
        match self {
            Wetness::Dry => "dry"@,
            Wetness::Medium => "medium"@,
            Wetness::Wet => "wet"@,
        }
    }

    /// The lower-case name of the texture.
    pub fn as_str(&self) -> (s: &'static str)
        ensures
            s@ == self.label(),
    {
        match self {
            Wetness::Dry => "dry",
            Wetness::Medium => "medium",
            Wetness::Wet => "wet",
        }
    }
}

#[derive(Debug, Clone)]
pub struct BoardTexture {
    pub cards: Vec<Card>,
    pub high_card: char,
    pub is_paired: bool,
    pub is_monotone: bool,
    pub is_two_tone: bool,
    pub is_rainbow: bool,
    pub flush_draw_possible: bool,
    pub straight_draw_possible: bool,
    pub connectedness: Connectedness,
    pub wetness: Wetness,
    pub category: String,
    pub draws: Vec<String>,
}

// ---------------------------------------------------------------------------
// The model: value histogram and suit counts of the board
// ---------------------------------------------------------------------------

/// Entry `v` is the number of board cards of value `v` (2..14).
pub open spec fn value_hist(b: Seq<Card>) -> Seq<usize> {
    Seq::new(15, |v: int| count_val(b, v) as usize)
}

pub open spec fn bit(x: bool) -> int {
    if x { 1 } else { 0 }
}

/// Value `v` occurs on the board.
pub open spec fn pres(c: Seq<usize>, v: int) -> bool {
    0 <= v < 15 && c[v] > 0
}

/// Two distinct board values at distance one exist, at `v` or above.
pub open spec fn adjacent_from(c: Seq<usize>, v: int) -> bool
    decreases 15 - v,
{
    if v >= 15 {
        false
    } else {
        (pres(c, v) && pres(c, v + 1)) || adjacent_from(c, v + 1)
    }
}

/// Two consecutive distinct board values at distance two exist, at `v` or above.
pub open spec fn one_gap_from(c: Seq<usize>, v: int) -> bool
    decreases 15 - v,
{
    if v >= 15 {
        false
    } else {
        (pres(c, v) && !pres(c, v + 1) && pres(c, v + 2)) || one_gap_from(c, v + 1)
    }
}

/// Number of consecutive distinct values, from `v` up, at most two apart.
pub open spec fn close_from(c: Seq<usize>, v: int) -> int
    decreases 15 - v,
{
    if v >= 15 {
        0
    } else {
        close_from(c, v + 1) + bit(pres(c, v) && (pres(c, v + 1) || pres(c, v + 2)))
    }
}

/// Number of distinct values in `[u, u + 4]`.
pub open spec fn window(c: Seq<usize>, u: int) -> int {
    bit(pres(c, u)) + bit(pres(c, u + 1)) + bit(pres(c, u + 2)) + bit(pres(c, u + 3)) + bit(pres(c, u + 4))
}

/// Some value at `v` or above starts a five-wide window holding three values.
pub open spec fn straight_from(c: Seq<usize>, v: int) -> bool
    decreases 15 - v,
{
    if v >= 15 {
        false
    } else {
        (pres(c, v) && window(c, v) >= 3) || straight_from(c, v + 1)
    }
}

/// Three values fit in a five-wide window, counting an ace as low too.
pub open spec fn straight_draw_of(c: Seq<usize>) -> bool {
    straight_from(c, 0)
        || (pres(c, 14) && bit(pres(c, 2)) + bit(pres(c, 3)) + bit(pres(c, 4)) + bit(pres(c, 5)) >= 2)
}

/// Some value at `v` or above occurs at least twice.
pub open spec fn paired_from(c: Seq<usize>, v: int) -> bool
    decreases 15 - v,
{
    if v >= 15 {
        false
    } else {
        c[v] >= 2 || paired_from(c, v + 1)
    }
}

/// Highest value at `v` or above that occurs (0 if none).
pub open spec fn high_from(c: Seq<usize>, v: int) -> int
    decreases 15 - v,
{
    if v >= 15 {
        0
    } else {
        let t = high_from(c, v + 1);
        if t != 0 { t } else if pres(c, v) { v } else { 0 }
    }
}

/// Number of board cards of suit index `s`.
pub open spec fn suit_count(b: Seq<Card>, s: int) -> int
    decreases b.len(),
{
    if b.len() == 0 {
        0
    } else {
        suit_count(b.drop_last(), s) + bit(b.last().suit.idx() == s)
    }
}

pub open spec fn max2(a: int, b: int) -> int {
    if a >= b { a } else { b }
}

/// The largest number of cards sharing a suit.
pub open spec fn max_suit(b: Seq<Card>) -> int {
    max2(max2(suit_count(b, 0), suit_count(b, 1)), max2(suit_count(b, 2), suit_count(b, 3)))
}

pub open spec fn monotone_of(b: Seq<Card>) -> bool {
    max_suit(b) >= 3 && b[0].suit == b[1].suit && b[1].suit == b[2].suit
}

pub open spec fn two_tone_of(b: Seq<Card>) -> bool {
    !monotone_of(b) && max_suit(b) >= 2
}

pub open spec fn rainbow_of(b: Seq<Card>) -> bool {
    max_suit(b) == 1
}

pub open spec fn connectedness_of(c: Seq<usize>) -> Connectedness {
    if adjacent_from(c, 0) && close_from(c, 0) >= 2 {
        Connectedness::Connected
    } else if adjacent_from(c, 0) || one_gap_from(c, 0) {
        Connectedness::SemiConnected
    } else {
        Connectedness::Disconnected
    }
}

/// How many draws the texture allows, scored.
pub open spec fn wet_score_of(b: Seq<Card>) -> int {
    let c = value_hist(b);
    (if monotone_of(b) { 3int } else if two_tone_of(b) { 1int } else { 0int })
        + (if connectedness_of(c) == Connectedness::Connected { 2int }
           else if connectedness_of(c) == Connectedness::SemiConnected { 1int } else { 0int })
        - bit(paired_from(c, 0))
}

/// Wet from a score of 3; medium from 2, or from 1 when the board is two-tone;
/// dry otherwise. A single point makes a board medium only when it is a flush
/// draw: on a rainbow board one link between two cards (A-K-7, J-9-4) leaves
/// only straight draws that need both hole cards, and such a board counts as
/// dry, as the A-K-7 rainbow example of the board command shows.
pub open spec fn wetness_of(b: Seq<Card>) -> Wetness {
    if wet_score_of(b) >= 3 {
        Wetness::Wet
    } else if wet_score_of(b) >= 2 || (wet_score_of(b) >= 1 && two_tone_of(b)) {
        Wetness::Medium
    } else {
        Wetness::Dry
    }
}

/// The rank character of a value, `?` outside 2..14.
pub open spec fn value_char(v: int) -> char {
    if 2 <= v <= 14 { rank_char_at(v - 2) } else { '?' }
}

/// The draws the board allows, in the order they are listed.
pub open spec fn draws_of(b: Seq<Card>) -> Seq<Seq<char>> {
    let c = value_hist(b);
    let flush = max_suit(b) >= 2 && b.len() < 5;
    let s1: Seq<Seq<char>> = if flush && two_tone_of(b) { seq!["flush draw"@] } else { seq![] };
    let s2 = if monotone_of(b) { s1.push("flush complete / 4-flush"@) } else { s1 };
    let s3 = if straight_draw_of(c) { s2.push("straight draw"@) } else { s2 };
    if paired_from(c, 0) { s3.push("paired board"@) } else { s3 }
}

/// A description such as "two-tone connected A-high".
pub open spec fn category_of_board(b: Seq<Card>) -> Seq<char> {
    let c = value_hist(b);
    let tone = if monotone_of(b) { "monotone"@ } else if two_tone_of(b) { "two-tone"@ } else { "rainbow"@ };
    let paired = if paired_from(c, 0) { " paired"@ } else { Seq::<char>::empty() };
    tone + " "@ + connectedness_of(c).label() + paired + " "@ + seq![value_char(high_from(c, 0))] + "-high"@
}

/// The texture `analyze_board` reports for a board of at least three cards.
pub open spec fn texture_matches(t: BoardTexture, b: Seq<Card>) -> bool {
    let c = value_hist(b);
    &&& t.cards@ == b
    &&& t.high_card == value_char(high_from(c, 0))
    &&& t.is_paired == paired_from(c, 0)
    &&& t.is_monotone == monotone_of(b)
    &&& t.is_two_tone == two_tone_of(b)
    &&& t.is_rainbow == rainbow_of(b)
    &&& t.flush_draw_possible == (max_suit(b) >= 2 && b.len() < 5)
    &&& t.straight_draw_possible == straight_draw_of(c)
    &&& t.connectedness == connectedness_of(c)
    &&& t.wetness == wetness_of(b)
    &&& t.category@ == category_of_board(b)
    &&& t.draws@.len() == draws_of(b).len()
    &&& forall|i: int| 0 <= i < t.draws@.len() ==> (#[trigger] t.draws@[i])@ == draws_of(b)[i]
}

// ---------------------------------------------------------------------------
// Computing the model
// ---------------------------------------------------------------------------

pub(crate) fn board_value_hist(cards: &[Card]) -> (cn: Vec<usize>)
    ensures
        cn@ == value_hist(cards@),
{
    let mut cn: Vec<usize> = vec![0usize; 15];
    let mut i: usize = 0;
    while i < cards.len()
        invariant
            i <= cards@.len(),
            cn@.len() == 15,
            forall|v: int| 0 <= v < 15 ==> #[trigger] cn@[v] == count_val(cards@.subrange(0, i as int), v),
        decreases cards@.len() - i,
    {
        let ghost pre = cards@.subrange(0, i as int);
        assert(cards@.subrange(0, i + 1).drop_last() =~= pre);
        let v = cards[i].value() as usize;
        proof {
            lemma_count_bounds(pre, v as int);
        }
        let old_c = cn[v];
        cn.set(v, old_c + 1);
        i = i + 1;
    }
    assert(cards@.subrange(0, cards@.len() as int) =~= cards@);
    assert forall|v: int| 0 <= v < 15 implies cn@[v] == value_hist(cards@)[v] by {
        lemma_count_bounds(cards@, v);
    }
    assert(cn@ =~= value_hist(cards@));
    cn
}

pub(crate) fn board_suit_counts(cards: &[Card]) -> (sc: Vec<usize>)
    ensures
        sc@.len() == 4,
        forall|s: int| 0 <= s < 4 ==> #[trigger] sc@[s] == suit_count(cards@, s),
{
    let mut sc: Vec<usize> = vec![0usize; 4];
    let mut i: usize = 0;
    while i < cards.len()
        invariant
            i <= cards@.len(),
            sc@.len() == 4,
            forall|s: int| 0 <= s < 4 ==> #[trigger] sc@[s] == suit_count(cards@.subrange(0, i as int), s),
            forall|s: int| 0 <= s < 4 ==> #[trigger] sc@[s] <= i,
        decreases cards@.len() - i,
    {
        let ghost pre = cards@.subrange(0, i as int);
        assert(cards@.subrange(0, i + 1).drop_last() =~= pre);
        let s = crate::cards::suit_index(cards[i].suit);
        let old_c = sc[s];
        sc.set(s, old_c + 1);
        i = i + 1;
    }
    assert(cards@.subrange(0, cards@.len() as int) =~= cards@);
    sc
}

pub(crate) fn present(cn: &Vec<usize>, v: usize) -> (b: bool)
    requires
        cn@.len() == 15,
    ensures
        b == pres(cn@, v as int),
{
    v < 15 && cn[v] > 0
}

pub(crate) fn count_bit(x: bool) -> (n: usize)
    ensures
        n == bit(x),
{
    if x { 1 } else { 0 }
}

fn adjacent_any(cn: &Vec<usize>) -> (b: bool)
    requires
        cn@.len() == 15,
    ensures
        b == adjacent_from(cn@, 0),
{
    let mut acc = false;
    let mut v: usize = 15;
    while v > 0
        invariant
            cn@.len() == 15,
            v <= 15,
            acc == adjacent_from(cn@, v as int),
        decreases v,
    {
        v = v - 1;
        acc = (present(cn, v) && present(cn, v + 1)) || acc;
    }
    acc
}

fn one_gap_any(cn: &Vec<usize>) -> (b: bool)
    requires
        cn@.len() == 15,
    ensures
        b == one_gap_from(cn@, 0),
{
    let mut acc = false;
    let mut v: usize = 15;
    while v > 0
        invariant
            cn@.len() == 15,
            v <= 15,
            acc == one_gap_from(cn@, v as int),
        decreases v,
    {
        v = v - 1;
        acc = (present(cn, v) && !present(cn, v + 1) && present(cn, v + 2)) || acc;
    }
    acc
}

fn close_count(cn: &Vec<usize>) -> (n: usize)
    requires
        cn@.len() == 15,
    ensures
        n == close_from(cn@, 0),
{
    let mut acc: usize = 0;
    let mut v: usize = 15;
    while v > 0
        invariant
            cn@.len() == 15,
            v <= 15,
            acc == close_from(cn@, v as int),
            acc <= 15 - v,
        decreases v,
    {
        v = v - 1;
        acc = acc + count_bit(present(cn, v) && (present(cn, v + 1) || present(cn, v + 2)));
    }
    acc
}

pub(crate) fn window_count(cn: &Vec<usize>, u: usize) -> (n: usize)
    requires
        cn@.len() == 15,
        u < 15,
    ensures
        n == window(cn@, u as int),
{
    count_bit(present(cn, u)) + count_bit(present(cn, u + 1)) + count_bit(present(cn, u + 2))
        + count_bit(present(cn, u + 3)) + count_bit(present(cn, u + 4))
}

fn straight_draw_exec(cn: &Vec<usize>) -> (b: bool)
    requires
        cn@.len() == 15,
    ensures
        b == straight_draw_of(cn@),
{
    let mut acc = false;
    let mut v: usize = 15;
    while v > 0
        invariant
            cn@.len() == 15,
            v <= 15,
            acc == straight_from(cn@, v as int),
        decreases v,
    {
        v = v - 1;
        acc = (present(cn, v) && window_count(cn, v) >= 3) || acc;
    }
    let low = count_bit(present(cn, 2)) + count_bit(present(cn, 3)) + count_bit(present(cn, 4))
        + count_bit(present(cn, 5));
    acc || (present(cn, 14) && low >= 2)
}

fn paired_any(cn: &Vec<usize>) -> (b: bool)
    requires
        cn@.len() == 15,
    ensures
        b == paired_from(cn@, 0),
{
    let mut acc = false;
    let mut v: usize = 15;
    while v > 0
        invariant
            cn@.len() == 15,
            v <= 15,
            acc == paired_from(cn@, v as int),
        decreases v,
    {
        v = v - 1;
        acc = cn[v] >= 2 || acc;
    }
    acc
}

pub proof fn lemma_high_range(c: Seq<usize>, v: int)
    ensures
        high_from(c, v) == 0 || (v <= high_from(c, v) < 15 && pres(c, high_from(c, v))),
    decreases 15 - v,
{
    if v < 15 {
        lemma_high_range(c, v + 1);
    }
}

pub(crate) fn high_value(cn: &Vec<usize>) -> (h: usize)
    requires
        cn@.len() == 15,
    ensures
        h == high_from(cn@, 0),
{
    let mut acc: usize = 0;
    let mut v: usize = 15;
    while v > 0
        invariant
            cn@.len() == 15,
            v <= 15,
            acc == high_from(cn@, v as int),
        decreases v,
    {
        v = v - 1;
        proof {
            lemma_high_range(cn@, v + 1);
        }
        if acc == 0 && present(cn, v) {
            acc = v;
        }
    }
    acc
}

/// The rank character of a card value (2..14), `?` otherwise.
pub fn value_to_rank(value: u8) -> (c: char)
    ensures
        c == value_char(value as int),
{
    match value {
        2 => '2',
        3 => '3',
        4 => '4',
        5 => '5',
        6 => '6',
        7 => '7',
        8 => '8',
        9 => '9',
        10 => 'T',
        11 => 'J',
        12 => 'Q',
        13 => 'K',
        14 => 'A',
        _ => '?',
    }
}

/// Describes the texture of a board of three or more cards.
pub fn analyze_board(board_cards: &[Card]) -> (r: Result<BoardTexture, GtoError>)
    ensures
        board_cards@.len() < 3 <==> r is Err,
        board_cards@.len() < 3 ==> r == Err::<BoardTexture, GtoError>(
            GtoError::NotEnoughCards { need: 3, got: board_cards@.len() as usize }),
        r matches Ok(t) ==> texture_matches(t, board_cards@),
{
    if board_cards.len() < 3 {
        return Err(GtoError::NotEnoughCards { need: 3, got: board_cards.len() });
    }
    let ghost b = board_cards@;
    let cn = board_value_hist(board_cards);
    let sc = board_suit_counts(board_cards);
    let m01 = if sc[0] >= sc[1] { sc[0] } else { sc[1] };
    let m23 = if sc[2] >= sc[3] { sc[2] } else { sc[3] };
    let max_s = if m01 >= m23 { m01 } else { m23 };
    assert(max_s == max_suit(b));

    let first_three_same = board_cards[0].suit == board_cards[1].suit
        && board_cards[1].suit == board_cards[2].suit;
    let is_monotone = max_s >= 3 && first_three_same;
    let is_two_tone = !is_monotone && max_s >= 2;
    let is_rainbow = max_s == 1;
    let is_paired = paired_any(&cn);

    let has_connected = adjacent_any(&cn);
    let has_one_gap = one_gap_any(&cn);
    let straight_draw = straight_draw_exec(&cn);
    let flush_draw = max_s >= 2 && board_cards.len() < 5;

    let connectedness = if has_connected && close_count(&cn) >= 2 {
        Connectedness::Connected
    } else if has_connected || has_one_gap {
        Connectedness::SemiConnected
    } else {
        Connectedness::Disconnected
    };

    let mut wet_score: i32 = 0;
    if is_monotone {
        wet_score = wet_score + 3;
    } else if is_two_tone {
        wet_score = wet_score + 1;
    }
    if connectedness == Connectedness::Connected {
        wet_score = wet_score + 2;
    } else if connectedness == Connectedness::SemiConnected {
        wet_score = wet_score + 1;
    }
    if is_paired {
        wet_score = wet_score - 1;
    }
    assert(wet_score == wet_score_of(b));

    let wetness = if wet_score >= 3 {
        Wetness::Wet
    } else if wet_score >= 2 || (wet_score >= 1 && is_two_tone) {
        Wetness::Medium
    } else {
        Wetness::Dry
    };

    let mut draws: Vec<String> = Vec::new();
    if flush_draw && is_two_tone {
        draws.push(String::from_str("flush draw"));
    }
    if is_monotone {
        draws.push(String::from_str("flush complete / 4-flush"));
    }
    if straight_draw {
        draws.push(String::from_str("straight draw"));
    }
    if is_paired {
        draws.push(String::from_str("paired board"));
    }
    proof {
        let d = draws_of(b);
        assert(draws@.len() == d.len());
        assert(forall|i: int| 0 <= i < draws@.len() ==> (#[trigger] draws@[i])@ == d[i]);
    }

    let high = high_value(&cn);
    proof {
        lemma_high_range(cn@, 0);
    }
    let high_rank = value_to_rank(high as u8);

    let mut category = if is_monotone {
        String::from_str("monotone")
    } else if is_two_tone {
        String::from_str("two-tone")
    } else {
        String::from_str("rainbow")
    };
    let ghost tone = category@;
    category.append(" ");
    category.append(connectedness.as_str());
    let ghost with_conn = category@;
    assert(with_conn == tone + " "@ + connectedness_of(cn@).label());
    if is_paired {
        category.append(" paired");
    }
    let ghost paired_part = if is_paired { " paired"@ } else { Seq::<char>::empty() };
    assert(category@ =~= with_conn + paired_part);
    category.append(" ");
    push_char(&mut category, high_rank);
    category.append("-high");
    assert(category@ =~= tone + " "@ + connectedness_of(cn@).label() + paired_part + " "@
        + seq![value_char(high_from(cn@, 0))] + "-high"@);
    assert(category@ == category_of_board(b));

    let mut cards: Vec<Card> = Vec::new();
    let mut i: usize = 0;
    while i < board_cards.len()
        invariant
            i <= board_cards@.len(),
            cards@ == board_cards@.subrange(0, i as int),
        decreases board_cards@.len() - i,
    {
        cards.push(board_cards[i]);
        i = i + 1;
        assert(cards@ =~= board_cards@.subrange(0, i as int));
    }
    assert(cards@ =~= board_cards@);

    Ok(BoardTexture {
        cards,
        high_card: high_rank,
        is_paired,
        is_monotone,
        is_two_tone,
        is_rainbow,
        flush_draw_possible: flush_draw,
        straight_draw_possible: straight_draw,
        connectedness,
        wetness,
        category,
        draws,
    })
}

// ---------------------------------------------------------------------------
// Rule tables
// ---------------------------------------------------------------------------

/// Whether a position label means "in position", case-insensitively.
pub open spec fn is_ip_label(position: Seq<char>) -> bool {
    uppercase_of(position) == "IP"@
}

fn ip_label(position: &str) -> (b: bool)
    ensures
        b == is_ip_label(position@),
{
    let up = to_uppercase(position);
    str_eq(up.as_str(), "IP")
}

/// A c-bet recommendation; the frequency is a percentage.
pub struct CBetRecommendation {
    pub should_cbet: bool,
    pub frequency_pct: u32,
    pub sizing: String,
    pub reasoning: String,
}

/// The c-bet table: whether to bet, how often (percent), how much, and why.
pub open spec fn cbet_spec(w: Wetness, ip: bool, multiway: bool) -> (bool, int, Seq<char>, Seq<char>) {
    if multiway {
        if w == Wetness::Dry {
            (true, 40, "33% pot"@, "Dry board multiway \u{2014} small sizing, lower frequency"@)
        } else {
            (false, 20, "50% pot"@, "Wet board multiway \u{2014} check most hands, bet selectively"@)
        }
    } else if w == Wetness::Dry {
        if ip {
            (true, 70, "33% pot"@, "Dry board IP \u{2014} high frequency small c-bet"@)
        } else {
            (true, 50, "33% pot"@, "Dry board OOP \u{2014} moderate frequency small c-bet"@)
        }
    } else if w == Wetness::Wet {
        if ip {
            (true, 50, "66-75% pot"@, "Wet board IP \u{2014} polarized sizing, moderate frequency"@)
        } else {
            (true, 35, "66-75% pot"@, "Wet board OOP \u{2014} selective, larger sizing"@)
        }
    } else if ip {
        (true, 60, "50% pot"@, "Medium texture IP \u{2014} balanced frequency and sizing"@)
    } else {
        (true, 45, "50% pot"@, "Medium texture OOP \u{2014} moderate sizing"@)
    }
}

fn cbet(should_cbet: bool, frequency_pct: u32, sizing: &str, reasoning: &str) -> (c: CBetRecommendation)
    ensures
        c.should_cbet == should_cbet,
        c.frequency_pct == frequency_pct,
        c.sizing@ == sizing@,
        c.reasoning@ == reasoning@,
{
    CBetRecommendation {
        should_cbet,
        frequency_pct,
        sizing: String::from_str(sizing),
        reasoning: String::from_str(reasoning),
    }
}

/// How the stack-to-pot ratio moves the c-bet frequency (percentage points):
/// more often when stacks are shallow, less often when they are deep.
pub open spec fn spr_shift(z: SprZone) -> int {
    match z {
        SprZone::Low => 12,
        SprZone::Medium => 0,
        SprZone::High => -10,
    }
}

/// C-bet recommendation for a board texture, position ("IP" or "OOP"), the
/// stack-to-pot zone and whether the pot is multiway: the table's frequency
/// shifted by the zone.
pub fn cbet_recommendation(board_texture: &BoardTexture, position: &str, spr_zone: SprZone, multiway: bool) -> (r: CBetRecommendation)
    ensures
        ({
            let t = cbet_spec(board_texture.wetness, is_ip_label(position@), multiway);
            (r.should_cbet, r.frequency_pct as int, r.sizing@, r.reasoning@) == (t.0, t.1 + spr_shift(spr_zone), t.2, t.3)
        }),
{
    let mut rec = cbet_table(board_texture, position, multiway);
    rec.frequency_pct = match spr_zone {
        SprZone::Low => rec.frequency_pct + 12,
        SprZone::Medium => rec.frequency_pct,
        SprZone::High => rec.frequency_pct - 10,
    };
    rec
}

fn cbet_table(board_texture: &BoardTexture, position: &str, multiway: bool) -> (r: CBetRecommendation)
    ensures
        (r.should_cbet, r.frequency_pct as int, r.sizing@, r.reasoning@)
            == cbet_spec(board_texture.wetness, is_ip_label(position@), multiway),
        20 <= r.frequency_pct <= 70,
{
    let w = board_texture.wetness;
    if multiway {
        if w == Wetness::Dry {
            return cbet(true, 40, "33% pot", "Dry board multiway \u{2014} small sizing, lower frequency");
        }
        return cbet(false, 20, "50% pot", "Wet board multiway \u{2014} check most hands, bet selectively");
    }
    let ip = ip_label(position);
    if w == Wetness::Dry {
        if ip {
            return cbet(true, 70, "33% pot", "Dry board IP \u{2014} high frequency small c-bet");
        }
        return cbet(true, 50, "33% pot", "Dry board OOP \u{2014} moderate frequency small c-bet");
    }
    if w == Wetness::Wet {
        if ip {
            return cbet(true, 50, "66-75% pot", "Wet board IP \u{2014} polarized sizing, moderate frequency");
        }
        return cbet(true, 35, "66-75% pot", "Wet board OOP \u{2014} selective, larger sizing");
    }
    if ip {
        cbet(true, 60, "50% pot", "Medium texture IP \u{2014} balanced frequency and sizing")
    } else {
        cbet(true, 45, "50% pot", "Medium texture OOP \u{2014} moderate sizing")
    }
}

/// The sizing table; `low_spr` is a stack-to-pot ratio of at most 4.
pub open spec fn sizing_spec(w: Wetness, low_spr: bool, street: Seq<char>, polarized: bool) -> Seq<char> {
    if polarized {
        if street == "river"@ { "75-125% pot"@ } else { "66-75% pot"@ }
    } else if low_spr {
        "33-50% pot (low SPR \u{2014} pot commitment)"@
    } else if street == "flop"@ {
        if w == Wetness::Dry {
            "25-33% pot"@
        } else if w == Wetness::Wet {
            "66-75% pot"@
        } else {
            "50% pot"@
        }
    } else if street == "turn"@ {
        if w == Wetness::Dry { "50% pot"@ } else { "66-75% pot"@ }
    } else {
        "66-75% pot"@
    }
}

/// Bet sizing for a texture, stack-to-pot ratio (whether it is at most 4),
/// street and whether the range is polarized.
pub fn bet_sizing(board_texture: &BoardTexture, low_spr: bool, street: &str, polarized: bool) -> (r: String)
    ensures
        r@ == sizing_spec(board_texture.wetness, low_spr, street@, polarized),
{
    if polarized {
        if str_eq(street, "river") {
            return String::from_str("75-125% pot");
        }
        return String::from_str("66-75% pot");
    }
    if low_spr {
        return String::from_str("33-50% pot (low SPR \u{2014} pot commitment)");
    }
    if str_eq(street, "flop") {
        if board_texture.wetness == Wetness::Dry {
            return String::from_str("25-33% pot");
        }
        if board_texture.wetness == Wetness::Wet {
            return String::from_str("66-75% pot");
        }
        return String::from_str("50% pot");
    }
    if str_eq(street, "turn") {
        if board_texture.wetness == Wetness::Dry {
            return String::from_str("50% pot");
        }
        return String::from_str("66-75% pot");
    }
    String::from_str("66-75% pot")
}

pub struct StreetStrategy {
    pub action: String,
    pub sizing: String,
    pub reasoning: String,
    pub hand_strength: String,
}

/// The per-street table: action, sizing and reasoning for a hand strength.
/// `bluff_pct` is the fold equity a bluff needs, in percent.
pub open spec fn street_spec(
    hs: Seq<char>, w: Wetness, low_spr: bool, bluff_pct: nat, ip: bool, street: Seq<char>,
) -> (Seq<char>, Seq<char>, Seq<char>) {
    if hs == "nuts"@ || hs == "very_strong"@ {
        if low_spr {
            ("BET"@, "all-in or 66-100% pot"@, "Low SPR with strong hand \u{2014} build pot for stacks"@)
        } else {
            ("BET"@, sizing_spec(w, low_spr, street, true), "Strong hand \u{2014} value bet"@)
        }
    } else if hs == "strong"@ {
        ("BET"@, sizing_spec(w, low_spr, street, false),
            if w == Wetness::Wet { "Strong hand on wet board \u{2014} protect equity"@ }
            else { "Strong hand \u{2014} standard value"@ })
    } else if hs == "medium"@ {
        if ip {
            ("CHECK/BET"@, "50% pot if betting"@, "Medium hand IP \u{2014} pot control or thin value"@)
        } else {
            ("CHECK"@, "-"@, "Medium hand OOP \u{2014} pot control"@)
        }
    } else if hs == "draw"@ {
        if w == Wetness::Wet && ip {
            ("BET (semi-bluff)"@, sizing_spec(w, low_spr, street, false),
                "Draw IP \u{2014} semi-bluff for fold equity + equity"@)
        } else {
            ("CHECK/CALL"@, "-"@, "Draw \u{2014} realize equity cheaply"@)
        }
    } else if hs == "bluff"@ {
        ("BET (bluff)"@, sizing_spec(w, low_spr, street, true),
            "Bluff \u{2014} need ~"@ + dec_text(bluff_pct) + "% fold equity to profit"@)
    } else {
        ("CHECK/FOLD"@, "-"@, "Weak hand \u{2014} give up without equity"@)
    }
}

fn street_plan(action: &str, sizing: String, reasoning: String, hand_strength: &str) -> (s: StreetStrategy)
    ensures
        s.action@ == action@,
        s.sizing == sizing,
        s.reasoning == reasoning,
        s.hand_strength@ == hand_strength@,
{
    StreetStrategy {
        action: String::from_str(action),
        sizing,
        reasoning,
        hand_strength: String::from_str(hand_strength),
    }
}

/// Recommended action on a street for a hand strength ("nuts", "very_strong",
/// "strong", "medium", "draw", "bluff" or anything else for weak), given the
/// texture, whether the stack-to-pot ratio is at most 4, the fold equity a
/// bluff needs (percent), the position ("IP"/"OOP") and the street.
pub fn street_strategy(
    hand_strength: &str,
    board_texture: &BoardTexture,
    low_spr: bool,
    bluff_pct: u32,
    position: &str,
    street: &str,
) -> (r: StreetStrategy)
    ensures
        (r.action@, r.sizing@, r.reasoning@) == street_spec(hand_strength@, board_texture.wetness,
            low_spr, bluff_pct as nat, is_ip_label(position@), street@),
        r.hand_strength@ == hand_strength@,
{
    let w = board_texture.wetness;
    if str_eq(hand_strength, "nuts") || str_eq(hand_strength, "very_strong") {
        if low_spr {
            return street_plan("BET", String::from_str("all-in or 66-100% pot"),
                String::from_str("Low SPR with strong hand \u{2014} build pot for stacks"), hand_strength);
        }
        let sizing = bet_sizing(board_texture, low_spr, street, true);
        return street_plan("BET", sizing, String::from_str("Strong hand \u{2014} value bet"), hand_strength);
    }
    if str_eq(hand_strength, "strong") {
        let sizing = bet_sizing(board_texture, low_spr, street, false);
        let reasoning = if w == Wetness::Wet {
            "Strong hand on wet board \u{2014} protect equity"
        } else {
            "Strong hand \u{2014} standard value"
        };
        return street_plan("BET", sizing, String::from_str(reasoning), hand_strength);
    }
    if str_eq(hand_strength, "medium") {
        if ip_label(position) {
            return street_plan("CHECK/BET", String::from_str("50% pot if betting"),
                String::from_str("Medium hand IP \u{2014} pot control or thin value"), hand_strength);
        }
        return street_plan("CHECK", String::from_str("-"),
            String::from_str("Medium hand OOP \u{2014} pot control"), hand_strength);
    }
    if str_eq(hand_strength, "draw") {
        if w == Wetness::Wet && ip_label(position) {
            let sizing = bet_sizing(board_texture, low_spr, street, false);
            return street_plan("BET (semi-bluff)", sizing,
                String::from_str("Draw IP \u{2014} semi-bluff for fold equity + equity"), hand_strength);
        }
        return street_plan("CHECK/CALL", String::from_str("-"),
            String::from_str("Draw \u{2014} realize equity cheaply"), hand_strength);
    }
    if str_eq(hand_strength, "bluff") {
        let sizing = bet_sizing(board_texture, low_spr, street, true);
        let mut reasoning = String::from_str("Bluff \u{2014} need ~");
        push_decimal(&mut reasoning, bluff_pct);
        reasoning.append("% fold equity to profit");
        return street_plan("BET (bluff)", sizing, reasoning, hand_strength);
    }
    street_plan("CHECK/FOLD", String::from_str("-"),
        String::from_str("Weak hand \u{2014} give up without equity"), hand_strength)
}

// ---------------------------------------------------------------------------
// Laws
// ---------------------------------------------------------------------------

proof fn lemma_suit_counts_sum(b: Seq<Card>)
    ensures
        suit_count(b, 0) + suit_count(b, 1) + suit_count(b, 2) + suit_count(b, 3) == b.len(),
        forall|s: int| 0 <= s < 4 ==> suit_count(b, s) >= 0,
    decreases b.len(),
{
    if b.len() > 0 {
        lemma_suit_counts_sum(b.drop_last());
    }
}

/// Every board of three or more cards is exactly one of monotone, two-tone
/// and rainbow.
pub proof fn law_one_suit_pattern(b: Seq<Card>)
    requires
        b.len() >= 3,
    ensures
        monotone_of(b) || two_tone_of(b) || rainbow_of(b),
        !(monotone_of(b) && two_tone_of(b)),
        !(monotone_of(b) && rainbow_of(b)),
        !(two_tone_of(b) && rainbow_of(b)),
{
    lemma_suit_counts_sum(b);
}

/// The c-bet frequency falls as stacks deepen: a low stack-to-pot ratio
/// c-bets more often than a medium one, and a medium one more than a high one.
pub proof fn law_cbet_spr_order(w: Wetness, ip: bool, multiway: bool)
    ensures
        cbet_spec(w, ip, multiway).1 + spr_shift(SprZone::Low) > cbet_spec(w, ip, multiway).1 + spr_shift(SprZone::Medium),
        cbet_spec(w, ip, multiway).1 + spr_shift(SprZone::Medium) > cbet_spec(w, ip, multiway).1 + spr_shift(SprZone::High),
{
}

/// In position c-bets at least as often as out of position, a heads-up pot at
/// least as often as a multiway one, and a drier board at least as often as a
/// wetter one.
pub proof fn law_cbet_frequency_order(w: Wetness, ip: bool, multiway: bool)
    ensures
        cbet_spec(w, false, multiway).1 <= cbet_spec(w, true, multiway).1,
        cbet_spec(w, ip, true).1 <= cbet_spec(w, ip, false).1,
        cbet_spec(Wetness::Wet, ip, multiway).1 <= cbet_spec(Wetness::Medium, ip, multiway).1,
        cbet_spec(Wetness::Medium, ip, multiway).1 <= cbet_spec(Wetness::Dry, ip, multiway).1,
{
}

/// Every hand strength gets an action: the recommended action is never empty.
pub proof fn law_street_strategy_acts(hs: Seq<char>, w: Wetness, low_spr: bool, bluff_pct: nat, ip: bool, street: Seq<char>)
    ensures
        street_spec(hs, w, low_spr, bluff_pct, ip, street).0.len() > 0,
{
    reveal_strlit("BET");
    reveal_strlit("CHECK/BET");
    reveal_strlit("CHECK");
    reveal_strlit("BET (semi-bluff)");
    reveal_strlit("CHECK/CALL");
    reveal_strlit("BET (bluff)");
    reveal_strlit("CHECK/FOLD");
}

/// Out of position a draw is never advised to bet: whatever the texture,
/// stack-to-pot ratio, street or bluff price, it checks and calls.
pub proof fn law_draw_out_of_position_checks(
    w: Wetness, low_spr: bool, bluff_pct: nat, position: Seq<char>, street: Seq<char>,
)
    requires
        !is_ip_label(position),
    ensures
        street_spec("draw"@, w, low_spr, bluff_pct, is_ip_label(position), street).0 == "CHECK/CALL"@,
        street_spec("draw"@, w, low_spr, bluff_pct, is_ip_label(position), street).1 == "-"@,
{
    reveal_strlit("draw");
    reveal_strlit("nuts");
    reveal_strlit("very_strong");
    reveal_strlit("strong");
    reveal_strlit("medium");
    assert("draw"@ != "nuts"@) by {
        assert("draw"@[0] != "nuts"@[0]);
    }
    assert("draw"@ != "very_strong"@) by {
        assert("draw"@.len() != "very_strong"@.len());
    }
    assert("draw"@ != "strong"@);
    assert("draw"@ != "medium"@);
}

/// On a complete board (five cards) no draw is left: no flush draw is
/// reported as possible and the draws listed name no flush draw, whatever the suits.
pub proof fn law_river_board_has_no_flush_draw(t: BoardTexture, b: Seq<Card>)
    requires
        b.len() == 5,
        texture_matches(t, b),
    ensures
        !t.flush_draw_possible,
        forall|i: int| 0 <= i < t.draws@.len() ==> (#[trigger] t.draws@[i])@ != "flush draw"@,
{
    reveal_strlit("flush draw");
    reveal_strlit("flush complete / 4-flush");
    reveal_strlit("straight draw");
    reveal_strlit("paired board");
    let d = draws_of(b);
    assert forall|i: int| 0 <= i < d.len() implies #[trigger] d[i] != "flush draw"@ by {
        assert(d[i].len() != "flush draw"@.len());
    }
    assert forall|i: int| 0 <= i < t.draws@.len() implies (#[trigger] t.draws@[i])@ != "flush draw"@ by {
        assert(t.draws@[i]@ == d[i]);
    }
}

} // verus!
