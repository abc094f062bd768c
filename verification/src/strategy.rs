//! Helpers of the strategy lookup: default matchups, combo lookup in a solved
//! combo list, and display formatting of hands, boards and streets.

use vstd::prelude::*;
use vstd::string::{StrSliceExecFns, StringSliceAdditionalSpecFns, StringExecFns};
use vstd::utf8::{encode_utf8, decode_utf8, encode_utf8_decode_utf8};
use crate::preflop_solver::Position;
use crate::text::push_char;

verus! {

/// Where a strategy answer came from.
#[derive(Debug, Clone, Copy, PartialEq, Eq, Structural)]
pub enum StrategySource {
    Cached,
    SolvedOnDemand,
    NotInRange,
}

/// Standard pot type for postflop solving.
#[derive(Debug, Clone, Copy, PartialEq, Eq, Structural)]
pub enum PotType {
    /// Single raised pot.
    Srp,
    /// 3-bet pot.
    ThreeBet,
    /// 4-bet pot.
    FourBet,
}

impl PotType {
    pub open spec fn label(self) -> Seq<char> {
        match self {
            PotType::Srp => "SRP"@,
            PotType::ThreeBet => "3BP"@,
            PotType::FourBet => "4BP"@,
        }
    }

    pub fn as_str(&self) -> (s: &'static str)
        ensures
            s@ == self.label(),
    {
        match self {
            PotType::Srp => "SRP",
            PotType::ThreeBet => "3BP",
            PotType::FourBet => "4BP",
        }
    }
}

/// The most common opponent for a hero seat.
pub open spec fn villain_for(hero: Position) -> Position {
    match hero {
        Position::BB => Position::BTN,
        _ => Position::BB,
    }
}

/// Default villain for a given hero position (most common matchup).
pub fn default_villain(hero: Position) -> (v: Position)
    ensures
        v == villain_for(hero),
{
    match hero {
        Position::BTN => Position::BB,
        Position::CO => Position::BB,
        Position::HJ => Position::BB,
        Position::UTG => Position::BB,
        Position::SB => Position::BB,
        Position::BB => Position::BTN,
    }
}

/// Preflop opening order of a seat (earlier seats open first).
pub fn preflop_open_order(pos: Position) -> (o: usize)
    ensures
        o == pos.seat(),
{
    match pos {
        Position::UTG => 0,
        Position::HJ => 1,
        Position::CO => 2,
        Position::BTN => 3,
        Position::SB => 4,
        Position::BB => 5,
    }
}

// ---------------------------------------------------------------------------
// Combo lookup
// ---------------------------------------------------------------------------

/// The hand with its two 2-byte halves swapped ("AhQd" -> "QdAh").
pub open spec fn swapped_halves(s: Seq<char>) -> Seq<char> {
    decode_utf8(encode_utf8(s).subrange(2, 4) + encode_utf8(s).subrange(0, 2))
}

pub open spec fn combo_matches(c: Seq<char>, hand: Seq<char>) -> bool {
    c == hand || c == swapped_halves(hand)
}

proof fn lemma_encode_concat(x: Seq<char>, y: Seq<char>)
    ensures
        encode_utf8(x + y) == encode_utf8(x) + encode_utf8(y),
    decreases x.len(),
{
    if x.len() == 0 {
        assert(x + y =~= y);
        assert(encode_utf8(x) + encode_utf8(y) =~= encode_utf8(y));
    } else {
        assert((x + y)[0] == x[0]);
        assert((x + y).drop_first() =~= x.drop_first() + y);
        lemma_encode_concat(x.drop_first(), y);
        assert(encode_utf8(x + y) =~= encode_utf8(x) + encode_utf8(y));
    }
}

/// Index of the first combo in `combo_list` that is the 4-byte hand
/// `hand_str` in either card order; `None` for a hand of another length.
pub fn find_combo_index(hand_str: &str, combo_list: &[String]) -> (r: Option<usize>)
    requires
        hand_str.spec_bytes().len() <= usize::MAX,
        hand_str.spec_bytes().len() == 4 ==> vstd::utf8::is_char_boundary(hand_str.spec_bytes(), 2),
    ensures
        hand_str.spec_bytes().len() != 4 ==> r is None,
        hand_str.spec_bytes().len() == 4 ==> match r {
            Some(i) => i < combo_list@.len()
                && combo_matches(combo_list@[i as int]@, hand_str@)
                && forall|j: int| 0 <= j < i ==> !combo_matches(#[trigger] combo_list@[j]@, hand_str@),
            None => forall|j: int| 0 <= j < combo_list@.len() ==> !combo_matches(#[trigger] combo_list@[j]@, hand_str@),
        },
{
    if hand_str.len() != 4 {
        return None;
    }
    let (card1, card2) = hand_str.split_at(2);
    let mut forward = String::from_str(card1);
    forward.append(card2);
    let mut reverse = String::from_str(card2);
    reverse.append(card1);
    proof {
        let b = hand_str.spec_bytes();
        assert(encode_utf8(card1@) == b.subrange(0, 2));
        assert(encode_utf8(card2@) == b.subrange(2, 4));
        lemma_encode_concat(card1@, card2@);
        lemma_encode_concat(card2@, card1@);
        assert(b.subrange(0, 2) + b.subrange(2, 4) =~= b);
        encode_utf8_decode_utf8(card1@ + card2@);
        encode_utf8_decode_utf8(hand_str@);
        encode_utf8_decode_utf8(card2@ + card1@);
        assert(forward@ == hand_str@);
        assert(reverse@ == swapped_halves(hand_str@));
    }
    let mut i: usize = 0;
    while i < combo_list.len()
        invariant
            i <= combo_list@.len(),
            hand_str.spec_bytes().len() == 4,
            forward@ == hand_str@,
            reverse@ == swapped_halves(hand_str@),
            forall|j: int| 0 <= j < i ==> !combo_matches(#[trigger] combo_list@[j]@, hand_str@),
        decreases combo_list@.len() - i,
    {
        if combo_list[i] == forward || combo_list[i] == reverse {
            return Some(i);
        }
        i = i + 1;
    }
    None
}

// ---------------------------------------------------------------------------
// Display helpers
// ---------------------------------------------------------------------------

/// The symbol shown for a suit letter.
pub open spec fn suit_glyph(c: char) -> char {
    if c == 's' {
        '\u{2660}'
    } else if c == 'h' {
        '\u{2665}'
    } else if c == 'd' {
        '\u{2666}'
    } else if c == 'c' {
        '\u{2663}'
    } else {
        '?'
    }
}

/// Unicode symbol for a suit letter ("?" for anything else).
pub fn suit_symbol(c: char) -> (s: &'static str)
    ensures
        s@ == seq![suit_glyph(c)],
{
    if c == 's' {
        proof { reveal_strlit("\u{2660}"); }
        "\u{2660}"
    } else if c == 'h' {
        proof { reveal_strlit("\u{2665}"); }
        "\u{2665}"
    } else if c == 'd' {
        proof { reveal_strlit("\u{2666}"); }
        "\u{2666}"
    } else if c == 'c' {
        proof { reveal_strlit("\u{2663}"); }
        "\u{2663}"
    } else {
        proof { reveal_strlit("?"); }
        "?"
    }
}

/// A 4-byte hand "AhQd" shown as "A♥Q♦"; any other text unchanged.
pub open spec fn pretty_hand_spec(s: Seq<char>, byte_len: int) -> Seq<char> {
    if byte_len != 4 {
        s
    } else {
        seq![s[0], suit_glyph(s[1]), s[2], suit_glyph(s[3])]
    }
}

/// Formats a hand string with unicode suit symbols: "AhQd" -> "A♥Q♦".
pub fn pretty_hand(hand: &str) -> (r: String)
    requires
        hand.spec_bytes().len() <= usize::MAX,
        hand.spec_bytes().len() == 4 ==> hand@.len() >= 4,
    ensures
        r@ == pretty_hand_spec(hand@, hand.spec_bytes().len() as int),
{
    if hand.len() != 4 {
        return String::from_str(hand);
    }
    let r1 = hand.get_char(0);
    let s1 = hand.get_char(1);
    let r2 = hand.get_char(2);
    let s2 = hand.get_char(3);
    let mut out = String::new();
    push_char(&mut out, r1);
    out.append(suit_symbol(s1));
    push_char(&mut out, r2);
    out.append(suit_symbol(s2));
    assert(out@ =~= pretty_hand_spec(hand@, hand.spec_bytes().len() as int));
    out
}

/// The k-th card of a board string shown as rank and suit symbol.
pub open spec fn board_piece(s: Seq<char>, k: int) -> Seq<char> {
    seq![s[2 * k], suit_glyph(s[2 * k + 1])]
}

/// The first `m` cards of a board string, shown and separated by spaces.
pub open spec fn board_pieces(s: Seq<char>, m: int) -> Seq<char>
    decreases m,
{
    if m <= 0 {
        Seq::empty()
    } else if m == 1 {
        board_piece(s, 0)
    } else {
        board_pieces(s, m - 1) + seq![' '] + board_piece(s, m - 1)
    }
}

/// Formats a board string with unicode suit symbols: "Ks9d4c" -> "K♠ 9♦ 4♣".
/// A trailing unpaired character is dropped.
pub fn pretty_board(board: &str) -> (r: String)
    ensures
        r@ == board_pieces(board@, (board@.len() / 2) as int),
{
    let n = board.unicode_len();
    let mut out = String::new();
    let mut i: usize = 0;
    while i + 1 < n
        invariant
            n == board@.len(),
            i % 2 == 0,
            i <= n,
            out@ == board_pieces(board@, (i / 2) as int),
        decreases n - i,
    {
        if i > 0 {
            push_char(&mut out, ' ');
        }
        push_char(&mut out, board.get_char(i));
        out.append(suit_symbol(board.get_char(i + 1)));
        proof {
            let k = (i / 2) as int;
            assert(board_piece(board@, k) =~= seq![board@[i as int], suit_glyph(board@[i + 1])]);
            if k == 0 {
                assert(out@ =~= board_pieces(board@, 1));
            } else {
                assert(out@ =~= board_pieces(board@, k) + seq![' '] + board_piece(board@, k));
            }
        }
        i = i + 2;
    }
    assert(i / 2 == n / 2);
    out
}

/// The street a board of the given byte length belongs to.
pub open spec fn street_of(byte_len: int) -> Seq<char> {
    if byte_len == 0 {
        "Preflop"@
    } else if byte_len == 6 {
        "Flop"@
    } else if byte_len == 8 {
        "Turn"@
    } else if byte_len == 10 {
        "River"@
    } else {
        "Unknown"@
    }
}

/// Detects the street from the board string's length in bytes.
pub fn detect_street(board: &str) -> (s: &'static str)
    ensures
        s@ == street_of(board.len() as int),
{
    let n = board.len();
    if n == 0 {
        "Preflop"
    } else if n == 6 {
        "Flop"
    } else if n == 8 {
        "Turn"
    } else if n == 10 {
        "River"
    } else {
        "Unknown"
    }
}

} // verus!
