//! Ranks, suits, cards, the deck, and card/hand notation.

use vstd::prelude::*;
use core::cmp::Ordering;

use crate::error::GtoError;
use crate::text::{lower, push_char, to_lower, to_upper, upper, trim, without, utf8_len, char_utf8_len, chars_of, trim_chars, remove_char, string_of, utf8_len_is_even, char_byte_len};
use rand::seq::SliceRandom;

verus! {

pub const RANKS_STR: &'static str = "23456789TJQKA";
pub const SUITS_STR: &'static str = "shdc";

#[derive(Debug, Clone, Copy, PartialEq, Eq, PartialOrd, Ord, Hash, Structural)]
pub enum Rank {
    Two,
    Three,
    Four,
    Five,
    Six,
    Seven,
    Eight,
    Nine,
    Ten,
    Jack,
    Queen,
    King,
    Ace,
}

/// The rank at position `i` (0 = Two ... 12 = Ace).
pub open spec fn rank_at(i: int) -> Rank {
    if i == 0 { Rank::Two }
    else if i == 1 { Rank::Three }
    else if i == 2 { Rank::Four }
    else if i == 3 { Rank::Five }
    else if i == 4 { Rank::Six }
    else if i == 5 { Rank::Seven }
    else if i == 6 { Rank::Eight }
    else if i == 7 { Rank::Nine }
    else if i == 8 { Rank::Ten }
    else if i == 9 { Rank::Jack }
    else if i == 10 { Rank::Queen }
    else if i == 11 { Rank::King }
    else { Rank::Ace }
}

/// The notation character of the rank at position `i`.
pub open spec fn rank_char_at(i: int) -> char {
    if i == 0 { '2' }
    else if i == 1 { '3' }
    else if i == 2 { '4' }
    else if i == 3 { '5' }
    else if i == 4 { '6' }
    else if i == 5 { '7' }
    else if i == 6 { '8' }
    else if i == 7 { '9' }
    else if i == 8 { 'T' }
    else if i == 9 { 'J' }
    else if i == 10 { 'Q' }
    else if i == 11 { 'K' }
    else { 'A' }
}

/// Position of `c` in `RANKS_STR`, if it is a rank character.
pub open spec fn rank_index_of(c: char) -> Option<int> {
    if c == '2' { Some(0) }
    else if c == '3' { Some(1) }
    else if c == '4' { Some(2) }
    else if c == '5' { Some(3) }
    else if c == '6' { Some(4) }
    else if c == '7' { Some(5) }
    else if c == '8' { Some(6) }
    else if c == '9' { Some(7) }
    else if c == 'T' { Some(8) }
    else if c == 'J' { Some(9) }
    else if c == 'Q' { Some(10) }
    else if c == 'K' { Some(11) }
    else if c == 'A' { Some(12) }
    else { None }
}

impl Rank {
    /// Position in `RANKS_STR`: Two = 0 ... Ace = 12.
    pub open spec fn idx(self) -> int {
        match self {
            Rank::Two => 0,
            Rank::Three => 1,
            Rank::Four => 2,
            Rank::Five => 3,
            Rank::Six => 4,
            Rank::Seven => 5,
            Rank::Eight => 6,
            Rank::Nine => 7,
            Rank::Ten => 8,
            Rank::Jack => 9,
            Rank::Queen => 10,
            Rank::King => 11,
            Rank::Ace => 12,
        }
    }

    /// Numeric value: Two = 2 ... Ace = 14.
    pub open spec fn val(self) -> int {
        self.idx() + 2
    }

    pub open spec fn ch(self) -> char {
        rank_char_at(self.idx())
    }

    pub fn from_char(c: char) -> (r: Result<Rank, GtoError>)
        ensures
            rank_index_of(c) is Some ==> r == Ok::<Rank, GtoError>(rank_at(rank_index_of(c)->0)),
            rank_index_of(c) is None ==> (r matches Err(GtoError::InvalidRank(x)) && x == c),
    {
        match c {
            '2' => Ok(Rank::Two),
            '3' => Ok(Rank::Three),
            '4' => Ok(Rank::Four),
            '5' => Ok(Rank::Five),
            '6' => Ok(Rank::Six),
            '7' => Ok(Rank::Seven),
            '8' => Ok(Rank::Eight),
            '9' => Ok(Rank::Nine),
            'T' => Ok(Rank::Ten),
            'J' => Ok(Rank::Jack),
            'Q' => Ok(Rank::Queen),
            'K' => Ok(Rank::King),
            'A' => Ok(Rank::Ace),
            _ => Err(GtoError::InvalidRank(c)),
        }
    }

    pub fn to_char(self) -> (c: char)
        ensures
            c == self.ch(),
    {
        match self {
            Rank::Two => '2',
            Rank::Three => '3',
            Rank::Four => '4',
            Rank::Five => '5',
            Rank::Six => '6',
            Rank::Seven => '7',
            Rank::Eight => '8',
            Rank::Nine => '9',
            Rank::Ten => 'T',
            Rank::Jack => 'J',
            Rank::Queen => 'Q',
            Rank::King => 'K',
            Rank::Ace => 'A',
        }
    }

    pub fn value(self) -> (v: u8)
        ensures
            v == self.val(),
    {
        match self {
            Rank::Two => 2,
            Rank::Three => 3,
            Rank::Four => 4,
            Rank::Five => 5,
            Rank::Six => 6,
            Rank::Seven => 7,
            Rank::Eight => 8,
            Rank::Nine => 9,
            Rank::Ten => 10,
            Rank::Jack => 11,
            Rank::Queen => 12,
            Rank::King => 13,
            Rank::Ace => 14,
        }
    }
}

/// The rank with the given position (0 = Two ... 12 = Ace).
pub fn rank_from_index(i: usize) -> (r: Rank)
    requires
        i < 13,
    ensures
        r == rank_at(i as int),
        r.idx() == i,
{
    if i == 0 { Rank::Two }
    else if i == 1 { Rank::Three }
    else if i == 2 { Rank::Four }
    else if i == 3 { Rank::Five }
    else if i == 4 { Rank::Six }
    else if i == 5 { Rank::Seven }
    else if i == 6 { Rank::Eight }
    else if i == 7 { Rank::Nine }
    else if i == 8 { Rank::Ten }
    else if i == 9 { Rank::Jack }
    else if i == 10 { Rank::Queen }
    else if i == 11 { Rank::King }
    else { Rank::Ace }
}

#[derive(Debug, Clone, Copy, PartialEq, Eq, PartialOrd, Ord, Hash, Structural)]
pub enum Suit {
    Spades,
    Hearts,
    Diamonds,
    Clubs,
}

pub open spec fn suit_at(i: int) -> Suit {
    if i == 0 { Suit::Spades }
    else if i == 1 { Suit::Hearts }
    else if i == 2 { Suit::Diamonds }
    else { Suit::Clubs }
}

/// The suit named by `c`, ignoring ASCII case.
pub open spec fn suit_of_char(c: char) -> Option<Suit> {
    let l = lower(c);
    if l == 's' { Some(Suit::Spades) }
    else if l == 'h' { Some(Suit::Hearts) }
    else if l == 'd' { Some(Suit::Diamonds) }
    else if l == 'c' { Some(Suit::Clubs) }
    else { None }
}

/// The rank named by `c` (upper case only).
pub open spec fn rank_of_char(c: char) -> Option<Rank> {
    match rank_index_of(c) {
        Some(i) => Some(rank_at(i)),
        None => None,
    }
}

impl Suit {
    /// Position in `SUITS_STR`: Spades = 0, Hearts, Diamonds, Clubs = 3.
    pub open spec fn idx(self) -> int {
        match self {
            Suit::Spades => 0,
            Suit::Hearts => 1,
            Suit::Diamonds => 2,
            Suit::Clubs => 3,
        }
    }

    pub open spec fn ch(self) -> char {
        match self {
            Suit::Spades => 's',
            Suit::Hearts => 'h',
            Suit::Diamonds => 'd',
            Suit::Clubs => 'c',
        }
    }

    pub open spec fn sym(self) -> char {
        match self {
            Suit::Spades => '\u{2660}',
            Suit::Hearts => '\u{2665}',
            Suit::Diamonds => '\u{2666}',
            Suit::Clubs => '\u{2663}',
        }
    }

    pub fn from_char(c: char) -> (r: Result<Suit, GtoError>)
        ensures
            suit_of_char(c) is Some ==> r == Ok::<Suit, GtoError>(suit_of_char(c)->0),
            suit_of_char(c) is None ==> (r matches Err(GtoError::InvalidSuit(x)) && x == c),
    {
        let l = to_lower(c);
        if l == 's' {
            Ok(Suit::Spades)
        } else if l == 'h' {
            Ok(Suit::Hearts)
        } else if l == 'd' {
            Ok(Suit::Diamonds)
        } else if l == 'c' {
            Ok(Suit::Clubs)
        } else {
            Err(GtoError::InvalidSuit(c))
        }
    }

    pub fn to_char(self) -> (c: char)
        ensures
            c == self.ch(),
    {
        match self {
            Suit::Spades => 's',
            Suit::Hearts => 'h',
            Suit::Diamonds => 'd',
            Suit::Clubs => 'c',
        }
    }

    /// The suit's symbol as a one-character string.
    pub fn symbol(self) -> (s: &'static str)
        ensures
            s@ == seq![self.sym()],
    {
        match self {
            Suit::Spades => {
                proof { reveal_strlit("\u{2660}"); }
                "\u{2660}"
            },
            Suit::Hearts => {
                proof { reveal_strlit("\u{2665}"); }
                "\u{2665}"
            },
            Suit::Diamonds => {
                proof { reveal_strlit("\u{2666}"); }
                "\u{2666}"
            },
            Suit::Clubs => {
                proof { reveal_strlit("\u{2663}"); }
                "\u{2663}"
            },
        }
    }

    pub fn symbol_char(self) -> (c: char)
        ensures
            c == self.sym(),
    {
        match self {
            Suit::Spades => '\u{2660}',
            Suit::Hearts => '\u{2665}',
            Suit::Diamonds => '\u{2666}',
            Suit::Clubs => '\u{2663}',
        }
    }
}

pub fn suit_from_index(i: usize) -> (s: Suit)
    requires
        i < 4,
    ensures
        s == suit_at(i as int),
        s.idx() == i,
{
    if i == 0 { Suit::Spades }
    else if i == 1 { Suit::Hearts }
    else if i == 2 { Suit::Diamonds }
    else { Suit::Clubs }
}

pub fn suit_index(s: Suit) -> (i: usize)
    ensures
        i == s.idx(),
{
    match s {
        Suit::Spades => 0,
        Suit::Hearts => 1,
        Suit::Diamonds => 2,
        Suit::Clubs => 3,
    }
}

pub fn rank_index_of_rank(r: Rank) -> (i: usize)
    ensures
        i == r.idx(),
{
    let v = r.value();
    (v - 2) as usize
}

#[derive(Debug, Clone, Copy, PartialEq, Eq, Hash, Structural)]
pub struct Card {
    pub rank: Rank,
    pub suit: Suit,
}

/// Position of a card in the fresh deck: rank-major, suits in `SUITS_STR` order.
pub open spec fn card_idx(c: Card) -> int {
    c.rank.idx() * 4 + c.suit.idx()
}

pub open spec fn card_at(i: int) -> Card {
    Card { rank: rank_at(i / 4), suit: suit_at(i % 4) }
}

/// The card's notation, e.g. "Kd".
pub open spec fn card_text(c: Card) -> Seq<char> {
    seq![c.rank.ch(), c.suit.ch()]
}

pub proof fn lemma_card_at_idx(c: Card)
    ensures
        card_at(card_idx(c)) == c,
        0 <= card_idx(c) < 52,
{
    assert(card_idx(c) / 4 == c.rank.idx());
    assert(card_idx(c) % 4 == c.suit.idx());
}

pub proof fn lemma_idx_card_at(i: int)
    requires
        0 <= i < 52,
    ensures
        card_idx(card_at(i)) == i,
{
}

impl Card {
    pub fn new(rank: Rank, suit: Suit) -> (c: Card)
        ensures
            c.rank == rank,
            c.suit == suit,
    {
        Card { rank, suit }
    }

    pub fn value(&self) -> (v: u8)
        ensures
            v == self.rank.val(),
    {
        self.rank.value()
    }

    /// Rank character followed by the suit symbol, e.g. "A♠".
    pub fn pretty(&self) -> (s: String)
        ensures
            s@ == seq![self.rank.ch(), self.suit.sym()],
    {
        let mut s = String::new();
        push_char(&mut s, self.rank.to_char());
        push_char(&mut s, self.suit.symbol_char());
        s
    }

    /// Rank character followed by the suit character, e.g. "Kd".
    pub fn notation(&self) -> (s: String)
        ensures
            s@ == card_text(*self),
    {
        let mut s = String::new();
        push_char(&mut s, self.rank.to_char());
        push_char(&mut s, self.suit.to_char());
        s
    }

    /// Position in the fresh deck (0..52).
    pub fn index(&self) -> (i: usize)
        ensures
            i == card_idx(*self),
    {
        rank_index_of_rank(self.rank) * 4 + suit_index(self.suit)
    }
}

/// The card at a deck position.
pub fn card_from_index(i: usize) -> (c: Card)
    requires
        i < 52,
    ensures
        c == card_at(i as int),
        card_idx(c) == i,
{
    Card::new(rank_from_index(i / 4), suit_from_index(i % 4))
}

pub fn cards_equal(a: Card, b: Card) -> (r: bool)
    ensures
        r == (a == b),
{
    a.rank == b.rank && a.suit == b.suit
}

/// Cards are ordered by rank alone.
impl PartialOrd for Card {
    fn partial_cmp(&self, other: &Card) -> (r: Option<Ordering>) {
        let a = self.rank.value();
        let b = other.rank.value();
        if a < b {
            Some(Ordering::Less)
        } else if a == b {
            Some(Ordering::Equal)
        } else {
            Some(Ordering::Greater)
        }
    }
}

impl vstd::std_specs::cmp::PartialOrdSpecImpl for Card {
    open spec fn obeys_partial_cmp_spec() -> bool {
        true
    }

    open spec fn partial_cmp_spec(&self, other: &Card) -> Option<Ordering> {
        if self.rank.val() < other.rank.val() {
            Some(Ordering::Less)
        } else if self.rank.val() == other.rank.val() {
            Some(Ordering::Equal)
        } else {
            Some(Ordering::Greater)
        }
    }
}


/// Whether `c` occurs in `cards`.
pub fn contains_card(cards: &[Card], c: Card) -> (b: bool)
    ensures
        b == cards@.contains(c),
{
    let mut i: usize = 0;
    while i < cards.len()
        invariant
            i <= cards@.len(),
            forall|k: int| 0 <= k < i ==> cards@[k] != c,
        decreases cards@.len() - i,
    {
        if cards_equal(cards[i], c) {
            return true;
        }
        i = i + 1;
    }
    false
}

/// The first `n` cards of a fresh deck, leaving out those in `ex`.
pub open spec fn deck_upto(n: int, ex: Seq<Card>) -> Seq<Card>
    decreases n,
{
    if n <= 0 {
        Seq::empty()
    } else if ex.contains(card_at(n - 1)) {
        deck_upto(n - 1, ex)
    } else {
        deck_upto(n - 1, ex).push(card_at(n - 1))
    }
}

/// A fresh deck (rank-major, suits in `SUITS_STR` order) without the cards in `ex`.
pub open spec fn fresh_deck(ex: Seq<Card>) -> Seq<Card> {
    deck_upto(52, ex)
}

/// The fresh deck holds each card exactly once, in deck order, and no excluded card.
pub proof fn lemma_deck_upto(n: int, ex: Seq<Card>)
    requires
        0 <= n <= 52,
    ensures
        forall|i: int, j: int|
            0 <= i < j < deck_upto(n, ex).len() ==> card_idx(#[trigger] deck_upto(n, ex)[i])
                < card_idx(#[trigger] deck_upto(n, ex)[j]),
        forall|c: Card| #[trigger]
            deck_upto(n, ex).contains(c) <==> (card_idx(c) < n && !ex.contains(c)),
        ex.len() == 0 ==> deck_upto(n, ex).len() == n,
    decreases n,
{
    if n > 0 {
        lemma_deck_upto(n - 1, ex);
        lemma_idx_card_at(n - 1);
        let d = deck_upto(n - 1, ex);
        assert forall|c: Card| #[trigger] deck_upto(n, ex).contains(c) <==> (card_idx(c) < n
            && !ex.contains(c)) by {
            lemma_card_at_idx(c);
            if card_idx(c) == n - 1 {
                assert(c == card_at(n - 1));
            }
            if !ex.contains(card_at(n - 1)) {
                assert(deck_upto(n, ex) == d.push(card_at(n - 1)));
                if deck_upto(n, ex).contains(c) {
                    let k = choose|k: int| 0 <= k < deck_upto(n, ex).len() && deck_upto(n, ex)[k] == c;
                    if k < d.len() {
                        assert(d.contains(c));
                    }
                }
                if card_idx(c) < n - 1 && !ex.contains(c) {
                    assert(d.contains(c));
                    let k = choose|k: int| 0 <= k < d.len() && d[k] == c;
                    assert(deck_upto(n, ex)[k] == c);
                }
                if card_idx(c) == n - 1 {
                    assert(deck_upto(n, ex)[d.len() as int] == c);
                }
            }
        }
        if !ex.contains(card_at(n - 1)) {
            assert forall|i: int| 0 <= i < d.len() implies card_idx(d[i]) < n - 1 by {
                assert(d.contains(d[i]));
            }
        }
    }
}

pub struct Deck {
    pub cards: Vec<Card>,
}

/// `rand`'s `SliceRandom::shuffle` with the thread-local generator: a random
/// permutation of the cards.
#[verifier::external_body]
fn shuffle_cards(cards: &mut Vec<Card>)
    ensures
        final(cards)@.to_multiset() == old(cards)@.to_multiset(),
{
    cards.shuffle(&mut rand::thread_rng())
}

impl Deck {
    /// A fresh deck of 52 cards, without the excluded ones.
    pub fn new(exclude: Option<&[Card]>) -> (d: Deck)
        ensures
            d.cards@ == fresh_deck(
                match exclude {
                    Some(e) => e@,
                    None => Seq::<Card>::empty(),
                },
            ),
    {
        let ghost ex = match exclude {
            Some(e) => e@,
            None => Seq::<Card>::empty(),
        };
        let mut cards: Vec<Card> = Vec::new();
        let mut i: usize = 0;
        while i < 52
            invariant
                i <= 52,
                cards@ == deck_upto(i as int, ex),
                ex == match exclude {
                    Some(e) => e@,
                    None => Seq::<Card>::empty(),
                },
            decreases 52 - i,
        {
            let c = card_from_index(i);
            let skip = match exclude {
                Some(e) => contains_card(e, c),
                None => false,
            };
            if !skip {
                cards.push(c);
            }
            i = i + 1;
        }
        Deck { cards }
    }

    /// Randomly reorders the cards; the same cards remain.
    pub fn shuffle(&mut self) -> (r: &mut Self)
        ensures
            r.cards@.to_multiset() == old(self).cards@.to_multiset(),
            *final(self) == *final(r),
    {
        shuffle_cards(&mut self.cards);
        self
    }

    /// Removes and returns the top `n` cards.
    pub fn deal(&mut self, n: usize) -> (r: Result<Vec<Card>, GtoError>)
        ensures
            n > old(self).cards@.len() ==> (r matches Err(GtoError::NotEnoughDeck { requested, available })
                && requested == n && available == old(self).cards@.len()
                && final(self).cards@ == old(self).cards@),
            n <= old(self).cards@.len() ==> (r matches Ok(v)
                && v@ == old(self).cards@.subrange(0, n as int)
                && final(self).cards@ == old(self).cards@.subrange(n as int, old(self).cards@.len() as int)),
    {
        if n > self.cards.len() {
            return Err(GtoError::NotEnoughDeck { requested: n, available: self.cards.len() });
        }
        let mut rest = self.cards.split_off(n);
        core::mem::swap(&mut self.cards, &mut rest);
        Ok(rest)
    }

    pub fn len(&self) -> (n: usize)
        ensures
            n == self.cards@.len(),
    {
        self.cards.len()
    }
}

/// The card named by a two-character notation, if it names one.
pub open spec fn card_of_pair(t: Seq<char>) -> Option<Card> {
    if t.len() == 2 && rank_of_char(upper(t[0])) is Some && suit_of_char(t[1]) is Some {
        Some(Card { rank: rank_of_char(upper(t[0]))->0, suit: suit_of_char(t[1])->0 })
    } else {
        None
    }
}

/// What `parse_card` accepts: the card named after trimming whitespace.
pub open spec fn parse_card_spec(s: Seq<char>) -> Option<Card> {
    card_of_pair(trim(s))
}

/// The error `parse_card` reports for input `s` it does not accept.
pub open spec fn card_error(e: GtoError, s: Seq<char>) -> bool {
    let t = trim(s);
    if t.len() != 2 {
        e matches GtoError::InvalidCardNotation(m) && m@ == t
    } else if rank_of_char(upper(t[0])) is None {
        e matches GtoError::InvalidRank(c) && c == upper(t[0])
    } else {
        e matches GtoError::InvalidSuit(c) && c == t[1]
    }
}

fn parse_card_chars(t: &Vec<char>) -> (r: Result<Card, GtoError>)
    requires
        trim(t@) == t@,
    ensures
        parse_card_spec(t@) is Some ==> r == Ok::<Card, GtoError>(parse_card_spec(t@)->0),
        parse_card_spec(t@) is None ==> (r is Err && card_error(r->Err_0, t@)),
{
    if t.len() != 2 {
        return Err(GtoError::InvalidCardNotation(string_of(t)));
    }
    let rank = Rank::from_char(to_upper(t[0]))?;
    let suit = Suit::from_char(t[1])?;
    Ok(Card::new(rank, suit))
}

proof fn lemma_trim_idempotent(s: Seq<char>)
    ensures
        trim(trim(s)) == trim(s),
{
    lemma_trim_start_fixed(s);
    lemma_trim_end_keeps_start(crate::text::trim_start(s));
    lemma_trim_end_fixed(crate::text::trim_start(s));
    lemma_trim_start_fixed(trim(s));
}

proof fn lemma_trim_start_fixed(s: Seq<char>)
    ensures
        crate::text::trim_start(crate::text::trim_start(s)) == crate::text::trim_start(s),
        crate::text::trim_start(s).len() == 0 || !crate::text::is_ws(crate::text::trim_start(s)[0]),
    decreases s.len(),
{
    if s.len() > 0 && crate::text::is_ws(s[0]) {
        lemma_trim_start_fixed(s.drop_first());
    }
}

proof fn lemma_trim_end_fixed(s: Seq<char>)
    ensures
        crate::text::trim_end(crate::text::trim_end(s)) == crate::text::trim_end(s),
        crate::text::trim_end(s).len() == 0 || !crate::text::is_ws(crate::text::trim_end(s).last()),
    decreases s.len(),
{
    if s.len() > 0 && crate::text::is_ws(s.last()) {
        lemma_trim_end_fixed(s.drop_last());
    }
}

/// Trimming the end keeps a sequence's prefix property: it is a prefix.
proof fn lemma_trim_end_keeps_start(s: Seq<char>)
    ensures
        crate::text::trim_end(s).len() <= s.len(),
        crate::text::trim_end(s) =~= s.subrange(0, crate::text::trim_end(s).len() as int),
    decreases s.len(),
{
    if s.len() > 0 && crate::text::is_ws(s.last()) {
        lemma_trim_end_keeps_start(s.drop_last());
    }
}

/// Parses a card such as "As", "td" or "AH" (rank upper-cased, suit any case).
pub fn parse_card(notation: &str) -> (r: Result<Card, GtoError>)
    ensures
        parse_card_spec(notation@) is Some ==> r == Ok::<Card, GtoError>(
            parse_card_spec(notation@)->0,
        ),
        parse_card_spec(notation@) is None ==> (r is Err && card_error(r->Err_0, notation@)),
{
    let v = chars_of(notation);
    parse_card_vec(&v)
}

fn parse_card_vec(v: &Vec<char>) -> (r: Result<Card, GtoError>)
    ensures
        parse_card_spec(v@) is Some ==> r == Ok::<Card, GtoError>(parse_card_spec(v@)->0),
        parse_card_spec(v@) is None ==> (r is Err && card_error(r->Err_0, v@)),
{
    let t = trim_chars(v);
    proof {
        lemma_trim_idempotent(v@);
    }
    parse_card_chars(&t)
}


/// Board text after trimming and dropping spaces and commas.
pub open spec fn board_clean(s: Seq<char>) -> Seq<char> {
    without(without(trim(s), ' '), ',')
}

/// The `j`-th two-character chunk.
pub open spec fn chunk(c: Seq<char>, j: int) -> Seq<char> {
    c.subrange(2 * j, 2 * j + 2)
}

/// The first `k` chunks each name a card.
pub open spec fn chunks_ok(c: Seq<char>, k: int) -> bool {
    forall|j: int| 0 <= j < k ==> (#[trigger] parse_card_spec(chunk(c, j))) is Some
}

/// Inputs on which `parse_board` would slice past the end of the text: an even
/// byte length, an odd number of characters, and every full chunk a card.
pub open spec fn board_would_overrun(s: Seq<char>) -> bool {
    let c = board_clean(s);
    utf8_len(c) % 2 == 0 && c.len() % 2 == 1 && chunks_ok(c, c.len() as int / 2)
}

/// The cards `parse_board` returns, when it accepts the text.
pub open spec fn board_spec(s: Seq<char>) -> Option<Seq<Card>> {
    let c = board_clean(s);
    if utf8_len(c) % 2 == 0 && c.len() % 2 == 0 && chunks_ok(c, c.len() as int / 2) {
        Some(Seq::new((c.len() / 2) as nat, |j: int| parse_card_spec(chunk(c, j))->0))
    } else {
        None
    }
}

/// Parses a board such as "AsKd7c", "As Kd 7c" or "As,Kd,7c".
pub fn parse_board(notation: &str) -> (r: Result<Vec<Card>, GtoError>)
    requires
        !board_would_overrun(notation@),
    ensures
        board_spec(notation@) is Some ==> (r matches Ok(v) && v@ == board_spec(notation@)->0),
        board_spec(notation@) is None ==> r is Err,
        utf8_len(board_clean(notation@)) % 2 != 0 ==> (r matches Err(GtoError::InvalidBoardNotation(m))
            && m@ == board_clean(notation@)),
        utf8_len(board_clean(notation@)) % 2 == 0 && board_spec(notation@) is None ==> (exists|j: int|
            0 <= j && 2 * j + 2 <= board_clean(notation@).len() && chunks_ok(board_clean(notation@), j)
                && parse_card_spec(chunk(board_clean(notation@), j)) is None && r is Err
                && card_error(r->Err_0, chunk(board_clean(notation@), j))),
{
    let v = chars_of(notation);
    let t = trim_chars(&v);
    let t1 = remove_char(&t, ' ');
    let c = remove_char(&t1, ',');
    let ghost cs = board_clean(notation@);
    assert(c@ == cs);
    if !utf8_len_is_even(&c) {
        return Err(GtoError::InvalidBoardNotation(string_of(&c)));
    }
    let mut cards: Vec<Card> = Vec::new();
    let mut i: usize = 0;
    while i < c.len()
        invariant
            c@ == cs,
            cs == board_clean(notation@),
            utf8_len(cs) % 2 == 0,
            !board_would_overrun(notation@),
            i % 2 == 0,
            i <= c.len(),
            chunks_ok(cs, i as int / 2),
            cards@.len() == i / 2,
            forall|j: int| 0 <= j < i / 2 ==> cards@[j] == parse_card_spec(chunk(cs, j))->0,
        decreases c.len() - i,
    {
        if i + 1 >= c.len() {
            proof {
                assert(i + 1 == cs.len());
                assert(cs.len() % 2 == 1);
                assert(i as int / 2 == cs.len() as int / 2);
                assert(board_would_overrun(notation@));
            }
            // unreachable: excluded by the precondition
            assert(false);
        }
        let mut pair: Vec<char> = Vec::new();
        pair.push(c[i]);
        pair.push(c[i + 1]);
        assert(pair@ =~= chunk(cs, i as int / 2));
        let card = parse_card_vec(&pair);
        match card {
            Ok(cd) => {
                cards.push(cd);
            },
            Err(e) => {
                assert(board_spec(notation@) is None) by {
                    if cs.len() % 2 == 0 {
                        assert(i as int / 2 < cs.len() as int / 2);
                        assert(parse_card_spec(chunk(cs, i as int / 2)) is None);
                        assert(!chunks_ok(cs, cs.len() as int / 2));
                    }
                }
                return Err(e);
            },
        }
        i = i + 2;
        assert(chunks_ok(cs, i as int / 2)) by {
            assert forall|j: int| 0 <= j < i / 2 implies (#[trigger] parse_card_spec(chunk(cs, j))) is Some by {
                if j < (i - 2) / 2 {
                } else {
                    assert(j == (i - 2) / 2);
                }
            }
        }
    }
    assert(i == c.len());
    assert(cards@ =~= board_spec(notation@)->0);
    Ok(cards)
}

/// Whether `parse_board` would slice past the end of this text.
pub fn board_overruns(notation: &str) -> (b: bool)
    ensures
        b == board_would_overrun(notation@),
{
    let v = chars_of(notation);
    let t = trim_chars(&v);
    let t1 = remove_char(&t, ' ');
    let c = remove_char(&t1, ',');
    let ghost cs = board_clean(notation@);
    assert(c@ == cs);
    if !utf8_len_is_even(&c) || c.len() % 2 == 0 {
        return false;
    }
    let n = c.len() / 2;
    let mut j: usize = 0;
    while j < n
        invariant
            c@ == cs,
            cs == board_clean(notation@),
            utf8_len(cs) % 2 == 0,
            cs.len() % 2 == 1,
            n == cs.len() / 2,
            j <= n,
            chunks_ok(cs, j as int),
        decreases n - j,
    {
        assert(2 * j + 1 < c@.len());
        let mut pair: Vec<char> = Vec::new();
        pair.push(c[2 * j]);
        pair.push(c[2 * j + 1]);
        assert(pair@ =~= chunk(cs, j as int));
        match parse_card_vec(&pair) {
            Ok(_) => {},
            Err(_) => {
                assert(parse_card_spec(chunk(cs, j as int)) is None);
                assert(!chunks_ok(cs, n as int));
                return false;
            },
        }
        j = j + 1;
        assert(chunks_ok(cs, j as int)) by {
            assert forall|k: int| 0 <= k < j implies (#[trigger] parse_card_spec(chunk(cs, k))) is Some by {
                if k < j - 1 {
                } else {
                    assert(k == j - 1);
                }
            }
        }
    }
    true
}

/// The cards named by consecutive character pairs of `s`, when every pair
/// names a card and no character is left over.
pub open spec fn pairs_spec(s: Seq<char>) -> Option<Seq<Card>> {
    if s.len() % 2 == 0 && chunks_ok(s, s.len() as int / 2) {
        Some(Seq::new((s.len() / 2) as nat, |j: int| parse_card_spec(chunk(s, j))->0))
    } else {
        None
    }
}

/// Reads a hand such as "AhKd" as cards, two characters at a time; `None`
/// when a character is left over or a pair names no card.
pub fn parse_card_pairs(text: &str) -> (r: Option<Vec<Card>>)
    ensures
        match pairs_spec(text@) {
            Some(cs) => r matches Some(v) && v@ == cs,
            None => r is None,
        },
{
    let c = chars_of(text);
    let ghost cs = text@;
    assert(c@ == cs);
    let mut cards: Vec<Card> = Vec::new();
    let mut i: usize = 0;
    while i < c.len()
        invariant
            c@ == cs,
            cs == text@,
            i % 2 == 0,
            i <= c.len(),
            chunks_ok(cs, i as int / 2),
            cards@.len() == i / 2,
            forall|j: int| 0 <= j < i / 2 ==> cards@[j] == parse_card_spec(chunk(cs, j))->0,
        decreases c.len() - i,
    {
        if i + 1 >= c.len() {
            assert(cs.len() % 2 == 1);
            return None;
        }
        let mut pair: Vec<char> = Vec::new();
        pair.push(c[i]);
        pair.push(c[i + 1]);
        assert(pair@ =~= chunk(cs, i as int / 2));
        match parse_card_vec(&pair) {
            Ok(cd) => {
                cards.push(cd);
            },
            Err(_) => {
                assert(pairs_spec(text@) is None) by {
                    if cs.len() % 2 == 0 {
                        assert(i as int / 2 < cs.len() as int / 2);
                        assert(!chunks_ok(cs, cs.len() as int / 2));
                    }
                }
                return None;
            },
        }
        i = i + 2;
        assert(chunks_ok(cs, i as int / 2)) by {
            assert forall|j: int| 0 <= j < i / 2 implies (#[trigger] parse_card_spec(chunk(cs, j))) is Some by {
                if j < (i - 2) / 2 {
                } else {
                    assert(j == (i - 2) / 2);
                }
            }
        }
    }
    assert(cards@ =~= pairs_spec(text@)->0);
    Some(cards)
}

/// Canonical two-card class such as "AA", "AKs" or "T9o" (higher rank first).
pub open spec fn hand_class_text(c1: Card, c2: Card) -> Seq<char> {
    let hi = if c1.rank.idx() >= c2.rank.idx() { c1.rank } else { c2.rank };
    let lo = if c1.rank.idx() >= c2.rank.idx() { c2.rank } else { c1.rank };
    if hi == lo {
        seq![hi.ch(), lo.ch()]
    } else if c1.suit == c2.suit {
        seq![hi.ch(), lo.ch(), 's']
    } else {
        seq![hi.ch(), lo.ch(), 'o']
    }
}

/// Names the class of a two-card hand, e.g. [As, Kh] -> "AKo".
pub fn simplify_hand(cards: &[Card]) -> (r: Result<String, GtoError>)
    ensures
        cards@.len() != 2 ==> r matches Err(GtoError::InvalidHandSize),
        cards@.len() == 2 ==> (r matches Ok(t) && t@ == hand_class_text(cards@[0], cards@[1])),
{
    if cards.len() != 2 {
        return Err(GtoError::InvalidHandSize);
    }
    let c1 = cards[0];
    let c2 = cards[1];
    let (r1, r2) = if c1.rank.value() >= c2.rank.value() {
        (c1.rank, c2.rank)
    } else {
        (c2.rank, c1.rank)
    };
    let mut s = String::new();
    push_char(&mut s, r1.to_char());
    push_char(&mut s, r2.to_char());
    if r1 == r2 {
        return Ok(s);
    }
    if c1.suit == c2.suit {
        push_char(&mut s, 's');
    } else {
        push_char(&mut s, 'o');
    }
    Ok(s)
}

/// The six pairs of distinct suits (i < j) in suit order.
pub open spec fn pair_suits() -> Seq<(int, int)> {
    seq![(0int, 1int), (0, 2), (0, 3), (1, 2), (1, 3), (2, 3)]
}

/// The four suits paired with themselves.
pub open spec fn suited_suits() -> Seq<(int, int)> {
    seq![(0int, 0int), (1, 1), (2, 2), (3, 3)]
}

/// The twelve ordered pairs of different suits, first suit major.
pub open spec fn offsuit_suits() -> Seq<(int, int)> {
    seq![(0int, 1int), (0, 2), (0, 3), (1, 0), (1, 2), (1, 3), (2, 0), (2, 1), (2, 3), (3, 0), (3, 1), (3, 2)]
}

pub open spec fn combos_of(r1: Rank, r2: Rank, suits: Seq<(int, int)>) -> Seq<(Card, Card)> {
    Seq::new(suits.len(), |k: int| (Card { rank: r1, suit: suit_at(suits[k].0) }, Card { rank: r2, suit: suit_at(suits[k].1) }))
}

/// The byte position 2 of a four-character text falls inside a character.
pub open spec fn four_char_split_inside(t: Seq<char>) -> bool {
    char_utf8_len(t[0]) >= 3 || (char_utf8_len(t[0]) == 1 && char_utf8_len(t[1]) >= 2)
}

/// The combos `hand_combos` returns for the trimmed notation `t`.
pub open spec fn combos_spec(t: Seq<char>) -> Option<Seq<(Card, Card)>> {
    if t.len() == 2 && t[0] == t[1] {
        match rank_of_char(t[0]) {
            Some(r) => Some(combos_of(r, r, pair_suits())),
            None => None,
        }
    } else if t.len() == 3 && rank_of_char(t[0]) is Some && rank_of_char(t[1]) is Some && t[2] == 's' {
        Some(combos_of(rank_of_char(t[0])->0, rank_of_char(t[1])->0, suited_suits()))
    } else if t.len() == 3 && rank_of_char(t[0]) is Some && rank_of_char(t[1]) is Some && t[2] == 'o' {
        Some(combos_of(rank_of_char(t[0])->0, rank_of_char(t[1])->0, offsuit_suits()))
    } else if t.len() == 4 && char_utf8_len(t[0]) == 1 && parse_card_spec(t.subrange(0, 2)) is Some
        && parse_card_spec(t.subrange(2, 4)) is Some {
        Some(seq![(parse_card_spec(t.subrange(0, 2))->0, parse_card_spec(t.subrange(2, 4))->0)])
    } else {
        None
    }
}

/// The error `hand_combos` reports for trimmed notation `t` it does not accept.
pub open spec fn combos_error(e: GtoError, t: Seq<char>) -> bool {
    if t.len() == 2 && t[0] == t[1] {
        e matches GtoError::InvalidRank(c) && c == t[0]
    } else if t.len() == 3 && rank_of_char(t[0]) is None {
        e matches GtoError::InvalidRank(c) && c == t[0]
    } else if t.len() == 3 && rank_of_char(t[1]) is None {
        e matches GtoError::InvalidRank(c) && c == t[1]
    } else if t.len() == 4 && char_utf8_len(t[0]) == 2 {
        card_error(e, t.subrange(0, 1))
    } else if t.len() == 4 && parse_card_spec(t.subrange(0, 2)) is None {
        card_error(e, t.subrange(0, 2))
    } else if t.len() == 4 {
        card_error(e, t.subrange(2, 4))
    } else {
        e matches GtoError::InvalidHandNotation(m) && m@ == t
    }
}

fn combos_from(r1: Rank, r2: Rank, suits: &Vec<(usize, usize)>, Ghost(ss): Ghost<Seq<(int, int)>>) -> (v: Vec<(Card, Card)>)
    requires
        suits@.len() == ss.len(),
        forall|k: int| 0 <= k < ss.len() ==> (#[trigger] suits@[k]).0 == ss[k].0 && suits@[k].1 == ss[k].1
            && ss[k].0 < 4 && ss[k].1 < 4,
    ensures
        v@ == combos_of(r1, r2, ss),
{
    let mut v: Vec<(Card, Card)> = Vec::new();
    let mut k: usize = 0;
    while k < suits.len()
        invariant
            k <= suits@.len() == ss.len(),
            forall|k: int| 0 <= k < ss.len() ==> (#[trigger] suits@[k]).0 == ss[k].0 && suits@[k].1 == ss[k].1
                && ss[k].0 < 4 && ss[k].1 < 4,
            v@ == combos_of(r1, r2, ss).subrange(0, k as int),
        decreases suits@.len() - k,
    {
        let (a, b) = suits[k];
        v.push((Card::new(r1, suit_from_index(a)), Card::new(r2, suit_from_index(b))));
        k = k + 1;
        assert(v@ =~= combos_of(r1, r2, ss).subrange(0, k as int));
    }
    assert(v@ =~= combos_of(r1, r2, ss));
    v
}

/// All card pairs for a hand notation: "AA" (6), "AKs" (4), "AKo" (12) or "AsKh" (1).
pub fn hand_combos(notation: &str) -> (r: Result<Vec<(Card, Card)>, GtoError>)
    requires
        trim(notation@).len() == 4 ==> !four_char_split_inside(trim(notation@)),
    ensures
        combos_spec(trim(notation@)) is Some ==> (r matches Ok(v) && v@ == combos_spec(trim(notation@))->0),
        combos_spec(trim(notation@)) is None ==> (r is Err && combos_error(r->Err_0, trim(notation@))),
{
    let v = chars_of(notation);
    let t = trim_chars(&v);
    let ghost ts = trim(notation@);
    if t.len() == 2 && t[0] == t[1] {
        let rank = Rank::from_char(t[0])?;
        let suits = vec![(0usize, 1usize), (0, 2), (0, 3), (1, 2), (1, 3), (2, 3)];
        return Ok(combos_from(rank, rank, &suits, Ghost(pair_suits())));
    }
    if t.len() == 3 {
        let r1 = Rank::from_char(t[0])?;
        let r2 = Rank::from_char(t[1])?;
        let kind = t[2];
        if kind == 's' {
            let suits = vec![(0usize, 0usize), (1, 1), (2, 2), (3, 3)];
            return Ok(combos_from(r1, r2, &suits, Ghost(suited_suits())));
        } else if kind == 'o' {
            let suits = vec![(0usize, 1usize), (0, 2), (0, 3), (1, 0), (1, 2), (1, 3), (2, 0), (2, 1), (2, 3), (3, 0), (3, 1), (3, 2)];
            return Ok(combos_from(r1, r2, &suits, Ghost(offsuit_suits())));
        }
    }
    if t.len() == 4 {
        let w = char_byte_len(t[0]);
        if w == 2 {
            let mut first: Vec<char> = Vec::new();
            first.push(t[0]);
            assert(first@ =~= ts.subrange(0, 1));
            let e = parse_card_vec(&first);
            proof {
                assert(parse_card_spec(first@) is None) by {
                    lemma_trim_len_le(first@);
                }
            }
            match e {
                Ok(_) => {
                    assert(false);
                    return Err(GtoError::InvalidHandSize);
                },
                Err(err) => {
                    return Err(err);
                },
            }
        }
        let mut a: Vec<char> = Vec::new();
        a.push(t[0]);
        a.push(t[1]);
        let mut b: Vec<char> = Vec::new();
        b.push(t[2]);
        b.push(t[3]);
        assert(a@ =~= ts.subrange(0, 2));
        assert(b@ =~= ts.subrange(2, 4));
        let c1 = parse_card_vec(&a)?;
        let c2 = parse_card_vec(&b)?;
        let mut out: Vec<(Card, Card)> = Vec::new();
        out.push((c1, c2));
        assert(out@ =~= combos_spec(ts)->0);
        return Ok(out);
    }
    Err(GtoError::InvalidHandNotation(string_of(&t)))
}

proof fn lemma_trim_len_le(s: Seq<char>)
    ensures
        trim(s).len() <= s.len(),
{
    lemma_trim_start_len(s);
    lemma_trim_end_keeps_start(crate::text::trim_start(s));
}

proof fn lemma_trim_start_len(s: Seq<char>)
    ensures
        crate::text::trim_start(s).len() <= s.len(),
    decreases s.len(),
{
    if s.len() > 0 && crate::text::is_ws(s[0]) {
        lemma_trim_start_len(s.drop_first());
    }
}

/// Position of a rank character in `RANKS_STR` ('2' = 0 ... 'A' = 12).
pub fn rank_index(c: char) -> (r: Option<usize>)
    ensures
        r matches Some(i) ==> rank_index_of(c) == Some(i as int),
        r is None ==> rank_index_of(c) is None,
{
    match c {
        '2' => Some(0),
        '3' => Some(1),
        '4' => Some(2),
        '5' => Some(3),
        '6' => Some(4),
        '7' => Some(5),
        '8' => Some(6),
        '9' => Some(7),
        'T' => Some(8),
        'J' => Some(9),
        'Q' => Some(10),
        'K' => Some(11),
        'A' => Some(12),
        _ => None,
    }
}


// ---------------------------------------------------------------------------
// Laws
// ---------------------------------------------------------------------------

/// A rank's character parses back to the rank.
pub proof fn law_rank_char_roundtrip(r: Rank)
    ensures
        rank_of_char(r.ch()) == Some(r),
{
}

/// A suit's character parses back to the suit.
pub proof fn law_suit_char_roundtrip(s: Suit)
    ensures
        suit_of_char(s.ch()) == Some(s),
{
}

/// Printing a card and parsing the text gives the card back.
pub proof fn law_card_notation_roundtrip(c: Card)
    ensures
        parse_card_spec(card_text(c)) == Some(c),
{
    let t = card_text(c);
    assert(!crate::text::is_ws(t[0]));
    assert(!crate::text::is_ws(t[1]));
    assert(crate::text::trim_start(t) == t);
    assert(crate::text::trim_end(t) == t);
}

/// A fresh deck without exclusions holds all 52 cards once each, in deck order;
/// with exclusions it holds exactly the cards not excluded.
pub proof fn law_fresh_deck(ex: Seq<Card>)
    ensures
        forall|c: Card| #[trigger] fresh_deck(ex).contains(c) <==> !ex.contains(c),
        forall|i: int, j: int| 0 <= i < j < fresh_deck(ex).len() ==> card_idx(#[trigger] fresh_deck(ex)[i])
            < card_idx(#[trigger] fresh_deck(ex)[j]),
        ex.len() == 0 ==> fresh_deck(ex).len() == 52,
{
    lemma_deck_upto(52, ex);
    assert forall|c: Card| #[trigger] fresh_deck(ex).contains(c) <==> !ex.contains(c) by {
        lemma_card_at_idx(c);
    }
}

/// The class of a two-card hand does not depend on the order of the cards.
pub proof fn law_hand_class_symmetric(c1: Card, c2: Card)
    ensures
        hand_class_text(c1, c2) == hand_class_text(c2, c1),
{
    if c1.rank.idx() == c2.rank.idx() {
        assert(c1.rank == c2.rank);
    }
}

} // verus!
