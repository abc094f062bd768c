//! The command line's vocabulary: table sizes, situations, streets and hand
//! strengths by name, seat validation and hand canonicalization.

use vstd::prelude::*;
use vstd::string::{StrSliceExecFns, StringSliceAdditionalSpecFns, StringExecFns};
use crate::text::{str_eq, to_uppercase, uppercase_of, push_char};

verus! {

#[derive(Debug, Clone, Copy, PartialEq, Eq, Structural)]
pub enum TableSize {
    SixMax,
    NineMax,
}

impl TableSize {
    pub open spec fn label(self) -> Seq<char> {
        match self {
            TableSize::SixMax => "6max"@,
            TableSize::NineMax => "9max"@,
        }
    }

    pub fn as_str(&self) -> (s: &'static str)
        ensures
            s@ == self.label(),
    {
        match self {
            TableSize::SixMax => "6max",
            TableSize::NineMax => "9max",
        }
    }
}

#[derive(Debug, Clone, Copy, PartialEq, Eq, Structural)]
pub enum Situation {
    RFI,
    VsRFI,
    Vs3Bet,
    BbDefense,
}

impl Situation {
    pub open spec fn label(self) -> Seq<char> {
        match self {
            Situation::RFI => "RFI"@,
            Situation::VsRFI => "vs_RFI"@,
            Situation::Vs3Bet => "vs_3bet"@,
            Situation::BbDefense => "bb_defense"@,
        }
    }

    pub fn as_str(&self) -> (s: &'static str)
        ensures
            s@ == self.label(),
    {
        match self {
            Situation::RFI => "RFI",
            Situation::VsRFI => "vs_RFI",
            Situation::Vs3Bet => "vs_3bet",
            Situation::BbDefense => "bb_defense",
        }
    }
}

#[derive(Debug, Clone, Copy, PartialEq, Eq, Structural)]
pub enum ActionSituation {
    RFI,
    VsRFI,
    Vs3Bet,
}

impl ActionSituation {
    pub open spec fn label(self) -> Seq<char> {
        match self {
            ActionSituation::RFI => "RFI"@,
            ActionSituation::VsRFI => "vs_RFI"@,
            ActionSituation::Vs3Bet => "vs_3bet"@,
        }
    }

    pub fn as_str(&self) -> (s: &'static str)
        ensures
            s@ == self.label(),
    {
        match self {
            ActionSituation::RFI => "RFI",
            ActionSituation::VsRFI => "vs_RFI",
            ActionSituation::Vs3Bet => "vs_3bet",
        }
    }
}

#[derive(Debug, Clone, Copy, PartialEq, Eq, Structural)]
pub enum Street {
    Flop,
    Turn,
    River,
}

impl Street {
    pub open spec fn label(self) -> Seq<char> {
        match self {
            Street::Flop => "flop"@,
            Street::Turn => "turn"@,
            Street::River => "river"@,
        }
    }

    pub fn as_str(&self) -> (s: &'static str)
        ensures
            s@ == self.label(),
    {
        match self {
            Street::Flop => "flop",
            Street::Turn => "turn",
            Street::River => "river",
        }
    }
}

#[derive(Debug, Clone, Copy, PartialEq, Eq, Structural)]
pub enum Strength {
    Nuts,
    VeryStrong,
    Strong,
    Medium,
    Draw,
    Bluff,
    Weak,
}

impl Strength {
    pub open spec fn label(self) -> Seq<char> {
        match self {
            Strength::Nuts => "nuts"@,
            Strength::VeryStrong => "very_strong"@,
            Strength::Strong => "strong"@,
            Strength::Medium => "medium"@,
            Strength::Draw => "draw"@,
            Strength::Bluff => "bluff"@,
            Strength::Weak => "weak"@,
        }
    }

    pub fn as_str(&self) -> (s: &'static str)
        ensures
            s@ == self.label(),
    {
        match self {
            Strength::Nuts => "nuts",
            Strength::VeryStrong => "very_strong",
            Strength::Strong => "strong",
            Strength::Medium => "medium",
            Strength::Draw => "draw",
            Strength::Bluff => "bluff",
            Strength::Weak => "weak",
        }
    }
}

/// The seats of a table size as the command line accepts them.
pub open spec fn valid_seats(table_size: Seq<char>) -> Seq<Seq<char>> {
    if table_size == "9max"@ {
        seq!["UTG"@, "UTG1"@, "UTG2"@, "MP"@, "HJ"@, "CO"@, "BTN"@, "SB"@, "BB"@]
    } else {
        seq!["UTG"@, "HJ"@, "CO"@, "BTN"@, "SB"@, "BB"@]
    }
}

/// The seats joined with ", ".
pub open spec fn seats_listed(s: Seq<Seq<char>>) -> Seq<char>
    decreases s.len(),
{
    if s.len() == 0 {
        Seq::empty()
    } else if s.len() == 1 {
        s[0]
    } else {
        seats_listed(s.drop_last()) + ", "@ + s.last()
    }
}

/// The upper-cased seat if the table size has it, else the message naming
/// the valid seats.
pub fn validate_position(pos: &str, table_size: &str) -> (r: Result<String, String>)
    ensures
        valid_seats(table_size@).contains(uppercase_of(pos@)) ==> (r matches Ok(p) && p@ == uppercase_of(pos@)),
        !valid_seats(table_size@).contains(uppercase_of(pos@)) ==> (r matches Err(m)
            && m@ == "Invalid position '"@ + uppercase_of(pos@) + "'. Valid: "@ + seats_listed(valid_seats(table_size@))),
{
    let up = to_uppercase(pos);
    let valid: Vec<&'static str> = if str_eq(table_size, "9max") {
        vec!["UTG", "UTG1", "UTG2", "MP", "HJ", "CO", "BTN", "SB", "BB"]
    } else {
        vec!["UTG", "HJ", "CO", "BTN", "SB", "BB"]
    };
    let ghost seats = valid_seats(table_size@);
    assert(valid@.len() == seats.len());
    assert(forall|i: int| 0 <= i < valid@.len() ==> (#[trigger] valid@[i])@ == seats[i]);
    let mut i: usize = 0;
    while i < valid.len()
        invariant
            i <= valid@.len() == seats.len(),
            seats == valid_seats(table_size@),
            up@ == uppercase_of(pos@),
            forall|i: int| 0 <= i < valid@.len() ==> (#[trigger] valid@[i])@ == seats[i],
            forall|k: int| 0 <= k < i ==> seats[k] != up@,
        decreases valid@.len() - i,
    {
        if str_eq(valid[i], up.as_str()) {
            assert(seats[i as int] == up@);
            return Ok(up);
        }
        i = i + 1;
    }
    assert(!seats.contains(up@));
    let mut m = String::from_str("Invalid position '");
    m.append(up.as_str());
    m.append("'. Valid: ");
    let ghost head = m@;
    let mut k: usize = 0;
    while k < valid.len()
        invariant
            k <= valid@.len() == seats.len(),
            seats == valid_seats(table_size@),
            forall|i: int| 0 <= i < valid@.len() ==> (#[trigger] valid@[i])@ == seats[i],
            m@ == head + seats_listed(seats.subrange(0, k as int)),
        decreases valid@.len() - k,
    {
        if k > 0 {
            m.append(", ");
        }
        m.append(valid[k]);
        proof {
            let sub = seats.subrange(0, k + 1);
            assert(sub.drop_last() =~= seats.subrange(0, k as int));
            if k == 0 {
                assert(seats_listed(sub) == seats[0]);
                assert(m@ =~= head + seats_listed(sub));
            } else {
                assert(m@ =~= head + seats_listed(sub));
            }
        }
        k = k + 1;
    }
    assert(seats.subrange(0, seats.len() as int) =~= seats);
    Err(m)
}

/// Numeric value of a rank character (0 for anything else).
pub open spec fn rank_number(c: char) -> int {
    if c == '2' { 2 } else if c == '3' { 3 } else if c == '4' { 4 } else if c == '5' { 5 }
    else if c == '6' { 6 } else if c == '7' { 7 } else if c == '8' { 8 } else if c == '9' { 9 }
    else if c == 'T' { 10 } else if c == 'J' { 11 } else if c == 'Q' { 12 } else if c == 'K' { 13 }
    else if c == 'A' { 14 } else { 0 }
}

fn rank_number_of(c: char) -> (v: u8)
    ensures
        v == rank_number(c),
{
    match c {
        '2' => 2, '3' => 3, '4' => 4, '5' => 5, '6' => 6, '7' => 7, '8' => 8,
        '9' => 9, 'T' => 10, 'J' => 11, 'Q' => 12, 'K' => 13, 'A' => 14,
        _ => 0,
    }
}

/// The canonical class of specific cards: "AhKs" -> "AKo", "9s8s" -> "98s",
/// "7h7c" -> "77"; other text unchanged.
pub open spec fn canonical_of(s: Seq<char>, byte_len: int) -> Seq<char> {
    if byte_len != 4 {
        s
    } else {
        let (r1, s1, r2, s2) = (s[0], s[1], s[2], s[3]);
        let (h, l) = if rank_number(r1) >= rank_number(r2) { (r1, r2) } else { (r2, r1) };
        if r1 == r2 {
            seq![r1, r2]
        } else if s1 == s2 {
            seq![h, l, 's']
        } else {
            seq![h, l, 'o']
        }
    }
}

/// Converts specific cards such as "AhKs" to the canonical notation "AKo".
pub fn hand_to_canonical(hand: &str) -> (r: String)
    requires
        hand.spec_bytes().len() <= usize::MAX,
        hand.spec_bytes().len() == 4 ==> hand@.len() >= 4,
    ensures
        r@ == canonical_of(hand@, hand.spec_bytes().len() as int),
{
    if hand.len() != 4 {
        return String::from_str(hand);
    }
    let r1 = hand.get_char(0);
    let s1 = hand.get_char(1);
    let r2 = hand.get_char(2);
    let s2 = hand.get_char(3);
    let (h, l) = if rank_number_of(r1) >= rank_number_of(r2) { (r1, r2) } else { (r2, r1) };
    let mut out = String::new();
    if r1 == r2 {
        push_char(&mut out, r1);
        push_char(&mut out, r2);
    } else {
        push_char(&mut out, h);
        push_char(&mut out, l);
        if s1 == s2 {
            push_char(&mut out, 's');
        } else {
            push_char(&mut out, 'o');
        }
    }
    assert(out@ =~= canonical_of(hand@, hand.spec_bytes().len() as int));
    out
}

/// The postflop position the static advisor assumes for a seat: the button
/// and cutoff are in position, every other seat out of position.
pub fn position_type(position: &str) -> (s: &'static str)
    ensures
        s@ == (if position@ == "BTN"@ || position@ == "CO"@ { "IP"@ } else { "OOP"@ }),
{
    if str_eq(position, "BTN") || str_eq(position, "CO") {
        "IP"
    } else {
        "OOP"
    }
}

} // verus!
