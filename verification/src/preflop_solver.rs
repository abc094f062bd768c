//! The six seats of a 6-max table and the (opener, responder) spots between them.

use vstd::prelude::*;
use crate::text::{str_eq, to_uppercase, uppercase_of, upper_seq, all_ascii};

verus! {

/// A seat at a 6-max table, in preflop acting order.
#[derive(Debug, Clone, Copy, PartialEq, Eq, Structural, Hash)]
pub enum Position {
    UTG,
    HJ,
    CO,
    BTN,
    SB,
    BB,
}

impl Position {
    /// Preflop acting order: UTG first, the big blind last.
    pub open spec fn seat(self) -> int {
        match self {
            Position::UTG => 0,
            Position::HJ => 1,
            Position::CO => 2,
            Position::BTN => 3,
            Position::SB => 4,
            Position::BB => 5,
        }
    }

    /// Postflop acting order: the blinds act first, then UTG, HJ, CO, and the
    /// button last.
    pub open spec fn postflop_order(self) -> int {
        match self {
            Position::SB => 0,
            Position::BB => 1,
            Position::UTG => 2,
            Position::HJ => 3,
            Position::CO => 4,
            Position::BTN => 5,
        }
    }

    /// The seat's short name.
    pub open spec fn name(self) -> Seq<char> {
        match self {
            Position::UTG => "UTG"@,
            Position::HJ => "HJ"@,
            Position::CO => "CO"@,
            Position::BTN => "BTN"@,
            Position::SB => "SB"@,
            Position::BB => "BB"@,
        }
    }

    /// Whether this seat is in position against `other`: it acts later
    /// postflop (order SB, BB, UTG, HJ, CO, BTN).
    pub fn is_ip_vs(&self, other: &Position) -> (b: bool)
        ensures
            b == (self.postflop_order() > other.postflop_order()),
    {
        self.postflop_index() > other.postflop_index()
    }

    fn postflop_index(&self) -> (i: usize)
        ensures
            i == self.postflop_order(),
    {
        match self {
            Position::SB => 0,
            Position::BB => 1,
            Position::UTG => 2,
            Position::HJ => 3,
            Position::CO => 4,
            Position::BTN => 5,
        }
    }

    pub fn as_str(&self) -> (s: &'static str)
        ensures
            s@ == self.name(),
    {
        match self {
            Position::UTG => "UTG",
            Position::HJ => "HJ",
            Position::CO => "CO",
            Position::BTN => "BTN",
            Position::SB => "SB",
            Position::BB => "BB",
        }
    }

    /// The seat whose name is exactly `s` (upper case), if any.
    pub fn from_upper(s: &str) -> (r: Option<Position>)
        ensures
            r == position_named(s@),
    {
        if str_eq(s, "UTG") {
            Some(Position::UTG)
        } else if str_eq(s, "HJ") {
            Some(Position::HJ)
        } else if str_eq(s, "CO") {
            Some(Position::CO)
        } else if str_eq(s, "BTN") {
            Some(Position::BTN)
        } else if str_eq(s, "SB") {
            Some(Position::SB)
        } else if str_eq(s, "BB") {
            Some(Position::BB)
        } else {
            None
        }
    }

    /// The seat named by `s`, case-insensitively.
    pub fn from_str(s: &str) -> (r: Option<Position>)
        ensures
            r == position_named(uppercase_of(s@)),
            all_ascii(s@) ==> r == position_named(upper_seq(s@)),
    {
        let up = to_uppercase(s);
        Position::from_upper(up.as_str())
    }
}

/// The seat with the given name.
pub open spec fn position_named(s: Seq<char>) -> Option<Position> {
    if s == "UTG"@ {
        Some(Position::UTG)
    } else if s == "HJ"@ {
        Some(Position::HJ)
    } else if s == "CO"@ {
        Some(Position::CO)
    } else if s == "BTN"@ {
        Some(Position::BTN)
    } else if s == "SB"@ {
        Some(Position::SB)
    } else if s == "BB"@ {
        Some(Position::BB)
    } else {
        None
    }
}

/// Every (opener, responder) pair with the opener acting first.
pub open spec fn spots_spec() -> Seq<(Position, Position)> {
    seq![
        (Position::UTG, Position::HJ), (Position::UTG, Position::CO), (Position::UTG, Position::BTN),
        (Position::UTG, Position::SB), (Position::UTG, Position::BB),
        (Position::HJ, Position::CO), (Position::HJ, Position::BTN), (Position::HJ, Position::SB),
        (Position::HJ, Position::BB),
        (Position::CO, Position::BTN), (Position::CO, Position::SB), (Position::CO, Position::BB),
        (Position::BTN, Position::SB), (Position::BTN, Position::BB),
        (Position::SB, Position::BB),
    ]
}

/// All 15 (opener, responder) position pairs for 6-max.
pub fn all_6max_spots() -> (v: Vec<(Position, Position)>)
    ensures
        v@ == spots_spec(),
{
    let v = vec![
        (Position::UTG, Position::HJ), (Position::UTG, Position::CO), (Position::UTG, Position::BTN),
        (Position::UTG, Position::SB), (Position::UTG, Position::BB),
        (Position::HJ, Position::CO), (Position::HJ, Position::BTN), (Position::HJ, Position::SB),
        (Position::HJ, Position::BB),
        (Position::CO, Position::BTN), (Position::CO, Position::SB), (Position::CO, Position::BB),
        (Position::BTN, Position::SB), (Position::BTN, Position::BB),
        (Position::SB, Position::BB),
    ];
    assert(v@ =~= spots_spec());
    v
}

// ---------------------------------------------------------------------------
// Laws
// ---------------------------------------------------------------------------

/// Being in position is a strict total order on the seats: never against
/// oneself, never both ways, transitive, and between two different seats
/// exactly one is in position.
pub proof fn law_in_position_strict_order(a: Position, b: Position, c: Position)
    ensures
        !(a.postflop_order() > a.postflop_order()),
        a.postflop_order() > b.postflop_order() ==> !(b.postflop_order() > a.postflop_order()),
        a.postflop_order() > b.postflop_order() && b.postflop_order() > c.postflop_order()
            ==> a.postflop_order() > c.postflop_order(),
        a != b ==> (a.postflop_order() > b.postflop_order() || b.postflop_order() > a.postflop_order()),
{
}

/// Reading a seat's name gives the seat back.
pub proof fn law_position_name_roundtrip(p: Position)
    ensures
        position_named(p.name()) == Some(p),
        all_ascii(p.name()),
        upper_seq(p.name()) == p.name(),
{
    reveal_strlit("UTG");
    reveal_strlit("HJ");
    reveal_strlit("CO");
    reveal_strlit("BTN");
    reveal_strlit("SB");
    reveal_strlit("BB");
    assert("HJ"@[0] != "UTG"@[0]);
    assert("CO"@[0] != "UTG"@[0] && "CO"@[0] != "HJ"@[0]);
    assert("BTN"@[0] != "UTG"@[0]);
    assert("SB"@[0] != "UTG"@[0] && "SB"@[0] != "HJ"@[0] && "SB"@[0] != "CO"@[0]);
    assert("BB"@[0] != "UTG"@[0] && "BB"@[0] != "HJ"@[0] && "BB"@[0] != "CO"@[0]);
    assert("BB"@[0] != "SB"@[0]);
    assert(upper_seq(p.name()) =~= p.name());
}

/// Every spot pairs an opener with a later seat, and no spot repeats.
pub proof fn law_spots_opener_first()
    ensures
        forall|i: int| 0 <= i < spots_spec().len() ==>
            (#[trigger] spots_spec()[i]).0.seat() < spots_spec()[i].1.seat(),
        forall|i: int, j: int| 0 <= i < j < spots_spec().len() ==>
            spots_spec()[i] != spots_spec()[j],
{
}

} // verus!
