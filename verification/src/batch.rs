//! The fixed work lists of a batch pre-solve: representative flop boards and
//! the position pairs in the order they are solved.

use vstd::prelude::*;
use crate::cards::{rank_of_char, suit_of_char};
use crate::preflop_solver::Position;

verus! {

/// About fifty flop boards covering the major textures.
pub open spec fn representative_spec() -> Seq<Seq<char>> {
    seq![
        // High dry
        "As7d2c"@, "Kh8d3c"@, "Qd6s2h"@, "Js7c3d"@,
        "Ah9c4d"@, "Kd5s2c"@, "Qs8d3h"@, "Jh6c2s"@,
        // High wet / broadway
        "KsQhTd"@, "JhTs9c"@, "QdJsTs"@, "AhKdQc"@,
        "KhJd9c"@, "QdTh8s"@, "AsTd9c"@, "KsQd8h"@,
        // Medium connected
        "9h7d5c"@, "8s6d4c"@, "Th8d6c"@, "9c7h4d"@,
        "7s5d3c"@, "8h6s4d"@, "Ts7d5c"@, "9s6h3d"@,
        // Low boards
        "6d4c2s"@, "5h3d2c"@, "7c4d2h"@, "6s3c2d"@,
        "5d4h2c"@, "7h3s2d"@, "6c5d3h"@, "4s3d2h"@,
        // Monotone (flush possible)
        "Ks9s4s"@, "Jh7h3h"@, "Qd8d2d"@, "Tc6c3c"@,
        "As8s5s"@, "Kh6h2h"@, "9d5d2d"@, "Jc4c2c"@,
        // Paired boards
        "KsKd7c"@, "9h9d3c"@, "QcQd5s"@, "7s7d2c"@,
        "AsAd4c"@, "ThTd6s"@, "5c5d2h"@, "JsJd3c"@,
        // Wheel/ace-low
        "5s4d3c"@, "Ah5d4c"@, "As3d2c"@, "4h3d2s"@,
    ]
}

/// The representative flop boards, in the order they are solved.
pub fn representative_flops() -> (v: Vec<&'static str>)
    ensures
        v@.len() == representative_spec().len(),
        forall|i: int| 0 <= i < v@.len() ==> (#[trigger] v@[i])@ == representative_spec()[i],
{
    let v: Vec<&'static str> = vec![
        // High dry
        "As7d2c", "Kh8d3c", "Qd6s2h", "Js7c3d",
        "Ah9c4d", "Kd5s2c", "Qs8d3h", "Jh6c2s",
        // High wet / broadway
        "KsQhTd", "JhTs9c", "QdJsTs", "AhKdQc",
        "KhJd9c", "QdTh8s", "AsTd9c", "KsQd8h",
        // Medium connected
        "9h7d5c", "8s6d4c", "Th8d6c", "9c7h4d",
        "7s5d3c", "8h6s4d", "Ts7d5c", "9s6h3d",
        // Low boards
        "6d4c2s", "5h3d2c", "7c4d2h", "6s3c2d",
        "5d4h2c", "7h3s2d", "6c5d3h", "4s3d2h",
        // Monotone (flush possible)
        "Ks9s4s", "Jh7h3h", "Qd8d2d", "Tc6c3c",
        "As8s5s", "Kh6h2h", "9d5d2d", "Jc4c2c",
        // Paired boards
        "KsKd7c", "9h9d3c", "QcQd5s", "7s7d2c",
        "AsAd4c", "ThTd6s", "5c5d2h", "JsJd3c",
        // Wheel/ace-low
        "5s4d3c", "Ah5d4c", "As3d2c", "4h3d2s",
    ];
    assert(v@.len() == representative_spec().len());
    v
}

/// Text of three cards: rank and suit letters, alternating.
pub open spec fn is_flop_text(s: Seq<char>) -> bool {
    &&& s.len() == 6
    &&& forall|j: int| 0 <= j < 3 ==> (#[trigger] rank_of_char(s[2 * j])) is Some
    &&& forall|j: int| 0 <= j < 3 ==> (#[trigger] suit_of_char(s[2 * j + 1])) is Some
}

/// Every representative board is the text of three cards.
pub proof fn law_representative_flops_valid()
    ensures
        forall|i: int| 0 <= i < representative_spec().len() ==> is_flop_text(#[trigger] representative_spec()[i]),
{
    reveal_strlit("As7d2c");
    reveal_strlit("Kh8d3c");
    reveal_strlit("Qd6s2h");
    reveal_strlit("Js7c3d");
    reveal_strlit("Ah9c4d");
    reveal_strlit("Kd5s2c");
    reveal_strlit("Qs8d3h");
    reveal_strlit("Jh6c2s");
    reveal_strlit("KsQhTd");
    reveal_strlit("JhTs9c");
    reveal_strlit("QdJsTs");
    reveal_strlit("AhKdQc");
    reveal_strlit("KhJd9c");
    reveal_strlit("QdTh8s");
    reveal_strlit("AsTd9c");
    reveal_strlit("KsQd8h");
    reveal_strlit("9h7d5c");
    reveal_strlit("8s6d4c");
    reveal_strlit("Th8d6c");
    reveal_strlit("9c7h4d");
    reveal_strlit("7s5d3c");
    reveal_strlit("8h6s4d");
    reveal_strlit("Ts7d5c");
    reveal_strlit("9s6h3d");
    reveal_strlit("6d4c2s");
    reveal_strlit("5h3d2c");
    reveal_strlit("7c4d2h");
    reveal_strlit("6s3c2d");
    reveal_strlit("5d4h2c");
    reveal_strlit("7h3s2d");
    reveal_strlit("6c5d3h");
    reveal_strlit("4s3d2h");
    reveal_strlit("Ks9s4s");
    reveal_strlit("Jh7h3h");
    reveal_strlit("Qd8d2d");
    reveal_strlit("Tc6c3c");
    reveal_strlit("As8s5s");
    reveal_strlit("Kh6h2h");
    reveal_strlit("9d5d2d");
    reveal_strlit("Jc4c2c");
    reveal_strlit("KsKd7c");
    reveal_strlit("9h9d3c");
    reveal_strlit("QcQd5s");
    reveal_strlit("7s7d2c");
    reveal_strlit("AsAd4c");
    reveal_strlit("ThTd6s");
    reveal_strlit("5c5d2h");
    reveal_strlit("JsJd3c");
    reveal_strlit("5s4d3c");
    reveal_strlit("Ah5d4c");
    reveal_strlit("As3d2c");
    reveal_strlit("4h3d2s");
    assert forall|i: int| 0 <= i < representative_spec().len() implies is_flop_text(#[trigger] representative_spec()[i]) by {
        let s = representative_spec()[i];
        assert(rank_of_char(s[0]) is Some && rank_of_char(s[2]) is Some && rank_of_char(s[4]) is Some);
        assert(suit_of_char(s[1]) is Some && suit_of_char(s[3]) is Some && suit_of_char(s[5]) is Some);
        assert forall|j: int| 0 <= j < 3 implies (#[trigger] rank_of_char(s[2 * j])) is Some by {
            if j == 1 { assert(2 * j == 2); } else if j == 2 { assert(2 * j == 4); }
        }
        assert forall|j: int| 0 <= j < 3 implies (#[trigger] suit_of_char(s[2 * j + 1])) is Some by {
            if j == 1 { assert(2 * j + 1 == 3); } else if j == 2 { assert(2 * j + 1 == 5); }
        }
    }
}

/// Position pairs (opener, responder), most common matchups first.
pub open spec fn position_pairs_spec() -> Seq<(Position, Position)> {
    seq![
        (Position::BTN, Position::BB), (Position::CO, Position::BB), (Position::HJ, Position::BB),
        (Position::UTG, Position::BB), (Position::SB, Position::BB),
        (Position::BTN, Position::SB), (Position::CO, Position::BTN), (Position::HJ, Position::BTN),
        (Position::UTG, Position::BTN),
    ]
}

/// Position pairs in the order a batch solves them.
pub fn position_pairs() -> (v: Vec<(Position, Position)>)
    ensures
        v@ == position_pairs_spec(),
{
    let v = vec![
        (Position::BTN, Position::BB), (Position::CO, Position::BB), (Position::HJ, Position::BB),
        (Position::UTG, Position::BB), (Position::SB, Position::BB),
        (Position::BTN, Position::SB), (Position::CO, Position::BTN), (Position::HJ, Position::BTN),
        (Position::UTG, Position::BTN),
    ];
    assert(v@ =~= position_pairs_spec());
    v
}

} // verus!
