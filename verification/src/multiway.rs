//! Adjustments for pots with more than two players.

use vstd::prelude::*;
use vstd::string::StringExecFns;
use crate::text::{str_eq, to_uppercase, uppercase_of};

verus! {

/// Bet sizing for a number of players and a board wetness ("dry", "wet", ...).
pub open spec fn multiway_sizing_spec(n: int, wetness: Seq<char>) -> Seq<char> {
    if n >= 4 {
        "66-75% pot (punish draws, narrow ranges)"@
    } else if n == 3 {
        if wetness == "dry"@ { "25-33% pot"@ } else { "50-66% pot"@ }
    } else if wetness == "dry"@ {
        "25-33% pot"@
    } else if wetness == "wet"@ {
        "66-75% pot"@
    } else {
        "50% pot"@
    }
}

pub fn multiway_sizing(num_players: usize, board_wetness: &str) -> (s: &'static str)
    ensures
        s@ == multiway_sizing_spec(num_players as int, board_wetness@),
{
    if num_players >= 4 {
        return "66-75% pot (punish draws, narrow ranges)";
    }
    if num_players == 3 {
        if str_eq(board_wetness, "dry") {
            return "25-33% pot";
        }
        return "50-66% pot";
    }
    if str_eq(board_wetness, "dry") {
        return "25-33% pot";
    }
    if str_eq(board_wetness, "wet") {
        return "66-75% pot";
    }
    "50% pot"
}

pub open spec fn range_adjustment_spec(n: int) -> Seq<char> {
    if n >= 4 {
        "Tighten significantly. Need top 10-15% of range to continue. Draws need near-nut quality."@
    } else if n == 3 {
        "Tighten moderately. Top pair needs good kicker. Draws should have nut potential."@
    } else {
        "Standard heads-up ranges apply."@
    }
}

pub fn multiway_range_adjustment(num_players: usize) -> (s: &'static str)
    ensures
        s@ == range_adjustment_spec(num_players as int),
{
    if num_players >= 4 {
        "Tighten significantly. Need top 10-15% of range to continue. Draws need near-nut quality."
    } else if num_players == 3 {
        "Tighten moderately. Top pair needs good kicker. Draws should have nut potential."
    } else {
        "Standard heads-up ranges apply."
    }
}

/// Multiway c-bet advice; the frequency is a percentage.
pub struct MultiwayBetAdvice {
    pub frequency_pct: u32,
    pub sizing: String,
    pub reasoning: String,
}

/// The multiway c-bet table: frequency (percent), sizing and reasoning.
pub open spec fn multiway_cbet_spec(n: int, wetness: Seq<char>, ip: bool) -> (int, Seq<char>, Seq<char>) {
    if n >= 4 {
        (15, "50-66% pot"@, "4+ players \u{2014} rarely c-bet, need strong hands or strong draws"@)
    } else if n == 3 {
        if wetness == "dry"@ {
            (if ip { 35int } else { 20int }, "33% pot"@, "3-way dry board \u{2014} small sizing, reduced frequency"@)
        } else if wetness == "wet"@ {
            (if ip { 25int } else { 15int }, "66-75% pot"@, "3-way wet board \u{2014} only strong hands/draws, larger sizing"@)
        } else {
            (if ip { 30int } else { 20int }, "50% pot"@, "3-way medium texture \u{2014} selective betting"@)
        }
    } else if wetness == "dry"@ {
        (if ip { 65int } else { 45int }, "33% pot"@, "Heads-up dry \u{2014} standard c-bet"@)
    } else if wetness == "wet"@ {
        (if ip { 45int } else { 30int }, "66-75% pot"@, "Heads-up wet \u{2014} polarized sizing"@)
    } else {
        (if ip { 55int } else { 40int }, "50% pot"@, "Heads-up medium texture \u{2014} balanced"@)
    }
}

fn advice(frequency_pct: u32, sizing: &str, reasoning: &str) -> (a: MultiwayBetAdvice)
    ensures
        a.frequency_pct == frequency_pct,
        a.sizing@ == sizing@,
        a.reasoning@ == reasoning@,
{
    MultiwayBetAdvice {
        frequency_pct,
        sizing: String::from_str(sizing),
        reasoning: String::from_str(reasoning),
    }
}

/// C-bet advice for a number of players, board wetness and position ("IP"/"OOP").
pub fn multiway_cbet(num_players: usize, board_wetness: &str, position: &str) -> (a: MultiwayBetAdvice)
    ensures
        (a.frequency_pct as int, a.sizing@, a.reasoning@)
            == multiway_cbet_spec(num_players as int, board_wetness@, uppercase_of(position@) == "IP"@),
{
    let up = to_uppercase(position);
    let ip = str_eq(up.as_str(), "IP");
    if num_players >= 4 {
        return advice(15, "50-66% pot", "4+ players \u{2014} rarely c-bet, need strong hands or strong draws");
    }
    if num_players == 3 {
        if str_eq(board_wetness, "dry") {
            let freq = if ip { 35 } else { 20 };
            return advice(freq, "33% pot", "3-way dry board \u{2014} small sizing, reduced frequency");
        }
        if str_eq(board_wetness, "wet") {
            let freq = if ip { 25 } else { 15 };
            return advice(freq, "66-75% pot", "3-way wet board \u{2014} only strong hands/draws, larger sizing");
        }
        let freq = if ip { 30 } else { 20 };
        return advice(freq, "50% pot", "3-way medium texture \u{2014} selective betting");
    }
    if str_eq(board_wetness, "dry") {
        let freq = if ip { 65 } else { 45 };
        advice(freq, "33% pot", "Heads-up dry \u{2014} standard c-bet")
    } else if str_eq(board_wetness, "wet") {
        let freq = if ip { 45 } else { 30 };
        advice(freq, "66-75% pot", "Heads-up wet \u{2014} polarized sizing")
    } else {
        let freq = if ip { 55 } else { 40 };
        advice(freq, "50% pot", "Heads-up medium texture \u{2014} balanced")
    }
}

/// Adding players never raises the multiway c-bet frequency, and a player in
/// position c-bets at least as often as one out of position.
pub proof fn law_multiway_cbet_tightens(n1: int, n2: int, wetness: Seq<char>, ip: bool)
    requires
        n1 <= n2,
    ensures
        multiway_cbet_spec(n2, wetness, ip).0 <= multiway_cbet_spec(n1, wetness, ip).0,
        multiway_cbet_spec(n1, wetness, false).0 <= multiway_cbet_spec(n1, wetness, true).0,
{
}

} // verus!
