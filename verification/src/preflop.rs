//! Preflop chart lookups: opening ranges, responses to opens and 3-bets,
//! squeezes and big-blind defense, and the action they recommend for a hand.
//!
//! The charts themselves are data: a `RangeBook` holds one `RangeData` per
//! table size, each a set of keyed tables.

use vstd::prelude::*;
use vstd::string::{StringExecFns};
use crate::error::GtoError;
use crate::text::{str_eq, clone_strings, contains_text, lists_text, starts_with};

verus! {

/// A keyed table row; a table holds each key at most once.
pub struct Entry<T> {
    pub key: String,
    pub value: T,
}

pub struct RfiEntry {
    pub raise_range: Vec<String>,
    pub open_pct: u32,
}

pub struct VsRfiEntry {
    pub call: Vec<String>,
    pub three_bet: Vec<String>,
    pub fold: String,
}

pub struct Vs3BetEntry {
    pub call: Vec<String>,
    pub four_bet: Vec<String>,
    pub fold: String,
}

pub struct SqueezeEntry {
    pub squeeze: Vec<String>,
    pub fold: String,
}

pub struct BbDefenseEntry {
    pub call: Vec<String>,
    pub three_bet: Vec<String>,
}

/// The charts for one table size.
pub struct RangeData {
    pub rfi: Vec<Entry<RfiEntry>>,
    pub vs_rfi: Vec<Entry<VsRfiEntry>>,
    pub vs_3bet: Vec<Entry<Vs3BetEntry>>,
    pub squeeze: Vec<Entry<SqueezeEntry>>,
    pub bb_defense: Vec<Entry<BbDefenseEntry>>,
}

/// The charts for 6-max and for 9-max tables.
pub struct RangeBook {
    pub six_max: RangeData,
    pub nine_max: RangeData,
}

/// No key occurs twice in the table.
pub open spec fn keys_unique<T>(es: Seq<Entry<T>>) -> bool {
    forall|i: int, j: int| 0 <= i < j < es.len() ==> (#[trigger] es[i]).key@ != (#[trigger] es[j]).key@
}

impl RangeData {
    pub open spec fn wf(&self) -> bool {
        &&& keys_unique(self.rfi@)
        &&& keys_unique(self.vs_rfi@)
        &&& keys_unique(self.vs_3bet@)
        &&& keys_unique(self.squeeze@)
        &&& keys_unique(self.bb_defense@)
    }
}

impl RangeBook {
    pub open spec fn wf(&self) -> bool {
        self.six_max.wf() && self.nine_max.wf()
    }

    /// The charts used for a table size: 9-max for "9max", 6-max otherwise.
    pub open spec fn pick(&self, table_size: Seq<char>) -> RangeData {
        if table_size == "9max"@ { self.nine_max } else { self.six_max }
    }

    pub fn data(&self, table_size: &str) -> (d: &RangeData)
        ensures
            *d == self.pick(table_size@),
    {
        if str_eq(table_size, "9max") {
            &self.nine_max
        } else {
            &self.six_max
        }
    }
}

/// Index of the first row with key `k` (the table's length if none).
pub open spec fn key_index<T>(es: Seq<Entry<T>>, k: Seq<char>) -> int
    decreases es.len(),
{
    if es.len() == 0 {
        0
    } else if es[0].key@ == k {
        0
    } else {
        1 + key_index(es.drop_first(), k)
    }
}

pub proof fn lemma_key_index<T>(es: Seq<Entry<T>>, k: Seq<char>)
    ensures
        0 <= key_index(es, k) <= es.len(),
        key_index(es, k) < es.len() ==> es[key_index(es, k)].key@ == k,
        forall|j: int| 0 <= j < key_index(es, k) ==> (#[trigger] es[j]).key@ != k,
    decreases es.len(),
{
    if es.len() > 0 && es[0].key@ != k {
        lemma_key_index(es.drop_first(), k);
        assert forall|j: int| 0 <= j < key_index(es, k) implies (#[trigger] es[j]).key@ != k by {
            if j > 0 {
                assert(es[j] == es.drop_first()[j - 1]);
            }
        }
    }
}

fn find_key<T>(es: &Vec<Entry<T>>, k: &str) -> (r: usize)
    ensures
        r == key_index(es@, k@),
{
    let mut i: usize = 0;
    assert(es@.subrange(0, es@.len() as int) =~= es@);
    while i < es.len()
        invariant
            i <= es@.len(),
            key_index(es@, k@) == i + key_index(es@.subrange(i as int, es@.len() as int), k@),
        decreases es@.len() - i,
    {
        let ghost rest = es@.subrange(i as int, es@.len() as int);
        if str_eq(es[i].key.as_str(), k) {
            return i;
        }
        assert(rest.drop_first() =~= es@.subrange(i + 1, es@.len() as int));
        i = i + 1;
    }
    let ghost rest = es@.subrange(i as int, es@.len() as int);
    assert(rest.len() == 0);
    i
}

fn cat2(a: &str, b: &str) -> (k: String)
    ensures
        k@ == a@ + b@,
{
    let mut k = String::from_str(a);
    k.append(b);
    k
}

fn key2(a: &str, mid: &str, b: &str) -> (k: String)
    ensures
        k@ == a@ + mid@ + b@,
{
    let mut k = String::from_str(a);
    k.append(mid);
    k.append(b);
    k
}

// ---------------------------------------------------------------------------
// Seats
// ---------------------------------------------------------------------------

pub open spec fn seats_6max() -> Seq<Seq<char>> {
    seq!["UTG"@, "HJ"@, "CO"@, "BTN"@, "SB"@, "BB"@]
}

pub open spec fn seats_9max() -> Seq<Seq<char>> {
    seq!["UTG"@, "UTG1"@, "UTG2"@, "MP"@, "HJ"@, "CO"@, "BTN"@, "SB"@, "BB"@]
}

/// The seats of a table size in acting order: 6-max for "6max", 9-max otherwise.
pub fn positions_for(table_size: &str) -> (v: Vec<&'static str>)
    ensures
        v@.len() == (if table_size@ == "6max"@ { seats_6max() } else { seats_9max() }).len(),
        forall|i: int| 0 <= i < v@.len() ==> (#[trigger] v@[i])@
            == (if table_size@ == "6max"@ { seats_6max() } else { seats_9max() })[i],
{
    if str_eq(table_size, "6max") {
        vec!["UTG", "HJ", "CO", "BTN", "SB", "BB"]
    } else {
        vec!["UTG", "UTG1", "UTG2", "MP", "HJ", "CO", "BTN", "SB", "BB"]
    }
}

// ---------------------------------------------------------------------------
// Chart lookups
// ---------------------------------------------------------------------------

/// The opening range of a seat (empty if the chart has none).
pub open spec fn rfi_range_of(d: RangeData, position: Seq<char>) -> Seq<String> {
    let i = key_index(d.rfi@, position);
    if i < d.rfi@.len() { d.rfi@[i].value.raise_range@ } else { Seq::empty() }
}

pub fn get_rfi_range(book: &RangeBook, position: &str, table_size: &str) -> (r: Vec<String>)
    ensures
        r@ == rfi_range_of(book.pick(table_size@), position@),
{
    let d = book.data(table_size);
    let i = find_key(&d.rfi, position);
    proof {
        lemma_key_index(d.rfi@, position@);
    }
    if i < d.rfi.len() {
        clone_strings(&d.rfi[i].value.raise_range)
    } else {
        Vec::new()
    }
}

/// The opening percentage of a seat (0 if the chart has none).
pub open spec fn rfi_pct_of(d: RangeData, position: Seq<char>) -> int {
    let i = key_index(d.rfi@, position);
    if i < d.rfi@.len() { d.rfi@[i].value.open_pct as int } else { 0 }
}

pub fn get_rfi_pct(book: &RangeBook, position: &str, table_size: &str) -> (r: u32)
    ensures
        r == rfi_pct_of(book.pick(table_size@), position@),
{
    let d = book.data(table_size);
    let i = find_key(&d.rfi, position);
    proof {
        lemma_key_index(d.rfi@, position@);
    }
    if i < d.rfi.len() {
        d.rfi[i].value.open_pct
    } else {
        0
    }
}

/// Calling and 3-betting ranges against an open.
pub struct VsRfiResult {
    pub call: Vec<String>,
    pub three_bet: Vec<String>,
    pub fold: String,
}

/// The response chart against an open: the `hero_vs_villain` row, else for the
/// big blind the `vs_villain` defense row, else nothing.
pub open spec fn vs_rfi_of(d: RangeData, hero: Seq<char>, villain: Seq<char>) -> (Seq<String>, Seq<String>, Seq<char>) {
    let i = key_index(d.vs_rfi@, hero + "_vs_"@ + villain);
    let j = key_index(d.bb_defense@, "vs_"@ + villain);
    if i < d.vs_rfi@.len() {
        (d.vs_rfi@[i].value.call@, d.vs_rfi@[i].value.three_bet@, d.vs_rfi@[i].value.fold@)
    } else if hero == "BB"@ && j < d.bb_defense@.len() {
        (d.bb_defense@[j].value.call@, d.bb_defense@[j].value.three_bet@, "default"@)
    } else {
        (Seq::empty(), Seq::empty(), "default"@)
    }
}

pub fn get_vs_rfi_range(book: &RangeBook, hero_pos: &str, villain_pos: &str, table_size: &str) -> (r: VsRfiResult)
    ensures
        (r.call@, r.three_bet@, r.fold@) == vs_rfi_of(book.pick(table_size@), hero_pos@, villain_pos@),
{
    let d = book.data(table_size);
    let key = key2(hero_pos, "_vs_", villain_pos);
    let i = find_key(&d.vs_rfi, key.as_str());
    proof {
        lemma_key_index(d.vs_rfi@, key@);
    }
    if i < d.vs_rfi.len() {
        let e = &d.vs_rfi[i].value;
        return VsRfiResult {
            call: clone_strings(&e.call),
            three_bet: clone_strings(&e.three_bet),
            fold: e.fold.clone(),
        };
    }
    let bb_key = cat2("vs_", villain_pos);
    let j = find_key(&d.bb_defense, bb_key.as_str());
    proof {
        lemma_key_index(d.bb_defense@, bb_key@);
    }
    if str_eq(hero_pos, "BB") && j < d.bb_defense.len() {
        let e = &d.bb_defense[j].value;
        return VsRfiResult {
            call: clone_strings(&e.call),
            three_bet: clone_strings(&e.three_bet),
            fold: String::from_str("default"),
        };
    }
    VsRfiResult { call: Vec::new(), three_bet: Vec::new(), fold: String::from_str("default") }
}

/// Calling and 4-betting ranges against a 3-bet.
pub struct Vs3BetResult {
    pub call: Vec<String>,
    pub four_bet: Vec<String>,
    pub fold: String,
}

/// The response chart against a 3-bet: the `hero_vs_villain` row, else the
/// `hero_vs_any` row, else nothing.
pub open spec fn vs_3bet_of(d: RangeData, hero: Seq<char>, villain: Seq<char>) -> (Seq<String>, Seq<String>, Seq<char>) {
    let i = key_index(d.vs_3bet@, hero + "_vs_"@ + villain);
    let j = key_index(d.vs_3bet@, hero + "_vs_any"@);
    if i < d.vs_3bet@.len() {
        (d.vs_3bet@[i].value.call@, d.vs_3bet@[i].value.four_bet@, d.vs_3bet@[i].value.fold@)
    } else if j < d.vs_3bet@.len() {
        (d.vs_3bet@[j].value.call@, d.vs_3bet@[j].value.four_bet@, d.vs_3bet@[j].value.fold@)
    } else {
        (Seq::empty(), Seq::empty(), "default"@)
    }
}

fn vs3_from(e: &Vs3BetEntry) -> (r: Vs3BetResult)
    ensures
        r.call@ == e.call@,
        r.four_bet@ == e.four_bet@,
        r.fold@ == e.fold@,
{
    Vs3BetResult { call: clone_strings(&e.call), four_bet: clone_strings(&e.four_bet), fold: e.fold.clone() }
}

pub fn get_vs_3bet_range(book: &RangeBook, hero_pos: &str, villain_pos: &str, table_size: &str) -> (r: Vs3BetResult)
    ensures
        (r.call@, r.four_bet@, r.fold@) == vs_3bet_of(book.pick(table_size@), hero_pos@, villain_pos@),
{
    let d = book.data(table_size);
    let key = key2(hero_pos, "_vs_", villain_pos);
    let i = find_key(&d.vs_3bet, key.as_str());
    proof {
        lemma_key_index(d.vs_3bet@, key@);
    }
    if i < d.vs_3bet.len() {
        return vs3_from(&d.vs_3bet[i].value);
    }
    let generic = cat2(hero_pos, "_vs_any");
    let j = find_key(&d.vs_3bet, generic.as_str());
    proof {
        lemma_key_index(d.vs_3bet@, generic@);
    }
    if j < d.vs_3bet.len() {
        return vs3_from(&d.vs_3bet[j].value);
    }
    Vs3BetResult { call: Vec::new(), four_bet: Vec::new(), fold: String::from_str("default") }
}

/// Index of the first squeeze row whose key starts with `p` (the table's length if none).
pub open spec fn prefix_index(es: Seq<Entry<SqueezeEntry>>, p: Seq<char>) -> int
    decreases es.len(),
{
    if es.len() == 0 {
        0
    } else if p.len() <= es[0].key@.len() && es[0].key@.subrange(0, p.len() as int) == p {
        0
    } else {
        1 + prefix_index(es.drop_first(), p)
    }
}

proof fn lemma_prefix_index(es: Seq<Entry<SqueezeEntry>>, p: Seq<char>)
    ensures
        0 <= prefix_index(es, p) <= es.len(),
    decreases es.len(),
{
    if es.len() > 0 {
        lemma_prefix_index(es.drop_first(), p);
    }
}

/// The squeeze range: the `hero_vs_raiser_caller` row, else the first row (in
/// table order) of any squeeze by `hero`, else nothing.
pub open spec fn squeeze_of(d: RangeData, hero: Seq<char>, raiser: Seq<char>, caller: Seq<char>) -> Seq<String> {
    let i = key_index(d.squeeze@, hero + "_vs_"@ + raiser + "_"@ + caller);
    let j = prefix_index(d.squeeze@, hero + "_vs_"@);
    if i < d.squeeze@.len() {
        d.squeeze@[i].value.squeeze@
    } else if j < d.squeeze@.len() {
        d.squeeze@[j].value.squeeze@
    } else {
        Seq::empty()
    }
}

pub fn get_squeeze_range(book: &RangeBook, hero_pos: &str, raiser_pos: &str, caller_pos: &str, table_size: &str) -> (r: Vec<String>)
    ensures
        r@ == squeeze_of(book.pick(table_size@), hero_pos@, raiser_pos@, caller_pos@),
{
    let d = book.data(table_size);
    let mut key = key2(hero_pos, "_vs_", raiser_pos);
    key.append("_");
    key.append(caller_pos);
    let i = find_key(&d.squeeze, key.as_str());
    proof {
        lemma_key_index(d.squeeze@, key@);
    }
    if i < d.squeeze.len() {
        return clone_strings(&d.squeeze[i].value.squeeze);
    }
    let prefix = cat2(hero_pos, "_vs_");
    let mut k: usize = 0;
    assert(d.squeeze@.subrange(0, d.squeeze@.len() as int) =~= d.squeeze@);
    proof {
        lemma_prefix_index(d.squeeze@, prefix@);
    }
    while k < d.squeeze.len()
        invariant
            k <= d.squeeze@.len(),
            *d == book.pick(table_size@),
            prefix@ == hero_pos@ + "_vs_"@,
            key@ == hero_pos@ + "_vs_"@ + raiser_pos@ + "_"@ + caller_pos@,
            key_index(d.squeeze@, key@) >= d.squeeze@.len(),
            prefix_index(d.squeeze@, prefix@) == k + prefix_index(d.squeeze@.subrange(k as int, d.squeeze@.len() as int), prefix@),
        decreases d.squeeze@.len() - k,
    {
        let ghost rest = d.squeeze@.subrange(k as int, d.squeeze@.len() as int);
        if starts_with(d.squeeze[k].key.as_str(), prefix.as_str()) {
            assert(rest[0] == d.squeeze@[k as int]);
            assert(prefix_index(rest, prefix@) == 0);
            return clone_strings(&d.squeeze[k].value.squeeze);
        }
        assert(rest.drop_first() =~= d.squeeze@.subrange(k + 1, d.squeeze@.len() as int));
        k = k + 1;
    }
    let ghost rest = d.squeeze@.subrange(k as int, d.squeeze@.len() as int);
    assert(rest.len() == 0);
    Vec::new()
}

/// The big blind's defense chart against an opener.
pub open spec fn bb_defense_of(d: RangeData, vs: Seq<char>) -> (Seq<String>, Seq<String>) {
    let j = key_index(d.bb_defense@, "vs_"@ + vs);
    if j < d.bb_defense@.len() {
        (d.bb_defense@[j].value.call@, d.bb_defense@[j].value.three_bet@)
    } else {
        (Seq::empty(), Seq::empty())
    }
}

pub fn get_bb_defense(book: &RangeBook, vs_position: &str, table_size: &str) -> (r: VsRfiResult)
    ensures
        (r.call@, r.three_bet@) == bb_defense_of(book.pick(table_size@), vs_position@),
        r.fold@ == "default"@,
{
    let d = book.data(table_size);
    let key = cat2("vs_", vs_position);
    let j = find_key(&d.bb_defense, key.as_str());
    proof {
        lemma_key_index(d.bb_defense@, key@);
    }
    if j < d.bb_defense.len() {
        let e = &d.bb_defense[j].value;
        VsRfiResult {
            call: clone_strings(&e.call),
            three_bet: clone_strings(&e.three_bet),
            fold: String::from_str("default"),
        }
    } else {
        VsRfiResult { call: Vec::new(), three_bet: Vec::new(), fold: String::from_str("default") }
    }
}

// ---------------------------------------------------------------------------
// Recommended action
// ---------------------------------------------------------------------------

pub struct PreflopAction {
    pub action: String,
    pub hand: String,
    pub position: String,
    pub detail: String,
}

/// The action and its explanation that the charts give a hand, or `None`
/// when the situation needs a villain seat and none is given.
pub open spec fn preflop_action_of(
    d: RangeData, hand: Seq<char>, position: Seq<char>, situation: Seq<char>, villain: Option<Seq<char>>,
) -> Option<(Seq<char>, Seq<char>)> {
    if situation == "RFI"@ {
        if lists_text(rfi_range_of(d, position), hand) {
            Some(("RAISE"@, "Open raise from "@ + position))
        } else {
            Some(("FOLD"@, "Not in "@ + position + " opening range"@))
        }
    } else if situation == "vs_RFI"@ {
        match villain {
            None => None,
            Some(vp) => {
                let res = vs_rfi_of(d, position, vp);
                if lists_text(res.1, hand) {
                    Some(("3BET"@, "3-bet vs "@ + vp + " open"@))
                } else if lists_text(res.0, hand) {
                    Some(("CALL"@, "Call "@ + vp + " open"@))
                } else {
                    Some(("FOLD"@, "Fold vs "@ + vp + " open"@))
                }
            },
        }
    } else if situation == "vs_3bet"@ {
        match villain {
            None => None,
            Some(vp) => {
                let res = vs_3bet_of(d, position, vp);
                if lists_text(res.1, hand) {
                    Some(("4BET"@, "4-bet vs "@ + vp + " 3-bet"@))
                } else if lists_text(res.0, hand) {
                    Some(("CALL"@, "Call "@ + vp + " 3-bet"@))
                } else {
                    Some(("FOLD"@, "Fold vs "@ + vp + " 3-bet"@))
                }
            },
        }
    } else {
        Some(("FOLD"@, "Unknown situation"@))
    }
}

pub open spec fn opt_view(v: Option<&str>) -> Option<Seq<char>> {
    match v {
        Some(s) => Some(s@),
        None => None,
    }
}

fn action_of(action: &str, hand: &str, position: &str, detail: String) -> (a: PreflopAction)
    ensures
        a.action@ == action@,
        a.hand@ == hand@,
        a.position@ == position@,
        a.detail == detail,
{
    PreflopAction {
        action: String::from_str(action),
        hand: String::from_str(hand),
        position: String::from_str(position),
        detail,
    }
}

/// The chart's action for a hand at a seat in a situation ("RFI", "vs_RFI",
/// "vs_3bet"; anything else folds). "vs_RFI" and "vs_3bet" need the villain's seat.
pub fn preflop_action(
    book: &RangeBook,
    hand: &str,
    position: &str,
    situation: &str,
    villain_pos: Option<&str>,
    table_size: &str,
) -> (r: Result<PreflopAction, GtoError>)
    ensures
        match preflop_action_of(book.pick(table_size@), hand@, position@, situation@, opt_view(villain_pos)) {
            Some((action, detail)) => r matches Ok(a) && a.action@ == action && a.detail@ == detail
                && a.hand@ == hand@ && a.position@ == position@,
            None => r matches Err(GtoError::InvalidValue(m))
                && m@ == "villain_pos required for "@ + situation@,
        },
{
    if str_eq(situation, "RFI") {
        let rfi = get_rfi_range(book, position, table_size);
        if contains_text(&rfi, hand) {
            let detail = cat2("Open raise from ", position);
            return Ok(action_of("RAISE", hand, position, detail));
        } else {
            let detail = key2("Not in ", position, " opening range");
            return Ok(action_of("FOLD", hand, position, detail));
        }
    }
    if str_eq(situation, "vs_RFI") {
        let vp = match villain_pos {
            Some(v) => v,
            None => {
                let m = String::from_str("villain_pos required for vs_RFI");
                proof { reveal_strlit("villain_pos required for vs_RFI"); reveal_strlit("villain_pos required for "); reveal_strlit("vs_RFI"); }
                assert(m@ =~= "villain_pos required for "@ + situation@);
                return Err(GtoError::InvalidValue(m));
            },
        };
        let result = get_vs_rfi_range(book, position, vp, table_size);
        if contains_text(&result.three_bet, hand) {
            return Ok(action_of("3BET", hand, position, key2("3-bet vs ", vp, " open")));
        } else if contains_text(&result.call, hand) {
            return Ok(action_of("CALL", hand, position, key2("Call ", vp, " open")));
        } else {
            return Ok(action_of("FOLD", hand, position, key2("Fold vs ", vp, " open")));
        }
    }
    if str_eq(situation, "vs_3bet") {
        let vp = match villain_pos {
            Some(v) => v,
            None => {
                let m = String::from_str("villain_pos required for vs_3bet");
                proof { reveal_strlit("villain_pos required for vs_3bet"); reveal_strlit("villain_pos required for "); reveal_strlit("vs_3bet"); }
                assert(m@ =~= "villain_pos required for "@ + situation@);
                return Err(GtoError::InvalidValue(m));
            },
        };
        let result = get_vs_3bet_range(book, position, vp, table_size);
        if contains_text(&result.four_bet, hand) {
            return Ok(action_of("4BET", hand, position, key2("4-bet vs ", vp, " 3-bet")));
        } else if contains_text(&result.call, hand) {
            return Ok(action_of("CALL", hand, position, key2("Call ", vp, " 3-bet")));
        } else {
            return Ok(action_of("FOLD", hand, position, key2("Fold vs ", vp, " 3-bet")));
        }
    }
    Ok(action_of("FOLD", hand, position, String::from_str("Unknown situation")))
}

} // verus!
