//! Card bookkeeping of the flop solver: which of the opponent's combos can be
//! dealt beside each of a player's combos. Combos are pairs of card indices.

use vstd::prelude::*;

verus! {

/// Two combos hold a card in common.
pub open spec fn shares_card(a: (u8, u8), b: (u8, u8)) -> bool {
    a.0 == b.0 || a.0 == b.1 || a.1 == b.0 || a.1 == b.1
}

/// Positions among the first `n` of `ys` whose combo holds no card of `x`, in order.
pub open spec fn partner_indices(x: (u8, u8), ys: Seq<(u8, u8)>, n: int) -> Seq<int>
    decreases n,
{
    if n <= 0 {
        Seq::empty()
    } else if shares_card(x, ys[n - 1]) {
        partner_indices(x, ys, n - 1)
    } else {
        partner_indices(x, ys, n - 1).push(n - 1)
    }
}

/// The positions of `partner_indices` as the solver stores them (16-bit).
pub open spec fn partner_row(x: (u8, u8), ys: Seq<(u8, u8)>) -> Seq<u16> {
    partner_indices(x, ys, ys.len() as int).map_values(|j: int| j as u16)
}

/// For each combo of `xs`, the positions of the combos of `ys` that share no
/// card with it, in increasing order, stored as 16-bit positions.
pub fn compatible_partners(xs: &[(u8, u8)], ys: &[(u8, u8)]) -> (r: Vec<Vec<u16>>)
    ensures
        r@.len() == xs@.len(),
        forall|i: int| 0 <= i < xs@.len() ==> (#[trigger] r@[i])@ == partner_row(xs@[i], ys@),
{
    let mut r: Vec<Vec<u16>> = Vec::new();
    let mut i: usize = 0;
    while i < xs.len()
        invariant
            i <= xs@.len(),
            r@.len() == i,
            forall|a: int| 0 <= a < i ==> (#[trigger] r@[a])@ == partner_row(xs@[a], ys@),
        decreases xs@.len() - i,
    {
        let x = xs[i];
        let mut row: Vec<u16> = Vec::new();
        let mut j: usize = 0;
        while j < ys.len()
            invariant
                j <= ys@.len(),
                x == xs@[i as int],
                row@ == partner_indices(x, ys@, j as int).map_values(|k: int| k as u16),
            decreases ys@.len() - j,
        {
            let y = ys[j];
            let ghost prev = partner_indices(x, ys@, j as int);
            if !(x.0 == y.0 || x.0 == y.1 || x.1 == y.0 || x.1 == y.1) {
                row.push(j as u16);
                assert(prev.push(j as int).map_values(|k: int| k as u16)
                    =~= prev.map_values(|k: int| k as u16).push(j as u16));
            }
            j = j + 1;
        }
        r.push(row);
        i = i + 1;
    }
    r
}

} // verus!
