//! Audit of hand evaluation, board texture, hand-strength classes, range
//! estimates and strategy coherence against known poker values.

use gto_cli::cards::{parse_board, parse_card, Card};
use gto_cli::equity::{equity_counts_vs_hand, equity_counts_vs_range, EquityCounts};
use gto_cli::hand_evaluator::{compare_hands, evaluate_hand, HandCategory};
use gto_cli::math_engine::SprZone;
use gto_cli::multiway::multiway_range_adjustment;
use gto_cli::play::{classify_hand_strength, estimate_villain_range, EquityBand};
use gto_cli::postflop::{analyze_board, cbet_recommendation, street_strategy, Wetness};
use gto_cli::preflop::{get_rfi_range, RangeBook, RangeData};
use gto_cli::ranges::{blockers_remove, range_from_top_bp, total_combos};

fn c(notation: &str) -> Card {
    parse_card(notation).unwrap()
}

fn band(equity: f64) -> EquityBand {
    if equity >= 0.65 {
        EquityBand::From65
    } else if equity >= 0.55 {
        EquityBand::From55
    } else if equity >= 0.35 {
        EquityBand::From35
    } else {
        EquityBand::Below35
    }
}

fn zone(spr: f64) -> SprZone {
    if spr <= 4.0 {
        SprZone::Low
    } else if spr <= 10.0 {
        SprZone::Medium
    } else {
        SprZone::High
    }
}

/// Share of the pot won: wins plus half the ties, over all runouts.
fn equity(c: &EquityCounts) -> f64 {
    let total = (c.wins + c.ties + c.losses) as f64;
    c.wins as f64 / total + (c.ties as f64 / total) / 2.0
}

fn no_charts() -> RangeBook {
    let empty = || RangeData { rfi: vec![], vs_rfi: vec![], vs_3bet: vec![], squeeze: vec![], bb_defense: vec![] };
    RangeBook { six_max: empty(), nine_max: empty() }
}

#[test]
fn audit_exhaustive_category_ranking() {
    // Construct one hand per category, verify all 45 pairwise orderings
    let boards_and_hands: Vec<(Vec<Card>, Vec<Card>, HandCategory)> = vec![
        // Royal Flush: As Ks on QsJsTs board
        (vec![c("Qs"), c("Js"), c("Ts"), c("2h"), c("3d")], vec![c("As"), c("Ks")], HandCategory::RoyalFlush),
        // Straight Flush: 9h8h on 7h6h5h board
        (vec![c("7h"), c("6h"), c("5h"), c("2c"), c("3d")], vec![c("9h"), c("8h")], HandCategory::StraightFlush),
        // Four of a Kind: KsKh on KdKc board
        (vec![c("Kd"), c("Kc"), c("5s"), c("2h"), c("3d")], vec![c("Ks"), c("Kh")], HandCategory::FourOfAKind),
        // Full House: AsAh on AdKsKh board
        (vec![c("Ad"), c("Ks"), c("Kh"), c("2c"), c("3d")], vec![c("As"), c("Ah")], HandCategory::FullHouse),
        // Flush: As Ts on 8s5s2s board
        (vec![c("8s"), c("5s"), c("2s"), c("Kd"), c("Qh")], vec![c("As"), c("Ts")], HandCategory::Flush),
        // Straight: 9s8h on 7d6c5s board
        (vec![c("7d"), c("6c"), c("5s"), c("Ah"), c("Kc")], vec![c("9s"), c("8h")], HandCategory::Straight),
        // Three of a Kind: QsQh on Qd7s3h board
        (vec![c("Qd"), c("7s"), c("3h"), c("2c"), c("4d")], vec![c("Qs"), c("Qh")], HandCategory::ThreeOfAKind),
        // Two Pair: AsKh on AdKs5c board
        (vec![c("Ad"), c("Ks"), c("5c"), c("2h"), c("3d")], vec![c("As"), c("Kh")], HandCategory::TwoPair),
        // One Pair: AsAh on Kd7s3c board
        (vec![c("Kd"), c("7s"), c("3c"), c("2h"), c("5d")], vec![c("As"), c("Ah")], HandCategory::OnePair),
        // High Card: AhKs on Qd9c3s board
        (vec![c("Qd"), c("9c"), c("3s"), c("2h"), c("5d")], vec![c("Ah"), c("Ks")], HandCategory::HighCard),
    ];

    // Verify each hand evaluates to expected category
    for (board, hole, expected_cat) in &boards_and_hands {
        let result = evaluate_hand(hole, board).unwrap();
        assert_eq!(
            result.category, *expected_cat,
            "Expected {:?}, got {:?}",
            expected_cat, result.category
        );
    }

    // Verify pairwise ordering: earlier in list = stronger hand
    for i in 0..boards_and_hands.len() {
        for j in (i + 1)..boards_and_hands.len() {
            let r_i = evaluate_hand(&boards_and_hands[i].1, &boards_and_hands[i].0).unwrap();
            let r_j = evaluate_hand(&boards_and_hands[j].1, &boards_and_hands[j].0).unwrap();
            assert!(
                r_i > r_j,
                "{:?} (rank {}) should beat {:?} (rank {})",
                boards_and_hands[i].2,
                r_i.rank,
                boards_and_hands[j].2,
                r_j.rank
            );
        }
    }
}

#[test]
fn audit_kicker_resolution_one_pair() {
    // AA-K vs AA-Q: pair of aces, kicker K vs Q
    let board = vec![c("Ad"), c("7s"), c("3c"), c("2h"), c("5d")];
    let r = compare_hands(&[c("As"), c("Kh")], &[c("Ah"), c("Qd")], &board).unwrap();
    assert_eq!(r, 1, "AA with K kicker should beat AA with Q kicker");
}

#[test]
fn audit_kicker_resolution_two_pair() {
    // KK77A vs KK77Q
    let board = vec![c("Ks"), c("7d"), c("7c"), c("2h"), c("3d")];
    let r = compare_hands(&[c("Kh"), c("Ad")], &[c("Kc"), c("Qd")], &board).unwrap();
    assert_eq!(r, 1, "KK77A should beat KK77Q");
}

#[test]
fn audit_kicker_resolution_trips() {
    // AAA-KQ vs AAA-KJ: second kicker Q vs J
    let board = vec![c("As"), c("Ah"), c("Ad"), c("Kc"), c("2s")];
    let r = compare_hands(&[c("Qh"), c("3d")], &[c("Jh"), c("4d")], &board).unwrap();
    assert_eq!(r, 1, "Trips with Q kicker should beat trips with J kicker");
}

#[test]
fn audit_kicker_resolution_full_house() {
    // AAKK vs AAQQ: full house pair rank K vs Q
    let board = vec![c("As"), c("Ah"), c("Ad"), c("2c"), c("3d")];
    let r = compare_hands(&[c("Ks"), c("Kh")], &[c("Qs"), c("Qh")], &board).unwrap();
    assert_eq!(r, 1, "AAA-KK should beat AAA-QQ");
}

#[test]
fn audit_wheel_below_six_high_straight() {
    // Wheel (A-2-3-4-5) ranks below 6-high straight (2-3-4-5-6)
    let board_wheel = vec![c("As"), c("2d"), c("3c"), c("4h"), c("5s")];
    let board_six = vec![c("2s"), c("3d"), c("4c"), c("5h"), c("6s")];

    let wheel = evaluate_hand(&[c("7h"), c("8d")], &board_wheel).unwrap();
    let six_high = evaluate_hand(&[c("7h"), c("8d")], &board_six).unwrap();

    assert_eq!(wheel.category, HandCategory::Straight);
    assert_eq!(six_high.category, HandCategory::Straight);
    assert!(
        six_high > wheel,
        "6-high straight should beat wheel"
    );
}

#[test]
fn audit_ace_high_vs_king_high_flush() {
    // 3 spades on board + 1 each in hero/villain = 5-card flush each
    let board = vec![c("Ts"), c("7s"), c("4s"), c("2d"), c("3d")];
    let r = compare_hands(&[c("As"), c("9s")], &[c("Ks"), c("8s")], &board).unwrap();
    assert_eq!(r, 1, "Ace-high flush should beat King-high flush");
}

#[test]
fn audit_board_plays_tie() {
    // Both players have same best 5 cards from the board
    let board = vec![c("As"), c("Kd"), c("Qh"), c("Js"), c("Ts")];
    let r = compare_hands(&[c("2h"), c("3d")], &[c("4h"), c("5d")], &board).unwrap();
    assert_eq!(r, 0, "Board plays should be a tie");
}

#[test]
fn audit_7_card_evaluation_finds_optimal_5() {
    // Hero has 7h 8h, board has 6h 5h 4h Ac Kd
    // Best 5 = straight flush (4h-5h-6h-7h-8h), not just the straight
    let hole = vec![c("7h"), c("8h")];
    let board = vec![c("6h"), c("5h"), c("4h"), c("Ac"), c("Kd")];
    let result = evaluate_hand(&hole, &board).unwrap();
    assert_eq!(
        result.category,
        HandCategory::StraightFlush,
        "Should find straight flush from 7 cards"
    );
}


#[test]
fn audit_board_texture_dry_rainbow_disconnected() {
    // Ks 7d 2c: dry, rainbow, disconnected
    let board = parse_board("Ks7d2c").unwrap();
    let tex = analyze_board(&board).unwrap();
    assert_eq!(tex.wetness, Wetness::Dry, "K72r should be dry");
    assert!(tex.is_rainbow, "K72r should be rainbow");
    assert!(!tex.is_paired, "K72r should not be paired");
}

#[test]
fn audit_board_texture_wet_two_tone_connected() {
    // Ts 9s 8d: wet, two-tone, connected
    let board = parse_board("Ts9s8d").unwrap();
    let tex = analyze_board(&board).unwrap();
    assert_eq!(tex.wetness, Wetness::Wet, "T98 two-tone should be wet");
    assert!(tex.is_two_tone, "T98ss should be two-tone");
    assert!(tex.straight_draw_possible, "T98 should have straight draws");
}

#[test]
fn audit_board_texture_monotone() {
    // As Ks Qs: wet, monotone
    let board = parse_board("AsKsQs").unwrap();
    let tex = analyze_board(&board).unwrap();
    assert_eq!(tex.wetness, Wetness::Wet, "AKQ monotone should be wet");
    assert!(tex.is_monotone, "AKQ all spades should be monotone");
}

#[test]
fn audit_board_texture_paired_dry() {
    // 7s 7d 2c: dry (paired reduces wetness), paired
    let board = parse_board("7s7d2c").unwrap();
    let tex = analyze_board(&board).unwrap();
    assert!(tex.is_paired, "77x should be paired");
    // Paired boards score -1, two-tone scores +1 → score 0 → Dry
    assert_eq!(tex.wetness, Wetness::Dry, "Paired 772 rainbow should be dry");
}

#[test]
fn audit_board_texture_connected_wet() {
    // Js Th 9s: wet, two-tone + connected = score 3 → Wet
    let board = parse_board("JsTh9s").unwrap();
    let tex = analyze_board(&board).unwrap();
    assert_eq!(tex.wetness, Wetness::Wet, "JT9 two-tone connected should be wet");
    assert!(tex.straight_draw_possible, "JT9 should have straight draws");
    assert!(tex.is_two_tone, "JT9ss should be two-tone");
}

#[test]
fn audit_board_texture_low_dry() {
    // 2s 5h 9d: dry, rainbow, disconnected
    let board = parse_board("2s5h9d").unwrap();
    let tex = analyze_board(&board).unwrap();
    assert_eq!(tex.wetness, Wetness::Dry, "259r should be dry");
    assert!(tex.is_rainbow, "259r should be rainbow");
}

#[test]
fn audit_board_texture_turn_monotone() {
    // Turn: Qs Js Ts 2c — monotone detection on 4-card board
    let board = parse_board("QsJsTs2c").unwrap();
    let tex = analyze_board(&board).unwrap();
    // First three are monotone, max suit count = 3
    assert!(tex.is_monotone, "QJT all spades + 2c should be monotone");
    assert_eq!(tex.wetness, Wetness::Wet, "Monotone connected should be wet");
}


#[test]
fn audit_classify_royal_flush() {
    let hole = vec![c("As"), c("Ks")];
    let board = parse_board("QsJsTs").unwrap();
    let result = evaluate_hand(&hole, &board).unwrap();
    let strength = classify_hand_strength(&result, &hole, &board, band(0.99));
    assert_eq!(strength, "nuts");
}

#[test]
fn audit_classify_set() {
    let hole = vec![c("7s"), c("7h")];
    let board = parse_board("7dKs2c").unwrap();
    let result = evaluate_hand(&hole, &board).unwrap();
    let strength = classify_hand_strength(&result, &hole, &board, band(0.85));
    assert_eq!(strength, "very_strong", "Set should be very_strong");
}

#[test]
fn audit_classify_trips_not_set() {
    // 7h 6s on 7d 7c Ks board: trips (not pocket pair), should be "strong"
    let hole = vec![c("7h"), c("6s")];
    let board = parse_board("7d7cKs").unwrap();
    let result = evaluate_hand(&hole, &board).unwrap();
    let strength = classify_hand_strength(&result, &hole, &board, band(0.70));
    assert_eq!(strength, "strong", "Trips (not set) should be strong");
}

#[test]
fn audit_classify_top_pair_ace_kicker() {
    let hole = vec![c("Ah"), c("Ks")];
    let board = parse_board("Kd7c2h").unwrap();
    let result = evaluate_hand(&hole, &board).unwrap();
    let strength = classify_hand_strength(&result, &hole, &board, band(0.72));
    assert_eq!(strength, "strong", "Top pair + A kicker should be strong");
}

#[test]
fn audit_classify_top_pair_weak_kicker() {
    let hole = vec![c("Kh"), c("4s")];
    let board = parse_board("Kd7c2h").unwrap();
    let result = evaluate_hand(&hole, &board).unwrap();
    let strength = classify_hand_strength(&result, &hole, &board, band(0.55));
    assert_eq!(strength, "medium", "Top pair weak kicker should be medium");
}

#[test]
fn audit_classify_weak_high_card_no_draw() {
    let hole = vec![c("9h"), c("8c")];
    let board = parse_board("AdKc2h").unwrap();
    let result = evaluate_hand(&hole, &board).unwrap();
    let strength = classify_hand_strength(&result, &hole, &board, band(0.15));
    assert_eq!(strength, "weak", "Whiffed high card should be weak");
}

#[test]
fn audit_classify_flush_draw() {
    // As Ts on Ks 7s 2d: high card + flush draw → "draw"
    let hole = vec![c("As"), c("Ts")];
    let board = parse_board("Ks7s2d").unwrap();
    let result = evaluate_hand(&hole, &board).unwrap();
    // The hand evaluates as high card (no made hand yet)
    // But hero has 2 spades + 2 on board = 4 spades = flush draw
    let strength = classify_hand_strength(&result, &hole, &board, band(0.30));
    assert_eq!(strength, "draw", "Flush draw should classify as draw");
}

#[test]
fn audit_classify_oesd() {
    // Jh Tc on Ks Qd 2h: OESD (needs A or 9) → "draw"
    let hole = vec![c("Jh"), c("Tc")];
    let board = parse_board("KsQd2h").unwrap();
    let result = evaluate_hand(&hole, &board).unwrap();
    let strength = classify_hand_strength(&result, &hole, &board, band(0.30));
    assert_eq!(strength, "draw", "OESD should classify as draw");
}

#[test]
fn audit_classify_full_house() {
    let hole = vec![c("5s"), c("5h")];
    let board = parse_board("5d3c3h").unwrap();
    let result = evaluate_hand(&hole, &board).unwrap();
    let strength = classify_hand_strength(&result, &hole, &board, band(0.95));
    assert_eq!(strength, "very_strong", "Full house should be very_strong");
}

#[test]
fn audit_classify_quads() {
    let hole = vec![c("As"), c("Ah")];
    let board = parse_board("AdAc2h").unwrap();
    let result = evaluate_hand(&hole, &board).unwrap();
    let strength = classify_hand_strength(&result, &hole, &board, band(0.99));
    assert_eq!(strength, "nuts", "Quads should be nuts");
}

#[test]
fn audit_classify_straight_flush() {
    let hole = vec![c("9s"), c("8s")];
    let board = parse_board("7s6s5s").unwrap();
    let result = evaluate_hand(&hole, &board).unwrap();
    let strength = classify_hand_strength(&result, &hole, &board, band(0.99));
    assert_eq!(strength, "nuts", "Straight flush should be nuts");
}

#[test]
fn audit_classify_strong_flush() {
    // Nut flush with high equity → very_strong
    let hole = vec![c("As"), c("Ts")];
    let board = parse_board("Ks7s2s").unwrap();
    let result = evaluate_hand(&hole, &board).unwrap();
    let strength = classify_hand_strength(&result, &hole, &board, band(0.80));
    assert_eq!(strength, "very_strong", "Nut flush with high equity should be very_strong");
}

#[test]
fn audit_classify_weak_straight() {
    // Low straight with low equity → strong
    let hole = vec![c("5s"), c("4h")];
    let board = parse_board("6d7c8s").unwrap();
    let result = evaluate_hand(&hole, &board).unwrap();
    let strength = classify_hand_strength(&result, &hole, &board, band(0.55));
    assert_eq!(strength, "strong", "Low straight with lower equity should be strong");
}

#[test]
fn audit_classify_two_pair_strong() {
    let hole = vec![c("Kh"), c("7s")];
    let board = parse_board("Kd7c2h").unwrap();
    let result = evaluate_hand(&hole, &board).unwrap();
    let strength = classify_hand_strength(&result, &hole, &board, band(0.75));
    assert_eq!(strength, "strong", "Two pair with good equity should be strong");
}

#[test]
fn audit_classify_second_pair() {
    // Pair the second board card: medium or weak
    let hole = vec![c("7h"), c("6s")];
    let board = parse_board("Kd7c2h").unwrap();
    let result = evaluate_hand(&hole, &board).unwrap();
    let strength = classify_hand_strength(&result, &hole, &board, band(0.45));
    assert_eq!(strength, "medium", "Second pair should be medium");
}

#[test]
fn audit_classify_bottom_pair() {
    let hole = vec![c("2s"), c("6h")];
    let board = parse_board("Kd7c2h").unwrap();
    let result = evaluate_hand(&hole, &board).unwrap();
    let strength = classify_hand_strength(&result, &hole, &board, band(0.30));
    assert_eq!(strength, "weak", "Bottom pair should be weak");
}

#[test]
fn audit_classify_strength_always_valid_for_strategy() {
    // Every possible classify output must be accepted by street_strategy without panic
    let valid_strengths = ["nuts", "very_strong", "strong", "medium", "draw", "weak", "bluff"];
    let board_cards = parse_board("Ks7d2c").unwrap();
    let texture = analyze_board(&board_cards).unwrap();

    for &strength in &valid_strengths {
        let strat = street_strategy(strength, &texture, 200.0 / 100.0 <= 4.0, 67, "IP", "flop");
        assert!(!strat.action.is_empty(), "Strategy action should not be empty for {}", strength);
    }
}


#[test]
fn audit_rfi_wider_than_3bet_range() {
    let hero = vec![c("2h"), c("3d")]; // unrelated blockers
    let rfi = estimate_villain_range(&no_charts(), "RFI", "BTN", None, &hero, "6max");
    let vs_3bet = estimate_villain_range(&no_charts(), "vs_3bet", "BTN", Some("CO"), &hero, "6max");
    assert!(
        rfi.len() >= vs_3bet.len(),
        "RFI range ({}) should be >= 3-bet range ({})",
        rfi.len(),
        vs_3bet.len()
    );
}

#[test]
fn audit_blocker_removal_reduces_or_keeps_range() {
    let hero = vec![c("As"), c("Kh")]; // blocks AA, KK, AK combos
    let full_range = range_from_top_bp(2000).unwrap();
    let blocked = blockers_remove(&full_range, &hero);
    assert!(
        blocked.len() <= full_range.len(),
        "Blocked range ({}) should be ≤ full range ({})",
        blocked.len(),
        full_range.len()
    );
}

#[test]
fn audit_ranges_non_empty_for_all_situations() {
    let hero = vec![c("2h"), c("3d")];
    let situations = ["RFI", "vs_RFI", "vs_3bet", "bb_defense"];
    for &sit in &situations {
        let range = estimate_villain_range(&no_charts(), sit, "BTN", Some("UTG"), &hero, "6max");
        assert!(
            !range.is_empty(),
            "Range for situation '{}' should not be empty",
            sit
        );
    }
}

#[test]
fn audit_vs_rfi_returns_villain_rfi_range() {
    // When villain is UTG, vs_RFI should base range on UTG's actual RFI range
    let hero = vec![c("2h"), c("3d")];
    let rfi_range = get_rfi_range(&no_charts(), "UTG", "6max");
    let vs_rfi = estimate_villain_range(&no_charts(), "vs_RFI", "CO", Some("UTG"), &hero, "6max");

    // The villain range should be based on UTG's RFI (potentially with blockers removed)
    if !rfi_range.is_empty() {
        // At least some hands from UTG's RFI should appear
        let overlap = vs_rfi.iter().filter(|h| rfi_range.contains(h)).count();
        assert!(
            overlap > 0,
            "vs_RFI should contain hands from villain's actual RFI range"
        );
    }
}

#[test]
fn audit_range_sizes_reasonable() {
    // RFI caller ~20% → 200-300 combos
    let rfi_range = range_from_top_bp(2000).unwrap();
    let rfi_combos = total_combos(&rfi_range);
    assert!(
        rfi_combos >= 200 && rfi_combos <= 350,
        "Top 20% should be ~200-300 combos, got {}",
        rfi_combos
    );

    // 3-bet range ~7% → 60-100 combos
    let three_bet_range = range_from_top_bp(700).unwrap();
    let three_bet_combos = total_combos(&three_bet_range);
    assert!(
        three_bet_combos >= 50 && three_bet_combos <= 120,
        "Top 7% should be ~60-100 combos, got {}",
        three_bet_combos
    );
}


#[test]
fn audit_stronger_hand_more_aggressive_action() {
    let board_cards = parse_board("Ks7d2c").unwrap();
    let texture = analyze_board(&board_cards).unwrap();

    // nuts → BET, weak → CHECK/FOLD
    let nuts_strat = street_strategy("nuts", &texture, 200.0 / 100.0 <= 4.0, 67, "IP", "flop");
    let weak_strat = street_strategy("weak", &texture, 200.0 / 100.0 <= 4.0, 67, "IP", "flop");

    assert!(
        nuts_strat.action.contains("BET"),
        "Nuts should BET, got {}",
        nuts_strat.action
    );
    assert!(
        weak_strat.action.contains("CHECK") || weak_strat.action.contains("FOLD"),
        "Weak should CHECK/FOLD, got {}",
        weak_strat.action
    );
}

#[test]
fn audit_ip_plays_wider_than_oop() {
    let board_cards = parse_board("Ks7d2c").unwrap();
    let texture = analyze_board(&board_cards).unwrap();

    // Medium hand: IP gets CHECK/BET, OOP gets CHECK
    let ip_strat = street_strategy("medium", &texture, 200.0 / 100.0 <= 4.0, 67, "IP", "flop");
    let oop_strat = street_strategy("medium", &texture, 200.0 / 100.0 <= 4.0, 67, "OOP", "flop");

    assert!(
        ip_strat.action.contains("BET") || ip_strat.action.contains("CHECK/BET"),
        "IP medium should have betting option, got {}",
        ip_strat.action
    );
    assert_eq!(
        oop_strat.action, "CHECK",
        "OOP medium should CHECK, got {}",
        oop_strat.action
    );
}

#[test]
fn audit_low_spr_more_commitment() {
    let board_cards = parse_board("Ks7d2c").unwrap();
    let texture = analyze_board(&board_cards).unwrap();

    // Low SPR (stack=200, pot=100, SPR=2) with strong hand → BET
    let low_spr = street_strategy("very_strong", &texture, 200.0 / 100.0 <= 4.0, 67, "IP", "flop");
    assert!(
        low_spr.action.contains("BET"),
        "Very strong hand at low SPR should BET, got {}",
        low_spr.action
    );
    // Should mention all-in or stacks at low SPR
    assert!(
        low_spr.sizing.contains("all-in") || low_spr.reasoning.contains("Low SPR"),
        "Low SPR should mention stacking, got sizing='{}', reasoning='{}'",
        low_spr.sizing,
        low_spr.reasoning
    );
}

#[test]
fn audit_river_bluff_mentions_fold_equity() {
    let board_cards = parse_board("Ks7d2cJh3s").unwrap();
    let texture = analyze_board(&board_cards).unwrap();

    let bluff_strat = street_strategy("bluff", &texture, 200.0 / 100.0 <= 4.0, 67, "IP", "river");
    assert!(
        bluff_strat.reasoning.contains("fold equity") || bluff_strat.reasoning.contains("fold"),
        "River bluff reasoning should mention fold equity, got '{}'",
        bluff_strat.reasoning
    );
}

#[test]
fn audit_multiway_tightens() {
    let adj = multiway_range_adjustment(4);
    assert!(
        adj.to_lowercase().contains("tighten"),
        "4-way adjustment should mention tightening, got '{}'",
        adj
    );
}

#[test]
fn audit_cbet_uses_spr() {
    let board = parse_board("Ks7d2c").unwrap();
    let texture = analyze_board(&board).unwrap();

    // Low SPR should have higher frequency than high SPR
    let low_spr = cbet_recommendation(&texture, "IP", zone(3.0), false);
    let high_spr = cbet_recommendation(&texture, "IP", zone(12.0), false);

    assert!(
        low_spr.frequency_pct > high_spr.frequency_pct,
        "Low SPR c-bet freq ({}) should be > high SPR freq ({})",
        low_spr.frequency_pct,
        high_spr.frequency_pct
    );
}

#[test]
fn audit_cbet_spr_adjustment_magnitude() {
    let board = parse_board("Ks7d2c").unwrap();
    let texture = analyze_board(&board).unwrap();

    // Normal SPR (6.0) should have base frequency
    let normal = cbet_recommendation(&texture, "IP", zone(6.0), false);
    let low = cbet_recommendation(&texture, "IP", zone(3.0), false);
    let high = cbet_recommendation(&texture, "IP", zone(12.0), false);

    // Low SPR should bump ~+12%
    assert!(
        low.frequency_pct as i64 - normal.frequency_pct as i64 == 12,
        "Low SPR should add ~12%: normal={}, low={}",
        normal.frequency_pct,
        low.frequency_pct
    );

    // High SPR should reduce ~-10%
    assert!(
        normal.frequency_pct as i64 - high.frequency_pct as i64 == 10,
        "High SPR should reduce ~10%: normal={}, high={}",
        normal.frequency_pct,
        high.frequency_pct
    );
}


#[test]
fn audit_fix_has_straight_draw_hero_ace_low_no_false_positive() {
    // Board has A-2-3-5 (ace-low draw potential), hero has Kh Qd (unrelated)
    // Hero should NOT have a straight draw — board has all the low cards
    let hole = vec![c("Kh"), c("Qd")];
    let board = parse_board("As2d3c5h").unwrap();
    let result = evaluate_hand(&hole, &board).unwrap();

    // Should NOT classify as draw if hero doesn't contribute
    let strength = classify_hand_strength(&result, &hole, &board, band(0.15));
    assert_ne!(
        strength, "draw",
        "KQ on A235 board should NOT be classified as draw (hero doesn't contribute to ace-low)"
    );
}

#[test]
fn audit_fix_has_straight_draw_hero_ace_low_true_positive() {
    // Hero has Ah 4s, board has 2d 3c Ks: hero contributes A and 4 to ace-low draw
    let hole = vec![c("Ah"), c("4s")];
    let board = parse_board("2d3cKs").unwrap();
    let result = evaluate_hand(&hole, &board).unwrap();
    let strength = classify_hand_strength(&result, &hole, &board, band(0.30));
    assert_eq!(
        strength, "draw",
        "A4 on 23K should be draw (hero contributes to ace-low straight draw)"
    );
}

#[test]
fn audit_fix_cbet_spr_not_ignored() {
    let board = parse_board("Ks7d2c").unwrap();
    let texture = analyze_board(&board).unwrap();

    let spr3 = cbet_recommendation(&texture, "IP", zone(3.0), false);
    let spr7 = cbet_recommendation(&texture, "IP", zone(7.0), false);
    let spr15 = cbet_recommendation(&texture, "IP", zone(15.0), false);

    // Different SPRs should produce different frequencies
    assert!(
        spr3.frequency_pct != spr7.frequency_pct || spr7.frequency_pct != spr15.frequency_pct,
        "SPR should affect c-bet frequency: spr3={}, spr7={}, spr15={}",
        spr3.frequency_pct, spr7.frequency_pct, spr15.frequency_pct
    );

    // Low SPR → highest frequency
    assert!(
        spr3.frequency_pct > spr7.frequency_pct,
        "SPR 3 ({}) should have higher freq than SPR 7 ({})",
        spr3.frequency_pct, spr7.frequency_pct
    );
    assert!(
        spr7.frequency_pct > spr15.frequency_pct,
        "SPR 7 ({}) should have higher freq than SPR 15 ({})",
        spr7.frequency_pct, spr15.frequency_pct
    );
}

// =========================================================================
// Equity against known values
// =========================================================================

#[test]
fn audit_aa_vs_kk_preflop() {
    // Known: AA vs KK ~82% equity (PokerStove)
    let result = equity_counts_vs_hand(&[c("As"), c("Ah")], &[c("Ks"), c("Kh")], None, 50000);
    let eq = equity(&result);
    assert!((eq - 0.82).abs() < 0.03, "AA vs KK should be ~82%, got {:.1}%", eq * 100.0);
}

#[test]
fn audit_aks_vs_qq_preflop() {
    // Known: AKs vs QQ ~46% equity (PokerStove)
    let result = equity_counts_vs_hand(&[c("As"), c("Ks")], &[c("Qh"), c("Qd")], None, 50000);
    let eq = equity(&result);
    assert!((eq - 0.46).abs() < 0.03, "AKs vs QQ should be ~46%, got {:.1}%", eq * 100.0);
}

#[test]
fn audit_ako_vs_22_preflop() {
    // Known: AKo vs 22 ~47% (PokerStove — classic coinflip)
    let result = equity_counts_vs_hand(&[c("As"), c("Kh")], &[c("2s"), c("2d")], None, 50000);
    let eq = equity(&result);
    assert!((eq - 0.47).abs() < 0.04, "AKo vs 22 should be ~47%, got {:.1}%", eq * 100.0);
}

#[test]
fn audit_set_vs_flush_draw_on_flop() {
    // Set of tens vs nut flush draw on Ts 9s 2h: set ~65-70%
    let board = parse_board("Ts9s2h").unwrap();
    let result = equity_counts_vs_hand(&[c("Td"), c("Th")], &[c("As"), c("Ks")], Some(&board), 50000);
    let eq = equity(&result);
    assert!(eq > 0.55 && eq < 0.80, "Set vs flush draw should be ~65-70%, got {:.1}%", eq * 100.0);
}

#[test]
fn audit_overpair_vs_oesd_on_flop() {
    // AA vs JT on T86 rainbow: AA is overpair, JT has OESD (needs 7 or 9)
    let board = parse_board("Td8c6h").unwrap();
    let result = equity_counts_vs_hand(&[c("As"), c("Ah")], &[c("Jd"), c("9s")], Some(&board), 50000);
    let eq = equity(&result);
    assert!(eq > 0.50 && eq < 0.85, "Overpair vs OESD should be ~65-75%, got {:.1}%", eq * 100.0);
}

#[test]
fn audit_equity_symmetry() {
    // win + lose + tie covers every runout
    let result1 = equity_counts_vs_hand(&[c("As"), c("Kh")], &[c("Qd"), c("Qc")], None, 50000);
    let total = (result1.wins + result1.losses + result1.ties) as f64;
    let sum = result1.wins as f64 / total + result1.losses as f64 / total + result1.ties as f64 / total;
    assert!((sum - 1.0).abs() < 0.001, "win + lose + tie should sum to 1.0, got {}", sum);
}

#[test]
fn audit_equity_vs_top_5pct_range() {
    // AA vs top 5% range (AA,KK,QQ,AKs,JJ)
    let range = range_from_top_bp(500).unwrap();
    let result = equity_counts_vs_range(&[c("As"), c("Ah")], &range, None, 10000).unwrap();
    let eq = equity(&result);
    assert!(eq > 0.60 && eq < 0.95, "AA vs top 5% should be ~75-85%, got {:.1}%", eq * 100.0);
}
