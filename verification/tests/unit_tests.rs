use gto_cli::batch::{position_pairs, representative_flops};
use gto_cli::cards::{Card, Rank, Suit};
use gto_cli::flat_cfr::FlatCfr;
use gto_cli::flop_enumerator::{canonicalize, generate_canonical_flops, rank_value, strategic_priority, RANK_CHARS, SUIT_CHARS};
use gto_cli::hand_evaluator::{evaluate_hand, HandCategory};
use gto_cli::math_engine::SprZone;
use gto_cli::play::{
    classify_hand_strength, estimate_villain_range, EquityBand, explain_board_texture, explain_hand_category, explain_position, explain_spr,
    is_in_position,
};
use gto_cli::postflop::Wetness;
use gto_cli::preflop::{RangeBook, RangeData};
use gto_cli::preflop_solver::{all_6max_spots, Position};
use gto_cli::session::{PotView, Session, SessionInput, SessionNeed};
use gto_cli::strategy::{default_villain, detect_street, find_combo_index, pretty_board, pretty_hand};

fn card(rank: Rank, suit: Suit) -> Card {
    Card::new(rank, suit)
}

fn band(equity: f64) -> EquityBand {
    if equity >= 0.65 {
        EquityBand::From65
    } else if equity >= 0.55 {
        EquityBand::From55
    } else if equity >= 0.35 {
        EquityBand::From35
    } else {
        EquityBand::Below35
    }
}

fn empty_data() -> RangeData {
    RangeData { rfi: vec![], vs_rfi: vec![], vs_3bet: vec![], squeeze: vec![], bb_defense: vec![] }
}

fn empty_book() -> RangeBook {
    RangeBook { six_max: empty_data(), nine_max: empty_data() }
}

// -- batch --

#[test]
fn test_representative_flops_valid() {
    for board in representative_flops() {
        let clean: String = board.chars().filter(|c| !c.is_whitespace()).collect();
        assert!(
            clean.len() == 6,
            "Invalid flop board '{}' (cleaned: '{}', len: {})",
            board,
            clean,
            clean.len()
        );
    }
}

#[test]
fn test_position_pairs_non_empty() {
    let pairs = position_pairs();
    assert!(!pairs.is_empty());
    assert_eq!(pairs[0], (Position::BTN, Position::BB));
}

// -- flop enumeration --

#[test]
fn test_canonical_flop_count() {
    let flops = generate_canonical_flops();
    assert_eq!(flops.len(), 1755, "Expected 1,755 canonical flops, got {}", flops.len());
}

#[test]
fn test_canonical_flops_are_valid() {
    let flops = generate_canonical_flops();
    for board in &flops {
        assert_eq!(board.len(), 6, "Board '{}' should be 6 chars", board);
        let chars: Vec<char> = board.chars().collect();
        for i in (0..6).step_by(2) {
            assert!(RANK_CHARS.contains(&chars[i]), "Invalid rank char '{}' in board '{}'", chars[i], board);
        }
        for i in (1..6).step_by(2) {
            assert!(SUIT_CHARS.contains(&chars[i]), "Invalid suit char '{}' in board '{}'", chars[i], board);
        }
    }
}

#[test]
fn test_canonical_flops_sorted_descending_rank() {
    let flops = generate_canonical_flops();
    for board in &flops {
        let chars: Vec<char> = board.chars().collect();
        let r1 = rank_value(chars[0]);
        let r2 = rank_value(chars[2]);
        let r3 = rank_value(chars[4]);
        assert!(r1 >= r2 && r2 >= r3, "Board '{}' ranks not in descending order: {} {} {}", board, r1, r2, r3);
    }
}

#[test]
fn test_suit_isomorphism() {
    let a = canonicalize(&[(11, 0), (7, 1), (2, 2)]);
    let b = canonicalize(&[(11, 1), (7, 0), (2, 3)]);
    let c = canonicalize(&[(11, 2), (7, 3), (2, 0)]);
    assert_eq!(a, b, "Ks9h4d and Kh9s4c should canonicalize the same");
    assert_eq!(b, c, "Kh9s4c and Kd9c4s should canonicalize the same");
}

#[test]
fn test_monotone_not_same_as_rainbow() {
    let mono = canonicalize(&[(11, 0), (7, 0), (2, 0)]);
    let rainbow = canonicalize(&[(11, 0), (7, 1), (2, 2)]);
    assert_ne!(mono, rainbow, "Monotone and rainbow should be different canonical flops");
}

#[test]
fn test_two_tone_variants() {
    let a = canonicalize(&[(11, 0), (7, 0), (2, 1)]);
    let _b = canonicalize(&[(11, 0), (7, 1), (2, 0)]);
    let c = canonicalize(&[(11, 0), (7, 1), (2, 1)]);
    assert_ne!(a, c, "Different two-tone patterns should be distinct");
}

#[test]
fn test_strategic_priority_a_high_beats_low() {
    let a_high = strategic_priority("As7d2c");
    let low = strategic_priority("6s4d2c");
    assert!(a_high > low, "A-high should have higher priority than 6-high");
}

#[test]
fn test_strategic_priority_broadway_bonus() {
    let broadway = strategic_priority("KsQhTd");
    let non_broadway = strategic_priority("Ks7d2c");
    assert!(broadway > non_broadway, "Broadway board should have higher priority");
}

// -- play --

#[test]
fn test_is_in_position_btn_vs_bb() {
    assert!(is_in_position("BTN", "BB", "6max"));
}

#[test]
fn test_is_in_position_bb_vs_btn() {
    assert!(!is_in_position("BB", "BTN", "6max"));
}

#[test]
fn test_is_in_position_co_vs_utg() {
    assert!(is_in_position("CO", "UTG", "6max"));
}

#[test]
fn test_is_in_position_9max() {
    assert!(is_in_position("BTN", "MP", "9max"));
    assert!(!is_in_position("UTG1", "CO", "9max"));
}

#[test]
fn test_explain_position() {
    assert!(explain_position("BTN").contains("best seat"));
    assert!(explain_position("UTG").contains("first to act"));
    assert!(explain_position("BB").contains("defend wide"));
}

#[test]
fn test_estimate_villain_range_rfi() {
    let hero = vec![card(Rank::Ace, Suit::Hearts), card(Rank::King, Suit::Spades)];
    let range = estimate_villain_range(&empty_book(), "RFI", "BTN", None, &hero, "6max");
    assert!(!range.is_empty());
    assert!(range.iter().any(|h| h == "QQ"));
}

#[test]
fn test_estimate_villain_range_vs_3bet() {
    let hero = vec![card(Rank::Ace, Suit::Hearts), card(Rank::Ace, Suit::Spades)];
    let range = estimate_villain_range(&empty_book(), "vs_3bet", "BTN", Some("CO"), &hero, "6max");
    assert!(!range.is_empty());
    assert!(range.len() < 30);
}

#[test]
fn test_explain_hand_category() {
    assert!(explain_hand_category(HandCategory::OnePair).contains("solid"));
    assert!(explain_hand_category(HandCategory::RoyalFlush).contains("best"));
}

#[test]
fn test_explain_board_texture() {
    assert!(explain_board_texture(Wetness::Dry).contains("DRY"));
    assert!(explain_board_texture(Wetness::Wet).contains("WET"));
}

#[test]
fn test_explain_spr() {
    assert!(explain_spr(SprZone::Low).contains("commit"));
    assert!(explain_spr(SprZone::High).contains("implied odds"));
}

// -- preflop solver positions --

#[test]
fn position_ip() {
    assert!(Position::BTN.is_ip_vs(&Position::CO));
    assert!(Position::BB.is_ip_vs(&Position::SB));
    assert!(!Position::UTG.is_ip_vs(&Position::BTN));
}

#[test]
fn all_spots_count() {
    assert_eq!(all_6max_spots().len(), 15);
}

#[test]
fn position_roundtrip() {
    for pos in &[Position::UTG, Position::HJ, Position::CO, Position::BTN, Position::SB, Position::BB] {
        assert_eq!(Position::from_str(pos.as_str()), Some(*pos));
    }
}

// -- strategy --

#[test]
fn test_find_combo_index() {
    let combos = vec!["AhKs".to_string(), "QdJc".to_string(), "TsTs".to_string()];
    assert_eq!(find_combo_index("AhKs", &combos), Some(0));
    assert_eq!(find_combo_index("KsAh", &combos), Some(0));
    assert_eq!(find_combo_index("QdJc", &combos), Some(1));
    assert_eq!(find_combo_index("JcQd", &combos), Some(1));
    assert_eq!(find_combo_index("AcKd", &combos), None);
}

#[test]
fn test_pretty_hand() {
    assert_eq!(pretty_hand("AhQd"), "A\u{2665}Q\u{2666}");
    assert_eq!(pretty_hand("KsTs"), "K\u{2660}T\u{2660}");
}

#[test]
fn test_pretty_board() {
    assert_eq!(pretty_board("Ks9d4c"), "K\u{2660} 9\u{2666} 4\u{2663}");
}

#[test]
fn test_detect_street() {
    assert_eq!(detect_street(""), "Preflop");
    assert_eq!(detect_street("Ks9d4c"), "Flop");
    assert_eq!(detect_street("Ks9d4c7h"), "Turn");
    assert_eq!(detect_street("Ks9d4c7hQc"), "River");
}

#[test]
fn test_default_villain() {
    assert_eq!(default_villain(Position::BTN), Position::BB);
    assert_eq!(default_villain(Position::BB), Position::BTN);
    assert_eq!(default_villain(Position::CO), Position::BB);
}

// -- hand strength classes --

// -- Hand strength classifier tests --

#[test]
fn test_classify_top_pair_good_kicker() {
    let hole = vec![
        card(Rank::Ace, Suit::Hearts),
        card(Rank::King, Suit::Spades),
    ];
    let board = vec![
        card(Rank::King, Suit::Diamonds),
        card(Rank::Seven, Suit::Clubs),
        card(Rank::Two, Suit::Hearts),
    ];
    let result = evaluate_hand(&hole, &board).unwrap();
    let strength = classify_hand_strength(&result, &hole, &board, band(0.72));
    assert_eq!(strength, "strong");
}

#[test]
fn test_classify_set() {
    let hole = vec![
        card(Rank::Seven, Suit::Spades),
        card(Rank::Seven, Suit::Hearts),
    ];
    let board = vec![
        card(Rank::Seven, Suit::Diamonds),
        card(Rank::King, Suit::Clubs),
        card(Rank::Two, Suit::Hearts),
    ];
    let result = evaluate_hand(&hole, &board).unwrap();
    let strength = classify_hand_strength(&result, &hole, &board, band(0.85));
    assert_eq!(strength, "very_strong");
}

#[test]
fn test_classify_flush() {
    let hole = vec![
        card(Rank::Ace, Suit::Spades),
        card(Rank::Ten, Suit::Spades),
    ];
    let board = vec![
        card(Rank::King, Suit::Spades),
        card(Rank::Seven, Suit::Spades),
        card(Rank::Two, Suit::Spades),
    ];
    let result = evaluate_hand(&hole, &board).unwrap();
    let strength = classify_hand_strength(&result, &hole, &board, band(0.80));
    assert_eq!(strength, "very_strong");
}

#[test]
fn test_classify_weak_high_card() {
    let hole = vec![
        card(Rank::Nine, Suit::Hearts),
        card(Rank::Eight, Suit::Clubs),
    ];
    let board = vec![
        card(Rank::Ace, Suit::Spades),
        card(Rank::King, Suit::Diamonds),
        card(Rank::Two, Suit::Hearts),
    ];
    let result = evaluate_hand(&hole, &board).unwrap();
    let strength = classify_hand_strength(&result, &hole, &board, band(0.15));
    assert_eq!(strength, "weak");
}

#[test]
fn test_classify_two_pair() {
    let hole = vec![
        card(Rank::King, Suit::Hearts),
        card(Rank::Seven, Suit::Spades),
    ];
    let board = vec![
        card(Rank::King, Suit::Diamonds),
        card(Rank::Seven, Suit::Clubs),
        card(Rank::Two, Suit::Hearts),
    ];
    let result = evaluate_hand(&hole, &board).unwrap();
    let strength = classify_hand_strength(&result, &hole, &board, band(0.80));
    assert_eq!(strength, "strong");
}

#[test]
fn test_classify_nuts_quads() {
    let hole = vec![
        card(Rank::Ace, Suit::Hearts),
        card(Rank::Ace, Suit::Spades),
    ];
    let board = vec![
        card(Rank::Ace, Suit::Diamonds),
        card(Rank::Ace, Suit::Clubs),
        card(Rank::Two, Suit::Hearts),
    ];
    let result = evaluate_hand(&hole, &board).unwrap();
    let strength = classify_hand_strength(&result, &hole, &board, band(0.99));
    assert_eq!(strength, "nuts");
}

#[test]
fn test_classify_medium_pair() {
    let hole = vec![
        card(Rank::King, Suit::Hearts),
        card(Rank::Three, Suit::Spades),
    ];
    let board = vec![
        card(Rank::King, Suit::Diamonds),
        card(Rank::Seven, Suit::Clubs),
        card(Rank::Two, Suit::Hearts),
    ];
    let result = evaluate_hand(&hole, &board).unwrap();
    let strength = classify_hand_strength(&result, &hole, &board, band(0.60));
    assert_eq!(strength, "medium");
}


// -- interactive session --

fn fresh_pot() -> PotView {
    PotView { pot_text: "6".to_string(), stack_text: "97".to_string(), low_spr: false, bluff_pct: 94 }
}

/// Runs the advisor on typed input, answering its other needs plainly.
fn run_session(input: &str) -> String {
    let mut session = Session::new(empty_book());
    let (mut out, mut need) = session.start();
    let mut lines = input.split_inclusive('\n');
    loop {
        let event = match need {
            SessionNeed::Line => match lines.next() {
                Some(l) => SessionInput::Line(l.to_string()),
                None => SessionInput::EndOfInput,
            },
            SessionNeed::NewHandPot => SessionInput::Pot(fresh_pot()),
            SessionNeed::Equity { .. } => SessionInput::Equity(None),
            SessionNeed::PotUpdate(_) => SessionInput::Pot(fresh_pot()),
            SessionNeed::Finished => break,
        };
        let (text, next) = session.step(event);
        out.push_str(&text);
        need = next;
    }
    out
}

#[test]
fn test_interactive_quit_immediately() {
    let out = run_session("q\n");
    assert!(out.contains("GTO Play"));
}

#[test]
fn test_interactive_full_preflop_fold() {
    let out = run_session("7h2c\nUTG\nn\n");
    assert!(out.contains("FOLD"));
}

// -- flat CFR layout --

#[test]
fn new_creates_correct_sizes() {
    let cfr = FlatCfr::new(&[(3, 100), (2, 200)]);
    assert_eq!(cfr.num_nodes(), 2);
    assert_eq!(cfr.total_entries(), 3 * 100 + 2 * 200);
    assert_eq!(cfr.node_num_actions(0), 3);
    assert_eq!(cfr.node_num_actions(1), 2);
}

#[test]
fn memory_bytes_reasonable() {
    // 1000 nodes × 4 actions × 500 hands = 2M entries
    let nodes: Vec<(u8, u16)> = (0..1000).map(|_| (4u8, 500u16)).collect();
    let cfr = FlatCfr::new(&nodes);
    let mb = cfr.memory_bytes() as f64 / 1_000_000.0;
    // 2M entries × 4 bytes × 2 arrays = 16 MB + small overhead
    assert!(mb < 20.0, "Expected <20 MB, got {:.1} MB", mb);
    assert!(mb > 10.0, "Expected >10 MB, got {:.1} MB", mb);
}

#[test]
fn flat_layout_slots_are_disjoint() {
    let cfr = FlatCfr::new(&[(3, 2), (2, 2)]);
    let mut seen = Vec::new();
    for node in 0..2usize {
        let na = cfr.node_num_actions(node) as usize;
        for hand in 0..2usize {
            for a in 0..na {
                let slot = cfr.base(node, hand) + a;
                assert!(slot < cfr.total_entries());
                assert!(!seen.contains(&slot));
                seen.push(slot);
            }
        }
    }
    assert_eq!(seen.len(), cfr.total_entries());
    assert_eq!(cfr.base(1, 1), 8);
    assert_eq!(cfr.memory_bytes(), 10 * 8 + 2 * 7);
}

#[test]
fn test_session_quit_at_table_size() {
    let out = run_session("q\n");
    assert!(out.contains("Welcome to GTO Play!"));
}
