use gto_cli::cards::{contains_card, hand_combos, parse_board, parse_card, parse_card_pairs, simplify_hand, Card, Deck, Rank, Suit};
use gto_cli::hand_evaluator::evaluate_hand;
use gto_cli::ranges::{blocked_combos, range_from_top_bp};
use gto_cli::cli::{hand_to_canonical, position_type, validate_position};
use gto_cli::display::{action_style, board_display, range_grid, styled_action};
use gto_cli::equity::{equity_counts_vs_hand, equity_counts_vs_range, runout_outcome};
use gto_cli::error::GtoError;
use gto_cli::flop_solver::compatible_partners;
use gto_cli::math_engine::SprZone;
use gto_cli::multiway::{multiway_cbet, multiway_range_adjustment, multiway_sizing};
use gto_cli::play::{estimate_villain_range, capitalize, is_in_position, parse_board_input, parse_hole_cards};
use gto_cli::postflop::{analyze_board, cbet_recommendation, Connectedness, Wetness};
use gto_cli::preflop::{
    get_bb_defense, get_rfi_pct, get_rfi_range, get_squeeze_range, get_vs_3bet_range, get_vs_rfi_range,
    positions_for, preflop_action, BbDefenseEntry, Entry, RangeBook, RangeData, RfiEntry, SqueezeEntry,
    Vs3BetEntry, VsRfiEntry,
};
use gto_cli::preflop_solver::Position;
use gto_cli::session::{PotView, Session, SessionInput, SessionNeed};
use gto_cli::strategy::{preflop_open_order, suit_symbol};
use gto_cli::text::parse_usize;

fn strings(xs: &[&str]) -> Vec<String> {
    xs.iter().map(|s| s.to_string()).collect()
}

fn empty_data() -> RangeData {
    RangeData { rfi: vec![], vs_rfi: vec![], vs_3bet: vec![], squeeze: vec![], bb_defense: vec![] }
}

fn sample_book() -> RangeBook {
    let six = RangeData {
        rfi: vec![
            Entry { key: "UTG".to_string(), value: RfiEntry { raise_range: strings(&["AA", "KK", "AKs"]), open_pct: 15 } },
            Entry { key: "BTN".to_string(), value: RfiEntry { raise_range: strings(&["AA", "KK", "KQo", "T9s"]), open_pct: 45 } },
        ],
        vs_rfi: vec![Entry {
            key: "CO_vs_UTG".to_string(),
            value: VsRfiEntry { call: strings(&["JJ", "AQs"]), three_bet: strings(&["AA", "KK"]), fold: "rest".to_string() },
        }],
        vs_3bet: vec![
            Entry {
                key: "BTN_vs_SB".to_string(),
                value: Vs3BetEntry { call: strings(&["QQ"]), four_bet: strings(&["AA"]), fold: "rest".to_string() },
            },
            Entry {
                key: "BTN_vs_any".to_string(),
                value: Vs3BetEntry { call: strings(&["JJ"]), four_bet: strings(&["KK"]), fold: "most".to_string() },
            },
        ],
        squeeze: vec![
            Entry { key: "BTN_vs_UTG_HJ".to_string(), value: SqueezeEntry { squeeze: strings(&["AA"]), fold: "rest".to_string() } },
            Entry { key: "SB_vs_CO_BTN".to_string(), value: SqueezeEntry { squeeze: strings(&["KK"]), fold: "rest".to_string() } },
            Entry { key: "SB_vs_HJ_CO".to_string(), value: SqueezeEntry { squeeze: strings(&["QQ"]), fold: "rest".to_string() } },
        ],
        bb_defense: vec![Entry {
            key: "vs_BTN".to_string(),
            value: BbDefenseEntry { call: strings(&["K5s", "Q9o"]), three_bet: strings(&["AA", "A5s"]) },
        }],
    };
    RangeBook { six_max: six, nine_max: empty_data() }
}

fn card(rank: Rank, suit: Suit) -> Card {
    Card::new(rank, suit)
}

// -- preflop charts --

#[test]
fn lib_rfi_range_lookup() {
    let book = sample_book();
    assert_eq!(get_rfi_range(&book, "BTN", "6max"), strings(&["AA", "KK", "KQo", "T9s"]));
    assert!(get_rfi_range(&book, "CO", "6max").is_empty());
    assert!(get_rfi_range(&book, "BTN", "9max").is_empty());
    assert_eq!(get_rfi_pct(&book, "UTG", "6max"), 15);
    assert_eq!(get_rfi_pct(&book, "SB", "6max"), 0);
}

#[test]
fn lib_vs_rfi_row_then_bb_defense_then_default() {
    let book = sample_book();
    let row = get_vs_rfi_range(&book, "CO", "UTG", "6max");
    assert_eq!(row.call, strings(&["JJ", "AQs"]));
    assert_eq!(row.three_bet, strings(&["AA", "KK"]));
    assert_eq!(row.fold, "rest");
    let bb = get_vs_rfi_range(&book, "BB", "BTN", "6max");
    assert_eq!(bb.call, strings(&["K5s", "Q9o"]));
    assert_eq!(bb.three_bet, strings(&["AA", "A5s"]));
    assert_eq!(bb.fold, "default");
    let none = get_vs_rfi_range(&book, "SB", "BTN", "6max");
    assert!(none.call.is_empty() && none.three_bet.is_empty());
    assert_eq!(none.fold, "default");
}

#[test]
fn lib_vs_3bet_row_then_any() {
    let book = sample_book();
    let row = get_vs_3bet_range(&book, "BTN", "SB", "6max");
    assert_eq!(row.four_bet, strings(&["AA"]));
    assert_eq!(row.call, strings(&["QQ"]));
    let any = get_vs_3bet_range(&book, "BTN", "BB", "6max");
    assert_eq!(any.four_bet, strings(&["KK"]));
    assert_eq!(any.fold, "most");
    let none = get_vs_3bet_range(&book, "CO", "BB", "6max");
    assert!(none.call.is_empty() && none.four_bet.is_empty());
    assert_eq!(none.fold, "default");
}

#[test]
fn lib_squeeze_exact_then_first_of_hero() {
    let book = sample_book();
    assert_eq!(get_squeeze_range(&book, "BTN", "UTG", "HJ", "6max"), strings(&["AA"]));
    assert_eq!(get_squeeze_range(&book, "SB", "HJ", "CO", "6max"), strings(&["QQ"]));
    assert_eq!(get_squeeze_range(&book, "SB", "UTG", "CO", "6max"), strings(&["KK"]));
    assert!(get_squeeze_range(&book, "BB", "UTG", "CO", "6max").is_empty());
}

#[test]
fn lib_bb_defense_lookup() {
    let book = sample_book();
    let d = get_bb_defense(&book, "BTN", "6max");
    assert_eq!(d.call, strings(&["K5s", "Q9o"]));
    assert_eq!(d.fold, "default");
    let e = get_bb_defense(&book, "UTG", "6max");
    assert!(e.call.is_empty() && e.three_bet.is_empty());
}

#[test]
fn lib_preflop_action_rfi() {
    let book = sample_book();
    let a = preflop_action(&book, "KQo", "BTN", "RFI", None, "6max").unwrap();
    assert_eq!(a.action, "RAISE");
    assert_eq!(a.detail, "Open raise from BTN");
    assert_eq!(a.hand, "KQo");
    assert_eq!(a.position, "BTN");
    let f = preflop_action(&book, "72o", "UTG", "RFI", None, "6max").unwrap();
    assert_eq!(f.action, "FOLD");
    assert_eq!(f.detail, "Not in UTG opening range");
}

#[test]
fn lib_preflop_action_vs_rfi() {
    let book = sample_book();
    let t = preflop_action(&book, "AA", "CO", "vs_RFI", Some("UTG"), "6max").unwrap();
    assert_eq!(t.action, "3BET");
    assert_eq!(t.detail, "3-bet vs UTG open");
    let c = preflop_action(&book, "AQs", "CO", "vs_RFI", Some("UTG"), "6max").unwrap();
    assert_eq!(c.action, "CALL");
    assert_eq!(c.detail, "Call UTG open");
    let f = preflop_action(&book, "72o", "CO", "vs_RFI", Some("UTG"), "6max").unwrap();
    assert_eq!(f.action, "FOLD");
    assert_eq!(f.detail, "Fold vs UTG open");
    let bb = preflop_action(&book, "K5s", "BB", "vs_RFI", Some("BTN"), "6max").unwrap();
    assert_eq!(bb.action, "CALL");
}

#[test]
fn lib_preflop_action_vs_3bet() {
    let book = sample_book();
    let a = preflop_action(&book, "AA", "BTN", "vs_3bet", Some("SB"), "6max").unwrap();
    assert_eq!(a.action, "4BET");
    assert_eq!(a.detail, "4-bet vs SB 3-bet");
    let c = preflop_action(&book, "JJ", "BTN", "vs_3bet", Some("BB"), "6max").unwrap();
    assert_eq!(c.action, "CALL");
    assert_eq!(c.detail, "Call BB 3-bet");
    let f = preflop_action(&book, "72o", "BTN", "vs_3bet", Some("BB"), "6max").unwrap();
    assert_eq!(f.detail, "Fold vs BB 3-bet");
}

#[test]
fn lib_preflop_action_errors_and_unknown() {
    let book = sample_book();
    match preflop_action(&book, "AA", "CO", "vs_RFI", None, "6max") {
        Err(GtoError::InvalidValue(m)) => assert_eq!(m, "villain_pos required for vs_RFI"),
        _ => panic!("expected an error"),
    }
    match preflop_action(&book, "AA", "CO", "vs_3bet", None, "6max") {
        Err(GtoError::InvalidValue(m)) => assert_eq!(m, "villain_pos required for vs_3bet"),
        _ => panic!("expected an error"),
    }
    let u = preflop_action(&book, "AA", "CO", "limp", None, "6max").unwrap();
    assert_eq!(u.action, "FOLD");
    assert_eq!(u.detail, "Unknown situation");
}

#[test]
fn lib_positions_for_table_sizes() {
    assert_eq!(positions_for("6max"), vec!["UTG", "HJ", "CO", "BTN", "SB", "BB"]);
    assert_eq!(positions_for("9max").len(), 9);
    assert_eq!(positions_for("9max")[1], "UTG1");
    assert_eq!(positions_for("anything").len(), 9);
}

// -- command line helpers --

#[test]
fn lib_validate_position() {
    assert_eq!(validate_position("btn", "6max"), Ok("BTN".to_string()));
    assert_eq!(validate_position("utg1", "9max"), Ok("UTG1".to_string()));
    assert_eq!(
        validate_position("utg1", "6max"),
        Err("Invalid position 'UTG1'. Valid: UTG, HJ, CO, BTN, SB, BB".to_string())
    );
}

#[test]
fn lib_hand_to_canonical() {
    assert_eq!(hand_to_canonical("AhKs"), "AKo");
    assert_eq!(hand_to_canonical("Ks9s"), "K9s");
    assert_eq!(hand_to_canonical("9sKs"), "K9s");
    assert_eq!(hand_to_canonical("7h7c"), "77");
    assert_eq!(hand_to_canonical("AKs"), "AKs");
}

#[test]
fn lib_position_type() {
    assert_eq!(position_type("BTN"), "IP");
    assert_eq!(position_type("CO"), "IP");
    assert_eq!(position_type("SB"), "OOP");
    assert_eq!(position_type("btn"), "OOP");
}

// -- multiway --

#[test]
fn lib_multiway_tables() {
    assert_eq!(multiway_sizing(4, "dry"), "66-75% pot (punish draws, narrow ranges)");
    assert_eq!(multiway_sizing(3, "dry"), "25-33% pot");
    assert_eq!(multiway_sizing(3, "wet"), "50-66% pot");
    assert_eq!(multiway_sizing(2, "wet"), "66-75% pot");
    assert_eq!(multiway_sizing(2, "medium"), "50% pot");
    assert_eq!(multiway_range_adjustment(2), "Standard heads-up ranges apply.");
    assert!(multiway_range_adjustment(5).starts_with("Tighten significantly"));
}

#[test]
fn lib_multiway_cbet_tightens_with_players() {
    let hu = multiway_cbet(2, "dry", "ip");
    let three = multiway_cbet(3, "dry", "IP");
    let four = multiway_cbet(4, "dry", "IP");
    assert_eq!(hu.frequency_pct, 65);
    assert_eq!(three.frequency_pct, 35);
    assert_eq!(four.frequency_pct, 15);
    assert!(four.frequency_pct <= three.frequency_pct && three.frequency_pct <= hu.frequency_pct);
    assert_eq!(multiway_cbet(2, "dry", "OOP").frequency_pct, 45);
    assert_eq!(multiway_cbet(3, "wet", "OOP").sizing, "66-75% pot");
}

// -- c-bet laws on concrete boards --

#[test]
fn lib_cbet_frequency_orders() {
    let dry = analyze_board(&[card(Rank::King, Suit::Spades), card(Rank::Seven, Suit::Diamonds), card(Rank::Two, Suit::Clubs)]).unwrap();
    assert_eq!(dry.wetness, Wetness::Dry);
    let low = cbet_recommendation(&dry, "IP", SprZone::Low, false).frequency_pct;
    let mid = cbet_recommendation(&dry, "IP", SprZone::Medium, false).frequency_pct;
    let high = cbet_recommendation(&dry, "IP", SprZone::High, false).frequency_pct;
    assert!(low > mid && mid > high);
    let oop = cbet_recommendation(&dry, "OOP", SprZone::Medium, false).frequency_pct;
    let multi = cbet_recommendation(&dry, "IP", SprZone::Medium, true).frequency_pct;
    assert!(oop <= mid && multi <= mid);
}

// -- seats --

#[test]
fn lib_in_position_exactly_one() {
    let seats = ["UTG", "HJ", "CO", "BTN", "SB", "BB"];
    for h in seats {
        for v in seats {
            if h != v {
                assert!(is_in_position(h, v, "6max") != is_in_position(v, h, "6max"));
            }
        }
    }
    assert!(is_in_position("BTN", "MP", "9max"));
    assert!(!is_in_position("SB", "UTG2", "9max"));
}

#[test]
fn lib_open_order_and_suit_symbols() {
    assert!(preflop_open_order(Position::UTG) < preflop_open_order(Position::BTN));
    assert_eq!(suit_symbol('s'), "\u{2660}");
    assert_eq!(suit_symbol('h'), "\u{2665}");
}

// -- display --

#[test]
fn lib_action_styles() {
    assert_eq!(action_style("raise"), "red");
    assert_eq!(action_style("BET (BLUFF)"), "red");
    assert_eq!(action_style("call"), "green");
    assert_eq!(action_style("FOLD"), "dim");
    assert_eq!(action_style("check-raise"), "yellow");
    assert_eq!(action_style("limp"), "bold");
}

#[test]
fn lib_styled_action_keeps_the_word() {
    for word in ["RAISE", "CALL", "FOLD", "CHECK", "LIMP"] {
        assert!(styled_action(word).contains(word));
    }
}

#[test]
fn lib_board_display_shows_faces() {
    let shown = board_display(&[card(Rank::Ace, Suit::Spades), card(Rank::Ten, Suit::Hearts)]);
    assert!(shown.contains("A\u{2660}"));
    assert!(shown.contains("T\u{2665}"));
    assert_eq!(board_display(&[]), "");
}

#[test]
fn lib_range_grid_has_title_and_hands() {
    let grid = range_grid(&strings(&["AA", "AKs"]), "BTN open");
    assert!(grid.contains("BTN open"));
    assert!(grid.contains("AKs"));
    assert!(grid.contains("72o"));
}

// -- parsing --

#[test]
fn lib_parse_card_pairs() {
    let cards = parse_card_pairs("AhKd").unwrap();
    assert_eq!(cards, vec![card(Rank::Ace, Suit::Hearts), card(Rank::King, Suit::Diamonds)]);
    assert!(parse_card_pairs("AhK").is_none());
    assert!(parse_card_pairs("AhKx").is_none());
    assert_eq!(parse_card_pairs("").unwrap().len(), 0);
    assert_eq!(parse_card_pairs("ks7d2c").unwrap().len(), 3);
}

#[test]
fn lib_parse_hole_cards() {
    let cards = parse_hole_cards(" Ah Ks ").unwrap();
    assert_eq!(cards, vec![card(Rank::Ace, Suit::Hearts), card(Rank::King, Suit::Spades)]);
    assert!(parse_hole_cards("AhAh").is_none());
    assert!(parse_hole_cards("AhK").is_none());
    assert!(parse_hole_cards("AhKx").is_none());
}

#[test]
fn lib_parse_board_input() {
    assert_eq!(parse_board_input("Ks 7d 2c").unwrap().len(), 3);
    assert_eq!(parse_board_input("jh").unwrap(), vec![card(Rank::Jack, Suit::Hearts)]);
    assert!(parse_board_input("Ks7").is_none());
    assert!(parse_board_input("Kx").is_none());
}

#[test]
fn lib_capitalize() {
    assert_eq!(capitalize("call"), "Call");
    assert_eq!(capitalize(""), "");
    assert_eq!(capitalize("\u{e9}t\u{e9}"), "\u{c9}t\u{e9}");
}

#[test]
fn lib_contains_card_and_parse_usize() {
    let hand = [card(Rank::Ace, Suit::Hearts), card(Rank::King, Suit::Spades)];
    assert!(contains_card(&hand, card(Rank::King, Suit::Spades)));
    assert!(!contains_card(&hand, card(Rank::King, Suit::Hearts)));
    assert_eq!(parse_usize("42"), Some(42));
    assert_eq!(parse_usize("+7"), Some(7));
    assert_eq!(parse_usize(" 7 "), None);
    assert_eq!(parse_usize(""), None);
    assert_eq!(parse_usize("x1"), None);
}

// -- equity on a complete board --

#[test]
fn lib_complete_board_counts_are_exact() {
    let aces = [card(Rank::Ace, Suit::Hearts), card(Rank::Ace, Suit::Spades)];
    let kings = [card(Rank::King, Suit::Hearts), card(Rank::King, Suit::Diamonds)];
    let board = [
        card(Rank::Two, Suit::Clubs),
        card(Rank::Three, Suit::Diamonds),
        card(Rank::Seven, Suit::Hearts),
        card(Rank::Nine, Suit::Spades),
        card(Rank::Jack, Suit::Clubs),
    ];
    let c = equity_counts_vs_hand(&aces, &kings, Some(&board), 200);
    assert_eq!((c.wins, c.ties, c.losses), (200, 0, 0));
    let c = equity_counts_vs_hand(&kings, &aces, Some(&board), 50);
    assert_eq!((c.wins, c.ties, c.losses), (0, 0, 50));
    let other_aces = [card(Rank::Ace, Suit::Diamonds), card(Rank::Ace, Suit::Clubs)];
    let c = equity_counts_vs_hand(&aces, &other_aces, Some(&board), 30);
    assert_eq!((c.wins, c.ties, c.losses), (0, 30, 0));
    let r = equity_counts_vs_range(&aces, &strings(&["KK"]), Some(&board), 60).unwrap();
    assert_eq!((r.wins, r.ties, r.losses), (60, 0, 0));
}

// -- the interactive session: quitting at any prompt --

fn open_btn_book() -> RangeBook {
    let mut book = sample_book();
    book.six_max.rfi.push(Entry {
        key: "CO".to_string(),
        value: RfiEntry { raise_range: strings(&["AKs", "QQ"]), open_pct: 25 },
    });
    book
}

fn play(input: &str) -> (String, bool) {
    let pot = || PotView { pot_text: "6".to_string(), stack_text: "97".to_string(), low_spr: false, bluff_pct: 94 };
    let mut session = Session::new(open_btn_book());
    let (mut out, mut need) = session.start();
    let mut lines = input.split_inclusive('\n');
    let mut finished = false;
    for _ in 0..100 {
        let event = match need {
            SessionNeed::Line => match lines.next() {
                Some(l) => SessionInput::Line(l.to_string()),
                None => break,
            },
            SessionNeed::NewHandPot => SessionInput::Pot(pot()),
            SessionNeed::Equity { .. } => SessionInput::Equity(None),
            SessionNeed::PotUpdate(_) => SessionInput::Pot(pot()),
            SessionNeed::Finished => {
                finished = true;
                break;
            },
        };
        let (text, next) = session.step(event);
        out.push_str(&text);
        need = next;
    }
    (out, finished)
}

#[test]
fn lib_session_quits_at_hand_prompt() {
    let (out, finished) = play("Q\n");
    assert!(finished);
    assert!(out.contains("Good luck at the tables."));
}

#[test]
fn lib_session_quits_at_position_prompt() {
    let (out, finished) = play("AhKh\nq\n");
    assert!(finished);
    assert!(!out.contains("--- Preflop ---"));
}

#[test]
fn lib_session_quits_at_flop_prompt() {
    let (out, finished) = play("AhKh\nCO\n q \n");
    assert!(finished);
    assert!(out.contains("RAISE"));
    assert!(out.contains("Flop cards"));
    assert!(!out.contains("--- Flop ---"));
}

#[test]
fn lib_session_quits_at_action_menu() {
    let (out, finished) = play("AhKh\nCO\nKd7c2h\nQ\n");
    assert!(finished);
    assert!(out.contains("--- Flop ---"));
    assert!(out.contains("What happened?"));
    assert!(!out.contains("Turn card"));
}

#[test]
fn lib_session_plays_through_a_street() {
    let (out, finished) = play("AhKh\nCO\nKd7c2h\ncheck\nq\n");
    assert!(finished);
    assert!(out.contains("Turn card"));
}

#[test]
fn lib_top_ranges_are_nested() {
    let small = range_from_top_bp(100).unwrap();
    let medium = range_from_top_bp(1000).unwrap();
    let all = range_from_top_bp(10000).unwrap();
    assert!(small.len() <= medium.len() && medium.len() <= all.len());
    assert_eq!(&medium[..small.len()], &small[..]);
    assert_eq!(&all[..medium.len()], &medium[..]);
    assert_eq!(small[0], "AA");
}

// -- each error variant --

#[test]
fn lib_card_error_variants() {
    assert!(matches!(parse_card("Xs"), Err(GtoError::InvalidRank('X'))));
    assert!(matches!(parse_card("Ax"), Err(GtoError::InvalidSuit('x'))));
    match parse_card("Ahh") {
        Err(GtoError::InvalidCardNotation(m)) => assert_eq!(m, "Ahh"),
        _ => panic!("expected InvalidCardNotation"),
    }
    match parse_board("AsK") {
        Err(GtoError::InvalidBoardNotation(m)) => assert_eq!(m, "AsK"),
        _ => panic!("expected InvalidBoardNotation"),
    }
    match hand_combos("AKx") {
        Err(GtoError::InvalidHandNotation(m)) => assert_eq!(m, "AKx"),
        _ => panic!("expected InvalidHandNotation"),
    }
}

#[test]
fn lib_count_error_variants() {
    let four = [card(Rank::Ace, Suit::Hearts), card(Rank::King, Suit::Spades), card(Rank::Two, Suit::Clubs), card(Rank::Three, Suit::Clubs)];
    assert!(matches!(evaluate_hand(&four[..2], &four[2..]), Err(GtoError::NotEnoughCards { need: 5, got: 4 })));
    let mut deck = Deck::new(Some(&four[..]));
    assert_eq!(deck.len(), 48);
    assert!(matches!(deck.deal(49), Err(GtoError::NotEnoughDeck { requested: 49, available: 48 })));
    assert_eq!(deck.len(), 48);
    assert_eq!(deck.deal(3).unwrap().len(), 3);
    assert_eq!(deck.len(), 45);
    assert!(matches!(simplify_hand(&four[..3]), Err(GtoError::InvalidHandSize)));
    match range_from_top_bp(0) {
        Err(GtoError::InvalidValue(m)) => assert_eq!(m, "Percentage must be between 0 and 100"),
        _ => panic!("expected InvalidValue"),
    }
    assert!(matches!(range_from_top_bp(10001), Err(GtoError::InvalidValue(_))));
    let aces = [card(Rank::Ace, Suit::Spades), card(Rank::Ace, Suit::Hearts)];
    assert!(matches!(equity_counts_vs_range(&aces, &strings(&["AsAh"]), None, 100), Err(GtoError::NoValidCombos)));
}

#[test]
fn lib_shuffle_reorders_the_deck() {
    let fresh = Deck::new(None);
    let mut changed = false;
    for _ in 0..5 {
        let mut d = Deck::new(None);
        d.shuffle();
        let mut sorted = d.cards.clone();
        sorted.sort_by_key(|c| c.index());
        assert_eq!(sorted, fresh.cards);
        if d.cards != fresh.cards {
            changed = true;
        }
    }
    assert!(changed);
}

// -- documented examples: board texture and position --

#[test]
fn lib_readme_board_examples() {

    let dry = analyze_board(&parse_board("AsKd7c").unwrap()).unwrap();
    assert!(dry.is_rainbow);
    assert_eq!(dry.wetness, Wetness::Dry);
    let wet = analyze_board(&parse_board("Ts9s8d").unwrap()).unwrap();
    assert_eq!(wet.wetness, Wetness::Wet);
    assert_eq!(wet.connectedness, Connectedness::Connected);
    let two_tone = analyze_board(&parse_board("Ks7s2d").unwrap()).unwrap();
    assert_eq!(two_tone.wetness, Wetness::Medium);
}

#[test]
fn lib_in_position_follows_postflop_order() {
    assert!(Position::BTN.is_ip_vs(&Position::BB));
    assert!(Position::BTN.is_ip_vs(&Position::SB));
    assert!(Position::UTG.is_ip_vs(&Position::BB));
    assert!(!Position::BB.is_ip_vs(&Position::BTN));
    assert!(Position::BB.is_ip_vs(&Position::SB));
}

#[test]
fn lib_session_greets_and_advises() {
    let (out, _) = play("q\n");
    assert!(out.contains("GTO Play"));
    assert!(out.contains("Welcome to GTO Play!"));
    assert!(out.ends_with("Good luck at the tables.\u{1b}[0m\n\n") || out.ends_with("Good luck at the tables.\n\n"));
    let (fold, _) = play("7h2c\nUTG\nn\n");
    assert!(fold.contains("FOLD"));
    assert!(fold.contains("Hand over"));
    assert!(fold.contains("Play another hand? (y/n) [y]: "));
    let (raise, _) = play("AhKh\nco\n");
    assert!(raise.contains("RAISE"));
    assert!(raise.contains("  Flop cards: "));
}

#[test]
fn lib_top_range_combo_budget() {
    for bp in [1u32, 45, 100, 500, 1000, 2000, 5000, 10000] {
        let v = range_from_top_bp(bp).unwrap();
        assert!(!v.is_empty());
        let budget = std::cmp::max(6, (1326 * bp as u64 / 10000) as u32);
        assert!(gto_cli::ranges::total_combos(&v) <= budget, "bp {}", bp);
    }
}

// -- colouring and the grid rows --

#[test]
fn lib_styles_and_grid_rows_when_colored() {
    colored::control::set_override(true);
    assert_eq!(styled_action("raise"), "\u{1b}[1;31mraise\u{1b}[0m");
    assert_eq!(styled_action("call"), "\u{1b}[1;32mcall\u{1b}[0m");
    assert_eq!(styled_action("FOLD"), "\u{1b}[1;2mFOLD\u{1b}[0m");
    assert_eq!(styled_action("check"), "\u{1b}[1;33mcheck\u{1b}[0m");
    assert_eq!(styled_action("limp"), "\u{1b}[1mlimp\u{1b}[0m");
    let rows = gto_cli::display::range_grid_rows(&strings(&["AA", "KQo"]));
    assert_eq!(rows.len(), 13);
    assert!(rows.iter().all(|r| r.len() == 14));
    assert_eq!(rows[0][0], "\u{1b}[1mA\u{1b}[0m");
    assert_eq!(rows[0][1], "\u{1b}[1;32mAA\u{1b}[0m");
    assert_eq!(rows[0][2], "\u{1b}[2mAKs\u{1b}[0m");
    assert_eq!(rows[2][2], "\u{1b}[1;32mKQo\u{1b}[0m");
    colored::control::unset_override();
}

#[test]
fn lib_runout_outcome_is_the_showdown() {
    let aces = vec![card(Rank::Ace, Suit::Hearts), card(Rank::Ace, Suit::Spades)];
    let kings = vec![card(Rank::King, Suit::Hearts), card(Rank::King, Suit::Diamonds)];
    let flop = vec![card(Rank::Two, Suit::Clubs), card(Rank::Three, Suit::Diamonds), card(Rank::Seven, Suit::Hearts)];
    let deck = vec![card(Rank::King, Suit::Clubs), card(Rank::Nine, Suit::Spades), card(Rank::Four, Suit::Spades)];
    assert_eq!(runout_outcome(&aces, &kings, &flop, &deck), -1);
    let deck2 = vec![card(Rank::Nine, Suit::Spades), card(Rank::King, Suit::Clubs)];
    assert_eq!(runout_outcome(&aces, &kings, &flop, &deck2), -1);
    let deck3 = vec![card(Rank::Nine, Suit::Spades), card(Rank::Four, Suit::Spades)];
    assert_eq!(runout_outcome(&aces, &kings, &flop, &deck3), 1);
}

#[test]
fn lib_blocked_combos_plain_classes() {
    let hero = vec![Card::new(Rank::Ace, Suit::Spades), Card::new(Rank::King, Suit::Diamonds)];
    assert_eq!(blocked_combos("AKs", &hero).unwrap(), 2);
    assert_eq!(blocked_combos("AKo", &hero).unwrap(), 5);
    assert_eq!(blocked_combos("QJs", &hero).unwrap(), 0);
    assert!(blocked_combos("XYs", &hero).is_err());
}

#[test]
fn lib_villain_range_follows_opening_chart() {
    let book = sample_book();
    let hero = vec![card(Rank::Ace, Suit::Spades), card(Rank::King, Suit::Spades)];
    let vs_rfi = estimate_villain_range(&book, "vs_RFI", "CO", Some("UTG"), &hero, "6max");
    assert_eq!(vs_rfi, strings(&["AA", "KK", "AKs"]));
    let bb = estimate_villain_range(&book, "bb_defense", "BB", Some("BTN"), &hero, "6max");
    assert_eq!(bb, strings(&["AA", "KK", "KQo", "T9s"]));
}

#[test]
fn lib_villain_range_falls_back_to_top_ranges() {
    let book = sample_book();
    let hero = vec![card(Rank::Two, Suit::Hearts), card(Rank::Three, Suit::Spades)];
    let top20 = range_from_top_bp(2000).unwrap();
    let top25 = range_from_top_bp(2500).unwrap();
    let top7 = range_from_top_bp(700).unwrap();
    // No chart for the villain's seat: the top 20% (vs_RFI) or 25% (bb_defense).
    assert_eq!(estimate_villain_range(&book, "vs_RFI", "BTN", Some("CO"), &hero, "6max"), top20);
    assert_eq!(estimate_villain_range(&book, "bb_defense", "BB", Some("HJ"), &hero, "6max"), top25);
    assert_eq!(estimate_villain_range(&book, "vs_RFI", "BTN", None, &hero, "6max"), top20);
    // The other situations do not read the charts.
    assert_eq!(estimate_villain_range(&book, "RFI", "BTN", Some("UTG"), &hero, "6max"), top20);
    assert_eq!(estimate_villain_range(&book, "vs_3bet", "BTN", Some("UTG"), &hero, "6max"), top7);
    assert_eq!(estimate_villain_range(&book, "unknown", "BTN", Some("UTG"), &hero, "6max"), top20);
    assert!(top7.len() < top20.len());
    // The 9-max table has no charts here, so it falls back too.
    assert_eq!(estimate_villain_range(&book, "vs_RFI", "CO", Some("UTG"), &hero, "9max"), top20);
}

fn play_needs(input: &str) -> Vec<String> {
    let pot = || PotView { pot_text: "6".to_string(), stack_text: "97".to_string(), low_spr: false, bluff_pct: 94 };
    let mut session = Session::new(open_btn_book());
    let (_, mut need) = session.start();
    let mut lines = input.split_inclusive('\n');
    let mut seen = Vec::new();
    for _ in 0..100 {
        let event = match &need {
            SessionNeed::Line => match lines.next() {
                Some(l) => SessionInput::Line(l.to_string()),
                None => break,
            },
            SessionNeed::NewHandPot => SessionInput::Pot(pot()),
            SessionNeed::Equity { board, .. } => {
                seen.push(format!("equity {}", board.len()));
                SessionInput::Equity(None)
            },
            SessionNeed::PotUpdate(a) => {
                seen.push(format!("pot {:?}", a));
                SessionInput::Pot(pot())
            },
            SessionNeed::Finished => {
                seen.push("finished".to_string());
                break;
            },
        };
        let (_, next) = session.step(event);
        need = next;
    }
    seen
}

#[test]
fn lib_session_reported_actions_update_the_pot() {
    assert_eq!(play_needs("AhKh\nCO\nKd7c2h\n1\nq\n"), vec!["equity 3", "pot Bet", "finished"]);
    assert_eq!(play_needs("AhKh\nCO\nKd7c2h\nraise\nq\n"), vec!["equity 3", "pot Bet", "finished"]);
    assert_eq!(play_needs("AhKh\nCO\nKd7c2h\ncall\nq\n"), vec!["equity 3", "pot Call", "finished"]);
    assert_eq!(play_needs("AhKh\nCO\nKd7c2h\n5\nq\n"), vec!["equity 3", "pot AllIn", "finished"]);
    // Check and fold leave the pot and move on to the turn.
    assert_eq!(play_needs("AhKh\nCO\nKd7c2h\n2\n9s\nq\n"), vec!["equity 3", "equity 4", "finished"]);
    assert_eq!(play_needs("AhKh\nCO\nKd7c2h\nfold\n9s\nq\n"), vec!["equity 3", "equity 4", "finished"]);
}

#[test]
fn lib_session_takes_only_a_fitting_board() {
    // Wrong count, a card already in play and bad notation are asked again.
    assert_eq!(play_needs("AhKh\nCO\nKd7c\nAh7c2d\nzz\nKd7c2h\nq\n"), vec!["equity 3", "finished"]);
    assert_eq!(play_needs("AhKh\nCO\nKd7c\nq\n"), vec!["finished"]);
    // A turn card already on the board is refused, a fresh one is taken.
    assert_eq!(play_needs("AhKh\nCO\nKd7c2h\n2\nKd\n9s\nq\n"), vec!["equity 3", "equity 4", "finished"]);
}

#[test]
fn lib_compatible_partners_skip_shared_cards() {
    let oop = [(0u8, 1u8), (2, 3)];
    let ip = [(1u8, 4u8), (5, 6), (3, 0), (7, 8)];
    let r = compatible_partners(&oop, &ip);
    assert_eq!(r, vec![vec![1u16, 3], vec![0u16, 1, 3]]);
    assert!(compatible_partners(&[], &ip).is_empty());
    assert_eq!(compatible_partners(&oop, &[]), vec![Vec::<u16>::new(), Vec::new()]);
}

#[test]
fn lib_no_five_cards_beat_the_evaluated_hand() {
    let hole = [card(Rank::Seven, Suit::Hearts), card(Rank::Eight, Suit::Hearts)];
    let board = [
        card(Rank::Six, Suit::Hearts),
        card(Rank::Five, Suit::Hearts),
        card(Rank::Four, Suit::Hearts),
        card(Rank::Ace, Suit::Clubs),
        card(Rank::King, Suit::Diamonds),
    ];
    let best = evaluate_hand(&hole, &board).unwrap();
    let all: Vec<Card> = hole.iter().chain(board.iter()).copied().collect();
    let mut seen = 0;
    for a in 0..7 {
        for b in a + 1..7 {
            let five: Vec<Card> = (0..7).filter(|&i| i != a && i != b).map(|i| all[i]).collect();
            let h = evaluate_hand(&five, &[]).unwrap();
            assert!((h.rank, h.kickers.clone()) <= (best.rank, best.kickers.clone()));
            seen += 1;
        }
    }
    assert_eq!(seen, 21);
}
