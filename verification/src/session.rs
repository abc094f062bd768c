//! The interactive advisor as a state machine. It is fed what the user typed
//! and the results of the work done around it (the pot arithmetic and the
//! equity simulation), and answers each time with the text to show and what
//! it needs next.

use vstd::prelude::*;
use vstd::string::{StringExecFns};
use crate::cards::{Card, simplify_hand, contains_card, board_overruns, hand_class_text};
use crate::display::{bold, dimmed, paint, paint_bold, styled_action, board_display, Hue, shows_text};
use crate::hand_evaluator::{evaluate_hand, HandCategory, pick, five_combos, best_index, eval5, category_of, hand_key};
use crate::play::{strength_of, classify_hand_strength, estimate_villain_range, parse_hole_cards, parse_board_input,
    capitalize, EquityBand, rfi_hands_defined, input_clean, hole_cards_of, villain_range_of, board_input_of};
use crate::postflop::{analyze_board, street_strategy, street_spec, wetness_of, is_ip_label};
use crate::preflop::{RangeBook, RangeData, preflop_action, positions_for, rfi_range_of};
use crate::preflop_solver::{Position, position_named};
use crate::ranges::string_views;
use crate::strategy::{default_villain, villain_for};
use crate::text::{all_ascii, lower_seq, str_eq, chars_of, trim_chars, remove_char, string_of, trim, to_lowercase, lowercase_of,
    to_uppercase, push_decimal, parse_usize, starts_with, utf8_len_equals, char_byte_len, utf8_len,
    push_char, clone_strings, dec_text, digit_char, usize_text_value, lists_text};

verus! {

/// The pot as the outside arithmetic last left it: its display texts, whether
/// the stack-to-pot ratio is at most 4, and the fold equity a bluff needs.
pub struct PotView {
    pub pot_text: String,
    pub stack_text: String,
    pub low_spr: bool,
    pub bluff_pct: u32,
}

/// A pot change reported after a street.
#[derive(Debug, Clone, Copy, PartialEq, Eq, Structural)]
pub enum PotAction {
    Bet,
    Call,
    AllIn,
}

/// What the session is fed.
pub enum SessionInput {
    /// A line the user typed.
    Line(String),
    /// The input ended (or could not be read).
    EndOfInput,
    /// The hero's equity band and its bar, or `None` when it could not be estimated.
    Equity(Option<(EquityBand, String)>),
    /// The pot after a reset or an update.
    Pot(PotView),
    /// The user quit while the pot was being updated.
    Quit,
}

/// What the session needs next.
pub enum SessionNeed {
    /// A line of input.
    Line,
    /// The hero's equity against the villain's range on the board.
    Equity { hole: Vec<Card>, board: Vec<Card>, villain_range: Vec<String> },
    /// The pot of a fresh hand (6bb, 97bb behind).
    NewHandPot,
    /// The pot after the given action (amounts are asked for outside).
    PotUpdate(PotAction),
    /// Nothing: the session is over.
    Finished,
}

/// Where the session stands.
#[derive(Debug, Clone, Copy, PartialEq, Eq, Structural)]
pub enum Phase {
    Start,
    AwaitHandPot,
    AskHand,
    AskPosition,
    AskStreet(usize),
    AwaitEquity(usize),
    AskWhatHappened(usize),
    AwaitPot(usize),
    AskAnother,
    Done,
}

pub struct Session {
    book: RangeBook,
    phase: Phase,
    hole: Vec<Card>,
    board: Vec<Card>,
    hand_name: String,
    hero_pos: String,
    villain_pos: String,
    hero_ip: bool,
    pot: PotView,
}

/// Number of board cards before and after street `k` (flop, turn, river).
pub open spec fn board_before(k: int) -> int {
    if k == 0 { 0 } else if k == 1 { 3 } else { 4 }
}

pub open spec fn board_after(k: int) -> int {
    if k == 0 { 3 } else if k == 1 { 4 } else { 5 }
}

/// The answer a prompt takes from a typed line: the trimmed line, or the
/// default when it is blank.
pub open spec fn answer_of(line: Seq<char>, default: Seq<char>) -> Seq<char> {
    if trim(line).len() == 0 { default } else { trim(line) }
}

/// The answer that quits.
pub open spec fn is_quit(a: Seq<char>) -> bool {
    lowercase_of(a) == "q"@
}

/// Whether an input quits a prompt with the given default: the input ended
/// (or is not a typed line), or the answer typed is "q" in either case.
pub open spec fn quits_prompt(input: SessionInput, default: Seq<char>) -> bool {
    match input {
        SessionInput::Line(l) => is_quit(answer_of(l@, default)),
        _ => true,
    }
}

/// The default answer of the prompt a phase shows, for the phases that read
/// a typed line.
pub open spec fn prompt_default(p: Phase) -> Option<Seq<char>> {
    match p {
        Phase::AskHand => Some(""@),
        Phase::AskPosition => Some("4"@),
        Phase::AskStreet(_) => Some(""@),
        Phase::AskWhatHappened(_) => Some("1"@),
        Phase::AskAnother => Some("y"@),
        _ => None,
    }
}

/// Whether the input is what a phase that waits on outside work awaits.
pub open spec fn awaited(p: Phase, input: SessionInput) -> bool {
    match p {
        Phase::AwaitHandPot => input is Pot,
        Phase::AwaitEquity(_) => input is Equity,
        Phase::AwaitPot(_) => input is Pot,
        _ => true,
    }
}

impl Session {
    pub closed spec fn phase_of(&self) -> Phase {
        self.phase
    }

    pub closed spec fn hole_of(&self) -> Seq<Card> {
        self.hole@
    }

    pub closed spec fn board_of(&self) -> Seq<Card> {
        self.board@
    }

    pub closed spec fn charts(&self) -> RangeData {
        self.book.six_max
    }

    /// The hero's seat for the hand in play.
    pub closed spec fn hero_pos_of(&self) -> Seq<char> {
        self.hero_pos@
    }

    /// The villain's seat for the hand in play.
    pub closed spec fn villain_pos_of(&self) -> Seq<char> {
        self.villain_pos@
    }

    /// Whether the hero is in position against the villain.
    pub closed spec fn hero_ip_of(&self) -> bool {
        self.hero_ip
    }

    /// Whether the pot's stack-to-pot ratio is at most 4, as last reported.
    pub closed spec fn low_spr_of(&self) -> bool {
        self.pot.low_spr
    }

    /// The fold equity a bluff needs (percent), as last reported.
    pub closed spec fn bluff_pct_of(&self) -> u32 {
        self.pot.bluff_pct
    }

    /// The session's invariant: the charts expand to combos, and the cards
    /// held match the phase.
    pub closed spec fn wf(&self) -> bool {
        &&& rfi_hands_defined(self.book.six_max)
        &&& match self.phase {
            Phase::AskPosition => self.hole@.len() == 2 && self.hand_name@ == hand_class_text(self.hole@[0], self.hole@[1]),
            Phase::AskStreet(k) => k < 3 && self.hole@.len() == 2 && self.board@.len() == board_before(k as int),
            Phase::AwaitEquity(k) => k < 3 && self.hole@.len() == 2 && self.board@.len() == board_after(k as int),
            Phase::AskWhatHappened(k) => k < 3 && self.hole@.len() == 2 && self.board@.len() == board_after(k as int),
            Phase::AwaitPot(k) => k < 3 && self.hole@.len() == 2 && self.board@.len() == board_after(k as int),
            _ => true,
        }
    }

    /// A session over the given charts, before its greeting.
    pub fn new(book: RangeBook) -> (s: Session)
        requires
            rfi_hands_defined(book.six_max),
        ensures
            s.wf(),
            s.phase_of() == Phase::Start,
            s.charts() == book.six_max,
    {
        Session {
            book,
            phase: Phase::Start,
            hole: Vec::new(),
            board: Vec::new(),
            hand_name: String::new(),
            hero_pos: String::new(),
            villain_pos: String::new(),
            hero_ip: false,
            pot: PotView { pot_text: String::new(), stack_text: String::new(), low_spr: false, bluff_pct: 0 },
        }
    }
}

// ---------------------------------------------------------------------------
// Prompts
// ---------------------------------------------------------------------------

fn prompt_text(message: &str, default: Option<&str>) -> (r: String)
    ensures
        r@ == match default {
            Some(d) => message@ + " ["@ + d@ + "]: "@,
            None => message@ + ": "@,
        },
{
    let mut r = String::from_str(message);
    match default {
        Some(d) => {
            r.append(" [");
            r.append(d);
            r.append("]: ");
        },
        None => {
            r.append(": ");
        },
    }
    r
}

/// The answer to a prompt: "q" at the end of input, else the trimmed line or the default.
fn answer(input: &SessionInput, default: &str) -> (r: String)
    ensures
        match input {
            SessionInput::Line(l) => r@ == answer_of(l@, default@),
            _ => r@ == "q"@,
        },
{
    match input {
        SessionInput::Line(l) => {
            let v = chars_of(l.as_str());
            let t = trim_chars(&v);
            if t.len() == 0 {
                String::from_str(default)
            } else {
                string_of(&t)
            }
        },
        _ => String::from_str("q"),
    }
}

fn quits(a: &str) -> (b: bool)
    ensures
        b == is_quit(a@),
        a@ == "q"@ ==> b,
        all_ascii(a@) && a@.len() != 1 ==> !b,
{
    let low = to_lowercase(a);
    proof {
        reveal_strlit("q");
        if all_ascii(a@) && a@.len() != 1 {
            assert(low@.len() != "q"@.len());
        }
        if a@ == "q"@ {
            assert(all_ascii(a@));
            assert(lower_seq(a@) =~= "q"@);
        }
    }
    str_eq(low.as_str(), "q")
}

/// The marker after a menu option: " <" on the default one.
pub open spec fn menu_marker(is_default: bool) -> Seq<char> {
    if is_default { " <"@ } else { ""@ }
}

/// The option lines of a menu, each shown as its number and a dot (`nums`),
/// the option, and its marker as shown (`marks`).
pub open spec fn menu_lines(options: Seq<Seq<char>>, nums: Seq<Seq<char>>, marks: Seq<Seq<char>>) -> Seq<char>
    decreases options.len(),
{
    if options.len() == 0 {
        Seq::empty()
    } else {
        let k = options.len() - 1;
        menu_lines(options.drop_last(), nums, marks) + "    "@ + nums[k] + "  "@ + options[k] + marks[k] + "\n"@
    }
}

/// The texts of the options.
pub open spec fn str_views(options: Seq<&'static str>) -> Seq<Seq<char>> {
    options.map_values(|o: &'static str| o@)
}

/// `r` shows a menu: the title (shown as `t`), one line per option, then the
/// prompt for a number with the default's number.
pub open spec fn menu_shown(
    r: Seq<char>, title: Seq<char>, options: Seq<Seq<char>>, default_idx: int,
    t: Seq<char>, nums: Seq<Seq<char>>, marks: Seq<Seq<char>>,
) -> bool {
    &&& nums.len() == options.len() && marks.len() == options.len()
    &&& !title.contains('\u{1b}') ==> shows_text(t, title)
    &&& forall|i: int| 0 <= i < options.len() ==>
        shows_text(#[trigger] nums[i], dec_text((i + 1) as nat) + "."@)
        && shows_text(marks[i], menu_marker(i == default_idx))
    &&& r == "\n  "@ + t + "\n"@ + menu_lines(options, nums, marks)
        + "  Enter a number ["@ + dec_text((default_idx + 1) as nat) + "]: "@
}

proof fn lemma_dec_text_digits(n: nat)
    ensures
        forall|i: int| 0 <= i < dec_text(n).len() ==> (#[trigger] dec_text(n)[i]) != '\u{1b}',
    decreases n,
{
    if n >= 10 {
        lemma_dec_text_digits(n / 10);
        let d = (n % 10) as int;
        assert(digit_char(d) != '\u{1b}') by {
            assert(0 <= d < 10);
        }
        assert forall|i: int| 0 <= i < dec_text(n).len() implies (#[trigger] dec_text(n)[i]) != '\u{1b}' by {
            if i < dec_text(n / 10).len() {
                assert(dec_text(n)[i] == dec_text(n / 10)[i]);
            }
        }
    } else {
        assert(digit_char(n as int) != '\u{1b}');
    }
}

proof fn lemma_no_escape_number(n: nat)
    ensures
        !(dec_text(n) + "."@).contains('\u{1b}'),
{
    lemma_dec_text_digits(n);
    reveal_strlit(".");
    if (dec_text(n) + "."@).contains('\u{1b}') {
        let k = choose|k: int| 0 <= k < (dec_text(n) + "."@).len() && (dec_text(n) + "."@)[k] == '\u{1b}';
        if k < dec_text(n).len() {
            assert(dec_text(n)[k] == (dec_text(n) + "."@)[k]);
        }
    }
}

proof fn lemma_no_escape_marker(b: bool)
    ensures
        !menu_marker(b).contains('\u{1b}'),
{
    reveal_strlit(" <");
    reveal_strlit("");
    if menu_marker(b).contains('\u{1b}') {
        let k = choose|k: int| 0 <= k < menu_marker(b).len() && menu_marker(b)[k] == '\u{1b}';
    }
}

/// A numbered menu: the title in bold, one line per option with its number
/// and a marker on the default, then the prompt for a number with the
/// default's number.
fn menu_text(title: &str, options: &Vec<&'static str>, default_idx: usize) -> (r: String)
    requires
        default_idx < options@.len() < 100,
    ensures
        exists|t: Seq<char>, nums: Seq<Seq<char>>, marks: Seq<Seq<char>>|
            #[trigger] menu_shown(r@, title@, str_views(options@), default_idx as int, t, nums, marks),
{
    let mut r = String::from_str("\n  ");
    let tb = bold(title);
    r.append(tb.as_str());
    r.append("\n");
    let ghost head = r@;
    let ghost mut nums: Seq<Seq<char>> = Seq::empty();
    let ghost mut marks: Seq<Seq<char>> = Seq::empty();
    let ghost opts = str_views(options@);
    let mut i: usize = 0;
    while i < options.len()
        invariant
            i <= options@.len() < 100,
            default_idx < options@.len(),
            opts == str_views(options@),
            nums.len() == i,
            marks.len() == i,
            forall|k: int| 0 <= k < i ==>
                shows_text(#[trigger] nums[k], dec_text((k + 1) as nat) + "."@)
                && shows_text(marks[k], menu_marker(k == default_idx)),
            r@ == head + menu_lines(opts.subrange(0, i as int), nums, marks),
        decreases options@.len() - i,
    {
        let mut num = String::new();
        push_decimal(&mut num, (i + 1) as u32);
        num.append(".");
        proof {
            lemma_no_escape_number((i + 1) as nat);
            reveal_strlit(".");
            assert(num@ == dec_text((i + 1) as nat) + "."@);
        }
        let nb = bold(num.as_str());
        r.append("    ");
        r.append(nb.as_str());
        r.append("  ");
        r.append(options[i]);
        let marker = if i == default_idx { " <" } else { "" };
        proof {
            lemma_no_escape_marker(i == default_idx);
            assert(marker@ == menu_marker(i == default_idx));
        }
        let mb = dimmed(marker);
        r.append(mb.as_str());
        r.append("\n");
        proof {
            let old_nums = nums;
            let old_marks = marks;
            assert(shows_text(nb@, dec_text((i + 1) as nat) + "."@));
            assert(shows_text(mb@, menu_marker(i == default_idx)));
            nums = nums.push(nb@);
            marks = marks.push(mb@);
            assert forall|k: int| 0 <= k < i + 1 implies
                shows_text(#[trigger] nums[k], dec_text((k + 1) as nat) + "."@)
                && shows_text(marks[k], menu_marker(k == default_idx)) by {
                if k < i {
                    assert(nums[k] == old_nums[k]);
                    assert(marks[k] == old_marks[k]);
                }
            }
            let sub = opts.subrange(0, i + 1);
            assert(sub.drop_last() =~= opts.subrange(0, i as int));
            assert(sub[i as int] == options@[i as int]@);
            lemma_menu_lines_extend(sub.drop_last(), old_nums, old_marks, nb@, mb@);
            assert(menu_lines(sub.drop_last(), nums, marks) == menu_lines(sub.drop_last(), old_nums, old_marks));
            assert(r@ =~= head + menu_lines(sub, nums, marks));
        }
        i = i + 1;
    }
    let mut d = String::new();
    push_decimal(&mut d, (default_idx + 1) as u32);
    let p = prompt_text("  Enter a number", Some(d.as_str()));
    r.append(p.as_str());
    proof {
        reveal_strlit("  Enter a number");
        reveal_strlit(" [");
        reveal_strlit("]: ");
        reveal_strlit("  Enter a number [");
        assert(opts.subrange(0, options@.len() as int) =~= opts);
        assert(r@ =~= "\n  "@ + tb@ + "\n"@ + menu_lines(opts, nums, marks)
            + "  Enter a number ["@ + dec_text((default_idx + 1) as nat) + "]: "@);        assert(menu_shown(r@, title@, opts, default_idx as int, tb@, nums, marks));
    }
    r
}

/// Adding entries past the end of the pieces leaves the lines unchanged.
proof fn lemma_menu_lines_extend(options: Seq<Seq<char>>, nums: Seq<Seq<char>>, marks: Seq<Seq<char>>, n: Seq<char>, m: Seq<char>)
    requires
        nums.len() >= options.len(),
        marks.len() >= options.len(),
    ensures
        menu_lines(options, nums.push(n), marks.push(m)) == menu_lines(options, nums, marks),
    decreases options.len(),
{
    if options.len() > 0 {
        lemma_menu_lines_extend(options.drop_last(), nums, marks, n, m);
        let k = options.len() - 1;
        assert(nums.push(n)[k] == nums[k]);
        assert(marks.push(m)[k] == marks[k]);
    }
}

/// Whether a menu option matches an answer: equal to it, or starting with it,
/// both lower-cased.
pub open spec fn option_matches(o: Seq<char>, ans: Seq<char>) -> bool {
    let lo = lowercase_of(o);
    let la = lowercase_of(ans);
    lo == la || (la.len() <= lo.len() && lo.subrange(0, la.len() as int) == la)
}

/// Index of the first option from `i` on that matches the answer (the number
/// of options if none does).
pub open spec fn first_match(options: Seq<Seq<char>>, ans: Seq<char>, i: int) -> int
    decreases options.len() - i,
{
    if i >= options.len() {
        options.len() as int
    } else if option_matches(options[i], ans) {
        i
    } else {
        first_match(options, ans, i + 1)
    }
}

proof fn lemma_first_match_range(options: Seq<Seq<char>>, ans: Seq<char>, i: int)
    requires
        0 <= i <= options.len(),
    ensures
        i <= first_match(options, ans, i) <= options.len(),
        first_match(options, ans, i) < options.len() ==> option_matches(options[first_match(options, ans, i)], ans),
    decreases options.len() - i,
{
    if i < options.len() && !option_matches(options[i], ans) {
        lemma_first_match_range(options, ans, i + 1);
    }
}

/// The option a menu answer picks: "q" to quit, else the first option equal to
/// or starting with the answer (case-insensitively), else the option of that
/// number, else the default.
pub open spec fn menu_pick(ans: Seq<char>, options: Seq<Seq<char>>, default_idx: int) -> Seq<char> {
    if is_quit(ans) {
        "q"@
    } else if first_match(options, ans, 0) < options.len() {
        options[first_match(options, ans, 0)]
    } else {
        match usize_text_value(ans) {
            Some(n) => if 1 <= n <= options.len() { options[n - 1] } else { options[default_idx] },
            None => options[default_idx],
        }
    }
}

proof fn lemma_menu_pick_option(ans: Seq<char>, options: Seq<Seq<char>>, default_idx: int)
    requires
        0 <= default_idx < options.len(),
        !is_quit(ans),
    ensures
        options.contains(menu_pick(ans, options, default_idx)),
{
    lemma_first_match_range(options, ans, 0);
    let p = menu_pick(ans, options, default_idx);
    let i = first_match(options, ans, 0);
    if i < options.len() {
        assert(options[i] == p);
    } else {
        match usize_text_value(ans) {
            Some(n) => {
                if 1 <= n <= options.len() {
                    assert(options[n - 1] == p);
                } else {
                    assert(options[default_idx] == p);
                }
            },
            None => {
                assert(options[default_idx] == p);
            },
        }
    }
}

/// The option a menu answer picks: "q" to quit, an option equal to or starting
/// with the answer (case-insensitively), the option of that number, or the default.
fn menu_choice(ans: &str, options: &Vec<&'static str>, default_idx: usize) -> (r: String)
    requires
        default_idx < options@.len(),
    ensures
        r@ == menu_pick(ans@, str_views(options@), default_idx as int),
        ans@ == "q"@ ==> r@ == "q"@,
{
    let ghost opts = str_views(options@);
    if quits(ans) {
        return String::from_str("q");
    }
    let lower = to_lowercase(ans);
    let mut i: usize = 0;
    while i < options.len()
        invariant
            i <= options@.len(),
            default_idx < options@.len(),
            opts == str_views(options@),
            !is_quit(ans@),
            ans@ != "q"@,
            lower@ == lowercase_of(ans@),
            first_match(opts, ans@, 0) == first_match(opts, ans@, i as int),
        decreases options@.len() - i,
    {
        let o = to_lowercase(options[i]);
        assert(opts[i as int] == options@[i as int]@);
        if str_eq(o.as_str(), lower.as_str()) || starts_with(o.as_str(), lower.as_str()) {
            let r = String::from_str(options[i]);
            assert(option_matches(opts[i as int], ans@));
            return r;
        }
        assert(!option_matches(opts[i as int], ans@));
        i = i + 1;
    }
    assert(first_match(opts, ans@, i as int) == opts.len());
    match parse_usize(ans) {
        Some(n) => {
            assert(usize_text_value(ans@) == Some(n as int));
            assert(opts.len() == options@.len());
            if n >= 1 && n <= options.len() {
                let r = String::from_str(options[n - 1]);
                assert(r@ == opts[n - 1]);
                return r;
            }
        },
        None => {},
    }
    let r = String::from_str(options[default_idx]);
    assert(r@ == opts[default_idx as int]);
    r
}

/// The seat a position answer picks from the 6-max seats (the button by default).
pub open spec fn seat_pick(a: Seq<char>) -> Seq<char> {
    menu_pick(a, crate::preflop::seats_6max(), 3)
}

/// Whether the opening chart of a seat holds a hand.
pub open spec fn opens(d: RangeData, seat: Seq<char>, hand: Seq<char>) -> bool {
    lists_text(rfi_range_of(d, seat), hand)
}

pub open spec fn preflop_tip() -> Seq<char> {
    "Tip: run `gto solve preflop` for solver-backed advice"@
}

pub open spec fn another_prompt() -> Seq<char> {
    "\nPlay another hand? (y/n) [y]: "@
}

/// The preflop advice with its pieces as shown: heading `h`, action `t`, tip
/// `tip` and, on a fold, the hand-over note `over`.
pub open spec fn preflop_text(h: Seq<char>, t: Seq<char>, tip: Seq<char>, over: Seq<char>, fold: bool) -> Seq<char> {
    let head = "\n"@ + h + "\n"@ + "  \u{2192} "@ + t + "\n  "@ + tip + "\n"@;
    if fold {
        head + "\n  "@ + over + "\n"@ + another_prompt()
    } else {
        head + "  Flop cards: "@
    }
}

/// `r` shows the preflop advice: the "--- Preflop ---" heading, the action,
/// the tip, then either the hand-over note and the question for another hand
/// (on a fold) or the prompt for the flop.
pub open spec fn preflop_shown(r: Seq<char>, action: Seq<char>, fold: bool) -> bool {
    exists|h: Seq<char>, t: Seq<char>, tip: Seq<char>, over: Seq<char>|
        shows_text(h, "--- Preflop ---"@) && shows_text(t, action) && shows_text(tip, preflop_tip())
        && (fold ==> shows_text(over, "Hand over \u{2014} fold preflop."@))
        && r == #[trigger] preflop_text(h, t, tip, over, fold)
}

/// Each 6-max seat is upper-case ASCII and names its position.
proof fn lemma_six_max_seat(s: Seq<char>)
    requires
        crate::preflop::seats_6max().contains(s),
    ensures
        all_ascii(s),
        s.len() >= 2,
        crate::text::upper_seq(s) == s,
        position_named(s) is Some,
        (position_named(s)->0).name() == s,
{
    let k = choose|k: int| 0 <= k < 6 && crate::preflop::seats_6max()[k] == s;
    let p = if k == 0 { Position::UTG } else if k == 1 { Position::HJ } else if k == 2 { Position::CO }
        else if k == 3 { Position::BTN } else if k == 4 { Position::SB } else { Position::BB };
    assert(p.name() == s);
    reveal_strlit("UTG");
    reveal_strlit("HJ");
    reveal_strlit("CO");
    reveal_strlit("BTN");
    reveal_strlit("SB");
    reveal_strlit("BB");
    crate::preflop_solver::law_position_name_roundtrip(p);
}

proof fn lemma_plain(s: Seq<char>)
    requires
        forall|i: int| 0 <= i < s.len() ==> s[i] != '\u{1b}',
    ensures
        !s.contains('\u{1b}'),
{
}

proof fn lemma_plain_advice_literals()
    ensures
        !"--- Preflop ---"@.contains('\u{1b}'),
        !preflop_tip().contains('\u{1b}'),
        !"Hand over \u{2014} fold preflop."@.contains('\u{1b}'),
        !"RAISE"@.contains('\u{1b}'),
        !"FOLD"@.contains('\u{1b}'),
{
    reveal_strlit("--- Preflop ---");
    reveal_strlit("Tip: run `gto solve preflop` for solver-backed advice");
    reveal_strlit("Hand over \u{2014} fold preflop.");
    reveal_strlit("RAISE");
    reveal_strlit("FOLD");
    lemma_plain("--- Preflop ---"@);
    lemma_plain(preflop_tip());
    lemma_plain("Hand over \u{2014} fold preflop."@);
    lemma_plain("RAISE"@);
    lemma_plain("FOLD"@);
}

/// The equity result an input carries (`None` for any other input).
pub open spec fn equity_of(input: SessionInput) -> Option<(EquityBand, String)> {
    match input {
        SessionInput::Equity(e) => e,
        _ => None,
    }
}

/// The equity band a street's advice uses: the one reported, or the middle
/// band when none could be estimated.
pub open spec fn reported_band(e: Option<(EquityBand, String)>) -> EquityBand {
    match e {
        Some((b, _)) => b,
        None => EquityBand::From35,
    }
}

/// The equity line shown before a street's advice.
pub open spec fn equity_line(e: Option<(EquityBand, String)>) -> Seq<char> {
    match e {
        Some((_, bar)) => "  Equity: "@ + bar@ + "\n"@,
        None => ""@,
    }
}

/// The advice for street `k` (action, sizing, reasoning): the street table for
/// the hand's strength class on the board's texture, given the pot and position.
pub open spec fn street_advice(
    hole: Seq<Card>, board: Seq<Card>, band: EquityBand, low_spr: bool, bluff_pct: nat, ip: bool, k: int,
) -> (Seq<char>, Seq<char>, Seq<char>) {
    let cs = hole + board;
    let hs = strength_of(category_of(hand_key(cs).0), hand_key(cs).1, hole, board, band);
    street_spec(hs, wetness_of(board), low_spr, bluff_pct,
        is_ip_label(if ip { "IP"@ } else { "OOP"@ }), crate::text::lower_seq(street_name(k)))
}

/// `r` starts with the equity line `pre`, then shows the advice: an arrow,
/// the action (shown as `t`), the sizing, and the reasoning (shown as `rs`) on
/// the next line; `rest` follows.
pub open spec fn advice_shown(
    r: Seq<char>, pre: Seq<char>, plan: (Seq<char>, Seq<char>, Seq<char>), t: Seq<char>, rs: Seq<char>, rest: Seq<char>,
) -> bool {
    shows_text(t, plan.0) && shows_text(rs, plan.2)
        && r == pre + "  \u{2192} "@ + t + " "@ + plan.1 + "\n  "@ + rs + "\n"@ + rest
}

proof fn lemma_plain_concat(a: Seq<char>, b: Seq<char>)
    requires
        !a.contains('\u{1b}'),
        !b.contains('\u{1b}'),
    ensures
        !(a + b).contains('\u{1b}'),
{
    if (a + b).contains('\u{1b}') {
        let k = choose|k: int| 0 <= k < (a + b).len() && (a + b)[k] == '\u{1b}';
        if k < a.len() {
            assert(a[k] == (a + b)[k]);
        } else {
            assert(b[k - a.len()] == (a + b)[k]);
        }
    }
}

/// The street table's actions and reasons hold no escape character.
proof fn lemma_street_plan_plain(hs: Seq<char>, w: crate::postflop::Wetness, low_spr: bool, bluff_pct: nat, ip: bool, street: Seq<char>)
    ensures
        !street_spec(hs, w, low_spr, bluff_pct, ip, street).0.contains('\u{1b}'),
        !street_spec(hs, w, low_spr, bluff_pct, ip, street).2.contains('\u{1b}'),
{
    reveal_strlit("BET");
    reveal_strlit("CHECK/BET");
    reveal_strlit("CHECK");
    reveal_strlit("BET (semi-bluff)");
    reveal_strlit("CHECK/CALL");
    reveal_strlit("BET (bluff)");
    reveal_strlit("CHECK/FOLD");
    lemma_plain("BET"@);
    lemma_plain("CHECK/BET"@);
    lemma_plain("CHECK"@);
    lemma_plain("BET (semi-bluff)"@);
    lemma_plain("CHECK/CALL"@);
    lemma_plain("BET (bluff)"@);
    lemma_plain("CHECK/FOLD"@);
    reveal_strlit("Low SPR with strong hand \u{2014} build pot for stacks");
    reveal_strlit("Strong hand \u{2014} value bet");
    reveal_strlit("Strong hand on wet board \u{2014} protect equity");
    reveal_strlit("Strong hand \u{2014} standard value");
    reveal_strlit("Medium hand IP \u{2014} pot control or thin value");
    reveal_strlit("Medium hand OOP \u{2014} pot control");
    reveal_strlit("Draw IP \u{2014} semi-bluff for fold equity + equity");
    reveal_strlit("Draw \u{2014} realize equity cheaply");
    reveal_strlit("Bluff \u{2014} need ~");
    reveal_strlit("% fold equity to profit");
    reveal_strlit("Weak hand \u{2014} give up without equity");
    lemma_plain("Low SPR with strong hand \u{2014} build pot for stacks"@);
    lemma_plain("Strong hand \u{2014} value bet"@);
    lemma_plain("Strong hand on wet board \u{2014} protect equity"@);
    lemma_plain("Strong hand \u{2014} standard value"@);
    lemma_plain("Medium hand IP \u{2014} pot control or thin value"@);
    lemma_plain("Medium hand OOP \u{2014} pot control"@);
    lemma_plain("Draw IP \u{2014} semi-bluff for fold equity + equity"@);
    lemma_plain("Draw \u{2014} realize equity cheaply"@);
    lemma_plain("Bluff \u{2014} need ~"@);
    lemma_plain("% fold equity to profit"@);
    lemma_plain("Weak hand \u{2014} give up without equity"@);
    lemma_dec_text_digits(bluff_pct);
    lemma_plain(dec_text(bluff_pct));
    lemma_plain_concat("Bluff \u{2014} need ~"@, dec_text(bluff_pct));
    lemma_plain_concat("Bluff \u{2014} need ~"@ + dec_text(bluff_pct), "% fold equity to profit"@);
}

/// The greeting with its pieces as shown: the title `t`, the quit key `q` and
/// the cross `x`.
pub open spec fn greeting_text(t: Seq<char>, q: Seq<char>, x: Seq<char>) -> Seq<char> {
    "\n"@ + t + "\nWelcome to GTO Play!\n"@ + "Type "@ + q
        + " at any prompt to quit. Defaults: 6max, 100bb, heads-up SRP.\n\n"@ + "  "@ + x
        + " No preflop solution \u{2014} run `gto solve preflop` for solver-backed advice\n"@
}

/// `r` is the greeting: the title in bold cyan, "Welcome to GTO Play!", how to
/// quit with the key in bold, and the note that no preflop solution is loaded.
pub open spec fn is_greeting(r: Seq<char>) -> bool {
    exists|t: Seq<char>, q: Seq<char>, x: Seq<char>|
        shows_text(t, "GTO Play \u{2014} solver-backed interactive advisor"@) && shows_text(q, "'q'"@)
        && shows_text(x, "\u{2717}"@) && r == #[trigger] greeting_text(t, q, x)
}

/// `r` is the farewell with its heading shown as `t`.
pub open spec fn farewell_shown(r: Seq<char>, t: Seq<char>) -> bool {
    shows_text(t, "Good luck at the tables."@) && r == "\n"@ + t + "\n\n"@
}

/// `r` is the farewell: "Good luck at the tables." as a heading on a line of its own.
pub open spec fn is_farewell(r: Seq<char>) -> bool {
    exists|t: Seq<char>| #[trigger] farewell_shown(r, t)
}

proof fn lemma_plain_literals()
    ensures
        !"GTO Play \u{2014} solver-backed interactive advisor"@.contains('\u{1b}'),
        !"'q'"@.contains('\u{1b}'),
        !"\u{2717}"@.contains('\u{1b}'),
{
    reveal_strlit("GTO Play \u{2014} solver-backed interactive advisor");
    reveal_strlit("'q'");
    reveal_strlit("\u{2717}");
    let a = "GTO Play \u{2014} solver-backed interactive advisor"@;
    if a.contains('\u{1b}') {
        let k = choose|k: int| 0 <= k < a.len() && a[k] == '\u{1b}';
    }
    let b = "'q'"@;
    if b.contains('\u{1b}') {
        let k = choose|k: int| 0 <= k < b.len() && b[k] == '\u{1b}';
    }
    let c = "\u{2717}"@;
    if c.contains('\u{1b}') {
        let k = choose|k: int| 0 <= k < c.len() && c[k] == '\u{1b}';
    }
}

/// A heading: the text in bold cyan.
fn cyan_bold(s: &str) -> (r: String)
    ensures
        !s@.contains('\u{1b}') ==> shows_text(r@, s@),
{
    paint_bold(s, Hue::Cyan)
}

/// The farewell: "Good luck at the tables." as a heading, on a line of its own.
fn goodbye() -> (r: String)
    ensures
        is_farewell(r@),
{
    let mut out = String::from_str("\n");
    let msg = "Good luck at the tables.";
    proof {
        reveal_strlit("Good luck at the tables.");
        if msg@.contains('\u{1b}') {
            let k = choose|k: int| 0 <= k < msg@.len() && msg@[k] == '\u{1b}';
        }
    }
    let h = cyan_bold(msg);
    out.append(h.as_str());
    out.append("\n\n");
    proof {
        reveal_strlit("\n");
        reveal_strlit("\n\n");
        assert(out@ =~= "\n"@ + h@ + "\n\n"@);
        assert(farewell_shown(out@, h@));
    }
    out
}

fn another_hand_prompt() -> (r: String)
    ensures
        r@ == "\nPlay another hand? (y/n) [y]: "@,
{
    let r = prompt_text("\nPlay another hand? (y/n)", Some("y"));
    proof {
        reveal_strlit("\nPlay another hand? (y/n)");
        reveal_strlit(" [");
        reveal_strlit("y");
        reveal_strlit("]: ");
        reveal_strlit("\nPlay another hand? (y/n) [y]: ");
        assert(r@ =~= "\nPlay another hand? (y/n) [y]: "@);
    }
    r
}

/// The cards a street answer names: the board notation parsed, or `None`
/// when it is not board notation (or runs past the end of the text).
pub open spec fn street_cards(a: Seq<char>) -> Option<Seq<Card>> {
    if crate::cards::board_would_overrun(input_clean(a)) { None } else { board_input_of(a) }
}

/// None of the cards is already among the hole cards or on the board.
pub open spec fn fresh_cards(cs: Seq<Card>, hole: Seq<Card>, board: Seq<Card>) -> bool {
    forall|i: int| 0 <= i < cs.len() ==> !hole.contains(#[trigger] cs[i]) && !board.contains(cs[i])
}

proof fn lemma_fresh_extend(cs: Seq<Card>, i: int, hole: Seq<Card>, board: Seq<Card>)
    requires
        0 <= i < cs.len(),
    ensures
        fresh_cards(cs.subrange(0, i + 1), hole, board)
            == (fresh_cards(cs.subrange(0, i), hole, board) && !hole.contains(cs[i]) && !board.contains(cs[i])),
{
    let a = cs.subrange(0, i);
    let b = cs.subrange(0, i + 1);
    assert forall|j: int| 0 <= j < a.len() implies a[j] == b[j] by {}
    assert(b[i] == cs[i]);
    if fresh_cards(b, hole, board) {
        assert forall|j: int| 0 <= j < a.len() implies !hole.contains(#[trigger] a[j]) && !board.contains(a[j]) by {
            assert(a[j] == b[j]);
        }
    }
    if fresh_cards(a, hole, board) && !hole.contains(cs[i]) && !board.contains(cs[i]) {
        assert forall|j: int| 0 <= j < b.len() implies !hole.contains(#[trigger] b[j]) && !board.contains(b[j]) by {
            if j < i {
                assert(a[j] == b[j]);
            }
        }
    }
}

/// Whether a street answer deals street `k`: it names exactly the street's
/// number of new cards, none of them already in play.
pub open spec fn deals_street(a: Seq<char>, k: int, hole: Seq<Card>, board: Seq<Card>) -> bool {
    street_cards(a) matches Some(cs) && cs.len() == board_after(k) - board_before(k) && fresh_cards(cs, hole, board)
}

/// Whether `s` begins with `p`.
pub open spec fn begins_with(s: Seq<char>, p: Seq<char>) -> bool {
    p.len() <= s.len() && s.subrange(0, p.len() as int) == p
}

/// The options of the menu asked after the advice on a street.
pub open spec fn what_happened_options() -> Seq<Seq<char>> {
    seq!["Bet/Raise"@, "Check"@, "Call"@, "Fold"@, "All-in"@]
}

/// The pot change a reported villain action calls for: a bet or raise, a
/// call, or an all-in change the pot; a check, a fold or anything else
/// leaves it as it is.
pub open spec fn reported_pot_action(choice: Seq<char>) -> Option<PotAction> {
    let low = lowercase_of(choice);
    if begins_with(low, "bet"@) || begins_with(low, "raise"@) {
        Some(PotAction::Bet)
    } else if begins_with(low, "check"@) {
        None
    } else if begins_with(low, "call"@) {
        Some(PotAction::Call)
    } else if begins_with(low, "fold"@) {
        None
    } else if begins_with(low, "all"@) {
        Some(PotAction::AllIn)
    } else {
        None
    }
}

/// The name of street `k`.
pub open spec fn street_name(k: int) -> Seq<char> {
    if k == 0 { "Flop"@ } else if k == 1 { "Turn"@ } else { "River"@ }
}

/// Name, number of cards and example input of street `k`.
fn street_info(k: usize) -> (r: (&'static str, usize, &'static str))
    requires
        k < 3,
    ensures
        r.0@ == street_name(k as int),
        r.1 == board_after(k as int) - board_before(k as int),
{
    if k == 0 {
        ("Flop", 3, "Ks7d2c")
    } else if k == 1 {
        ("Turn", 1, "Jh")
    } else {
        ("River", 1, "Jh")
    }
}

/// The prompt for the cards of street `k`, such as "  Flop cards: ".
fn street_prompt(k: usize) -> (r: String)
    requires
        k < 3,
    ensures
        r@ == "  "@ + street_name(k as int) + (if k == 0 { " cards"@ } else { " card"@ }) + ": "@,
{
    let (name, n, _) = street_info(k);
    let mut m = String::from_str("  ");
    m.append(name);
    m.append(if n > 1 { " cards" } else { " card" });
    prompt_text(m.as_str(), None)
}

/// The prompt for the hole cards.
fn hand_prompt() -> (r: String)
    ensures
        r@ == "  Hand: "@,
{
    let r = prompt_text("  Hand", None);
    proof {
        reveal_strlit("  Hand");
        reveal_strlit(": ");
        reveal_strlit("  Hand: ");
        assert(r@ =~= "  Hand: "@);
    }
    r
}

/// Whether typed hole cards would be cut inside a character.
fn hole_input_splits(text: &str) -> (b: bool)
    ensures
        b == (utf8_len(input_clean(text@)) == 4 && crate::cards::four_char_split_inside(input_clean(text@))),
{
    let v = chars_of(text);
    let t0 = trim_chars(&v);
    let t = remove_char(&t0, ' ');
    if !utf8_len_equals(&t, 4) {
        return false;
    }
    if t.len() < 2 {
        proof {
            if t@.len() == 0 {
                assert(utf8_len(t@) == 0);
            } else {
                assert(t@.drop_last() =~= Seq::<char>::empty());
                reveal_with_fuel(utf8_len, 2);
            }
        }
        return char_byte_len(t[0]) >= 3;
    }
    let a = char_byte_len(t[0]);
    let b = char_byte_len(t[1]);
    a >= 3 || (a == 1 && b >= 2)
}

fn clean_string(text: &str) -> (s: String)
    ensures
        s@ == input_clean(text@),
{
    let v = chars_of(text);
    let t0 = trim_chars(&v);
    let t = remove_char(&t0, ' ');
    string_of(&t)
}

fn copy_cards(v: &Vec<Card>) -> (r: Vec<Card>)
    ensures
        r@ == v@,
{
    let mut r: Vec<Card> = Vec::new();
    let mut i: usize = 0;
    while i < v.len()
        invariant
            i <= v@.len(),
            r@ == v@.subrange(0, i as int),
        decreases v@.len() - i,
    {
        r.push(v[i]);
        i = i + 1;
        assert(r@ =~= v@.subrange(0, i as int));
    }
    assert(r@ =~= v@);
    r
}

proof fn lemma_pair_kickers(x: Seq<Card>)
    ensures
        eval5(x).0 == 1 ==> eval5(x).1.len() >= 1,
{
}

proof fn lemma_six_max_charts(b: RangeBook)
    ensures
        b.pick("6max"@) == b.six_max,
{
    reveal_strlit("6max");
    reveal_strlit("9max");
    assert("6max"@[0] != "9max"@[0]);
}

// ---------------------------------------------------------------------------
// Transitions
// ---------------------------------------------------------------------------

impl Session {
    /// The greeting, then a request for the first hand's pot.
    pub fn start(&mut self) -> (r: (String, SessionNeed))
        requires
            old(self).wf(),
            old(self).phase_of() == Phase::Start,
        ensures
            final(self).wf(),
            final(self).phase_of() == Phase::AwaitHandPot,
            r.1 is NewHandPot,
            final(self).charts() == old(self).charts(),
            is_greeting(r.0@),
    {
        let title = "GTO Play \u{2014} solver-backed interactive advisor";
        let quit_key = "'q'";
        let cross = "\u{2717}";
        proof {
            lemma_plain_literals();
        }
        let t = cyan_bold(title);
        let q = bold(quit_key);
        let x = paint(cross, Hue::Yellow);
        let mut out = String::from_str("\n");
        out.append(t.as_str());
        out.append("\nWelcome to GTO Play!\n");
        out.append("Type ");
        out.append(q.as_str());
        out.append(" at any prompt to quit. Defaults: 6max, 100bb, heads-up SRP.\n\n");
        out.append("  ");
        out.append(x.as_str());
        out.append(" No preflop solution \u{2014} run `gto solve preflop` for solver-backed advice\n");
        proof {
            assert(out@ =~= greeting_text(t@, q@, x@));
        }
        self.phase = Phase::AwaitHandPot;
        (out, SessionNeed::NewHandPot)
    }

    fn quit(&mut self) -> (r: (String, SessionNeed))
        requires
            old(self).wf(),
        ensures
            is_farewell(r.0@),
            final(self).wf(),
            final(self).phase_of() == Phase::Done,
            r.1 is Finished,
            final(self).charts() == old(self).charts(),
            final(self).hole_of() == old(self).hole_of(),
            final(self).board_of() == old(self).board_of(),
            final(self).hero_pos_of() == old(self).hero_pos_of(),
            final(self).villain_pos_of() == old(self).villain_pos_of(),
            final(self).hero_ip_of() == old(self).hero_ip_of(),
            final(self).low_spr_of() == old(self).low_spr_of(),
            final(self).bluff_pct_of() == old(self).bluff_pct_of(),
    {
        self.phase = Phase::Done;
        (goodbye(), SessionNeed::Finished)
    }

    fn ask_another(&mut self, mut out: String) -> (r: (String, SessionNeed))
        requires
            old(self).wf(),
        ensures
            final(self).wf(),
            final(self).phase_of() == Phase::AskAnother,
            r.1 is Line,
            r.0@ == out@ + another_prompt(),
            final(self).charts() == old(self).charts(),
            final(self).hole_of() == old(self).hole_of(),
            final(self).board_of() == old(self).board_of(),
            final(self).hero_pos_of() == old(self).hero_pos_of(),
            final(self).villain_pos_of() == old(self).villain_pos_of(),
            final(self).hero_ip_of() == old(self).hero_ip_of(),
            final(self).low_spr_of() == old(self).low_spr_of(),
            final(self).bluff_pct_of() == old(self).bluff_pct_of(),
    {
        out.append(another_hand_prompt().as_str());
        self.phase = Phase::AskAnother;
        (out, SessionNeed::Line)
    }

    /// Moves past street `k`: the next street's prompt, or the end of the hand.
    fn advance(&mut self, k: usize, mut out: String) -> (r: (String, SessionNeed))
        requires
            old(self).wf(),
            k < 3,
            old(self).hole@.len() == 2,
            old(self).board@.len() == board_after(k as int),
        ensures
            final(self).wf(),
            k < 2 ==> final(self).phase_of() == Phase::AskStreet((k + 1) as usize),
            k == 2 ==> final(self).phase_of() == Phase::AskAnother,
            r.1 is Line,
            final(self).charts() == old(self).charts(),
            final(self).hole_of() == old(self).hole_of(),
            final(self).board_of() == old(self).board_of(),
            final(self).hero_pos_of() == old(self).hero_pos_of(),
            final(self).villain_pos_of() == old(self).villain_pos_of(),
            final(self).hero_ip_of() == old(self).hero_ip_of(),
            final(self).low_spr_of() == old(self).low_spr_of(),
            final(self).bluff_pct_of() == old(self).bluff_pct_of(),
    {
        if k < 2 {
            out.append(street_prompt(k + 1).as_str());
            self.phase = Phase::AskStreet(k + 1);
            (out, SessionNeed::Line)
        } else {
            out.append("\n");
            out.append(cyan_bold("--- Hand Complete ---").as_str());
            out.append("\n");
            self.ask_another(out)
        }
    }

    fn on_hand(&mut self, input: SessionInput) -> (r: (String, SessionNeed))
        requires
            old(self).wf(),
            old(self).phase_of() == Phase::AskHand,
        ensures
            (final(self).phase_of() == Phase::Done) == (r.1 is Finished),
            final(self).wf(),
            final(self).charts() == old(self).charts(),
            ({
                let a = match input { SessionInput::Line(l) => answer_of(l@, ""@), _ => "q"@ };
                &&& is_quit(a) ==> final(self).phase_of() == Phase::Done
                &&& !is_quit(a) && !(utf8_len(input_clean(a)) == 4 && crate::cards::four_char_split_inside(input_clean(a)))
                    && hole_cards_of(a) is Some
                    ==> final(self).phase_of() == Phase::AskPosition && final(self).hole_of() == hole_cards_of(a)->0
                &&& !is_quit(a) && hole_cards_of(a) is None ==> final(self).phase_of() == Phase::AskHand
            }),
            quits_prompt(input, ""@) ==> final(self).phase_of() == Phase::Done && is_farewell(r.0@),
    {
        let a = answer(&input, "");
        proof {
            reveal_strlit("");
            reveal_strlit("q");
        }
        if quits(a.as_str()) {
            return self.quit();
        }
        let cards = if hole_input_splits(a.as_str()) { None } else { parse_hole_cards(a.as_str()) };
        match cards {
            Some(hole) => {
                let mut out = String::from_str("  ");
                let mut pretty = hole[0].pretty();
                pretty.append(hole[1].pretty().as_str());
                let name = match simplify_hand(hole.as_slice()) {
                    Ok(n) => n,
                    Err(_) => String::from_str("??"),
                };
                out.append(bold(pretty.as_str()).as_str());
                out.append(" (");
                out.append(dimmed(name.as_str()).as_str());
                out.append(")\n");
                let options = positions_for("6max");
                proof {
                    reveal_strlit("6max");
                }
                out.append(menu_text("Position", &options, 3).as_str());
                self.hole = hole;
                self.hand_name = name;
                self.board = Vec::new();
                self.phase = Phase::AskPosition;
                (out, SessionNeed::Line)
            },
            None => {
                let mut out = String::from_str("  ");
                out.append(paint("Invalid. Use format: AhKs, Td9c, 7s7h", Hue::Red).as_str());
                out.append("\n");
                out.append(hand_prompt().as_str());
                (out, SessionNeed::Line)
            },
        }
    }

    fn on_position(&mut self, input: SessionInput) -> (r: (String, SessionNeed))
        requires
            old(self).wf(),
            old(self).phase_of() == Phase::AskPosition,
        ensures
            (final(self).phase_of() == Phase::Done) == (r.1 is Finished),
            final(self).wf(),
            final(self).charts() == old(self).charts(),
            final(self).phase_of() == Phase::Done || final(self).phase_of() == Phase::AskAnother
                || final(self).phase_of() == Phase::AskStreet(0),
            final(self).phase_of() == Phase::AskStreet(0) ==> final(self).hole_of() == old(self).hole_of()
                && final(self).board_of().len() == 0,
            quits_prompt(input, "4"@) ==> final(self).phase_of() == Phase::Done && is_farewell(r.0@),
            !quits_prompt(input, "4"@) ==> (input matches SessionInput::Line(l) ==> ({
                let seat = seat_pick(answer_of(l@, "4"@));
                let hero = position_named(seat)->0;
                let hand = hand_class_text(old(self).hole_of()[0], old(self).hole_of()[1]);
                let o = opens(old(self).charts(), seat, hand);
                &&& final(self).hero_pos_of() == seat
                &&& final(self).villain_pos_of() == villain_for(hero).name()
                &&& final(self).hero_ip_of() == (hero.postflop_order() > villain_for(hero).postflop_order())
                &&& o ==> final(self).phase_of() == Phase::AskStreet(0) && r.1 is Line && preflop_shown(r.0@, "RAISE"@, false)
                &&& !o ==> final(self).phase_of() == Phase::AskAnother && r.1 is Line && preflop_shown(r.0@, "FOLD"@, true)
            })),
    {
        let a = answer(&input, "4");
        let options = positions_for("6max");
        proof {
            reveal_strlit("6max");
        }
        proof {
            assert(str_views(options@) =~= crate::preflop::seats_6max());
        }
        let choice = menu_choice(a.as_str(), &options, 3);
        proof {
            if !is_quit(a@) {
                lemma_menu_pick_option(a@, crate::preflop::seats_6max(), 3);
                lemma_six_max_seat(choice@);
            }
        }
        if quits(choice.as_str()) {
            return self.quit();
        }
        let ghost seat = choice@;
        proof {
            if is_quit(a@) {
                reveal_strlit("q");
                assert(choice@ == "q"@);
            }
        }
        let up = to_uppercase(choice.as_str());
        let mut valid = false;
        let mut i: usize = 0;
        while i < options.len()
            invariant
                i <= options@.len(),
                str_views(options@) == crate::preflop::seats_6max(),
                options@.len() == 6,
                valid ==> crate::preflop::seats_6max().contains(up@),
                !valid ==> forall|k: int| 0 <= k < i ==> options@[k]@ != up@,
            decreases options@.len() - i,
        {
            if str_eq(options[i], up.as_str()) {
                valid = true;
                assert(crate::preflop::seats_6max()[i as int] == options@[i as int]@);
            }
            i = i + 1;
        }
        proof {
            assert(up@ == seat);
            if !valid {
                let k = choose|k: int| 0 <= k < 6 && crate::preflop::seats_6max()[k] == seat;
                assert(options@[k]@ == crate::preflop::seats_6max()[k]);
            }
        }
        let hero_pos = if valid { up } else { String::from_str("BTN") };
        let hero = match Position::from_str(hero_pos.as_str()) {
            Some(p) => p,
            None => Position::BTN,
        };
        let villain = default_villain(hero);
        proof {
            lemma_plain_advice_literals();
            reveal_strlit("6max");
            reveal_strlit("9max");
            reveal_strlit("RFI");
            reveal_strlit("RAISE");
            reveal_strlit("FOLD");
            assert("6max"@ != "9max"@) by {
                assert("6max"@[0] != "9max"@[0]);
            }
            assert("RAISE"@ != "FOLD"@) by {
                assert("RAISE"@[0] != "FOLD"@[0]);
            }
        }
        let t_head = cyan_bold("--- Preflop ---");
        let mut out = String::from_str("\n");
        out.append(t_head.as_str());
        out.append("\n");
        let advice = match preflop_action(&self.book, self.hand_name.as_str(), hero_pos.as_str(), "RFI", None, "6max") {
            Ok(a) => a.action,
            Err(_) => String::from_str("FOLD"),
        };
        let ghost o = opens(old(self).charts(), seat, hand_class_text(old(self).hole@[0], old(self).hole@[1]));
        assert(advice@ == (if o { "RAISE"@ } else { "FOLD"@ }));
        let t_act = styled_action(advice.as_str());
        let t_tip = dimmed("Tip: run `gto solve preflop` for solver-backed advice");
        out.append("  \u{2192} ");
        out.append(t_act.as_str());
        out.append("\n  ");
        out.append(t_tip.as_str());
        out.append("\n");
        let fold = match preflop_action(&self.book, self.hand_name.as_str(), hero.as_str(), "RFI", None, "6max") {
            Ok(a) => str_eq(a.action.as_str(), "FOLD"),
            Err(_) => false,
        };
        assert(fold == !o);
        self.hero_pos = hero_pos;
        self.villain_pos = String::from_str(villain.as_str());
        self.hero_ip = hero.is_ip_vs(&villain);
        if fold {
            let t_over = dimmed("Hand over \u{2014} fold preflop.");
            out.append("\n  ");
            out.append(t_over.as_str());
            out.append("\n");
            let ghost before = out@;
            let r = self.ask_another(out);
            proof {
                assert(r.0@ =~= preflop_text(t_head@, t_act@, t_tip@, t_over@, true));
            }
            return r;
        }
        self.board = Vec::new();
        let sp = street_prompt(0);
        proof {
            reveal_strlit("Flop");
            reveal_strlit("  Flop cards: ");
            reveal_strlit("  ");
            reveal_strlit(" cards");
            reveal_strlit(": ");
            assert(sp@ =~= "  Flop cards: "@);
        }
        out.append(sp.as_str());
        proof {
            assert(out@ =~= preflop_text(t_head@, t_act@, t_tip@, t_head@, false));
        }
        self.phase = Phase::AskStreet(0);
        (out, SessionNeed::Line)
    }

    fn on_street(&mut self, k: usize, input: SessionInput) -> (r: (String, SessionNeed))
        requires
            old(self).wf(),
            old(self).phase_of() == Phase::AskStreet(k),
        ensures
            (final(self).phase_of() == Phase::Done) == (r.1 is Finished),
            final(self).wf(),
            final(self).charts() == old(self).charts(),
            final(self).phase_of() == Phase::Done || final(self).phase_of() == Phase::AskAnother
                || final(self).phase_of() == Phase::AskStreet(k) || final(self).phase_of() == Phase::AwaitEquity(k),
            final(self).phase_of() == Phase::AwaitEquity(k) ==> (r.1 matches SessionNeed::Equity { hole, board, villain_range }
                && hole@ == final(self).hole_of() && board@ == final(self).board_of()
                && string_views(villain_range@) == villain_range_of(old(self).charts(), "RFI"@,
                    Some(old(self).hero_pos@), final(self).hole_of())),
            quits_prompt(input, ""@) ==> final(self).phase_of() == Phase::Done && is_farewell(r.0@),
            input matches SessionInput::Line(l) ==> (!quits_prompt(input, ""@) ==> {
                let a = answer_of(l@, ""@);
                &&& a.len() == 0 ==> final(self).phase_of() == Phase::AskAnother && r.1 is Line
                    && final(self).board_of() == old(self).board_of()
                &&& a.len() > 0 && deals_street(a, k as int, old(self).hole_of(), old(self).board_of())
                    ==> final(self).phase_of() == Phase::AwaitEquity(k)
                    && final(self).board_of() == old(self).board_of() + street_cards(a)->0
                &&& a.len() > 0 && !deals_street(a, k as int, old(self).hole_of(), old(self).board_of())
                    ==> final(self).phase_of() == Phase::AskStreet(k) && r.1 is Line
                    && final(self).board_of() == old(self).board_of()
            }),
            final(self).hole_of() == old(self).hole_of(),
    {
        let a = answer(&input, "");
        proof {
            reveal_strlit("");
        }
        if quits(a.as_str()) {
            return self.quit();
        }
        let (name, n, example) = street_info(k);
        if a.as_str().unicode_len() == 0 {
            let mut out = String::from_str("\n  ");
            let mut msg = String::from_str("Hand ended before the ");
            msg.append(to_lowercase(name).as_str());
            msg.append(".");
            out.append(dimmed(msg.as_str()).as_str());
            out.append("\n");
            return self.ask_another(out);
        }
        let clean = clean_string(a.as_str());
        let parsed = if board_overruns(clean.as_str()) { None } else { parse_board_input(a.as_str()) };
        let mut out = String::from_str("  ");
        match parsed {
            Some(cards) => {
                if cards.len() != n {
                    let mut msg = String::from_str("Need ");
                    push_decimal(&mut msg, n as u32);
                    msg.append(if n > 1 { " cards" } else { " card" });
                    msg.append(". (e.g. ");
                    msg.append(example);
                    msg.append(")");
                    out.append(paint(msg.as_str(), Hue::Red).as_str());
                    out.append("\n");
                    out.append(street_prompt(k).as_str());
                    return (out, SessionNeed::Line);
                }
                let mut dup = false;
                let mut i: usize = 0;
                while i < cards.len()
                    invariant
                        i <= cards@.len(),
                        dup == !fresh_cards(cards@.subrange(0, i as int), self.hole@, self.board@),
                    decreases cards@.len() - i,
                {
                    proof {
                        lemma_fresh_extend(cards@, i as int, self.hole@, self.board@);
                    }
                    if contains_card(self.hole.as_slice(), cards[i]) || contains_card(self.board.as_slice(), cards[i]) {
                        dup = true;
                    }
                    i = i + 1;
                }
                assert(cards@.subrange(0, cards@.len() as int) =~= cards@);
                if dup {
                    out.append(paint("Duplicate card. Try again.", Hue::Red).as_str());
                    out.append("\n");
                    out.append(street_prompt(k).as_str());
                    return (out, SessionNeed::Line);
                }
                let mut j: usize = 0;
                while j < cards.len()
                    invariant
                        j <= cards@.len(),
                        self.board@.len() == board_before(k as int) + j,
                        self.hole@.len() == 2,
                        k < 3,
                        rfi_hands_defined(self.book.six_max),
                        self.book == old(self).book,
                        self.hole@ == old(self).hole@,
                        self.hero_pos == old(self).hero_pos,
                        self.phase == old(self).phase,
                        self.board@ == old(self).board@ + cards@.subrange(0, j as int),
                    decreases cards@.len() - j,
                {
                    self.board.push(cards[j]);
                    j = j + 1;
                }
                let mut heading = String::from_str("--- ");
                heading.append(capitalize(name).as_str());
                heading.append(" ---");
                let mut shown = String::from_str("\n");
                shown.append(cyan_bold(heading.as_str()).as_str());
                shown.append("\n  Board: ");
                shown.append(board_display(self.board.as_slice()).as_str());
                shown.append("  |  ");
                shown.append(if self.hero_ip { "IP" } else { "OOP" });
                shown.append("  |  Pot: ");
                shown.append(self.pot.pot_text.as_str());
                shown.append("bb  |  Stack: ");
                shown.append(self.pot.stack_text.as_str());
                shown.append("bb\n");
                match evaluate_hand(self.hole.as_slice(), self.board.as_slice()) {
                    Ok(h) => {
                        shown.append("  Made: ");
                        shown.append(bold(h.category.name()).as_str());
                        shown.append("\n");
                    },
                    Err(_) => {},
                }
                proof {
                    lemma_six_max_charts(self.book);
                }
                let range = estimate_villain_range(&self.book, "RFI", self.hero_pos.as_str(),
                    Some(self.villain_pos.as_str()), self.hole.as_slice(), "6max");
                self.phase = Phase::AwaitEquity(k);
                let need = SessionNeed::Equity { hole: copy_cards(&self.hole), board: copy_cards(&self.board), villain_range: range };
                (shown, need)
            },
            None => {
                let mut msg = String::from_str("Invalid. (e.g. ");
                msg.append(example);
                msg.append(")");
                out.append(paint(msg.as_str(), Hue::Red).as_str());
                out.append("\n");
                out.append(street_prompt(k).as_str());
                (out, SessionNeed::Line)
            },
        }
    }

    fn on_equity(&mut self, k: usize, input: SessionInput) -> (r: (String, SessionNeed))
        requires
            old(self).wf(),
            old(self).phase_of() == Phase::AwaitEquity(k),
        ensures
            (final(self).phase_of() == Phase::Done) == (r.1 is Finished),
            final(self).wf(),
            final(self).charts() == old(self).charts(),
            final(self).phase_of() == Phase::Done || final(self).phase_of() == Phase::AskWhatHappened(k),
            !(input is Equity) ==> final(self).phase_of() == Phase::Done && is_farewell(r.0@),
            input is Equity ==> final(self).phase_of() == Phase::AskWhatHappened(k) && r.1 is Line,
            input is Equity ==> exists|t: Seq<char>, rs: Seq<char>, rest: Seq<char>|
                #[trigger] advice_shown(r.0@, equity_line(equity_of(input)),
                    street_advice(old(self).hole_of(), old(self).board_of(), reported_band(equity_of(input)),
                        old(self).low_spr_of(), old(self).bluff_pct_of() as nat, old(self).hero_ip_of(), k as int),
                    t, rs, rest),
            final(self).hole_of() == old(self).hole_of(),
            final(self).board_of() == old(self).board_of(),
            final(self).hero_pos_of() == old(self).hero_pos_of(),
            final(self).hero_ip_of() == old(self).hero_ip_of(),
            final(self).low_spr_of() == old(self).low_spr_of(),
            final(self).bluff_pct_of() == old(self).bluff_pct_of(),
    {
        let ghost e0 = equity_of(input);
        let band = match input {
            SessionInput::Equity(e) => match e {
                Some((b, bar)) => {
                    let mut out = String::from_str("  Equity: ");
                    out.append(bar.as_str());
                    out.append("\n");
                    (b, out)
                },
                None => (EquityBand::From35, String::new()),
            },
            _ => {
                return self.quit();
            },
        };
        let (band, mut out) = band;
        proof {
            assert(band == reported_band(e0));
            assert(out@ == equity_line(e0)) by {
                reveal_strlit("");
                reveal_strlit("  Equity: ");
                reveal_strlit("\n");
            }
        }
        let ghost pre = out@;
        let (name, _, _) = street_info(k);
        let street = to_lowercase(name);
        proof {
            reveal_strlit("Flop");
            reveal_strlit("Turn");
            reveal_strlit("River");
            assert(all_ascii(name@));
        }
        let ghost plan = street_advice(self.hole@, self.board@, band, self.pot.low_spr,
            self.pot.bluff_pct as nat, self.hero_ip, k as int);
        let strength = match evaluate_hand(self.hole.as_slice(), self.board.as_slice()) {
            Ok(h) => {
                proof {
                    let cs = self.hole@ + self.board@;
                    lemma_pair_kickers(pick(cs, five_combos(cs)[best_index(cs)]));
                }
                classify_hand_strength(&h, self.hole.as_slice(), self.board.as_slice(), band)
            },
            Err(_) => "weak",
        };
        let texture = match analyze_board(self.board.as_slice()) {
            Ok(t) => t,
            Err(_) => {
                proof {
                    assert(false);
                }
                return self.quit();
            },
        };
        let plan_r = street_strategy(strength, &texture, self.pot.low_spr, self.pot.bluff_pct,
            if self.hero_ip { "IP" } else { "OOP" }, street.as_str());
        proof {
            assert((plan_r.action@, plan_r.sizing@, plan_r.reasoning@) == plan);
            lemma_street_plan_plain(strength@, texture.wetness, self.pot.low_spr, self.pot.bluff_pct as nat,
                is_ip_label(if self.hero_ip { "IP"@ } else { "OOP"@ }), street@);
        }
        let t = styled_action(plan_r.action.as_str());
        let rs = dimmed(plan_r.reasoning.as_str());
        out.append("  \u{2192} ");
        out.append(t.as_str());
        out.append(" ");
        out.append(plan_r.sizing.as_str());
        out.append("\n  ");
        out.append(rs.as_str());
        out.append("\n");
        let ghost mid = out@;
        let options: Vec<&'static str> = vec!["Bet/Raise", "Check", "Call", "Fold", "All-in"];
        let menu = menu_text("What happened?", &options, 0);
        out.append(menu.as_str());
        proof {
            assert(out@ =~= pre + "  \u{2192} "@ + t@ + " "@ + plan.1 + "\n  "@ + rs@ + "\n"@ + menu@);
            assert(advice_shown(out@, equity_line(e0), plan, t@, rs@, menu@));
            assert(plan == street_advice(old(self).hole_of(), old(self).board_of(), reported_band(e0),
                old(self).low_spr_of(), old(self).bluff_pct_of() as nat, old(self).hero_ip_of(), k as int));
        }
        self.phase = Phase::AskWhatHappened(k);
        let r = (out, SessionNeed::Line);
        assert(r.0@ == out@);
        assert(advice_shown(r.0@, equity_line(equity_of(input)),
                street_advice(old(self).hole_of(), old(self).board_of(), reported_band(equity_of(input)),
                    old(self).low_spr_of(), old(self).bluff_pct_of() as nat, old(self).hero_ip_of(), k as int),
                t@, rs@, menu@));
        assert(exists|t: Seq<char>, rs: Seq<char>, rest: Seq<char>|
            #[trigger] advice_shown(r.0@, equity_line(equity_of(input)),
                street_advice(old(self).hole_of(), old(self).board_of(), reported_band(equity_of(input)),
                    old(self).low_spr_of(), old(self).bluff_pct_of() as nat, old(self).hero_ip_of(), k as int),
                t, rs, rest));
        r
    }

    fn on_what_happened(&mut self, k: usize, input: SessionInput) -> (r: (String, SessionNeed))
        requires
            old(self).wf(),
            old(self).phase_of() == Phase::AskWhatHappened(k),
        ensures
            (final(self).phase_of() == Phase::Done) == (r.1 is Finished),
            final(self).wf(),
            final(self).charts() == old(self).charts(),
            final(self).phase_of() == Phase::Done || final(self).phase_of() == Phase::AwaitPot(k)
                || final(self).phase_of() == Phase::AskStreet((k + 1) as usize) || final(self).phase_of() == Phase::AskAnother,
            final(self).phase_of() == Phase::AwaitPot(k) ==> r.1 is PotUpdate,
            quits_prompt(input, "1"@) ==> final(self).phase_of() == Phase::Done && is_farewell(r.0@),
            input matches SessionInput::Line(l) ==> (!quits_prompt(input, "1"@) ==> {
                let choice = menu_pick(answer_of(l@, "1"@), what_happened_options(), 0);
                &&& reported_pot_action(choice) matches Some(act) ==> final(self).phase_of() == Phase::AwaitPot(k)
                    && (r.1 matches SessionNeed::PotUpdate(x) && x == act)
                &&& reported_pot_action(choice) is None ==> r.1 is Line
                    && (k < 2 ==> final(self).phase_of() == Phase::AskStreet((k + 1) as usize))
                    && (k == 2 ==> final(self).phase_of() == Phase::AskAnother)
            }),
            final(self).hole_of() == old(self).hole_of(),
            final(self).board_of() == old(self).board_of(),
    {
        let a = answer(&input, "1");
        let options: Vec<&'static str> = vec!["Bet/Raise", "Check", "Call", "Fold", "All-in"];
        proof {
            reveal_strlit("Bet/Raise");
            reveal_strlit("Check");
            reveal_strlit("Call");
            reveal_strlit("Fold");
            reveal_strlit("All-in");
            assert(str_views(options@) =~= what_happened_options());
        }
        let choice = menu_choice(a.as_str(), &options, 0);
        proof {
            if !is_quit(a@) {
                lemma_menu_pick_option(a@, what_happened_options(), 0);
                let o = what_happened_options();
                assert(forall|i: int| 0 <= i < o.len() ==> all_ascii(#[trigger] o[i]) && o[i].len() != 1);
                assert(all_ascii(choice@) && choice@.len() != 1);
            }
        }
        if quits(choice.as_str()) {
            return self.quit();
        }
        let low = to_lowercase(choice.as_str());
        let l = low.as_str();
        proof {
            reveal_strlit("bet");
            reveal_strlit("raise");
            reveal_strlit("check");
            reveal_strlit("call");
            reveal_strlit("fold");
            reveal_strlit("all");
        }
        let action = if starts_with(l, "bet") || starts_with(l, "raise") {
            Some(PotAction::Bet)
        } else if starts_with(l, "check") {
            None
        } else if starts_with(l, "call") {
            Some(PotAction::Call)
        } else if starts_with(l, "fold") {
            None
        } else if starts_with(l, "all") {
            Some(PotAction::AllIn)
        } else {
            None
        };
        match action {
            Some(act) => {
                self.phase = Phase::AwaitPot(k);
                (String::new(), SessionNeed::PotUpdate(act))
            },
            None => self.advance(k, String::new()),
        }
    }

    fn on_pot(&mut self, k: usize, input: SessionInput) -> (r: (String, SessionNeed))
        requires
            old(self).wf(),
            old(self).phase_of() == Phase::AwaitPot(k),
        ensures
            (final(self).phase_of() == Phase::Done) == (r.1 is Finished),
            final(self).wf(),
            final(self).charts() == old(self).charts(),
            final(self).phase_of() == Phase::Done || final(self).phase_of() == Phase::AskStreet((k + 1) as usize)
                || final(self).phase_of() == Phase::AskAnother,
            !(input is Pot) ==> final(self).phase_of() == Phase::Done && is_farewell(r.0@),
            input matches SessionInput::Pot(v) ==> final(self).low_spr_of() == v.low_spr
                && final(self).bluff_pct_of() == v.bluff_pct
                && (k < 2 ==> final(self).phase_of() == Phase::AskStreet((k + 1) as usize))
                && (k == 2 ==> final(self).phase_of() == Phase::AskAnother),
            final(self).hole_of() == old(self).hole_of(),
            final(self).board_of() == old(self).board_of(),
            final(self).hero_ip_of() == old(self).hero_ip_of(),
    {
        match input {
            SessionInput::Pot(v) => {
                self.pot = v;
                self.advance(k, String::new())
            },
            _ => self.quit(),
        }
    }

    fn on_another(&mut self, input: SessionInput) -> (r: (String, SessionNeed))
        requires
            old(self).wf(),
            old(self).phase_of() == Phase::AskAnother,
        ensures
            (final(self).phase_of() == Phase::Done) == (r.1 is Finished),
            final(self).wf(),
            final(self).charts() == old(self).charts(),
            ({
                let a = match input { SessionInput::Line(l) => answer_of(l@, "y"@), _ => "q"@ };
                let yes = lowercase_of(a) == "y"@ || lowercase_of(a) == "yes"@;
                &&& yes ==> final(self).phase_of() == Phase::AwaitHandPot && r.1 is NewHandPot
                &&& !yes ==> final(self).phase_of() == Phase::Done && r.1 is Finished && is_farewell(r.0@)
            }),
            quits_prompt(input, "y"@) ==> final(self).phase_of() == Phase::Done && is_farewell(r.0@),
    {
        let a = answer(&input, "y");
        let low = to_lowercase(a.as_str());
        proof {
            reveal_strlit("q");
            reveal_strlit("y");
            reveal_strlit("yes");
            if a@ == "q"@ {
                assert(all_ascii(a@));
                assert(low@ =~= "q"@);
            }
            assert("q"@ != "y"@) by {
                assert("q"@[0] != "y"@[0]);
            }
            assert("q"@ != "yes"@) by {
                assert("q"@.len() != "yes"@.len());
            }
        }
        if str_eq(low.as_str(), "y") || str_eq(low.as_str(), "yes") {
            self.hole = Vec::new();
            self.board = Vec::new();
            self.phase = Phase::AwaitHandPot;
            (String::new(), SessionNeed::NewHandPot)
        } else {
            self.quit()
        }
    }

    /// One step: feeds the session what it asked for and returns the text to
    /// show and what it needs next. Input of another kind than the one asked
    /// for ends the session.
    pub fn step(&mut self, input: SessionInput) -> (r: (String, SessionNeed))
        requires
            old(self).wf(),
        ensures
            final(self).wf(),
            final(self).charts() == old(self).charts(),
            (final(self).phase_of() == Phase::Done) == (r.1 is Finished),
            old(self).phase_of() == Phase::Done ==> final(self).phase_of() == Phase::Done && r.0@.len() == 0,
            old(self).phase_of() == Phase::AwaitHandPot ==> (match input {
                SessionInput::Pot(_) => final(self).phase_of() == Phase::AskHand && r.1 is Line,
                _ => final(self).phase_of() == Phase::Done,
            }),
            prompt_default(old(self).phase_of()) matches Some(d) && quits_prompt(input, d)
                ==> final(self).phase_of() == Phase::Done && r.1 is Finished && is_farewell(r.0@),
            !awaited(old(self).phase_of(), input)
                ==> final(self).phase_of() == Phase::Done && r.1 is Finished && is_farewell(r.0@),
            old(self).phase_of() == Phase::Start ==> final(self).phase_of() == Phase::AwaitHandPot && r.1 is NewHandPot,
            old(self).phase_of() == Phase::AskHand ==> ({
                let a = match input { SessionInput::Line(l) => answer_of(l@, ""@), _ => "q"@ };
                &&& !is_quit(a) && !(utf8_len(input_clean(a)) == 4 && crate::cards::four_char_split_inside(input_clean(a)))
                    && hole_cards_of(a) is Some
                    ==> final(self).phase_of() == Phase::AskPosition && final(self).hole_of() == hole_cards_of(a)->0
                &&& !is_quit(a) && hole_cards_of(a) is None ==> final(self).phase_of() == Phase::AskHand
            }),
            old(self).phase_of() == Phase::AskPosition ==> (final(self).phase_of() == Phase::Done
                || final(self).phase_of() == Phase::AskAnother || final(self).phase_of() == Phase::AskStreet(0)),
            old(self).phase_of() == Phase::AskPosition && final(self).phase_of() == Phase::AskStreet(0)
                ==> final(self).hole_of() == old(self).hole_of() && final(self).board_of().len() == 0,
            old(self).phase_of() == Phase::AskPosition && !quits_prompt(input, "4"@)
                ==> (input matches SessionInput::Line(l) ==> ({
                let seat = seat_pick(answer_of(l@, "4"@));
                let hero = position_named(seat)->0;
                let hand = hand_class_text(old(self).hole_of()[0], old(self).hole_of()[1]);
                let o = opens(old(self).charts(), seat, hand);
                &&& final(self).hero_pos_of() == seat
                &&& final(self).villain_pos_of() == villain_for(hero).name()
                &&& final(self).hero_ip_of() == (hero.postflop_order() > villain_for(hero).postflop_order())
                &&& o ==> final(self).phase_of() == Phase::AskStreet(0) && r.1 is Line && preflop_shown(r.0@, "RAISE"@, false)
                &&& !o ==> final(self).phase_of() == Phase::AskAnother && r.1 is Line && preflop_shown(r.0@, "FOLD"@, true)
            })),
            old(self).phase_of() matches Phase::AskStreet(k) ==> (final(self).phase_of() == Phase::Done
                || final(self).phase_of() == Phase::AskAnother || final(self).phase_of() == Phase::AskStreet(k)
                || final(self).phase_of() == Phase::AwaitEquity(k)),
            old(self).phase_of() matches Phase::AskStreet(k) && final(self).phase_of() == Phase::AwaitEquity(k)
                ==> (r.1 matches SessionNeed::Equity { hole, board, villain_range }
                    && hole@ == final(self).hole_of() && board@ == final(self).board_of()
                    && string_views(villain_range@) == villain_range_of(old(self).charts(), "RFI"@,
                        Some(old(self).hero_pos_of()), final(self).hole_of())),
            old(self).phase_of() matches Phase::AskStreet(k) ==> (input matches SessionInput::Line(l) ==> (
                !quits_prompt(input, ""@) ==> {
                let a = answer_of(l@, ""@);
                &&& a.len() == 0 ==> final(self).phase_of() == Phase::AskAnother && r.1 is Line
                    && final(self).board_of() == old(self).board_of()
                &&& a.len() > 0 && deals_street(a, k as int, old(self).hole_of(), old(self).board_of())
                    ==> final(self).phase_of() == Phase::AwaitEquity(k)
                    && final(self).board_of() == old(self).board_of() + street_cards(a)->0
                &&& a.len() > 0 && !deals_street(a, k as int, old(self).hole_of(), old(self).board_of())
                    ==> final(self).phase_of() == Phase::AskStreet(k) && r.1 is Line
                    && final(self).board_of() == old(self).board_of()
            })),
            old(self).phase_of() matches Phase::AwaitEquity(k) ==> (final(self).phase_of() == Phase::Done
                || final(self).phase_of() == Phase::AskWhatHappened(k)),
            old(self).phase_of() matches Phase::AwaitEquity(k) ==> (input is Equity ==> (
                final(self).phase_of() == Phase::AskWhatHappened(k) && r.1 is Line
                && exists|t: Seq<char>, rs: Seq<char>, rest: Seq<char>|
                    #[trigger] advice_shown(r.0@, equity_line(equity_of(input)),
                        street_advice(old(self).hole_of(), old(self).board_of(), reported_band(equity_of(input)),
                            old(self).low_spr_of(), old(self).bluff_pct_of() as nat, old(self).hero_ip_of(), k as int),
                        t, rs, rest))),
            old(self).phase_of() matches Phase::AwaitPot(k) ==> (input matches SessionInput::Pot(v) ==> (
                final(self).low_spr_of() == v.low_spr && final(self).bluff_pct_of() == v.bluff_pct)),
            old(self).phase_of() == Phase::AwaitHandPot ==> (input matches SessionInput::Pot(v) ==> (
                final(self).low_spr_of() == v.low_spr && final(self).bluff_pct_of() == v.bluff_pct)),
            old(self).phase_of() matches Phase::AskWhatHappened(k) ==> (final(self).phase_of() == Phase::Done
                || final(self).phase_of() == Phase::AwaitPot(k) || final(self).phase_of() == Phase::AskStreet((k + 1) as usize)
                || final(self).phase_of() == Phase::AskAnother),
            old(self).phase_of() matches Phase::AskWhatHappened(k) && final(self).phase_of() == Phase::AwaitPot(k)
                ==> r.1 is PotUpdate,
            old(self).phase_of() matches Phase::AskWhatHappened(k) ==> (input matches SessionInput::Line(l) ==> (
                !quits_prompt(input, "1"@) ==> {
                let choice = menu_pick(answer_of(l@, "1"@), what_happened_options(), 0);
                &&& reported_pot_action(choice) matches Some(act) ==> final(self).phase_of() == Phase::AwaitPot(k)
                    && (r.1 matches SessionNeed::PotUpdate(x) && x == act)
                &&& reported_pot_action(choice) is None ==> r.1 is Line
                    && (k < 2 ==> final(self).phase_of() == Phase::AskStreet((k + 1) as usize))
                    && (k == 2 ==> final(self).phase_of() == Phase::AskAnother)
            })),
            old(self).phase_of() matches Phase::AwaitPot(k) ==> (final(self).phase_of() == Phase::Done
                || final(self).phase_of() == Phase::AskStreet((k + 1) as usize) || final(self).phase_of() == Phase::AskAnother),
            old(self).phase_of() == Phase::AskAnother ==> ({
                let a = match input { SessionInput::Line(l) => answer_of(l@, "y"@), _ => "q"@ };
                let yes = lowercase_of(a) == "y"@ || lowercase_of(a) == "yes"@;
                &&& yes ==> final(self).phase_of() == Phase::AwaitHandPot && r.1 is NewHandPot
                &&& !yes ==> final(self).phase_of() == Phase::Done && r.1 is Finished && is_farewell(r.0@)
            }),
    {
        match self.phase {
            Phase::Start => {
                self.start()
            },
            Phase::AwaitHandPot => {
                match input {
                    SessionInput::Pot(v) => {
                        self.pot = v;
                        self.phase = Phase::AskHand;
                        (hand_prompt(), SessionNeed::Line)
                    },
                    _ => self.quit(),
                }
            },
            Phase::AskHand => self.on_hand(input),
            Phase::AskPosition => self.on_position(input),
            Phase::AskStreet(k) => self.on_street(k, input),
            Phase::AwaitEquity(k) => self.on_equity(k, input),
            Phase::AskWhatHappened(k) => self.on_what_happened(k, input),
            Phase::AwaitPot(k) => self.on_pot(k, input),
            Phase::AskAnother => self.on_another(input),
            Phase::Done => (String::new(), SessionNeed::Finished),
        }
    }
}

/// Whether the opening charts of a book can all be expanded to combos.
pub fn charts_usable(book: &RangeBook) -> (b: bool)
    ensures
        b == rfi_hands_defined(book.six_max),
{
    let d = &book.six_max;
    let mut i: usize = 0;
    while i < d.rfi.len()
        invariant
            i <= d.rfi@.len(),
            *d == book.six_max,
            forall|a: int, j: int| 0 <= a < i && 0 <= j < d.rfi@[a].value.raise_range@.len()
                ==> crate::ranges::combos_defined((#[trigger] d.rfi@[a].value.raise_range@[j])@),
        decreases d.rfi@.len() - i,
    {
        let hands = &d.rfi[i].value.raise_range;
        let mut j: usize = 0;
        while j < hands.len()
            invariant
                i < d.rfi@.len(),
                *d == book.six_max,
                j <= hands@.len(),
                hands == d.rfi@[i as int].value.raise_range,
                forall|a: int, j: int| 0 <= a < i && 0 <= j < d.rfi@[a].value.raise_range@.len()
                    ==> crate::ranges::combos_defined((#[trigger] d.rfi@[a].value.raise_range@[j])@),
                forall|q: int| 0 <= q < j ==> crate::ranges::combos_defined((#[trigger] hands@[q])@),
            decreases hands@.len() - j,
        {
            if !crate::ranges::combos_defined_check(hands[j].as_str()) {
                assert(hands@[j as int] == d.rfi@[i as int].value.raise_range@[j as int]);
                assert(!crate::ranges::combos_defined(d.rfi@[i as int].value.raise_range@[j as int]@));
                assert(!rfi_hands_defined(book.six_max)) by {
                    if rfi_hands_defined(book.six_max) {
                        assert(0 <= i < book.six_max.rfi@.len());
                        assert(0 <= j < book.six_max.rfi@[i as int].value.raise_range@.len());
                        assert(crate::ranges::combos_defined(book.six_max.rfi@[i as int].value.raise_range@[j as int]@));
                    }
                }
                return false;
            }
            j = j + 1;
        }
        i = i + 1;
    }
    true
}

} // verus!
