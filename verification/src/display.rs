//! Terminal presentation: colored actions and boards, and the 13x13 range grid.

use vstd::prelude::*;
use vstd::string::{StringExecFns};
use colored::Colorize;
use crate::cards::Card;
use crate::game_tree::{bucket_text, bucket_to_hand, grid_char};
use crate::text::{push_char, str_eq, to_uppercase, uppercase_of, contains_text, lists_text};

verus! {

/// A foreground color of the terminal.
#[derive(Debug, Clone, Copy, PartialEq, Eq, Structural)]
pub enum Hue {
    Red,
    Green,
    Yellow,
    Blue,
    Cyan,
    White,
}

/// `r` is the text `s` as shown on the terminal: unchanged when coloring is
/// off, else wrapped in an escape sequence and the reset sequence.
pub open spec fn shows_text(r: Seq<char>, s: Seq<char>) -> bool {
    r == s || exists|p: Seq<char>| r == p + s + "\u{1b}[0m"@
}

/// The reset sequence `colored` writes after styled text.
pub open spec fn reset_code() -> Seq<char> {
    "\u{1b}[0m"@
}

/// `r` is `s` as `colored` writes it with the style whose escape prefix is
/// `prefix`: the text alone when coloring is off, else the prefix, the text
/// and the reset sequence.
pub open spec fn shown_as(r: Seq<char>, s: Seq<char>, prefix: Seq<char>) -> bool {
    r == s || r == prefix + s + reset_code()
}

/// The SGR code `colored` writes for a foreground color.
pub open spec fn hue_code(h: Hue) -> Seq<char> {
    match h {
        Hue::Red => "31"@,
        Hue::Green => "32"@,
        Hue::Yellow => "33"@,
        Hue::Blue => "34"@,
        Hue::Cyan => "36"@,
        Hue::White => "37"@,
    }
}

/// Escape prefix of a foreground color.
pub open spec fn color_prefix(h: Hue) -> Seq<char> {
    "\u{1b}["@ + hue_code(h) + "m"@
}

/// Escape prefix of bold text in a foreground color (the style comes first).
pub open spec fn bold_color_prefix(h: Hue) -> Seq<char> {
    "\u{1b}[1;"@ + hue_code(h) + "m"@
}

/// Escape prefix of bold text.
pub open spec fn bold_prefix() -> Seq<char> {
    "\u{1b}[1m"@
}

/// Escape prefix of dimmed text.
pub open spec fn dimmed_prefix() -> Seq<char> {
    "\u{1b}[2m"@
}

/// Escape prefix of bold dimmed text (bold is listed first).
pub open spec fn dimmed_bold_prefix() -> Seq<char> {
    "\u{1b}[1;2m"@
}

/// `colored`'s `Colorize::color` then `to_string`: the text in a foreground
/// color. Whether escape codes are written depends on the environment and
/// the terminal; for text without an escape character the result is the text
/// itself, or `ESC[<code>m`, the text and `ESC[0m` (the `Display` impl of
/// `ColoredString` with its `compute_style`).
#[verifier::external_body]
pub(crate) fn paint(s: &str, hue: Hue) -> (r: String)
    ensures
        !s@.contains('\u{1b}') ==> shown_as(r@, s@, color_prefix(hue)),
        !s@.contains('\u{1b}') ==> shows_text(r@, s@),
{
    let c = match hue {
        Hue::Red => colored::Color::Red,
        Hue::Green => colored::Color::Green,
        Hue::Yellow => colored::Color::Yellow,
        Hue::Blue => colored::Color::Blue,
        Hue::Cyan => colored::Color::Cyan,
        Hue::White => colored::Color::White,
    };
    s.color(c).to_string()
}

/// `colored`'s `Colorize::color`, `bold` then `to_string`: as for `paint`,
/// with the prefix `ESC[1;<code>m` (styles before the color).
#[verifier::external_body]
pub(crate) fn paint_bold(s: &str, hue: Hue) -> (r: String)
    ensures
        !s@.contains('\u{1b}') ==> shown_as(r@, s@, bold_color_prefix(hue)),
        !s@.contains('\u{1b}') ==> shows_text(r@, s@),
{
    let c = match hue {
        Hue::Red => colored::Color::Red,
        Hue::Green => colored::Color::Green,
        Hue::Yellow => colored::Color::Yellow,
        Hue::Blue => colored::Color::Blue,
        Hue::Cyan => colored::Color::Cyan,
        Hue::White => colored::Color::White,
    };
    s.color(c).bold().to_string()
}

/// `colored`'s `Colorize::bold` then `to_string`: as for `paint`, with the
/// prefix `ESC[1m`.
#[verifier::external_body]
pub(crate) fn bold(s: &str) -> (r: String)
    ensures
        !s@.contains('\u{1b}') ==> shown_as(r@, s@, bold_prefix()),
        !s@.contains('\u{1b}') ==> shows_text(r@, s@),
{
    s.bold().to_string()
}

/// `colored`'s `Colorize::dimmed` then `to_string`: as for `paint`, with the
/// prefix `ESC[2m`.
#[verifier::external_body]
pub(crate) fn dimmed(s: &str) -> (r: String)
    ensures
        !s@.contains('\u{1b}') ==> shown_as(r@, s@, dimmed_prefix()),
        !s@.contains('\u{1b}') ==> shows_text(r@, s@),
{
    s.dimmed().to_string()
}

/// `colored`'s `Colorize::dimmed`, `bold` then `to_string`: as for `paint`,
/// with the prefix `ESC[1;2m` (bold is listed before dimmed).
#[verifier::external_body]
fn dimmed_bold(s: &str) -> (r: String)
    ensures
        !s@.contains('\u{1b}') ==> shown_as(r@, s@, dimmed_bold_prefix()),
        !s@.contains('\u{1b}') ==> shows_text(r@, s@),
{
    s.dimmed().bold().to_string()
}

// ---------------------------------------------------------------------------
// Actions
// ---------------------------------------------------------------------------

/// `t` occurs in `s` as a contiguous piece.
pub open spec fn has_infix(s: Seq<char>, t: Seq<char>) -> bool {
    exists|i: int| 0 <= i && i + t.len() <= s.len() && #[trigger] s.subrange(i, i + t.len()) == t
}

fn contains_str(s: &str, t: &str) -> (b: bool)
    ensures
        b == has_infix(s@, t@),
{
    let n = s.unicode_len();
    let m = t.unicode_len();
    if m > n {
        proof {
            assert forall|i: int| 0 <= i && i + t@.len() <= s@.len() implies
                #[trigger] s@.subrange(i, i + t@.len()) != t@ by {}
        }
        return false;
    }
    let mut i: usize = 0;
    while i <= n - m
        invariant
            n == s@.len(),
            m == t@.len(),
            m <= n,
            i <= n - m + 1,
            forall|k: int| 0 <= k < i ==> #[trigger] s@.subrange(k, k + m) != t@,
        decreases n - i,
    {
        let mut j: usize = 0;
        let mut same = true;
        while j < m
            invariant
                n == s@.len(),
                m == t@.len(),
                i + m <= n,
                j <= m,
                same == (forall|q: int| 0 <= q < j ==> s@[i + q] == t@[q]),
            decreases m - j,
        {
            if s.get_char(i + j) != t.get_char(j) {
                same = false;
            }
            j = j + 1;
        }
        if same {
            assert(s@.subrange(i as int, i + m) =~= t@);
            return true;
        }
        assert(s@.subrange(i as int, i + m)[0] == s@[i as int]);
        proof {
            let q = choose|q: int| 0 <= q < m && s@[i + q] != t@[q];
            assert(s@.subrange(i as int, i + m)[q] != t@[q]);
        }
        i = i + 1;
    }
    proof {
        assert forall|k: int| 0 <= k && k + t@.len() <= s@.len() implies
            #[trigger] s@.subrange(k, k + t@.len()) != t@ by {
            assert(k < i);
        }
    }
    false
}

/// The display style of an action word, case-insensitively.
pub open spec fn style_of(u: Seq<char>) -> Seq<char> {
    if u == "RAISE"@ || u == "3BET"@ || u == "4BET"@ || u == "BET"@ || u == "BET (BLUFF)"@
        || u == "BET (SEMI-BLUFF)"@ {
        "red"@
    } else if u == "CALL"@ {
        "green"@
    } else if u == "FOLD"@ {
        "dim"@
    } else if has_infix(u, "CHECK"@) {
        "yellow"@
    } else {
        "bold"@
    }
}

/// The display style of an action: "red" for aggression, "green" for calls,
/// "dim" for folds, "yellow" for checks, "bold" otherwise.
pub fn action_style(action: &str) -> (s: &'static str)
    ensures
        s@ == style_of(uppercase_of(action@)),
{
    let upper = to_uppercase(action);
    let u = upper.as_str();
    if str_eq(u, "RAISE") || str_eq(u, "3BET") || str_eq(u, "4BET") || str_eq(u, "BET")
        || str_eq(u, "BET (BLUFF)") || str_eq(u, "BET (SEMI-BLUFF)") {
        "red"
    } else if str_eq(u, "CALL") {
        "green"
    } else if str_eq(u, "FOLD") {
        "dim"
    } else if contains_str(u, "CHECK") {
        "yellow"
    } else {
        "bold"
    }
}

/// The escape prefix of an action style: bold red, bold green, bold dimmed,
/// bold yellow, or bold alone.
pub open spec fn action_prefix(style: Seq<char>) -> Seq<char> {
    if style == "red"@ {
        bold_color_prefix(Hue::Red)
    } else if style == "green"@ {
        bold_color_prefix(Hue::Green)
    } else if style == "dim"@ {
        dimmed_bold_prefix()
    } else if style == "yellow"@ {
        bold_color_prefix(Hue::Yellow)
    } else {
        bold_prefix()
    }
}

/// An action word in bold, in the color of its style.
pub fn styled_action(action: &str) -> (r: String)
    ensures
        !action@.contains('\u{1b}') ==> shown_as(r@, action@, action_prefix(style_of(uppercase_of(action@)))),
        !action@.contains('\u{1b}') ==> shows_text(r@, action@),
{
    let style = action_style(action);
    proof {
        reveal_strlit("red");
        reveal_strlit("green");
        reveal_strlit("dim");
        reveal_strlit("yellow");
        reveal_strlit("bold");
        assert("green"@ != "red"@ && "dim"@ != "red"@ && "yellow"@ != "red"@ && "bold"@ != "red"@) by {
            assert("green"@[0] != "red"@[0]);
            assert("dim"@[0] != "red"@[0]);
            assert("yellow"@[0] != "red"@[0]);
            assert("bold"@[0] != "red"@[0]);
        }
        assert("dim"@ != "green"@ && "yellow"@ != "green"@ && "bold"@ != "green"@) by {
            assert("dim"@[0] != "green"@[0]);
            assert("yellow"@[0] != "green"@[0]);
            assert("bold"@[0] != "green"@[0]);
        }
        assert("yellow"@ != "dim"@ && "bold"@ != "dim"@) by {
            assert("yellow"@[0] != "dim"@[0]);
            assert("bold"@[0] != "dim"@[0]);
        }
        assert("bold"@ != "yellow"@) by {
            assert("bold"@[0] != "yellow"@[0]);
        }
    }
    if str_eq(style, "red") {
        paint_bold(action, Hue::Red)
    } else if str_eq(style, "green") {
        paint_bold(action, Hue::Green)
    } else if str_eq(style, "dim") {
        dimmed_bold(action)
    } else if str_eq(style, "yellow") {
        paint_bold(action, Hue::Yellow)
    } else {
        bold(action)
    }
}

// ---------------------------------------------------------------------------
// Boards
// ---------------------------------------------------------------------------

/// The color a suit is shown in: spades white, hearts red, diamonds blue,
/// clubs green.
pub open spec fn suit_hue(s: crate::cards::Suit) -> Hue {
    match s {
        crate::cards::Suit::Spades => Hue::White,
        crate::cards::Suit::Hearts => Hue::Red,
        crate::cards::Suit::Diamonds => Hue::Blue,
        crate::cards::Suit::Clubs => Hue::Green,
    }
}

/// Rank character and suit symbol of a card, e.g. "A♠".
pub open spec fn card_face(c: Card) -> Seq<char> {
    seq![c.rank.ch(), c.suit.sym()]
}

/// The pieces joined with single spaces.
pub open spec fn joined(ps: Seq<Seq<char>>) -> Seq<char>
    decreases ps.len(),
{
    if ps.len() == 0 {
        Seq::empty()
    } else if ps.len() == 1 {
        ps[0]
    } else {
        joined(ps.drop_last()) + seq![' '] + ps.last()
    }
}

/// The cards shown by suit color (spades white, hearts red, diamonds blue,
/// clubs green), separated by spaces.
pub fn board_display(cards: &[Card]) -> (r: String)
    ensures
        exists|ps: Seq<Seq<char>>| ps.len() == cards@.len() && r@ == joined(ps)
            && forall|i: int| 0 <= i < ps.len() ==> shows_text(#[trigger] ps[i], card_face(cards@[i]))
                && shown_as(ps[i], card_face(cards@[i]), color_prefix(suit_hue(cards@[i].suit))),
{
    let mut out = String::new();
    let ghost mut ps: Seq<Seq<char>> = Seq::empty();
    let mut i: usize = 0;
    while i < cards.len()
        invariant
            i <= cards@.len(),
            ps.len() == i,
            out@ == joined(ps),
            forall|k: int| 0 <= k < ps.len() ==> shows_text(#[trigger] ps[k], card_face(cards@[k]))
                && shown_as(ps[k], card_face(cards@[k]), color_prefix(suit_hue(cards@[k].suit))),
        decreases cards@.len() - i,
    {
        let c = cards[i];
        let face = c.pretty();
        let hue = match c.suit {
            crate::cards::Suit::Spades => Hue::White,
            crate::cards::Suit::Hearts => Hue::Red,
            crate::cards::Suit::Diamonds => Hue::Blue,
            crate::cards::Suit::Clubs => Hue::Green,
        };
        proof {
            assert(face@ == card_face(c));
            assert(!face@.contains('\u{1b}')) by {
                if face@.contains('\u{1b}') {
                    let k = choose|k: int| 0 <= k < face@.len() && face@[k] == '\u{1b}';
                    assert(k == 0 || k == 1);
                }
            }
        }
        let piece = paint(face.as_str(), hue);
        if i > 0 {
            push_char(&mut out, ' ');
        }
        out.append(piece.as_str());
        proof {
            let old_ps = ps;
            ps = ps.push(piece@);
            assert(ps.drop_last() =~= old_ps);
            if i == 0 {
                assert(out@ =~= joined(ps));
            } else {
                assert(out@ =~= joined(old_ps) + seq![' '] + piece@);
            }
        }
        i = i + 1;
    }
    out
}

// ---------------------------------------------------------------------------
// Range grid
// ---------------------------------------------------------------------------

/// The 169 hands of the grid, row by row, each with whether the range holds it.
pub fn range_grid_cells(hands_in_range: &Vec<String>) -> (cells: Vec<(String, bool)>)
    ensures
        cells@.len() == 169,
        forall|b: int| 0 <= b < 169 ==> (#[trigger] cells@[b]).0@ == bucket_text(b)
            && cells@[b].1 == lists_text(hands_in_range@, bucket_text(b)),
{
    let mut cells: Vec<(String, bool)> = Vec::new();
    let mut b: usize = 0;
    while b < 169
        invariant
            b <= 169,
            cells@.len() == b,
            forall|k: int| 0 <= k < b ==> (#[trigger] cells@[k]).0@ == bucket_text(k)
                && cells@[k].1 == lists_text(hands_in_range@, bucket_text(k)),
        decreases 169 - b,
    {
        let hand = bucket_to_hand(b);
        let marked = contains_text(hands_in_range, hand.as_str());
        cells.push((hand, marked));
        b = b + 1;
    }
    cells
}

/// What `comfy_table` renders for a table with dynamic content arrangement,
/// the given header row and body rows, every cell centered, laid out for the
/// given width (`None`: no width known, nothing wrapped).
pub uninterp spec fn table_text(header: Seq<Seq<char>>, rows: Seq<Seq<Seq<char>>>, width: Option<u16>) -> Seq<char>;

/// The texts of a list of strings.
pub open spec fn texts(v: Seq<String>) -> Seq<Seq<char>> {
    v.map_values(|s: String| s@)
}

/// The texts of a list of rows.
pub open spec fn row_texts(rows: Seq<Vec<String>>) -> Seq<Seq<Seq<char>>> {
    rows.map_values(|r: Vec<String>| texts(r@))
}

/// `comfy_table::Table::width` on a fresh table: the terminal's width when
/// standard output is a terminal whose size can be read. It depends on the
/// terminal, so nothing is stated of it.
#[verifier::external_body]
fn terminal_width() -> Option<u16> {
    comfy_table::Table::new().width()
}

/// `comfy_table`: the table (dynamic content arrangement, header, rows, every
/// cell centered) rendered with its width set to `width`.
#[verifier::external_body]
fn render_table_at(header: Vec<String>, rows: Vec<Vec<String>>, width: u16) -> (r: String)
    ensures
        r@ == table_text(texts(header@), row_texts(rows@), Some(width)),
{
    let centered = |text: String| comfy_table::Cell::new(text).set_alignment(comfy_table::CellAlignment::Center);
    let mut table = comfy_table::Table::new();
    table.set_content_arrangement(comfy_table::ContentArrangement::Dynamic);
    table.set_width(width);
    table.set_header(header.into_iter().map(centered).collect::<Vec<_>>());
    for row in rows {
        table.add_row(row.into_iter().map(centered).collect::<Vec<_>>());
    }
    table.to_string()
}

/// `comfy_table`: the same table rendered with no width (the table told it
/// writes to no terminal), so nothing is wrapped.
#[verifier::external_body]
fn render_table_unsized(header: Vec<String>, rows: Vec<Vec<String>>) -> (r: String)
    ensures
        r@ == table_text(texts(header@), row_texts(rows@), None),
{
    let centered = |text: String| comfy_table::Cell::new(text).set_alignment(comfy_table::CellAlignment::Center);
    let mut table = comfy_table::Table::new();
    table.set_content_arrangement(comfy_table::ContentArrangement::Dynamic);
    table.force_no_tty();
    table.set_header(header.into_iter().map(centered).collect::<Vec<_>>());
    for row in rows {
        table.add_row(row.into_iter().map(centered).collect::<Vec<_>>());
    }
    table.to_string()
}

/// The grid's header row: an empty corner, then the ranks from ace down.
pub open spec fn grid_header() -> Seq<Seq<char>> {
    Seq::new(14, |j: int| if j == 0 { Seq::<char>::empty() } else { seq![grid_char(j - 1)] })
}

/// A hand cell as shown: bold green when the range holds the hand, dimmed otherwise.
pub open spec fn cell_shown(r: Seq<char>, hand: Seq<char>, marked: bool) -> bool {
    if marked { shown_as(r, hand, bold_color_prefix(Hue::Green)) } else { shown_as(r, hand, dimmed_prefix()) }
}

/// Row `i` of the grid as shown: its rank in bold, then the thirteen hands of
/// the row, each bold green when the range holds it and dimmed otherwise.
pub open spec fn grid_row_shown(row: Seq<Seq<char>>, i: int, hands: Seq<String>) -> bool {
    &&& row.len() == 14
    &&& shown_as(row[0], seq![grid_char(i)], bold_prefix())
    &&& forall|j: int| 1 <= j < 14 ==> cell_shown(#[trigger] row[j], bucket_text(13 * i + j - 1),
            lists_text(hands, bucket_text(13 * i + j - 1)))
}

/// The thirteen rows of the grid as shown.
pub open spec fn grid_rows_shown(rows: Seq<Seq<Seq<char>>>, hands: Seq<String>) -> bool {
    rows.len() == 13 && forall|i: int| 0 <= i < 13 ==> grid_row_shown(#[trigger] rows[i], i, hands)
}

proof fn lemma_bucket_text_plain(b: int)
    ensures
        !bucket_text(b).contains('\u{1b}'),
{
    let t = bucket_text(b);
    if t.contains('\u{1b}') {
        let k = choose|k: int| 0 <= k < t.len() && t[k] == '\u{1b}';
    }
}

/// The rows of the range grid: for each rank, the rank in bold, then the
/// thirteen hands of its row, bold green when the range holds them and
/// dimmed otherwise.
pub fn range_grid_rows(hands_in_range: &Vec<String>) -> (rows: Vec<Vec<String>>)
    ensures
        grid_rows_shown(row_texts(rows@), hands_in_range@),
{
    let cells = range_grid_cells(hands_in_range);
    let mut rows: Vec<Vec<String>> = Vec::new();
    let mut i: usize = 0;
    while i < 13
        invariant
            i <= 13,
            cells@.len() == 169,
            forall|b: int| 0 <= b < 169 ==> (#[trigger] cells@[b]).0@ == bucket_text(b)
                && cells@[b].1 == lists_text(hands_in_range@, bucket_text(b)),
            rows@.len() == i,
            forall|k: int| 0 <= k < i ==> grid_row_shown(#[trigger] texts(rows@[k]@), k, hands_in_range@),
        decreases 13 - i,
    {
        let mut label = String::new();
        let rc = crate::game_tree::grid_char_exec(i);
        push_char(&mut label, rc);
        let mut row: Vec<String> = Vec::new();
        proof {
            assert(label@ =~= seq![grid_char(i as int)]);
            if label@.contains('\u{1b}') {
                let q = choose|q: int| 0 <= q < label@.len() && label@[q] == '\u{1b}';
            }
        }
        row.push(bold(label.as_str()));
        let mut j: usize = 0;
        while j < 13
            invariant
                i < 13,
                j <= 13,
                cells@.len() == 169,
                forall|b: int| 0 <= b < 169 ==> (#[trigger] cells@[b]).0@ == bucket_text(b)
                    && cells@[b].1 == lists_text(hands_in_range@, bucket_text(b)),
                row@.len() == j + 1,
                shown_as(row@[0]@, seq![grid_char(i as int)], bold_prefix()),
                forall|m: int| 1 <= m < j + 1 ==> cell_shown(#[trigger] row@[m]@, bucket_text(13 * i + m - 1),
                    lists_text(hands_in_range@, bucket_text(13 * i + m - 1))),
            decreases 13 - j,
        {
            let (hand, marked) = (&cells[i * 13 + j].0, cells[i * 13 + j].1);
            proof {
                lemma_bucket_text_plain(13 * i + j);
            }
            let shown = if marked {
                paint_bold(hand.as_str(), Hue::Green)
            } else {
                dimmed(hand.as_str())
            };
            row.push(shown);
            j = j + 1;
        }
        proof {
            assert(grid_row_shown(texts(row@), i as int, hands_in_range@));
        }
        rows.push(row);
        proof {
            assert forall|k: int| 0 <= k < i + 1 implies grid_row_shown(#[trigger] texts(rows@[k]@), k, hands_in_range@) by {
            }
        }
        i = i + 1;
    }
    proof {
        assert forall|k: int| 0 <= k < 13 implies grid_row_shown(#[trigger] row_texts(rows@)[k], k, hands_in_range@) by {
            assert(row_texts(rows@)[k] == texts(rows@[k]@));
        }
    }
    rows
}

/// The grid's header row.
fn grid_header_row() -> (h: Vec<String>)
    ensures
        texts(h@) == grid_header(),
{
    let mut header: Vec<String> = Vec::new();
    header.push(String::new());
    let mut k: usize = 0;
    while k < 13
        invariant
            k <= 13,
            header@.len() == k + 1,
            header@[0]@ == Seq::<char>::empty(),
            forall|m: int| 1 <= m < k + 1 ==> (#[trigger] header@[m])@ == seq![grid_char(m - 1)],
        decreases 13 - k,
    {
        let mut h = String::new();
        push_char(&mut h, crate::game_tree::grid_char_exec(k));
        proof {
            assert(h@ =~= seq![grid_char(k as int)]);
        }
        header.push(h);
        k = k + 1;
    }
    assert(texts(header@) =~= grid_header());
    header
}

/// The 13x13 grid of starting hands under a bold title: the table of
/// `range_grid_rows` under the rank header, laid out for the terminal's width.
pub fn range_grid(hands_in_range: &Vec<String>, title: &str) -> (r: String)
    ensures
        exists|t: Seq<char>, rows: Seq<Seq<Seq<char>>>, width: Option<u16>|
            (!title@.contains('\u{1b}') ==> shown_as(t, title@, bold_prefix()))
            && grid_rows_shown(rows, hands_in_range@)
            && r@ == #[trigger] grid_text(t, rows, width),
        !title@.contains('\u{1b}') ==> exists|t: Seq<char>, rest: Seq<char>|
            shows_text(t, title@) && r@ == "  "@ + t + "\n"@ + rest,
{
    let rows = range_grid_rows(hands_in_range);
    let header = grid_header_row();
    let ghost rows_v = row_texts(rows@);
    let width = terminal_width();
    let table = match width {
        Some(w) => render_table_at(header, rows, w),
        None => render_table_unsized(header, rows),
    };
    let t = bold(title);
    let mut out = String::from_str("  ");
    out.append(t.as_str());
    out.append("\n");
    out.append(table.as_str());
    proof {
        assert(out@ =~= grid_text(t@, rows_v, width));
        if !title@.contains('\u{1b}') {
            assert(out@ == "  "@ + t@ + "\n"@ + table@);
        }
    }
    out
}

/// The grid under a title shown as `t`, laid out for `width`.
pub open spec fn grid_text(t: Seq<char>, rows: Seq<Seq<Seq<char>>>, width: Option<u16>) -> Seq<char> {
    "  "@ + t + "\n"@ + table_text(grid_header(), rows, width)
}

/// `range_grid` for a range given as string slices.
pub fn range_grid_strs(hands_in_range: &[&str], title: &str) -> (r: String)
    ensures
        exists|hs: Seq<String>, t: Seq<char>, rows: Seq<Seq<Seq<char>>>, width: Option<u16>|
            texts(hs) == hands_in_range@.map_values(|h: &str| h@)
            && (!title@.contains('\u{1b}') ==> shown_as(t, title@, bold_prefix()))
            && #[trigger] grid_rows_shown(rows, hs)
            && r@ == #[trigger] grid_text(t, rows, width),
{
    let mut owned: Vec<String> = Vec::new();
    let mut i: usize = 0;
    while i < hands_in_range.len()
        invariant
            i <= hands_in_range@.len(),
            owned@.len() == i,
            forall|k: int| 0 <= k < i ==> (#[trigger] owned@[k])@ == hands_in_range@[k]@,
        decreases hands_in_range@.len() - i,
    {
        owned.push(String::from_str(hands_in_range[i]));
        i = i + 1;
    }
    assert(texts(owned@) =~= hands_in_range@.map_values(|h: &str| h@));
    range_grid(&owned, title)
}

} // verus!
