//! The text picture of a game: who is to move, the state of the nine small
//! boards, the full grid of cells, and the game's notation.
use vstd::prelude::*;

use crate::text::push_char;

verus! {

/// One of the two sides.
#[derive(Debug, Clone, Copy, PartialEq, Eq)]
pub enum Player {
    X,
    O,
}

/// The content of one cell.
#[derive(Debug, Clone, Copy, PartialEq, Eq)]
pub enum CellState {
    Empty,
    Played(Player),
}

/// The state of one small board.
#[derive(Debug, Clone, Copy, PartialEq, Eq)]
pub enum BoardState {
    InPlay,
    Drawn,
    Won(Player),
}

/// How a piece of the grid is shown: underlined where it belongs to the
/// board that must be played next.
#[derive(Debug, Clone, Copy, PartialEq, Eq)]
pub enum TextStyle {
    Plain,
    Underline,
}

/// What the picture of a game shows of it.
pub struct GameView {
    /// The side to move, as the game writes it.
    pub player: String,
    /// The state of each small board, boards numbered row by row.
    pub board_states: Vec<BoardState>,
    /// The cells: `cells[9 * board + square]`, squares numbered row by row.
    pub cells: Vec<CellState>,
    /// The board that the next move must be played on, if it is fixed.
    pub board_to_play: Option<usize>,
    /// The game in its text notation.
    pub notation: String,
}

impl GameView {
    /// Nine boards of nine cells each.
    pub open spec fn wf(&self) -> bool {
        &&& self.board_states@.len() == 9
        &&& self.cells@.len() == 81
    }
}

/// The text of a cell.
pub open spec fn cell_text(c: CellState) -> Seq<char> {
    match c {
        CellState::Empty => "."@,
        CellState::Played(Player::X) => "X"@,
        CellState::Played(Player::O) => "O"@,
    }
}

/// The text of a cell: `.` when empty, else the side that played it.
pub fn cell(c: CellState) -> (r: &'static str)
    ensures
        r@ == cell_text(c),
{
    match c {
        CellState::Empty => ".",
        CellState::Played(Player::X) => "X",
        CellState::Played(Player::O) => "O",
    }
}

/// The mark of a small board in the overview: blank while in play, `#` when
/// drawn, else its winner.
pub open spec fn board_mark_text(b: BoardState) -> Seq<char> {
    match b {
        BoardState::InPlay => " "@,
        BoardState::Drawn => "#"@,
        BoardState::Won(Player::X) => "X"@,
        BoardState::Won(Player::O) => "O"@,
    }
}

fn board_mark(b: BoardState) -> (r: &'static str)
    ensures
        r@ == board_mark_text(b),
{
    match b {
        BoardState::InPlay => " ",
        BoardState::Drawn => "#",
        BoardState::Won(Player::X) => "X",
        BoardState::Won(Player::O) => "O",
    }
}

/// The style of a piece of the grid that belongs to the boards `boards`:
/// underlined when one of them is the board to play.
pub open spec fn style_for(to_play: Option<usize>, boards: Seq<usize>) -> TextStyle {
    if exists|i: int| 0 <= i < boards.len() && to_play == Some(#[trigger] boards[i]) {
        TextStyle::Underline
    } else {
        TextStyle::Plain
    }
}

/// The style of the grid pieces that belong to `boards`.
pub fn stylefor(g: &GameView, boards: &[usize]) -> (r: TextStyle)
    ensures
        r == style_for(g.board_to_play, boards@),
{
    let mut i: usize = 0;
    while i < boards.len()
        invariant
            i <= boards@.len(),
            forall|j: int| 0 <= j < i ==> g.board_to_play != Some(#[trigger] boards@[j]),
        decreases boards@.len() - i,
    {
        if g.board_to_play == Some(boards[i]) {
            assert(g.board_to_play == Some(boards@[i as int]));
            return TextStyle::Underline;
        }
        i = i + 1;
    }
    TextStyle::Plain
}

/// The escape code that starts underlined text.
pub open spec fn underline_on() -> Seq<char> {
    seq!['\u{1b}', '[', '4', 'm']
}

/// The escape code that resets the text style.
pub open spec fn style_reset() -> Seq<char> {
    seq!['\u{1b}', '[', '0', 'm']
}

/// Text as it is shown in a style.
pub open spec fn painted(style: TextStyle, t: Seq<char>) -> Seq<char> {
    match style {
        TextStyle::Plain => t,
        TextStyle::Underline => underline_on() + t + style_reset(),
    }
}

/// `ansi_term::Style::default().paint(text)`, written out: a plain style
/// writes no escape codes, so this is the text itself.
#[verifier::external_body]
fn paint_plain(text: &str) -> (r: String)
    ensures
        r@ == text@,
{
    format!("{}", ansi_term::Style::default().paint(text))
}

/// `ansi_term::Style::default().underline().paint(text)`, written out: the
/// text between the codes `ESC [4m` and `ESC [0m`.
#[verifier::external_body]
fn paint_underline(text: &str) -> (r: String)
    ensures
        r@ == underline_on() + text@ + style_reset(),
{
    format!("{}", ansi_term::Style::default().underline().paint(text))
}

/// Text as it is shown in a style.
pub fn paint(style: TextStyle, text: &str) -> (r: String)
    ensures
        r@ == painted(style, text@),
{
    match style {
        TextStyle::Plain => paint_plain(text),
        TextStyle::Underline => paint_underline(text),
    }
}

/// The style of the grid pieces of one board.
pub open spec fn board_style(g: GameView, board: int) -> TextStyle {
    if g.board_to_play matches Some(b) && b == board {
        TextStyle::Underline
    } else {
        TextStyle::Plain
    }
}

/// The `n`-th lower-case letter, `a` being the 0th.
pub open spec fn letter(n: int) -> char {
    (97 + n) as char
}

/// One small board in the overview: its mark, after a separator between
/// boards of a row.
pub open spec fn overview_cell(g: GameView, brow: int, bcol: int) -> Seq<char> {
    (if bcol != 0 {
        " |"@
    } else {
        Seq::empty()
    }) + " "@ + board_mark_text(g.board_states@[3 * brow + bcol])
}

/// The first `n` boards of a row of the overview.
pub open spec fn overview_cells(g: GameView, brow: int, n: int) -> Seq<char>
    decreases n,
{
    if n <= 0 {
        Seq::empty()
    } else {
        overview_cells(g, brow, n - 1) + overview_cell(g, brow, n - 1)
    }
}

/// The letters that name the boards of a row, as the notation names them.
pub open spec fn row_letters(brow: int) -> Seq<char> {
    seq![letter(3 * brow)] + "    "@ + seq![letter(3 * brow + 1)] + "    "@ + seq![
        letter(3 * brow + 2),
    ]
}

/// One row of the overview: the marks of its three boards, then their letters.
pub open spec fn overview_row(g: GameView, brow: int) -> Seq<char> {
    (if brow != 0 {
        "---+---+---\n"@
    } else {
        Seq::empty()
    }) + overview_cells(g, brow, 3) + "      "@ + row_letters(brow) + "\n"@
}

/// The first `n` rows of the overview.
pub open spec fn overview_rows(g: GameView, n: int) -> Seq<char>
    decreases n,
{
    if n <= 0 {
        Seq::empty()
    } else {
        overview_rows(g, n - 1) + overview_row(g, n - 1)
    }
}

/// One cell of the grid, then the space after it, with a bar between boards.
pub open spec fn grid_cell(g: GameView, row: int, col: int) -> Seq<char> {
    let board = 3 * (row / 3) + col / 3;
    let square = 3 * (row % 3) + col % 3;
    let style = board_style(g, board);
    painted(style, cell_text(g.cells@[9 * board + square])) + if col == 8 {
        Seq::empty()
    } else if col % 3 != 2 {
        painted(style, "  "@)
    } else {
        painted(style, " "@) + "|"@ + painted(board_style(g, board + 1), " "@)
    }
}

/// The first `n` cells of a row of the grid.
pub open spec fn grid_cells(g: GameView, row: int, n: int) -> Seq<char>
    decreases n,
{
    if n <= 0 {
        Seq::empty()
    } else {
        grid_cells(g, row, n - 1) + grid_cell(g, row, n - 1)
    }
}

/// One row of the grid, after a rule between rows of boards.
pub open spec fn grid_row(g: GameView, row: int) -> Seq<char> {
    (if row > 0 && row % 3 == 0 {
        "--------+---------+--------\n"@
    } else {
        Seq::empty()
    }) + grid_cells(g, row, 9) + "\n"@
}

/// The first `n` rows of the grid.
pub open spec fn grid_rows(g: GameView, n: int) -> Seq<char>
    decreases n,
{
    if n <= 0 {
        Seq::empty()
    } else {
        grid_rows(g, n - 1) + grid_row(g, n - 1)
    }
}

/// The whole picture of a game.
pub open spec fn render_text(g: GameView) -> Seq<char> {
    g.player@ + " to play:\n"@ + overview_rows(g, 3) + "\n"@ + grid_rows(g, 9) + "notation:\n"@
        + g.notation@ + "\n"@
}

/// The character that shows a cell.
pub open spec fn cell_char(c: CellState) -> char {
    match c {
        CellState::Empty => '.',
        CellState::Played(Player::X) => 'X',
        CellState::Played(Player::O) => 'O',
    }
}

proof fn lemma_cell_text(c: CellState)
    ensures
        cell_text(c).len() == 1,
        cell_text(c)[0] == cell_char(c),
{
    reveal_strlit(".");
    reveal_strlit("X");
    reveal_strlit("O");
}

proof fn lemma_overview_len(g: GameView)
    requires
        g.wf(),
    ensures
        overview_rows(g, 3).len() == 108,
{
    reveal_strlit(" |");
    reveal_strlit(" ");
    reveal_strlit("#");
    reveal_strlit("X");
    reveal_strlit("O");
    reveal_strlit("    ");
    reveal_strlit("      ");
    reveal_strlit("\n");
    reveal_strlit("---+---+---\n");
    assert forall|brow: int, bcol: int| 0 <= brow < 3 && 0 <= bcol < 3 implies #[trigger] overview_cell(
        g,
        brow,
        bcol,
    ).len() == (if bcol == 0 {
        2int
    } else {
        4int
    }) by {
        assert(board_mark_text(g.board_states@[3 * brow + bcol]).len() == 1);
    }
    assert forall|brow: int| 0 <= brow < 3 implies #[trigger] overview_row(g, brow).len() == (
    if brow == 0 {
        28int
    } else {
        40int
    }) by {
        assert(overview_cells(g, brow, 3).len() == 10) by {
            assert(overview_cells(g, brow, 0).len() == 0);
            assert(overview_cells(g, brow, 1).len() == 2);
            assert(overview_cells(g, brow, 2).len() == 6);
        }
        assert(row_letters(brow).len() == 11);
    }
    assert(overview_rows(g, 0).len() == 0);
    assert(overview_rows(g, 1).len() == 28);
    assert(overview_rows(g, 2).len() == 68);
}

/// Where column `c` of the grid starts within a grid row: cells stand 3
/// apart, with one more character at each bar between boards.
pub open spec fn column_offset(c: int) -> int {
    3 * c + c / 3
}

/// Where grid row `r` starts within the grid: rows are 28 characters long,
/// with a rule line of 28 characters before rows 3 and 6.
pub open spec fn row_offset(r: int) -> int {
    28 * r + 28 * (r / 3)
}

/// The length of the rule line before grid row `r`.
spec fn rule_len(r: int) -> int {
    if r > 0 && r % 3 == 0 {
        28
    } else {
        0
    }
}

/// The length of grid rows `0..n` together.
spec fn rows_len(n: int) -> int {
    28 * n + 28 * (if n >= 7 {
        2int
    } else if n >= 4 {
        1int
    } else {
        0int
    })
}

/// The cell of board `3 * (r / 3) + c / 3`, square `3 * (r % 3) + c % 3`.
pub open spec fn cell_at(g: GameView, r: int, c: int) -> CellState {
    g.cells@[9 * (3 * (r / 3) + c / 3) + 3 * (r % 3) + c % 3]
}

proof fn lemma_grid_cell_len(g: GameView, row: int, col: int)
    requires
        g.wf(),
        g.board_to_play is None,
        0 <= row < 9,
        0 <= col < 9,
    ensures
        grid_cell(g, row, col).len() == (if col == 8 {
            1int
        } else if col % 3 != 2 {
            3int
        } else {
            4int
        }),
        grid_cell(g, row, col)[0] == cell_char(cell_at(g, row, col)),
{
    reveal_strlit("  ");
    reveal_strlit(" ");
    reveal_strlit("|");
    let board = 3 * (row / 3) + col / 3;
    let square = 3 * (row % 3) + col % 3;
    assert(0 <= board < 9 && 0 <= square < 9);
    lemma_cell_text(g.cells@[9 * board + square]);
}

proof fn lemma_grid_cells(g: GameView, row: int, n: int)
    requires
        g.wf(),
        g.board_to_play is None,
        0 <= row < 9,
        0 <= n <= 9,
    ensures
        n <= 8 ==> grid_cells(g, row, n).len() == column_offset(n),
        n == 9 ==> grid_cells(g, row, n).len() == 27,
        forall|c: int|
            0 <= c < n ==> #[trigger] grid_cells(g, row, n)[column_offset(c)] == cell_char(
                cell_at(g, row, c),
            ),
    decreases n,
{
    if n > 0 {
        lemma_grid_cells(g, row, n - 1);
        lemma_grid_cell_len(g, row, n - 1);
        let prev = grid_cells(g, row, n - 1);
        let cur = grid_cell(g, row, n - 1);
        assert(grid_cells(g, row, n) == prev + cur);
        assert forall|c: int| 0 <= c < n implies #[trigger] grid_cells(g, row, n)[column_offset(c)]
            == cell_char(cell_at(g, row, c)) by {
            if c < n - 1 {
                assert(column_offset(c) < prev.len());
                assert(grid_cells(g, row, n)[column_offset(c)] == prev[column_offset(c)]);
            } else {
                assert(column_offset(c) == prev.len());
            }
        }
    }
}

proof fn lemma_grid_row(g: GameView, row: int)
    requires
        g.wf(),
        g.board_to_play is None,
        0 <= row < 9,
    ensures
        grid_row(g, row).len() == rule_len(row) + 28,
        forall|c: int|
            0 <= c < 9 ==> #[trigger] grid_row(g, row)[rule_len(row) + column_offset(c)]
                == cell_char(cell_at(g, row, c)),
{
    reveal_strlit("--------+---------+--------\n");
    reveal_strlit("\n");
    lemma_grid_cells(g, row, 9);
    let head: Seq<char> = if row > 0 && row % 3 == 0 {
        "--------+---------+--------\n"@
    } else {
        Seq::empty()
    };
    let cells = grid_cells(g, row, 9);
    assert(head.len() == rule_len(row));
    assert(grid_row(g, row) == head + cells + "\n"@);
    assert forall|c: int| 0 <= c < 9 implies #[trigger] grid_row(g, row)[rule_len(row)
        + column_offset(c)] == cell_char(cell_at(g, row, c)) by {
        assert(column_offset(c) < 27);
        assert(grid_row(g, row)[head.len() + column_offset(c)] == cells[column_offset(c)]);
    }
}

proof fn lemma_grid_rows(g: GameView, n: int)
    requires
        g.wf(),
        g.board_to_play is None,
        0 <= n <= 9,
    ensures
        grid_rows(g, n).len() == rows_len(n),
        forall|r: int, c: int|
            0 <= r < n && 0 <= c < 9 ==> #[trigger] grid_rows(g, n)[row_offset(r) + column_offset(
                c,
            )] == cell_char(cell_at(g, r, c)),
    decreases n,
{
    if n > 0 {
        lemma_grid_rows(g, n - 1);
        lemma_grid_row(g, n - 1);
        let prev = grid_rows(g, n - 1);
        let cur = grid_row(g, n - 1);
        assert(grid_rows(g, n) == prev + cur);
        assert forall|r: int, c: int| 0 <= r < n && 0 <= c < 9 implies #[trigger] grid_rows(
            g,
            n,
        )[row_offset(r) + column_offset(c)] == cell_char(cell_at(g, r, c)) by {
            let pos = row_offset(r) + column_offset(c);
            assert(0 <= column_offset(c) < 27);
            if r < n - 1 {
                assert(rows_len(r + 1) <= rows_len(n - 1));
                assert(pos < prev.len());
                assert(grid_rows(g, n)[pos] == prev[pos]);
            } else {
                assert(pos == prev.len() + rule_len(r) + column_offset(c));
                assert(grid_rows(g, n)[pos] == cur[rule_len(r) + column_offset(c)]);
            }
        }
    }
}

/// The grid shows each cell in its place: where no board is to be played
/// (so nothing is underlined), the character at grid row `r`, column `c` of
/// the picture is the cell of board `3 * (r / 3) + c / 3`, square
/// `3 * (r % 3) + c % 3`. The grid starts 119 characters after the name of
/// the side to move; its rows are 28 characters long, with a rule line
/// before rows 3 and 6; its cells stand 3 apart, with one more character at
/// each bar between boards.
pub proof fn law_grid_cell_position(g: GameView, r: int, c: int)
    requires
        g.wf(),
        g.board_to_play is None,
        0 <= r < 9,
        0 <= c < 9,
    ensures
        ({
            let t = render_text(g);
            let pos = g.player@.len() + 119 + 28 * r + 28 * (r / 3) + 3 * c + c / 3;
            pos < t.len() && t[pos] == cell_char(
                g.cells@[9 * (3 * (r / 3) + c / 3) + 3 * (r % 3) + c % 3],
            )
        }),
{
    reveal_strlit(" to play:\n");
    reveal_strlit("\n");
    lemma_overview_len(g);
    lemma_grid_rows(g, 9);
    let head = g.player@ + " to play:\n"@ + overview_rows(g, 3) + "\n"@;
    let rows = grid_rows(g, 9);
    let tail = "notation:\n"@ + g.notation@ + "\n"@;
    assert(head.len() == g.player@.len() + 119);
    assert(render_text(g) =~= head + rows + tail);
    let p = row_offset(r) + column_offset(c);
    assert(0 <= column_offset(c) < 27);
    assert(p < rows.len());
    assert(rows[p] == cell_char(cell_at(g, r, c)));
    assert(render_text(g)[head.len() + p] == rows[p]);
}

/// Square `q` of board `b` is shown at grid row `3 * (b / 3) + q / 3` and
/// column `3 * (b % 3) + q % 3`: boards are laid out row by row, and so are
/// the squares within each board.
pub proof fn law_board_square_position(g: GameView, b: int, q: int)
    requires
        g.wf(),
        g.board_to_play is None,
        0 <= b < 9,
        0 <= q < 9,
    ensures
        ({
            let t = render_text(g);
            let r = 3 * (b / 3) + q / 3;
            let c = 3 * (b % 3) + q % 3;
            let pos = g.player@.len() + 119 + 28 * r + 28 * (r / 3) + 3 * c + c / 3;
            pos < t.len() && t[pos] == cell_char(g.cells@[9 * b + q])
        }),
{
    let r = 3 * (b / 3) + q / 3;
    let c = 3 * (b % 3) + q % 3;
    assert(r / 3 == b / 3 && r % 3 == q / 3);
    assert(c / 3 == b % 3 && c % 3 == q % 3);
    assert(3 * (r / 3) + c / 3 == b);
    assert(3 * (r % 3) + c % 3 == q);
    law_grid_cell_position(g, r, c);
}

/// The character that marks a small board in the overview.
pub open spec fn mark_char(b: BoardState) -> char {
    match b {
        BoardState::InPlay => ' ',
        BoardState::Drawn => '#',
        BoardState::Won(Player::X) => 'X',
        BoardState::Won(Player::O) => 'O',
    }
}

/// The length of the rule line before overview row `brow`.
spec fn overview_rule_len(brow: int) -> int {
    if brow == 0 {
        0
    } else {
        12
    }
}

proof fn lemma_overview_row(g: GameView, brow: int)
    requires
        g.wf(),
        0 <= brow < 3,
    ensures
        overview_row(g, brow).len() == overview_rule_len(brow) + 28,
        forall|bcol: int|
            0 <= bcol < 3 ==> #[trigger] overview_row(g, brow)[overview_rule_len(brow) + 1 + 4
                * bcol] == mark_char(g.board_states@[3 * brow + bcol]) && overview_row(
                g,
                brow,
            )[overview_rule_len(brow) + 16 + 5 * bcol] == (97 + 3 * brow + bcol) as char,
{
    reveal_strlit(" |");
    reveal_strlit(" ");
    reveal_strlit("#");
    reveal_strlit("X");
    reveal_strlit("O");
    reveal_strlit("    ");
    reveal_strlit("      ");
    reveal_strlit("\n");
    reveal_strlit("---+---+---\n");
    let head: Seq<char> = if brow != 0 {
        "---+---+---\n"@
    } else {
        Seq::empty()
    };
    let c0 = overview_cell(g, brow, 0);
    let c1 = overview_cell(g, brow, 1);
    let c2 = overview_cell(g, brow, 2);
    assert forall|bcol: int| 0 <= bcol < 3 implies overview_cell(g, brow, bcol).len() == (if bcol
        == 0 {
        2int
    } else {
        4int
    }) && overview_cell(g, brow, bcol).last() == mark_char(g.board_states@[3 * brow + bcol]) by {
        let m = g.board_states@[3 * brow + bcol];
        assert(board_mark_text(m).len() == 1);
        assert(board_mark_text(m)[0] == mark_char(m));
    }
    assert(overview_cells(g, brow, 0) =~= Seq::<char>::empty());
    assert(overview_cells(g, brow, 1) =~= c0);
    assert(overview_cells(g, brow, 2) =~= c0 + c1);
    let cells = overview_cells(g, brow, 3);
    assert(cells =~= c0 + c1 + c2);
    let letters = row_letters(brow);
    assert(head.len() == overview_rule_len(brow));
    let row = head + cells + "      "@ + letters + "\n"@;
    assert(overview_row(g, brow) == row);
    assert forall|bcol: int| 0 <= bcol < 3 implies #[trigger] overview_row(g, brow)[
        overview_rule_len(brow) + 1 + 4 * bcol] == mark_char(g.board_states@[3 * brow + bcol])
        && overview_row(g, brow)[overview_rule_len(brow) + 16 + 5 * bcol] == (97 + 3 * brow
        + bcol) as char by {
        assert(row[head.len() + 1 + 4 * bcol] == cells[1 + 4 * bcol]);
        if bcol == 0 {
            assert(cells[1] == c0[1]);
        } else if bcol == 1 {
            assert(cells[5] == c1[3]);
        } else {
            assert(cells[9] == c2[3]);
        }
        assert(row[head.len() + 16 + 5 * bcol] == letters[5 * bcol]);
    }
}

/// The overview shows each small board in its place, and names the boards
/// `a` to `i` row by row: after the line that names the side to move, the
/// mark of board `3 * brow + bcol` stands at `40 * brow + 4 * bcol + 1` and its
/// letter at `40 * brow + 5 * bcol + 16` (overview rows are 28 characters,
/// each after the first preceded by a 12-character rule).
pub proof fn law_overview_positions(g: GameView, brow: int, bcol: int)
    requires
        g.wf(),
        0 <= brow < 3,
        0 <= bcol < 3,
    ensures
        ({
            let t = render_text(g);
            let start = g.player@.len() + 10 + 40 * brow;
            &&& t.subrange(0, g.player@.len() as int) == g.player@
            &&& start + 5 * bcol + 16 < t.len()
            &&& t[start + 4 * bcol + 1] == mark_char(g.board_states@[3 * brow + bcol])
            &&& t[start + 5 * bcol + 16] == (97 + 3 * brow + bcol) as char
        }),
{
    reveal_strlit(" to play:\n");
    lemma_overview_row(g, 0);
    lemma_overview_row(g, 1);
    lemma_overview_row(g, 2);
    let r0 = overview_row(g, 0);
    let r1 = overview_row(g, 1);
    let r2 = overview_row(g, 2);
    assert(overview_rows(g, 0) =~= Seq::<char>::empty());
    assert(overview_rows(g, 1) =~= r0);
    assert(overview_rows(g, 2) =~= r0 + r1);
    let ov = overview_rows(g, 3);
    assert(ov =~= r0 + r1 + r2);
    let head = g.player@ + " to play:\n"@;
    let t = render_text(g);
    assert(t =~= head + ov + ("\n"@ + grid_rows(g, 9) + "notation:\n"@ + g.notation@ + "\n"@));
    assert(t.subrange(0, g.player@.len() as int) =~= g.player@);
    let m = 1 + 4 * bcol;
    let l = 16 + 5 * bcol;
    let rb = overview_row(g, brow);
    assert(rb[overview_rule_len(brow) + 1 + 4 * bcol] == mark_char(
        g.board_states@[3 * brow + bcol],
    ));
    assert(rb[overview_rule_len(brow) + 16 + 5 * bcol] == (97 + 3 * brow + bcol) as char);
    if brow == 0 {
        assert(ov[m] == r0[overview_rule_len(0) + m] && ov[l] == r0[overview_rule_len(0) + l]);
    } else if brow == 1 {
        assert(ov[40 + m] == r1[overview_rule_len(1) + m] && ov[40 + l] == r1[overview_rule_len(1)
            + l]);
    } else {
        assert(ov[80 + m] == r2[overview_rule_len(2) + m] && ov[80 + l] == r2[overview_rule_len(2)
            + l]);
    }
    assert(head.len() == g.player@.len() + 10);
    assert(ov.len() == 108);
    assert(40 * brow + l < ov.len());
    assert(t[head.len() + 40 * brow + m] == ov[40 * brow + m]);
    assert(t[head.len() + 40 * brow + l] == ov[40 * brow + l]);
    let start = g.player@.len() + 10 + 40 * brow;
    assert(start + 5 * bcol + 16 < t.len());
    assert(t[start + 4 * bcol + 1] == mark_char(g.board_states@[3 * brow + bcol]));
    assert(t[start + 5 * bcol + 16] == (97 + 3 * brow + bcol) as char);
}

/// Exactly the cells of the board to play are underlined: the piece of the
/// grid at row `r`, column `c` opens with an escape code just when its board
/// `3 * (r / 3) + c / 3` is the board to play.
pub proof fn law_underlined_board(g: GameView, r: int, c: int)
    requires
        g.wf(),
        0 <= r < 9,
        0 <= c < 9,
    ensures
        grid_cell(g, r, c).len() > 0,
        grid_cell(g, r, c)[0] == '\u{1b}' <==> g.board_to_play == Some(
            (3 * (r / 3) + c / 3) as usize,
        ),
{
    let board = 3 * (r / 3) + c / 3;
    let square = 3 * (r % 3) + c % 3;
    assert(0 <= board < 9 && 0 <= square < 9);
    lemma_cell_text(g.cells@[9 * board + square]);
    let p = painted(board_style(g, board), cell_text(g.cells@[9 * board + square]));
    if g.board_to_play == Some(board as usize) {
        assert(p[0] == '\u{1b}');
    } else {
        assert(p == cell_text(g.cells@[9 * board + square]));
    }
    assert(grid_cell(g, r, c)[0] == p[0]);
}

fn push_letter(r: &mut String, n: u8)
    requires
        n < 9,
    ensures
        final(r)@ == old(r)@.push(letter(n as int)),
{
    let c = (97u8 + n) as char;
    assert(c == letter(n as int));
    push_char(r, c);
}

fn append_overview_row(r: &mut String, g: &GameView, brow: usize)
    requires
        g.wf(),
        brow < 3,
    ensures
        final(r)@ == old(r)@ + overview_row(*g, brow as int),
{
    let ghost start = r@;
    if brow != 0 {
        r.append("---+---+---\n");
    }
    let ghost head = r@;
    assert(head == start + (if brow != 0 {
        "---+---+---\n"@
    } else {
        Seq::<char>::empty()
    }));
    let mut bcol: usize = 0;
    while bcol < 3
        invariant
            g.wf(),
            brow < 3,
            bcol <= 3,
            r@ == head + overview_cells(*g, brow as int, bcol as int),
        decreases 3 - bcol,
    {
        let ghost before = r@;
        if bcol != 0 {
            r.append(" |");
        }
        r.append(" ");
        r.append(board_mark(g.board_states[3 * brow + bcol]));
        assert(r@ == before + overview_cell(*g, brow as int, bcol as int));
        bcol = bcol + 1;
    }
    r.append("      ");
    let ghost before_letters = r@;
    push_letter(r, 3 * brow as u8);
    r.append("    ");
    push_letter(r, 3 * brow as u8 + 1);
    r.append("    ");
    push_letter(r, 3 * brow as u8 + 2);
    assert(r@ =~= before_letters + row_letters(brow as int));
    r.append("\n");
    assert(r@ =~= start + overview_row(*g, brow as int));
}

fn append_grid_cell(r: &mut String, g: &GameView, row: usize, col: usize)
    requires
        g.wf(),
        row < 9,
        col < 9,
    ensures
        final(r)@ == old(r)@ + grid_cell(*g, row as int, col as int),
{
    let ghost before = r@;
    let board = 3 * (row / 3) + col / 3;
    let sq = 3 * (row % 3) + col % 3;
    let style = stylefor(g, &[board]);
    assert(style == board_style(*g, board as int)) by {
        let one = seq![board];
        if g.board_to_play == Some(board) {
            assert(one[0] == board);
        }
    }
    let at = g.cells[9 * board + sq];
    let p = paint(style, cell(at));
    r.append(p.as_str());
    if col != 8 {
        if col % 3 != 2 {
            let gap = paint(style, "  ");
            r.append(gap.as_str());
        } else {
            let gap = paint(style, " ");
            r.append(gap.as_str());
            r.append("|");
            let next = stylefor(g, &[board + 1]);
            assert(next == board_style(*g, board + 1)) by {
                let one = seq![board + 1];
                if g.board_to_play == Some((board + 1) as usize) {
                    assert(one[0] == board + 1);
                }
            }
            let gap2 = paint(next, " ");
            r.append(gap2.as_str());
        }
    }
    assert(r@ =~= before + grid_cell(*g, row as int, col as int));
}

fn append_grid_row(r: &mut String, g: &GameView, row: usize)
    requires
        g.wf(),
        row < 9,
    ensures
        final(r)@ == old(r)@ + grid_row(*g, row as int),
{
    let ghost start = r@;
    if row > 0 && row % 3 == 0 {
        r.append("--------+---------+--------\n");
    }
    let ghost head = r@;
    assert(head == start + (if row > 0 && row % 3 == 0 {
        "--------+---------+--------\n"@
    } else {
        Seq::<char>::empty()
    }));
    let mut col: usize = 0;
    while col < 9
        invariant
            g.wf(),
            row < 9,
            col <= 9,
            r@ == head + grid_cells(*g, row as int, col as int),
        decreases 9 - col,
    {
        append_grid_cell(r, g, row, col);
        assert(r@ =~= head + grid_cells(*g, row as int, col + 1));
        col = col + 1;
    }
    r.append("\n");
    assert(r@ =~= start + grid_row(*g, row as int));
}

/// The picture of a game, as the command line shows it before each move.
pub fn render(g: &GameView) -> (r: String)
    requires
        g.wf(),
    ensures
        r@ == render_text(*g),
{
    let mut r = String::new();
    r.append(g.player.as_str());
    r.append(" to play:\n");
    let ghost head = r@;
    let mut brow: usize = 0;
    while brow < 3
        invariant
            g.wf(),
            brow <= 3,
            r@ == head + overview_rows(*g, brow as int),
        decreases 3 - brow,
    {
        append_overview_row(&mut r, g, brow);
        assert(r@ =~= head + overview_rows(*g, brow + 1));
        brow = brow + 1;
    }
    r.append("\n");
    let ghost mid = r@;
    let mut row: usize = 0;
    while row < 9
        invariant
            g.wf(),
            row <= 9,
            r@ == mid + grid_rows(*g, row as int),
        decreases 9 - row,
    {
        append_grid_row(&mut r, g, row);
        assert(r@ =~= mid + grid_rows(*g, row + 1));
        row = row + 1;
    }
    r.append("notation:\n");
    r.append(g.notation.as_str());
    r.append("\n");
    assert(r@ =~= render_text(*g));
    r
}

} // verus!
