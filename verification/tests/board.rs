use ultimattt_cli::board::{
    cell, paint, render, stylefor, BoardState, CellState, GameView, Player, TextStyle,
};

fn empty_view() -> GameView {
    GameView {
        player: "X".to_string(),
        board_states: vec![BoardState::InPlay; 9],
        cells: vec![CellState::Empty; 81],
        board_to_play: None,
        notation: String::new(),
    }
}

#[test]
fn cell_texts() {
    assert_eq!(cell(CellState::Empty), ".");
    assert_eq!(cell(CellState::Played(Player::X)), "X");
    assert_eq!(cell(CellState::Played(Player::O)), "O");
}

#[test]
fn style_underlines_board_to_play() {
    let mut g = empty_view();
    assert_eq!(stylefor(&g, &[4]), TextStyle::Plain);
    g.board_to_play = Some(4);
    assert_eq!(stylefor(&g, &[4]), TextStyle::Underline);
    assert_eq!(stylefor(&g, &[3]), TextStyle::Plain);
    assert_eq!(stylefor(&g, &[3, 4]), TextStyle::Underline);
    assert_eq!(stylefor(&g, &[]), TextStyle::Plain);
}

#[test]
fn paint_styles() {
    assert_eq!(paint(TextStyle::Plain, "x"), "x");
    assert_eq!(paint(TextStyle::Underline, "x"), "\x1b[4mx\x1b[0m");
}

#[test]
fn render_empty_game() {
    let expected = "X to play:\n   |   |        a    b    c\n---+---+---\n   |   |        d    e    f\n---+---+---\n   |   |        g    h    i\n\n.  .  . | .  .  . | .  .  .\n.  .  . | .  .  . | .  .  .\n.  .  . | .  .  . | .  .  .\n--------+---------+--------\n.  .  . | .  .  . | .  .  .\n.  .  . | .  .  . | .  .  .\n.  .  . | .  .  . | .  .  .\n--------+---------+--------\n.  .  . | .  .  . | .  .  .\n.  .  . | .  .  . | .  .  .\n.  .  . | .  .  . | .  .  .\nnotation:\n\n";
    assert_eq!(render(&empty_view()), expected);
}

#[test]
fn render_game_in_progress() {
    let mut g = empty_view();
    g.player = "O".to_string();
    g.cells[9 * 4 + 4] = CellState::Played(Player::X);
    g.cells[8] = CellState::Played(Player::O);
    g.board_states[2] = BoardState::Drawn;
    g.board_states[6] = BoardState::Won(Player::X);
    g.board_states[7] = BoardState::Won(Player::O);
    g.board_to_play = Some(4);
    g.notation = "x e5/o a9".to_string();
    let expected = "O to play:\n   |   | #      a    b    c\n---+---+---\n   |   |        d    e    f\n---+---+---\n X | O |        g    h    i\n\n.  .  . | .  .  . | .  .  .\n.  .  . | .  .  . | .  .  .\n.  .  O | .  .  . | .  .  .\n--------+---------+--------\n.  .  . |\x1b[4m \x1b[0m\x1b[4m.\x1b[0m\x1b[4m  \x1b[0m\x1b[4m.\x1b[0m\x1b[4m  \x1b[0m\x1b[4m.\x1b[0m\x1b[4m \x1b[0m| .  .  .\n.  .  . |\x1b[4m \x1b[0m\x1b[4m.\x1b[0m\x1b[4m  \x1b[0m\x1b[4mX\x1b[0m\x1b[4m  \x1b[0m\x1b[4m.\x1b[0m\x1b[4m \x1b[0m| .  .  .\n.  .  . |\x1b[4m \x1b[0m\x1b[4m.\x1b[0m\x1b[4m  \x1b[0m\x1b[4m.\x1b[0m\x1b[4m  \x1b[0m\x1b[4m.\x1b[0m\x1b[4m \x1b[0m| .  .  .\n--------+---------+--------\n.  .  . | .  .  . | .  .  .\n.  .  . | .  .  . | .  .  .\n.  .  . | .  .  . | .  .  .\nnotation:\nx e5/o a9\n";
    assert_eq!(render(&g), expected);
}
