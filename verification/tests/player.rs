use ultimattt_cli::error::ArgError;
use ultimattt_cli::player::{parse_player, prompt_step, PlayerKind, PromptStep};

#[test]
fn player_human_and_minimax() {
    assert_eq!(parse_player("human"), Ok(PlayerKind::Human));
    assert_eq!(parse_player("minimax"), Ok(PlayerKind::Minimax));
    assert_eq!(parse_player("minimax-deep"), Ok(PlayerKind::Minimax));
}

#[test]
fn player_subprocess_command_line() {
    assert_eq!(
        parse_player("subprocess@ ./engine  --depth 4\t"),
        Ok(PlayerKind::Subprocess(vec![
            "./engine".to_string(),
            "--depth".to_string(),
            "4".to_string()
        ]))
    );
    assert_eq!(parse_player("subprocess@"), Ok(PlayerKind::Subprocess(vec![])));
    assert_eq!(
        parse_player("subprocess@a@b c"),
        Ok(PlayerKind::Subprocess(vec!["a@b".to_string(), "c".to_string()]))
    );
}

#[test]
fn player_refused() {
    for bad in ["", "humans", "Human", " human", "subprocess", "mini"] {
        assert_eq!(parse_player(bad), Err(ArgError::BadPlayer(bad.to_string())), "input {:?}", bad);
    }
    assert_eq!(parse_player("robot").unwrap_err().message(), "bad player spec: robot");
}

#[test]
fn prompt_quits_at_end_of_input_or_error() {
    assert_eq!(prompt_step(Some(0), ""), PromptStep::Quit);
    assert_eq!(prompt_step(None, "a1\n"), PromptStep::Quit);
}

#[test]
fn prompt_trims_the_line() {
    assert_eq!(prompt_step(Some(4), "e5 \n"), PromptStep::Move("e5".to_string()));
    assert_eq!(prompt_step(Some(3), "e5"), PromptStep::Move("e5".to_string()));
    assert_eq!(prompt_step(Some(6), " e5\u{3000}\r\n"), PromptStep::Move(" e5".to_string()));
}

#[test]
fn prompt_trailing_space_law_example() {
    assert_eq!(prompt_step(Some(8), "a9 b1"), prompt_step(Some(8), "a9 b1 \t\n"));
}
