//! Choosing who plays a side, and what an interactive player's input asks for.
use vstd::prelude::*;

use crate::error::ArgError;
use crate::text::{
    chars_of,
    command_words,
    has_prefix,
    is_word,
    join_words,
    law_split_joined_words,
    split_whitespace,
    starts_with,
    string_of,
    texts,
    trim_end,
    trim_end_string,
};

verus! {

/// Who plays a side, as a player specification on the command line names it.
#[derive(Debug, Clone, PartialEq, Eq)]
pub enum PlayerKind {
    /// A person at the terminal.
    Human,
    /// The built-in minimax engine.
    Minimax,
    /// An engine run as a subprocess, with its command line.
    Subprocess(Vec<String>),
}

/// The player that a specification names: `human`; anything that starts with
/// `minimax`; or `subprocess@` followed by a command line, which is split into
/// words at white space. Any other text is refused.
pub open spec fn player_outcome(s: Seq<char>, r: Result<PlayerKind, ArgError>) -> bool {
    if s == "human"@ {
        r == Ok::<PlayerKind, ArgError>(PlayerKind::Human)
    } else if starts_with(s, "minimax"@) {
        r == Ok::<PlayerKind, ArgError>(PlayerKind::Minimax)
    } else if starts_with(s, "subprocess@"@) {
        r matches Ok(PlayerKind::Subprocess(args)) && texts(args@) == split_whitespace(
            s.subrange("subprocess@"@.len() as int, s.len() as int),
        )
    } else {
        r matches Err(ArgError::BadPlayer(x)) && x@ == s
    }
}

/// Reads a player specification: `human`, `minimax...` or
/// `subprocess@<command line>`.
pub fn parse_player(spec: &str) -> (r: Result<PlayerKind, ArgError>)
    ensures
        player_outcome(spec@, r),
{
    let s = chars_of(spec);
    let human = has_prefix(&s, "human");
    proof {
        reveal_strlit("human");
        if s@ == "human"@ {
            assert(s@.subrange(0, 5) =~= s@);
        }
    }
    if human && s.len() == 5 {
        assert(s@ =~= "human"@);
        return Ok(PlayerKind::Human);
    }
    assert(s@ != "human"@);
    if has_prefix(&s, "minimax") {
        return Ok(PlayerKind::Minimax);
    }
    if has_prefix(&s, "subprocess@") {
        proof {
            reveal_strlit("subprocess@");
        }
        // The command line is what follows the first `@`, the end of `subprocess@`.
        let tail = string_of(&s, 11, s.len());
        let args = command_words(tail.as_str());
        return Ok(PlayerKind::Subprocess(args));
    }
    Err(ArgError::BadPlayer(String::from_str(spec)))
}

/// `subprocess@` followed by words separated by single spaces names a
/// subprocess whose command line is exactly those words, as many as there are.
pub proof fn law_subprocess_arguments(words: Seq<Seq<char>>, r: Result<PlayerKind, ArgError>)
    requires
        forall|k: int| 0 <= k < words.len() ==> is_word(#[trigger] words[k]),
        player_outcome("subprocess@"@ + join_words(words), r),
    ensures
        r matches Ok(PlayerKind::Subprocess(args)) && texts(args@) == words && args@.len()
            == words.len(),
{
    reveal_strlit("subprocess@");
    reveal_strlit("human");
    reveal_strlit("minimax");
    let p = "subprocess@"@;
    let s = p + join_words(words);
    assert(s[0] == 's');
    assert(s != "human"@) by {
        assert("human"@[0] == 'h');
    }
    assert(!starts_with(s, "minimax"@)) by {
        assert(s.subrange(0, 7)[0] == s[0]);
        assert("minimax"@[0] == 'm');
    }
    assert(s.subrange(0, p.len() as int) =~= p);
    assert(s.subrange(p.len() as int, s.len() as int) =~= join_words(words));
    law_split_joined_words(words);
    if let Ok(PlayerKind::Subprocess(args)) = r {
        assert(texts(args@).len() == args@.len());
    }
}

/// `human` names a person at the terminal, and every text that begins with
/// `minimax` names the minimax engine, whatever follows.
pub proof fn law_named_players(t: Seq<char>, r1: Result<PlayerKind, ArgError>, r2: Result<PlayerKind, ArgError>)
    requires
        player_outcome("human"@, r1),
        player_outcome("minimax"@ + t, r2),
    ensures
        r1 == Ok::<PlayerKind, ArgError>(PlayerKind::Human),
        r2 == Ok::<PlayerKind, ArgError>(PlayerKind::Minimax),
{
    reveal_strlit("human");
    reveal_strlit("minimax");
    let s = "minimax"@ + t;
    assert(s != "human"@) by {
        assert(s[1] == 'i' && "human"@[1] == 'u');
    }
    assert(s.subrange(0, 7) =~= "minimax"@);
}

/// Any other text than `human`, `minimax...` and `subprocess@...` is refused,
/// and the error holds the text.
pub proof fn law_other_players_refused(s: Seq<char>, r: Result<PlayerKind, ArgError>)
    requires
        s != "human"@,
        !(s.len() >= 7 && s.subrange(0, 7) == "minimax"@),
        !(s.len() >= 11 && s.subrange(0, 11) == "subprocess@"@),
        player_outcome(s, r),
    ensures
        r matches Err(ArgError::BadPlayer(x)) && x@ == s,
{
    reveal_strlit("minimax");
    reveal_strlit("subprocess@");
}

/// What an interactive player's turn comes to once a line has been read.
#[derive(Debug, Clone, PartialEq, Eq)]
pub enum PromptStep {
    /// The input has ended or failed: the player quits.
    Quit,
    /// The line, without trailing white space, is to be read as a move.
    Move(String),
}

/// The step after a read that gave `read` (the number of bytes, `None` for
/// a failure) and the line `line`.
pub open spec fn prompt_outcome(read: Option<usize>, line: Seq<char>, r: PromptStep) -> bool {
    match read {
        Some(n) if n > 0 => r matches PromptStep::Move(m) && m@ == trim_end(line),
        _ => r is Quit,
    }
}

/// A failed read and the end of input (a read of no bytes) quit; any other
/// read tries the line, without the white space at its end, as a move.
pub proof fn law_prompt_steps(line: Seq<char>, n: usize, r1: PromptStep, r2: PromptStep, r3: PromptStep)
    requires
        prompt_outcome(None, line, r1),
        prompt_outcome(Some(0), line, r2),
        n > 0,
        prompt_outcome(Some(n), line, r3),
    ensures
        r1 is Quit,
        r2 is Quit,
        r3 matches PromptStep::Move(m) && m@ == trim_end(line),
{
}

/// The step after reading a line: `read` is the number of bytes read, or
/// `None` where reading failed. A failed read or an empty one (end of input)
/// quits; otherwise the line, without the white space at its end, is the move
/// to try.
pub fn prompt_step(read: Option<usize>, line: &str) -> (r: PromptStep)
    ensures
        prompt_outcome(read, line@, r),
{
    match read {
        Some(n) => {
            if n == 0 {
                PromptStep::Quit
            } else {
                PromptStep::Move(trim_end_string(line))
            }
        },
        None => PromptStep::Quit,
    }
}

} // verus!
