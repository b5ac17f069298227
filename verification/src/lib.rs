//! Argument parsing, player selection and board rendering for the
//! Ultimate Tic Tac Toe command line front end.
use vstd::prelude::*;

pub mod board;
pub mod duration;
pub mod error;
pub mod player;
pub mod size_arg;
pub mod text;

verus! {

/// `std::io::Error`, the error that reading a line may give.
#[verifier::external_type_specification]
#[verifier::external_body]
pub struct ExIoError(std::io::Error);

/// A source of input lines, as standard input is for an interactive player.
///
/// `read_line` appends the next line (with its terminator) to `buf` and
/// returns the number of bytes read; `Ok(0)` means end of input.
pub trait Readline {
    fn read_line(&self, buf: &mut String) -> std::io::Result<usize>;
}

} // verus!
