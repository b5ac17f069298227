# ultimattt_cli

The verified core of the Ultimate Tic Tac Toe command line:

- `duration`: durations such as `5m 8s` or `2h3s 1ms`, read into milliseconds.
- `size_arg`: byte sizes such as `1G` or `512MiB`, read into bytes (the unit
  sizes come from the `bytesize` crate).
- `player`: player specifications (`human`, `minimax...`, `subprocess@cmd`)
  and the step an interactive player takes after reading a line.
- `board`: the text picture of a game, with the board to play underlined
  (escape codes from the `ansi_term` crate).
- `error`: the errors of these parsers and the messages printed for them.
- `text`: white space, digits, words and trimming, shared by the above.

`app/main.rs` is the program around it: options, terminal I/O and the game
engines of the `ultimattt` crate.
