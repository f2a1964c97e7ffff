# tmux_thumbs

The logic of tmux-thumbs, verified with Verus: the session that swaps the
active tmux pane with a hidden pane where `thumbs` lets the user pick hints,
and the hint picker itself.

- `src/swapper.rs`: `Swapper`, the session state. Each step hands back the
  command to run (a program and its arguments) and takes back what it printed;
  the contracts state every command exactly, how tmux's report of the active
  pane is read, what is shown of the captured pane, and what is run on the
  picked hints (the text only ever reaches bash as an argument). The steps
  that change a swapper are modelled as `SwapperStep`s, and a law states that
  the channel `wait_thumbs` waits on is the one the pane of `thumbs` signals,
  whatever steps come between.
- `src/options.rs`: reading `@thumbs-*` lines of `tmux show -g`.
- `src/view.rs`: the hint picker as a state machine over keys.
- `src/layout.rs`, `src/width.rs`: what is drawn where (rows, and for each
  match on the screen its place, text, colours and hint), and line widths.
- `src/text.rs`, `src/numbers.rs`: the string and number routines the rest
  is built on, each with its specification.
- `app/`: the program: it runs the commands, reads the terminal and draws.
