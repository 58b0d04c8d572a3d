# sidebar

A vertical tab sidebar for the zellij terminal multiplexer, written as a
Verus library with a thin plugin around it.

The library (`src/`) holds the sidebar's logic, each function with a
contract that Verus proves:

- `text`: characters, trimming, splitting into lines, decimal numbers, and
  the display width of text (through `unicode-width`).
- `color`: colour texts (`#RGB`, `#RRGGBB`, `rgb(r,g,b)`, palette indexes,
  names) and their escape sequences.
- `style`: inline styles, styled text, width-aware truncation.
- `format`: tmux-like format strings (`#[fg=..,bold]`, `{var}`,
  `{=width:var}`, `#{var}`).
- `layout`: which tabs are shown when they do not all fit.
- `config`: the styling configuration and how configuration entries set it.
- `commands`: the shell commands shown in the footer and their schedule.
- `model`: tabs, panes and the input mode as the sidebar sees them.
- `render`: expanding formats and building the sidebar's lines.
- `state`: the plugin's state machine; events in, actions out.

Laws that relate several functions are public proof functions whose names
start with `law_`.

`app/main.rs` registers the plugin with zellij: it converts the host's
events into the library's, performs the actions the library returns, and
prints the lines it renders. A few pieces stand there rather than in the
library:

- reading a command's interval, a number of seconds written as a float, and
  turning it into a number of one-second ticks (the library gives the
  period used when there is no such number);
- telling the library whether a new mode or tab list differs from the
  previous one: the host's values carry more than the library keeps, so the
  comparison is made on the host's own values;
- asking the host for permissions and subscribing to its events.
