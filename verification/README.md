# ivyTerm

A terminal emulator with Tmux control mode integration.

- `src/` is the library, written and verified with Verus: the control mode
  protocol (`tmux_api`), what windows, tabs and terminals decide
  (`tmux_widgets`, `normal_widgets`, `keyboard`), the configuration
  (`config`, `settings`), window icons (`icon`), the command line (`args`) and
  the style (`application`).
- `tests/` runs the library.
- `app/` is the program around it: GTK widgets, processes, threads and files.

The contracts speak of mathematical values: `line_run` and `data_run` say what
Tmux's output means, `event_step` what an event does to a window, `filtered`
what reaches the screen, `cell_at_start` what a window layout is. The laws, the
public proof functions named `law_...`, say what holds of several of them
together.
