# chord_launcher

A keyboard-chord launcher. Each shortcut entry has 3 to 7 arrow keys, a name,
a command or path, and a mode (`t`: run the command in a terminal emulator;
otherwise open the path with `xdg-open`). Typing an entry's arrows launches it;
Enter adds an entry from the typed arrows, Delete marks entries for deletion,
Tab leaves a mode and Esc closes the window.

- `src/` is the verified library: key tokens (`token`), the matching of typed
  arrows against entries and their colours (`matching`), the configuration
  (`config`), launch command lines (`launch`), the state machine the window
  drives frame by frame (`keyboard`) and the laws that relate its steps (`laws`).
- `app/` is the egui window: configuration file I/O, drawing, starting
  processes and restarting after a change.
- `tests/` runs the library on concrete inputs.
