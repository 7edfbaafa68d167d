# tarmac

A tiling window manager for macOS whose logic is verified with Verus.

- `src/` is the library. It decides everything: where windows go, what a key
  does, what a configuration means, what a request is answered. It touches no
  window itself: it hands out effects and takes readings.
- `app/` carries the effects out through the system's C interfaces, runs the
  configuration script and serves the socket.
- `tests/` runs the library on concrete values.

## Layout of the library

| module     | what it holds |
|------------|---------------|
| `wm`       | the split tree, workspaces, displays, focus, and the window manager's state |
| `config`   | settings, key bindings, window rules, and the managed part of the configuration file |
| `ui`       | the edits that the settings window makes |
| `ipc`      | requests, answers and the event bus |
| `platform` | displays, hotkeys, the border helper and window discovery, as decisions on readings |
| `session`  | actions, tray and reload |

Lengths and positions are whole thousandths of a point.

Each type has a mathematical view, and each function's contract says what it
does to that view. What holds across functions is stated by the public proof
functions named `law_...`, in the `..._laws.rs` files and next to the functions
they speak of.

Four things are taken on trust: `String::push`, `String::push_str`,
`str::to_lowercase`, and the search of the `regex` crate.
