# ichigo

A terminal HTTP client. Requests are kept as YAML files, in `.ichigo/` for a project
or in `~/.config/ichigo/` for a user, and are run by name from the shell or from a
terminal interface that browses, edits and load tests them.

The project is a Verus library with a thin program around it.

- `src/` is the library: what a request means, how a cURL command is read and written,
  how text fields are edited, what every key does, and what every pane shows. It is
  written in Rust and verified by Verus; each public function states in its contract
  what it returns, and the laws that hold across functions are public proof functions
  whose names begin with `law_`.
- `app/` is the program: arguments, files, the network, the terminal, the clipboard.
- `tests/` runs the library, with the crates it calls linked.

## How the library is laid out

| Modules | Subject |
| --- | --- |
| `text`, `unicode`, `order`, `strmap`, `strset`, `caret` | Text, orders, maps and places in text |
| `request`, `config`, `commands`, `entries`, `tree` | Requests, where they are kept, and how they are listed |
| `vars`, `utils`, `runner`, `answers`, `tester` | Placeholders, sending, responses, chains and load tests |
| `shell`, `weburl`, `curl_*`, `curl` | cURL commands |
| `edit`, `edit_laws`, `keys` | Text fields with vim motions |
| `form`, `panes`, `sub_panes`, `response` | The forms and the response pane as state machines |
| `app`, `app_keys`, `app_outcomes`, `app_laws` | The whole interface as a state machine |
| `theme`, `theme_curve`, `view*` | Colours, styled lines and panes |
| `media`, `clipboard` | Images and the clipboard |

The library does no input or output. A key, a paste, a mouse event or the outcome of
outside work goes into [`app`](src/app.rs); the next state and an action to perform
come out, and the program performs it.

What the library takes from other crates stands behind functions that Verus does not
read; their doc comments say what is believed of the call, and their names can be
found by searching for `external_body`.
