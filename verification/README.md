# sdui

The logic of a server-driven user interface, in verified Rust.

A scene is a JSON file: a tree of frames, texts, images and conditions beside a
state. Texts hold `${..}` expressions, conditions hold predicates, and nodes
hold the mutations that a click runs. The library decides what is shown and what
happens; Verus proves that it does what its contracts say.

| Part                       | Modules                                          |
| -------------------------- | ------------------------------------------------ |
| Values and state           | `value`, `json`, `json_text`, `strmap`, `path`   |
| Expressions                | `engine`, `cel`, `template`, `show`              |
| Scenes                     | `scene`, `resolve`, `flat`, `order`, `ids`, `coord`, `warning` |
| Scene files                | `wire`, `format`, `save`, `scene_text`           |
| Interaction                | `interact`, `mutate`, `session`                  |
| What is shown and told     | `paint`, `surface`, `images`, `ax`, `dump`, `mirror` |
| Tools                      | `args`, `commands`, `number`, `text`             |

Proof functions named `law_..` state what holds across functions. Functions
marked `external_body` call outside crates: the CEL interpreter, `serde_json` and
`accesskit`; their doc comments say what is taken on trust.

`app/` holds the programs: the native window, the web page, the workspace tasks
and the mock server. `tests/` runs the library with the real crates.
