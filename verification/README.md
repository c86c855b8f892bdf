# combat

Rules of a turn-based combat on a hex board, written and proved in Verus. The
library sits between three things: a combat engine that resolves actions, an
entity world that shows what happens, and an AI that plays one side.

`src/` is the library. Contracts say what functions return or change; where dice are
rolled, they say which ones, and what follows from what they show. Properties that
span several functions are public proof functions whose names begin with `law_`.

| Part | Modules |
| --- | --- |
| Vocabulary | `ids`, `hex`, `content`, `state`, `events`, `text`, `positions` |
| Tags of abilities and statuses | `tags`, `classify`, `tag_cache` |
| What casts and moves lead to | `effects_math`, `outcome`, `movement`, `forecast` |
| Engine to display and back | `queues`, `translate`, `process`, `templates`, `bootstrap`, `project`, `phases` |
| Turns | `effects`, `cleanup`, `auras`, `session` |
| Player | `command_input`, `legality`, `popup` |
| What the AI knows | `ai_tags`, `ai_cache`, `snapshot`, `reservations`, `influence` |
| What the AI weighs and decides | `ranking`, `targets`, `candidates`, `pool`, `spending`, `deliberation`, `decisions`, `tactics`, `explain` |

Scores of the AI are floating point and live outside the library. The library takes
them as integers of which only the order counts.

Six functions call other crates and are trusted to do what their contracts say: the
bits and the short text of a Bevy entity (`ids`, `explain`), and distance,
neighbors, range and main direction of `hexx` (`hex`). Dice are rolled by whoever
implements `DiceSource`.

`app/` holds what surrounds the library: components and systems of Bevy, influence
maps and scores, and records for serde. `tests/` runs the library with the real
crates.
