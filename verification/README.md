# physics_rust

The decision-making core of a 2D physics playground, written in Verus and proved
against its contracts.

- `src/` is the verified library:
  - `console` — the script console: submitted lines, history browsing with a kept draft,
    printed output.
  - `keys` — the names and characters scripts receive for keyboard events.
  - `kind` — object kinds and the titles of selection windows.
  - `selection` — what a pick does to the selection (groups, springs and their handles,
    toggles, context menus).
  - `pointer` — the mouse buttons as a state machine: which tool a press takes, what a
    held button does each frame, which gesture a long or moving press starts, and what a
    release does.
  - `attach` — where fix joints, axles, lasers, thrusters and tracers attach.
  - `weld` — union–find over fix joints and the plan of welded bodies.
  - `scene` — scene files: plain scripts or zip archives holding `scene.phn`.
  - `script` — the host side of the scripting runtime: errors, load ids of a loading
    scene, native object ids, method ids and property access rules.
  - `rng`, `text`, `ids` — the colour generator, text helpers, entity lists.
- `tests/` exercises the library on concrete values.
- `app/` is the Bevy glue: it converts window input and ECS data to the library's plain
  values and applies the answers.
