# kyute

The core logic of the kyute UI toolkit, verified with Verus: text editing
(UTF-8/UTF-16 offsets, word and grapheme movement, the editor's reaction to
input events), selections, the arena node tree and the propagation of change
flags, the compositor's layer stack, event subscriptions and models, callback
scheduling and timers, keyboard focus, borrow counters, and element state.

- `src/` is the library. Its functions are verified, except the small
  trusted wrappers (marked `external_body`) that make the calls into slotmap,
  unicode-segmentation and std (`RefCell`, `Rc`/`Weak`, integer parsing);
  their contracts are stated in their doc comments.
- `tests/` exercises the library on concrete values.
- `app/` runs it on a thread: the per-thread application state, the clock,
  callback and event dispatch, and keyboard input for text editors.

Rendering (skia), windowing (winit, Windows composition) and float-based
layout are not part of the library.
