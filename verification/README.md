# remacs

The data structures and primitives of an Emacs core, written in Verus:
each primitive carries a contract over a model of the editor state, and
Verus proves the code against it.  Where a result comes from an outside
crate (the hash digests, the random generator) the contract names that
result rather than computing it; the doc comment of each such item says
what it leaves unsaid.

Layout:

- `src/` is the verified library.  `tag` and `heap` define Lisp words and
  the heap of cons cells, strings and vectors; `tails` walks lists with
  cycle detection; `lists`, `equal`, `plist` and `fns` hold the list
  primitives, `equal`, features and their laws; `chartab` and `casetab`
  the char tables; `marker`, `buffers`, `editfns`, `cmds` and `multibyte`
  buffers, markers and positions; `frames` and `windows` the window tree;
  `process`, `symbols`, `numbers`, `math`, `strings`, `undo`,
  `kbd_macros`, `crypto` and the smaller modules the rest.
- `tests/` runs the library on concrete values.
- `app/` holds what stands around the library: the shared random
  generator, the driver loops of `require` and `execute-kbd-macro`, which
  hand loading and the command loop to the Lisp runtime, and the
  floating-point wait of `sleep-for`.
