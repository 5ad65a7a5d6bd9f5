# bf5d

An interpreter for 5D Brainfuck With Multiverse Time Travel, verified with Verus.

- `src/parser/`: the grammar of program texts (instructions, C-style comments)
  as spec functions, the parser that reads them and links each `[` with its
  `]` and each `(` with its `)`, and the laws of that linking.
- `src/interpreter/types.rs`: timelines (a tape running both ways, pointers,
  an instruction pointer), the context they run in, one step of a timeline and
  the commands it hands back, all specified over mathematical views.
- `src/interpreter/laws.rs`: laws of the tape, of steps and of commands.
- `src/model.rs`: one step of the whole program, loading and resetting.
- `app/`: the web front end (yew), which drives the library.
