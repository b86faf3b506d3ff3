# sclang

A small LISP-like language for storing text cells that may link to each other,
circularly too, with deterministic reclamation: after every command, every
cell that no symbol reaches any more through links is dropped and counted.
With `(enable-feature debug)`, each dropped cell is reported with its texts
and the drop count.

Commands:

    (store-data name ("text 1" "text 2"))
    (store-data name ("text 1" "text 2" (link-1 link-2)))
    (update-data name ("text 1" "text 2" (link-1 link-2)))
    (show-data name)
    (drop-symbol name)
    (enable-feature debug)

Layout:

- `src/sclang/grammar.rs`: the command grammar, as a specification and as a
  verified parser.
- `src/sclang/command_text.rs`: commands written back as lines, and the proof
  that a written command is read back as itself.
- `src/sclang/sclcelldata.rs`: the cell store (an arena with a symbol table),
  its abstract view, reachability, and the verified mark-and-sweep collector.
- `src/sclang.rs`: the interpreter, whose contract gives the state and answer
  after every command line.
- `src/sclang/properties.rs`: properties of the store proved over the
  interpreter's specification.
- `src/load_test`: a load test that rewires circular cells many times in a
  store standing for the process-wide state (debug flag and drop counter);
  every line it runs is proved accepted, and its contract states the final
  state (three more cells dropped) and the report of the drops.
- `app/`: a console front end that prints reports and reads standard input.
