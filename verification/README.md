# neoclr

A small CIL runtime toolkit and the front end of the Neo source language,
written in Verus. `src/` is the verified library; `app/` holds the host side:
the debug terminal's input loop, file and console I/O, serde conversions and
the debugger's threads.

## Layout of `src/`

- Source language: `lexer` (tokens), `parser` (types, fields, patterns,
  constraints), `grammar` (the mathematical grammar of expressions and
  statements), `expressions` (the parser of expressions, blocks and
  statements, proved to follow `grammar`), `declarations` and `document`
  (functions, members, records, classes, interfaces and whole documents,
  with record inheritance), `captures` (which lambda variables are captured),
  `frontend`, `syntax`, `tree`. The modules `grammar_facts`, `depth_facts`,
  `step_facts` and `unfold_facts` hold single unfoldings of the grammar
  that the parser's proofs use. `lookup` walks a record's base chain and
  finds inherited methods, `conformance` decides whether one source type
  conforms to another, and `inference` infers a generic call's type
  arguments.
- Runtime values and memory: `value`, `types`, `gc` (the managed heap, a
  `BTreeMap` from identity to value: object
  identities are never reused, collection keeps exactly the reachable
  objects, a heap refuses references that carry another heap's tag; the tag
  is the address of an allocation the heap owns, so live heaps differ in it,
  which rests on the allocator and is not proved) and `gc_laws`.
- CIL: `cil` (instruction decoding, with its framing law), `assembler`
  (types, call targets and declaration signatures, slots, compact
  instructions), `neoil` (one instruction line and its operand),
  `module_text` (type, field, property and function directives) and
  `module_reader` (neoIL module text to a module, line by line, with branch
  targets resolved and field references left to resolve),
  `metadata`, `enums`, `boxed_values`, `delegates`, `arrays`, `checked`,
  `numbers`, `constraints`.
- Host services, their decisions only: `file_io`, `file_streams`,
  `file_requests` (which file service call asks for what), `clock`,
  `execution` (limits and cancellation), `terminal` and `debugger` (the
  debug terminal's commands and views), `fault`, `fault_code`, `text`.

The trusted items that call std, chrono and serde_json say in their doc
comments what is claimed of the outside code. A few functions promise less
than they do, where the answer rests on something outside the library: the
cancellation flag shared between threads, the local time zone, the address
that tags a heap.
