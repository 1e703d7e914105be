# gs_core

A bytecode virtual machine for scripting languages, with its program
format, heap, garbage collector and debugging listings, written in Verus.
The library in `src/` is verified by Verus: the functions it defines are
proved against their contracts, and the traits through which a language
plugs in (objects, runtime, native methods) declare what their
implementations are relied on for; some of their methods declare nothing.

Layout:

- `src/streams`: the block-allocated byte stream that holds bytecode, with
  integers, booleans, characters and UTF-16 strings, and the laws that what
  is written reads back.
- `src/program`: functions with their catch blocks, the program (string
  constants, functions, types, native methods), the heap, the context that
  native code and language runtimes see, and the binary program format
  with the law that a stored program loads back.
- `src/vm`: values and built-in types, instruction decoding, threads and
  call frames, the interpreter (`Gvm::fetch_and_decode`, specified
  instruction by instruction in `vm/semantics.rs`), the error messages, and
  the `Runtime` trait through which a language adds its types, exception
  values and native methods.
- `src/gc`: the mark-and-sweep collector; objects that threads hold survive.
- `src/debug`: the plain listing and the disassembly of programs.
- `src/bridge`: native modules and their registry.
- `app/`: what talks to the outside world: the scheduler loop with tracing,
  breakpoints and process exit, reading and writing streams and programs,
  printed listings, floating-point values in streams, and a runtime
  assembled from exception handlers, native methods and language types.

Design notes:

- Values carry their type (`ValueType`: its name, the kind that performs
  its operations, and the set of operations it supports). Operations,
  invocation and field access dispatch on the type a value carries, so a
  value keeps the type it was made with, also when a type of the same name
  is registered later or when its type was never registered. `LDC_D` and
  `NEW` look types up by name among the registered ones.
- A native method runs with a context over the machine's own heap and its
  program without the native methods, with the number of native methods as
  its offset; the ones it registers are appended after the existing ones.
  `Gvm::gc_ran` says whether the collector ran in the last step.
- Collections keyed by a name are vectors searched by name, with "no name
  occurs twice" in their well-formedness: the native registry, the types a
  program registers, and the string table that the program writer builds.
  With `String` keys, vstd's specification of std's hash maps lets Verus
  prove next to nothing (not even the length after one insert), so a map
  keyed by name would leave these contracts unproved. The vectors
  behave as the maps would (a second registration of a name replaces the
  first; one entry per name) and let that be proved. The heap is keyed by
  integer references and is a `HashMap<i32, _>`.
