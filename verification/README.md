# hcompiler

A SysY compiler core, verified with Verus: an arena-based SSA IR, an IR
generator from the SysY syntax tree, an LLVM-style IR printer and a
RISC-V assembly generator.

Layout of `src/`:

- `ast.rs`: the SysY syntax tree (floats held as their bit patterns).
- `ir/`: the IR. A `Module` owns every value in one arena; handles are
  indices. `Module::wf` is the invariant every operation keeps (types
  interned, indices in range, def-use lists exact). `ir_printer.rs` states
  the printed text of every item as a spec function; `printable.rs` decides
  when a module can be printed.
- `irgen/`: the generator. `IRGenerator::inv` (well-formed, printable
  module; scopes binding only existing values; the insertion block inside
  the current function) holds after every visit, and every visit only grows
  the module. Constant folding is exact on integers; float arithmetic is
  left to a `FloatArith` implementation.
- `asmgen/`: RISC-V code generation; `AsmGen::run` appends exactly
  `program_lines` of the module.
- `strutil.rs`: string building with exact contracts.

`app/main.rs` is the command line around the library; `tests/` exercise
the library on concrete programs.
