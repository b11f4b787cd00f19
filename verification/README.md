# compiler

A compiler and virtual machine for a small Spanish-keyword language
(`programa`, `vars`, `inicio`, `si`/`sino`, `mientras`/`haz`, `escribe`, …),
written in Verus: the library in `src/` is verified, with its behaviour stated
in `requires`/`ensures` contracts.

- `grammar` — the grammar as spec functions, and a parser proved to accept
  exactly what the grammar accepts and to build the tree that `parse_tree`
  gives for the input.
- `parse_tree` — the parse tree as a value: for each rule, the node, its span
  and the trees of the rules inside it.
- `semantic` — the front end: symbol table and quadruples generated from the
  parse tree, each walker proved against a spec of the compiler state.
- `jumps` — every jump the front end generates gets a target within the code.
- `directory`, `name_map` — the function directory, variables and constants
  with their memory segments.
- `quadruples` — the quadruple generator: operand and operator stacks,
  temporaries, jumps and their back-patching.
- `obj_writer`, `obj_reader`, `obj_laws` — the object file: written in a fixed
  order, read back line by line, and proved to read back what was written.
- `machine` — what the virtual machine decides: the kind of each quadruple, the
  memory of each address, parameter slots, and the stacks of calls.
- `text`, `constants` — text helpers and the names and segments of the language.

`app/` holds the program around the library: reading and writing files, and the
running loop of the virtual machine, whose values include floating-point
numbers.
