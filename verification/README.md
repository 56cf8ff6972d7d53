# cerune_lang

Verified front-end stages of Cerune, a small statically typed language.
Every function under `src/` is checked by Verus against its `requires` /
`ensures` contract.

| module | what it does |
| --- | --- |
| `types` | integer and conversion types: names, bit widths, ranges, policies |
| `ast`, `source`, `diagnostic` | the syntax tree, source ranges and errors |
| `text` | character-sequence helpers (decimal notation, `::` paths) |
| `copy` | copies of syntax trees |
| `iteration` | expansion of `for … in` over arrays into an indexed `for` |
| `constants` | dependency order of constants, with cycle and depth checks |
| `array_lengths` | array lengths written as constant names |
| `generics` | instantiation of generic functions, with shared instances |
| `sums` | lowering of enums to tagged products and of `match` to tests |
| `modules` | joining several files: program-wide names and imports |
| `embedding` | finding a function of a compiled program by name |
| `cli` | the command-line grammar |
| `c_literals` | 64-bit integer constants in generated C |
| `ir` | the checked program as the code generators read it |
| `c_lower` | C declarations: C types, array structs, definition order, names |
| `llvm_lower` | LLVM types, arithmetic and comparison operations, stack slots |
| `wat_lower` | WebAssembly scalar types, type sizes, field offsets, binding places |

The contracts are verified by running Verus on `src/lib.rs`; the tests under
`tests/` exercise the library on concrete programs.
