# prepoly

The verified core of the Prepoly compiler and its language server.

`src/` is a Verus library. Its functions have contracts that Verus proves. Four items are
trusted instead: `file_address` in `definition`, which calls `tower-lsp-server`, and in `text`
the specifications of `String::push`, `String::push_str` and of `==` on `str`.

- `lexer`, `token`, `offsets`: source text to tokens.
- `ast`, `types`, `hir`, `typed`: the program model.
- `lower`, `typedecl`, `circular`, `annotate`, `expand`, `unrolled`: modules to a
  program, with type declarations and annotations resolved and loops over fields
  unrolled.
- `traverse`, `tree`, `bindings`, `mutation`, `closure`, `scan`, `spawn`, `ownership`, `precheck`,
  `summaries`, `guards`, `access`, `acquire`, `sharing`: what code binds, mutates and
  captures, and how tasks share data.
- `layout`, `arith`, `plan`, `objects`, `routines`, `copies`, `display`, `monomorph`:
  what the back end emits.
- `document`, `items`, `analysis`, `nav`, `hover`, `signature`, `definition`,
  `completion`, `modules`, `render`, `semantic_tokens`: the editor features.
- `metadata`: the identity of a build.

Each module states what it promises as a whole in public proof functions next to the
functions they speak of.

`app/` is the program around it: the language server, its files, and the emission of
machine code by the library's plans. `app/llvm.rs` needs the LLVM 18 libraries. `tests/`
runs the library on concrete inputs.
