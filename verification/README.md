# rh compiler, verified

A compiler for the small Rh language, written in Verus:

- `src/compiler/lexer.rs`, `src/compiler/error.rs`: the tokens the parser
  reads, and the errors it reports.
- `src/compiler/parser.rs`: the recursive-descent parser from tokens to a
  `TokenNode` tree. Every parsing function is specified by a `parse_*`
  spec function over the token sequence and the cursor, which says the
  tree it builds, or the error it reports, and where it leaves the cursor.
  `program_checked` parses any token stream and returns `None` exactly where
  the parser would panic: where it reads past the last token or the last
  recorded line, or makes a node of a token that is no node kind, which
  `parse_program` calls `Stuck`; `program`, `scope` and
  `statement` ask their callers to rule that out.
- `src/compiler/code_gen.rs`: the code generator from the tree to AArch64
  assembly text. Every generating function is specified by a `gen_*` spec
  function over the generator's state (`HandlerView`), which says the state
  after it; `fmt_scopes` specifies the final text.
- `src/compiler/text.rs`: decimal numerals, line splitting and trimming,
  with their meaning stated over sequences of characters.
- `app/lib.rs`: printing of the parse tree and of the generated blocks.

The proof functions named `law_*` state properties of the library as a
whole: for example that every block of generated code opens with its own
label (`law_blocks_keep_labels`), that an expression's code leaves exactly
one value on the stack (`law_expr_one_slot`), that the output text is
trimmed (`law_output_trimmed`), that an expression's code only adds to the
block being written (`law_expr_appends`), that a block's code is that of its
two halves in a row (`law_block_concat`) and ends at a `return`
(`law_return_ends_block`), and what registering and declaring a function
leave in the frames (`law_function_registered`,
`law_function_declare_frames`), and that every frame's parent comes before
it (`law_new_frame_parents_first`).

## Node kinds of the parser and of the generator

- The parser turns a statement `x op value;` into `Assignment(x)`: the token
  after the name is skipped, whatever it is, and the node's children are a
  leaf made from the value's first token, then the value's tree. Where that
  first token is no node kind (a `(`, say), making the leaf panics, which
  `parse_assignment` counts as `Stuck`.
- The code generator stores into a variable from a node that carries the
  operator: `AssignmentOp(op)` over the target (`Id(x)` or a dereference)
  and the value. `+=`, `-=`, … generate a load, an operation and a store,
  while `=` only stores. The parser does not build this node kind.
- A function declaration becomes `FunctionDecaration((name, return_type))`,
  and its body is parsed as a block of kind `ScopeType::Function(return_type)`,
  since a `return` is only generated inside a function block.
