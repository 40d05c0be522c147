# CyborgPL

A compiler for the CyborgPL language. `src/` is a verified library that takes source text to a list
of instructions, each of which stands for one call of an LLVM builder; `app/` is the command-line
program that reads files, plays the instructions through LLVM, links the result and runs it.

- `text`, `numeral`, `numw`: text, numbers that keep all their digits, and number words such as
  `'1 million'`.
- `token`, `lexer`: tokens and the lines that they are on.
- `ast`, `grammar`, `parser`: the syntax tree, the grammar as mathematics, and the parser that follows
  it.
- `fold`, `typing`, `typecheck`: the value of an `int` expression of literals, the type rules, and the
  checker that reports every problem.
- `ir`, `emit`, `lower`, `layout`, `codegen`, `compile`: the instructions, what each construct of the
  language becomes, and the code that produces it.
- `driver`, `settings`: all stages in a row, and the settings file of a program.
- `machine` says what the instructions on whole numbers, blocks and jumps do when they run, and proves
  that `int` arithmetic is exact or stops the program; `branching` proves that an `if` runs the branch
  that its condition selects and a `while` its body as long as its condition holds, and `variables` that
  a reference reads what was stored.
- the other modules prove what holds of the stages: a comment in front of a source changes only the
  lines, what the parser accepts is well formed, a program without problems always has code, that code
  is well built, blocks take back what they declare, every stored value is its own copy, and temporaries
  and variables are freed once.

The library takes nothing on trust but six functions of the standard library: four about characters
and texts in `text`, the escaped form of a text in `text`, and lower case in `numw`.
