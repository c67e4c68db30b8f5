# test_script

An interpreter for a small language in which input/output tests of programs are
written: a test names a command, sends lines to it with `input` and expects lines
from it with `output`. The language has typed variables and constants, blocks,
conditionals, `for` loops over the texts a regular expression matches, functions
and the usual operators.

The library in `src/` is verified with Verus:

- `lexer`, `token`: source text to tokens, with the exact tokenisation stated.
- `parser`, `environment`: tokens to the syntax tree (`instruction`), with the
  scopes of names, warnings and errors.
- `type_checker`: the type rules, stated as a function over check states.
- `interpreter`, `values`, `operators`, `binary`: what running a program does,
  stated as a run over states; outside work is recorded as actions.
- `regex`: the texts a regular expression stands for, up to a length.
- `process`: the lines a test sends and expects.
- `report`: the texts of errors, warnings and instructions.

`app/` holds the program around the library: arguments, files, the processes
under test, printing, and float arithmetic.
