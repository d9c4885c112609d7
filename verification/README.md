# prism

Prism is a small teaching language. This crate is its compiler and virtual
machine, with their contracts proved:

- `lexer`, `parser`: source text to tokens, tokens to functions;
- `ctrlflow`: every function must return on every path;
- `typecheck`: the type checker;
- `codegen`: functions to assembly, with the constant and string pools;
- `assembly`: assembly with labels to byte code (`assembler` holds the older
  six-byte instruction format);
- `vm`, `wrapped_val`, `array`: the byte-code machine and its values; work on
  decimals is handed to the caller, who answers with the host's floating point;
- `run`: the whole pipeline from source text to a loaded machine;
- `decimals`: decimal literals, whose bits the host reads from their text;
- `checked`: a program that passes the checks gets code from the generator
  and compiles to byte code, within the generator's limits;
- `blockdata`, `layout`: the blocks of the block editor, and their layout;
- `tester`: checking a learner's program against a level's tests.

`app/` is the command-line front end: it reads files, answers the machine's
decimal work and prints.
