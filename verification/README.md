# huii

`huii` turns small intent scripts into runnable Rust programs. A blueprint
(`.hbp`) declares schemas, enumerations and flow signatures; an agent script
(`.has`) lists the intent of a flow line by line, either after a YAML front
matter block that declares its inputs and outputs, or as an intent script
with `func` and `flow` blocks. Simple intents are turned into code
by templates; the others are handed to a local model, whose answer is
compiled, and fed back with the compiler's errors until it compiles or the
attempts run out. Code that compiled is recorded in a lock file keyed by the
BLAKE3 hash of the script, so an unchanged script is not generated again.

## Layout

- `src/` is the library, verified with Verus:
  - `text.rs`: the string toolkit the rest is written with (trimming,
    searching, lines, UTF-8 lengths), each operation with its specification;
  - `parser/`: the syntax tree and its model, and the three front ends
    (blueprints, intent scripts, and scripts with a front matter block), each
    a function on characters proved against a grammar written as spec
    functions;
  - `codegen/`: the templates;
  - `context/`: the registry of schemas and flows and the prompts built from
    it;
  - `compiler/`: the condensed compiler report fed back to the model;
  - `lock/`: the source hash;
  - `cli/`: the decisions of the `run` command: reuse of a lock record,
    template before model, the request of each attempt and the code made
    from the answer, the generate-and-compile loop as a state machine, and
    the lock record written afterwards;
  - `ai/`: the grammar that constrains the model's output.
- `app/` is the program around it: command-line parsing, files, the HTTP
  calls to the model, running `rustc`, and the YAML and JSON formats.
- `tests/` exercises the library on concrete inputs.
