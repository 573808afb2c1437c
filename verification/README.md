# jclang

A compiler for JCLang, a small scripting language, into JustMC module JSON,
with its logic verified by Verus.

```ts
game a;                      // a global variable (line, local, game, save, var)

function test1(x, y) {       // function or process, with parameters
    local b = 123;           // a value only inside a handler
    local c = "hello";
}

event<player_join> {
    player::message(["hello", "world"]);   // an action from the catalogue
    test1();                               // takes test1's variables in
    var greeting = m"<red>hi";             // p, l (default), m, j: text parsing
    player::message([c, g`score`]);        // ln, l, g, s: explicit variables
    player::has_privilege!("VIP") {        // a condition; `!` inverts it
        player::message([value::name]);    // value::name: a game value
    }
    local spot = location(1, 64, 1, 0, 0); // factories: location, vector,
}                                          // potion, particle, sound
```

## Layout

- `src/` — the verified library:
  - `lexer.rs`: source text to tokens (`tokenize`, specified by `spec_tokenize`);
  - `parser.rs`: tokens to statements (`Parser`, specified by `spec_program`);
  - `codegen.rs`: statements to the module document (`Codegen`, specified by
    `spec_generate`), with the catalogue lookup of `actions.rs`;
  - `compiler.rs`: the three steps in a row (`compile`);
  - `source.rs`: the source lines shown with a diagnostic;
  - `laws.rs`: properties proved of all inputs;
  - `ast.rs`, `json.rs`, `text.rs`: the syntax tree, the JSON document, string helpers.
- `tests/` — tests of the library on concrete programs.
- `app/` — the `jclang` command: `jclang <file.jc> [-u] [-o]` reads the file and
  the catalogue `data/actions.json`, prints diagnostics, and with `-o` prints the
  module JSON, with `-u` uploads it to JustMC and prints the import command.
