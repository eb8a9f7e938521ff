# jbc

A compiler for JapalityBean, a small tag-structured language (`@func`,
`@intent:`, sticky `name::Type` bindings, guard conditions, named `@end`
closures), written in Verus.

The library (`src/`) holds the whole pipeline, each stage specified by spec
functions over a mathematical model of its input and proved to compute
exactly that:

- `text`, `lines`: character helpers, source lines and the FNV-1a source hash;
- `lexer`: tokens and lexical diagnostics (bare braces, unknown tags, ...);
- `types`, `expr`, `parser`: sticky types, expressions and function blocks;
- `typeck`: name resolution and type checking (no implicit numeric widening);
- `ir`: lowering to LLVM text IR;
- `pretty`, `json`: the canonical formatter and the JSON renderings;
- `native`: x86-64 machine code in a minimal Linux ELF executable;
- `driver`: the pipeline over several sources, the command line, build plans.

Laws proved about them stand beside the functions they speak of (for
example `lexer::lemma_lex_rejects_braces_and_unknown_tags`,
`parser::lemma_clean_parse_well_declared`,
`driver::lemma_sources_share_namespace`,
`typeck::lemma_duplicate_names_reported`, `native::lemma_elf_layout`,
`types::lemma_type_round_trip`, `types::lemma_sticky_round_trip`,
`pretty::lemma_lex_escaped_string`).

`app/` is the `jbc` command: file and directory handling, process spawning
for the object-file backend, printing, and the rendering of float literals.
