# cust

`cust` is a Cargo-style build system for C. A crate has a `Cust.toml`, a
library in `src/lib.c`, a binary in `src/main.c`, or both. Sources declare
modules with `#cust mod name;` and import them with `#cust use crate::name;`;
`cust` lowers those directives to plain C, makes the headers that the imports
stand for, and builds a workspace of such crates with CMake and Ninja.

The library in `src/` decides everything that does not touch the machine, and
is verified with Verus. The program in `app/` reads the command line and the
disk, runs the tools, and asks the library what to do.

## Modules

| Module | What it does |
| --- | --- |
| `manifest` | manifests: the rules, dependency specs, what a crate produces |
| `workspace` | members, dependency edges, build order, what a build produces |
| `mod_scanner` | finds `#cust` directives in C sources and lowers them |
| `written`, `parts` | directives as they are written, sources put together from parts |
| `line_map`, `rescan` | what the compiler and a second scan see after lowering |
| `modules` | the modules of a crate, their imports, their cycles |
| `graph`, `order`, `schedule` | orders, components and cycles of dependency graphs |
| `generate` | surfaces, lowered sources and public headers |
| `test_scanner`, `test_discovery`, `test_runner` | tests: finding, listing and running them |
| `profile`, `clang`, `plugin`, `build` | flags, tools and outputs of a build |
| `build_graph` | what is made of every member, and from what |
| `cmake_emit` | the build file |
| `stamp` | when the build file is written again |
| `lock` | the lock file |
| `diag_rewrite` | diagnostics of the build tools |
| `cli`, `new`, `plugin_build` | what the commands ask for, decide and report |
| `target_layout`, `paths`, `text` | places in `target/`, paths, texts |

Every public function states what it returns for every input. Functions whose
names start with `law_` state what holds between several of them, such as that
a lowered source keeps its line numbers, or that a build order puts every
dependency first.

## What is trusted

What Verus cannot see is stated without proof in five places. `String::push` of
the standard library appends a character. The debug forms of a text and of a
character and the wording of a failed number parse (`text`), and the SHA-256
digest of the `sha2` crate (`stamp`), are named and not described: the library
relies on their being functions of what they are given, on plain text being
quoted as it is, and on the length of the digest.
