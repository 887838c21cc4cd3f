# forge

A local CI/CD runner: it reads a pipeline from a YAML file and runs its stages in
Docker containers on the local machine.

The rules of the runner are a library, verified with Verus. The program around it
reads files, talks to Docker and draws on the terminal.

## Layout

- `src/` is the library. It performs no input or output. It decides what is to be
  done, hands out actions, and takes back what came of them:
  - `config`, `validate`, `select`, `schedule`, `resolve`: which stages a
    configuration has, whether it is sound, and in which order the stages run;
  - `container`, `docker`, `runner`, `execution`: what a container is given, what
    the daemon's answers mean, and how outcomes add up to results;
  - `result`, `output`, `persist`: results, reports and run history;
  - `monitor`, `logger`, `tui`, `screen`: what the user sees during a run;
  - `cache`, `secrets`, `env`: the build cache and the variables of a container;
  - `cli`, `launch`, `init`: the commands;
  - `text`, `numbers`, `order`, `scan`, `paths`, `paint`, `clock`, `ident`: what
    the others build on.
- `app/` is the program.
- `tests/` holds the tests of the library.

## What is trusted

Four small functions call code that is not verified, and each says what it takes
for granted: `clock::print_seconds`, `ident::random_uuid`, `logger::decode_lossy`
and `persist::text_of_bytes`. `text` adds a specification for `String::push`.
