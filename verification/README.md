# kate_bot

A Discord bot for learning Japanese vocabulary. It runs multiple choice
games over a JLPT-annotated JMdict dictionary and a verb transitivity
game, and it builds that dictionary by combining JMdict with the JLPT word
lists.

## Layout

- `src/` is the library, written in Verus: the dictionary model and its
  annotation, the question builders, scoreboards, button ids and their
  parsers, the setup forms and the step functions that decide what a
  running game does next. Every function there carries a contract that
  Verus proves. The calls into `rand`, `regex`, `uuid` and `urlencoding`
  go through small trusted wrappers whose contracts say what those crates
  document.
- `app/` is the program around the library: the Discord commands and
  event loops (poise, serenity, tokio), reading the dictionary and the
  verb lists from disk, drawing prompts as images, and logging.
- `tests/` runs the library on concrete values.
