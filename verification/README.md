# peal

Raise a desktop notification from the terminal, by sending the one escape sequence
(OSC 9, OSC 777 or OSC 99) that the terminal in front of you understands.

```console
$ peal --title peal "build finished"
$ peal --name build "compiling"     # sending again under the same name replaces it
$ peal doctor                       # what peal sends here, and why
$ peal probe                        # measure a terminal the table does not know
```

## Layout

- `src/` is the library, written in Verus. Every decision peal makes is a function
  there with a contract that pins its result down, and the properties that span
  functions are stated and proved as lemmas next to the code they speak of:
  - `lib.rs` — the capability table: what each dialect carries, which terminals
    accept which dialects.
  - `detect` — telling terminals apart: parsing the XTVERSION reply, reading the
    environment, wrapping queries for tmux, and the decision that combines them.
  - `notify` — choosing the simplest dialect that carries what was asked for,
    reshaping the notification to fit it, and assembling the bytes.
  - `doctor`, `probe` — the two reports, as text.
  - `cli` — reading the command line.
  - `text`, `search` — the string and sequence helpers the rest is proved with.
- `app/` is the program around it: opening the tty, raw mode, reading replies,
  asking the person at the keyboard, printing. It hands the library plain values
  and writes out what comes back.
- `tests/` runs the library on concrete terminals and notifications.
