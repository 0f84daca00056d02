# precc

Predictive error correction for shells driven by language models: commands are
rewritten before they run, so that what would have been a failed turn succeeds.

1. **Context resolution**: a command run outside its project gets the right
   `cd` in front of it.
2. **GDB opportunities**: repeated failures of one command get a hint.
3. **Pattern mining**: pairs of a failure and its fix are distilled from
   session logs.
4. **Skills**: patterns of high confidence are applied by themselves.

An output compressor can be put around recognised commands; it is opt-in, by
`compressor = "rtk"` in `~/.config/precc/config.toml`.

## Layout

- `src/`: the library. Every function states what it computes and is verified
  with Verus. `pipeline` runs the stages over `skills`, `context`, `rewrites`
  and `compressors`; `mining` and `promote` learn from session logs; `hooks`,
  `report`, `consent` and `metrics` serve the front-ends; `text`, `numerals`,
  `paths`, `json`, `patterns` and `confidence` are what these stand on. Laws
  that span functions are the public proof functions named `law_…`.
- `app/`: the program around it: arguments, files, databases, processes and
  floating point. The host whose session logs are mined is the one whose dot
  directory in the home directory holds `projects`, and `settings.json` too
  where several do; `PRECC_HOST`, its name without the dot, overrides that.
- `tests/`: tests on concrete values.
