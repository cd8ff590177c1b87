# mc_translator

A tool that localises Minecraft mods and modpacks: it scans `.jar`, `.json`
and `.js` files for texts, sends them to a translation service in batches
(retrying failures in half-size batches, then one at a time), and writes a
resource pack and mirrored files. Between Simplified and Traditional Chinese
it can convert locally, glossary terms first.

The library in `src/` holds the decisions of the tool, each with a contract
proved by Verus:

- `text`: character-sequence helpers (UTF-8 lengths, trimming, searching,
  replacing, decimal numbers) and the trusted wrappers over `str` and `char`.
- `order`: stable insertion sorting and the proof that it sorts and keeps
  every element.
- `json`: JSON values, the lookups web answers are read with, and the
  dictionary and cache files read as maps of texts.
- `config`: the settings with their defaults and ranges, and the dictionary
  paths and language lists.
- `file`: paths as std splits them (and the normal components a written
  path keeps), which files and archive entries a run takes up, the texts of a
  JSON file, which matched ranges of a script are translated, how files are grouped and ordered, where results are written,
  and how groups are labelled in the log.
- `translation`: batching and the retry stages of a run, the run over the
  strings of one JSON file (distinct texts, batches, single texts, and the
  records of each translation under its keys), the glossary
  (Aho-Corasick matching, inferred terms, Minecraft's own language files),
  fast script conversion (hanconv), prompts, service routing and answers
  (the reply to a batch request read as JSON or as numbered lines), the
  model lists offered, and the Minecraft version table.
- `gui`, `i18n`, `cli_wizard`: the state of the windows, the labels, the
  dictionary viewer's pages, and the command line's setup steps.

The library decides; it does not talk to the translation services, open
files or archives, or write the zip resource pack. `app/` holds the loops
that take the library's steps, reads JSON and script files and the language
entries of `.jar` archives, writes the translated files and packs the
resource pack; calling a translation service is left to the code that runs
them. Texts are sent as they are: format codes are not taken out before a
service sees them, and no clean-up rules are applied to its answers.

`app/` is ordinary Rust around the library: files, the credential store,
serde forms of the settings and labels, and the loops that run a batch
translation, a file's strings and the command-line setup.

`tests/` exercises the library on concrete values.
