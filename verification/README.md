# uncoauthor

Removes `Co-authored-by` trailers from every commit in `<base-ref>..HEAD`
through an automated interactive rebase.

- `src/` — the verified library:
  - `text.rs`: characters, white space, trimming, splitting into lines and
    joining them, with the lemmas that relate the two;
  - `message.rs`: `strip_coauthors` and `rewrite_todo` (the two editors git
    runs during the rebase) and their laws;
  - `count.rs`: reading and writing counts (commit counts, the counter file);
  - `preflight.rs`: the pre-flight checks as a function of the answers to
    the probes asked so far;
  - `cli.rs`: the command line and what the tool does for it;
  - `rebase.rs`: editor commands, counter file name, rebase result, summary.
- `app/` — the program: argument parsing (clap), completions
  (clap_complete), the branch prompt (dialoguer), files and processes.
- `tests/` — tests of the library.
