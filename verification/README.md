# inspect_commits

Looks for sensitive words in git commits before they are pushed, with the
decisions proved correct by Verus.

- `src/` is the verified library:
  - `text`: trimming, searching, splitting, joining and replacing text, each
    stated over sequences of characters;
  - `config`: the rules of the configuration and the pattern of sensitive
    words they give for a remote URL;
  - `matcher`: the regular expression search (through the `regex` crate) and
    the marking of the word found;
  - `batch`: grouping a command's output into chunks of lines;
  - `refs`: branch names and the revision range given to `git log`;
  - `hook`: whether the global hook setting needs to change;
  - `scan`: what a whole scan of the commits comes to, chunk after chunk;
  - `check`: the check itself, one step per answer from git.
- `app/` is the command line program: argument parsing, running git, reading
  the configuration file and printing.
- `tests/` runs the library on concrete cases.
