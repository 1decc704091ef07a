# passrs

A password manager that keeps its secrets in a `pass`-style store: one
GPG-encrypted file per entry under `~/.password-store`, with `.gpg-id` files
naming the keys, and an optional git repository that records each change.

## Layout

- `src/` is the library, verified with Verus. It holds the logic of every
  command: path resolution and the guard against paths that leave the store,
  the fuzzy matching of entry names, the ordering of search results, the
  drawing of the store as a tree, password generation from a character set,
  HOTP/TOTP codes and the `otpauth://` URIs that carry them, the parsing of
  settings from the environment, the interactive selection list, and the
  messages and prompts that commands print. Calls into `ring`,
  `data-encoding`, `qrcode` and `termion`, and into the parts of std that Verus
  has no specification of (`str::to_lowercase`, `str::from_utf8`, `Path`'s
  `starts_with`, `parent` and `==`, `SystemTime`/`Duration`, `String::push`),
  stand behind small trusted items whose contracts are stated in their doc
  comments.
- `tests/` exercises the library through its public interface.
- `app/` is the command-line program around the library: argument parsing,
  the terminal, the file system, GPG, git and the clipboard.
