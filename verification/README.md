# spotclean

Sort your Liked Songs into playlists, one keypress per playlist, with offline BPM detection.

- `src/` is the verified library: the rules, as executable Rust with contracts that Verus proves.
  - `liked_songs` keeps the list of liked songs in line with the service, page by page.
  - `store` and `db` keep the list in a `redb` database.
  - `sort` knows which playlists have a key and carries out changes of playlists.
  - `bpm` and `bpm_scanner` decide what to analyse, when, and what becomes of the result.
  - `ui` decides what the screens show and how they react to commands.
  - `formatting`, `keybindings`, `load_debounce`, `command`, `model`, `text`, `filters` are the
    smaller parts.
- `tests/` runs the library.
- `app/` is the ordinary Rust around it: threads, the database file, the service's audio, signal
  arithmetic and the terminal screens.

Functions named `law_...` state what holds across several operations. Calls into other crates stand
behind small functions whose contracts are taken on trust; each says in its comment what it claims.
