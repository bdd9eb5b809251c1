# kyodoku

A Discord bot that opens reading rooms for books identified by ISBN: a
persistent text channel and a temporary voice channel per book, watchlists
with DM notifications when a session starts, and an archive that moves
overflowing text channels aside, warns before deleting them and lets readers
extend them.

## Layout

- `src/` — the library, verified with Verus:
  - `isbn.rs` — ISBN-10/13 normalisation and check digits, metadata records;
  - `config.rs` — settings read from the environment, with their defaults;
  - `isbn.rs` also holds the order in which catalogues are asked: Google
    Books, then Open Library, then the title given by hand;
  - `routes.rs` — `/open` and `/watch`: options, code splitting, which books
    a call touches, the watchlist limit, every reply, button ids;
  - `util.rs` — channel names, topics, buttons, watcher DMs, voice cleanup,
    and the steps that announce a voice session once across bot instances;
  - `landing.rs` — the landing posts and their splitting into messages;
  - `archive.rs` — channel budgets, the pool of text categories
    (`TEXT_CATEGORY_PREFIX`, `TEXT_CATEGORY_POSITION_BASE`; 50 text channels
    each, a new category when all are full) and the archive lifecycle;
  - `activity.rs` — activity tiers: ranking, swaps between tiers, pruning
    (settings `TEXT_CATEGORY_1_ID` … `TEXT_CATEGORY_9_ID`,
    `TEXT_ACTIVITY_EVAL_INTERVAL_SECONDS`, `TEXT_CATEGORY_CAPACITY`,
    `TEXT_CATEGORY_SWAP_COUNT`, `TEXT_CATEGORY_PRUNE_COUNT`, read in
    `config.rs`);
  - `clock.rs` — instants, time zones and chrono formatting;
  - `bot.rs` — command-channel moderation and the exit code;
  - `text.rs`, `store.rs` — string helpers and stored records.
- `tests/` — tests of the library.
- `app/` — the running bot: Discord gateway (serenity, with songbird
  registered for voice), Postgres (sqlx), Redis locks, catalogue lookups
  over HTTP, and the archive and activity loops. It performs what the
  library decides; the activity score, a floating-point number, is computed
  there and handed to the library as an integer rank.
