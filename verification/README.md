# minty

The caching core of the minty media repository, and the pure parts of its
command-line client, written in Verus and proved against their contracts.

- `src/cache/` — the entity caches: a reference-counted value cache with
  negative entries and an LRU eviction policy fed by batched events
  (`inner`, `buffer`, `policy`), the cached users, tags, objects and posts,
  comment threads (`comment`, `thread`), the repository-wide cache that keeps
  counts and holders consistent across them (`store`, `discussion`,
  `edits`), and the laws the caches obey (`laws`); `thread_laws` and
  `tree_law` prove that a thread built from stored comments is the tree
  they describe, and `path_law` that the path recorded for each comment
  leads to it.
- `src/auth.rs` — session IDs and password hashing.
- `src/ico.rs` — choosing a site's favicon from its home page.
- `src/cli/` — answers to prompts, aligned metadata, lists, sizes,
  wrapped text, posts and previews as they are shown (`post_view`,
  `preview`), and the post searches and new posts that the
  command-line client sends.
- `app/` — the command-line program: arguments, files, terminal I/O.
- `tests/` — tests of the library on concrete values.
