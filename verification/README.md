# duplicate_finder

A terminal duplicate-file finder. The library (`src/`, verified with Verus) holds what the
program decides and computes; `app/` holds the terminal interface and the file-system access.

- `traversal`: breadth-first walk of a directory tree as a state machine fed with listings.
- `hashing`: MD5 hashing of a file fed read by read (partial hash: the first three blocks of
  64 KiB, whatever size the reads have; full hash: to the end), and the text form of a digest.
- `grouping`: grouping by size, by size and partial digest, and by full digest; choosing the
  files to hash in full.
- `ranking`: ordering the duplicate groups, largest first.
- `session`: the interface's state machine (keys, search messages, selection).
- `text`: word counting and the normalisation of the path argument.
- `layout`: centring a popup rectangle with ratatui's layout.

The search pipeline: walk the tree, group by size, hash the first blocks of the files that
share a size, hash in full the files that share size and partial digest, group by full
digest, and order the groups by the size of their first file.
