# clawd-cal

A terminal calendar whose logic is a library verified with Verus.

- `src/` is the library. Dates and times (`datetime`), events (`events`), their stable order by
  start (`sorting`), the calendar state (`calendar`), an in-memory event store (`store`), the
  vim-style event form (`modal`), the day, week, month and year views (`views`), category colours,
  the help overlay, the status bar and key handling (`ui`), and CSV export and import
  (`csv_file`). The calls into `chrono`, `csv` and the standard library sit behind small
  trusted wrappers whose contracts Verus believes without proof; Verus proves every other
  function against its contract, and most contracts state what the function returns or
  changes.
- `tests/` runs the library on concrete values.
- `app/` is the program: the terminal loop, drawing with `ratatui`, the events file in the
  configuration directory, and CSV files on disk.

## The event store

The store keys each event by its identifier, a `String`. It keeps its events in a `Vec`, in the
order in which they were created, with the type invariant that no two share an identifier; its
view is the map from identifier to event. A `std::collections::HashMap<String, Event>` was tried
first: vstd specifies `HashMap` only for key types that it knows to hash consistently with
equality, and for `String` nothing states that, so Verus proved nothing of such a map (not even
that it holds one entry after one `insert` into an empty map). Holding the map in a struct
hidden from Verus would have put every operation of the store behind trusted contracts. With the
`Vec`, lookup, insertion, update and removal are proved against the map view.
