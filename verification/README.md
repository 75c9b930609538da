# sortflow

Backend of a warehouse sorting flow. A good is registered when it reaches the
warehouse, allocated to the free bin of lowest identifier, reported as arrived
in that bin, picked, and reported as departed, which frees the bin.

- `src/` is the library, verified with Verus:
  - `bins` — a bin row, its lifecycle statuses and steps, and the decisions a
    request takes once the store has found (or not found) the row it needs;
  - `warehouse` — the received-good and bin tables held in memory, with each
    request as an operation whose contract is a spec function of the tables;
  - `laws` — what every request keeps (integrity of the tables, refusals
    change nothing, allocation takes the lowest free bin, a full pass of a
    good restores the tables);
  - `lifecycle` — sequences of requests: a good moves one phase per
    successful request on it, so a pick succeeds only after an allocation
    and an arrival;
  - `ids` — good identifiers: issuing new ones in increasing order, reading
    them from request text and JSON, and
    writing them as hyphenated text;
  - `qr` — a good's identifier as a QR code in a PNG image;
  - `panel` — the rows of a rack's panel.
- `app/` is the HTTP server (axum, sea-orm on PostgreSQL): it reads requests,
  queries the database, calls the library, and writes responses.
- `tests/` exercise the library on concrete values.
