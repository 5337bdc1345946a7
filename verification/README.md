# lineup_cards

The verified core of a web application that keeps baseball rosters and
lineups and prints them as lineup cards on US-Letter sheets.

- `src/` is the library, verified with Verus:
  - `layout`: which cards a download prints and where each card lands on
    the sheets (shelf packing, in hundredths of a millimetre), with proofs
    that every card stays inside the margins and no two cards overlap;
  - `card`: the text a card shows (header and footer lines, batting rows,
    the bench, text shortened to the room it has);
  - `auth`: e-mail normalisation, sign-up and login rules, password hashing
    (argon2), session tokens and the session cookie;
  - `handlers`: the checks the request handlers make (ownership lookups,
    team and player payloads, logo uploads, the card download);
  - `text`: string helpers specified over character sequences;
  - `models`, `error`: records, payloads and the error type.
- `app/` is the server around it: axum routes, SQLite through sqlx, file
  storage of team logos, and drawing the cards with printpdf.
- `tests/` exercises the library.
