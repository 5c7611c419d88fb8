# maleme

Counts the profanities that a user typed into AI coding agents and renders
them as an HTML report: a headline, the number of messages, profanities and
tokens, the SBAI index (profanities per ten million tokens), a daily chart
and a word cloud.

Layout:

- `src/` — the library, verified with Verus.
  - `text.rs`: trimming, HTML escaping, substring replacement and counting,
    decimal rendering of integers.
  - `messages.rs`: the user messages that adapters collect.
  - `detector.rs`: the profanity detector (a lexicon of words, each counted by
    its non-overlapping occurrences).
  - `cursor.rs`: where Cursor stores its data, and the user messages of its
    chat data.
  - `tally.rs`: the tallies per message, per day and per word.
  - `ranking.rs`: the order of the word list (count, then word).
  - `order.rs`: the report does not depend on the order of the messages.
  - `calendar.rs`: the date label of a day.
  - `report.rs`: the report data (daily series with gap days, ranked word
    totals, totals), the headline, the word cloud and the page.
  - `chart.rs`: the markup of the daily chart around its coordinates, and
    its scale values.
  - `page.rs`: the fixed text of the page.
- `app/` — the program: reading the environment, files and SQLite
  databases, the floating-point figures (SBAI index and chart coordinates),
  writing the report and opening it.
- `tests/` — tests of the library.
