# stock_indicators

A small stock-signal toolkit whose data plumbing is verified with Verus.

* `src/` is the verified library. Prices never appear in it as numbers: every
  column of prices is carried through as an opaque value type, so the library
  proves how columns are selected, joined, grouped, split, scheduled and
  ordered, and leaves the arithmetic on prices to its caller.
  * `records` – the bar type (timestamp, volume, close) and plain records.
  * `direction` – timestamp-keyed direction flags and volumes in thousands.
  * `signals` – joining indicator maps into aligned columns, grouping rows by
    direction, splitting columns into training and testing parts.
  * `windows` – the index schedules of the simple and exponential moving
    averages.
  * `macd` – pairing the short and long averages on their common dates.
  * `rsi` – the warm-up, seeding and smoothing phases of the relative strength
    index, as a step function and as a whole plan.
  * `dates` – calendar labels for timestamps (through chrono's `from_timestamp` and `format`) and a stable
    ordering of indicator points by date.
  * `fundamental` – the address of the financial statement list.
* `app/` is the HTTP server: it fetches quotes, performs the floating-point
  arithmetic of the indicators and of the naive Bayes classifier on top of the
  library's schedules and columns, and talks to MongoDB.
* `tests/` exercises the library on concrete values.
