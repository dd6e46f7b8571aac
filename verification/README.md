# website

The verified core of a small site that shows, day by day, a table of bets.

- `src/calendar.rs`: calendar dates as plain values, the Gregorian calendar
  as specification, and the `chrono` calls the pickers make.
- `src/picker.rs`: the month calendar grid, the month arrows, the dropdown
  of recent days, the day read from the page path, the page path of a day.
- `src/order.rs`: bets and the order of their columns.
- `src/provider.rs`: the table's data provider: stable multi-column sort,
  range clamping, and the cache of the rows of the last day fetched.
- `src/tailwind.rs`: the Tailwind classes of the table.
- `app/`: the leptos pages, the table glue, the server function and the
  actix server, all of which call the library for their logic.
