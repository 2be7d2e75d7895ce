# paybar

Fixed monthly expenses: what falls due this month and what is left to pay,
grouped by currency and never blended, with an optional USD/ARS rate that
annotates a total without replacing it.

- `src/` — the library, written in Verus and verified: amounts in cents
  (`money`), calendar months (`period`), the ledger of expenses and payments
  and the status it derives (`ledger`), totals per currency (`totals`), the
  exchange-rate annotation (`fx`), what the command line prints and the JSON
  the bar widget reads (`output`), the command line's decisions (`cli`), and
  the terminal interface's state machine and screen contents (`tui`,
  `screen`).
- `tests/` — tests of the library on concrete values.
- `app/` — the program around it: the SQLite file, the environment, the
  clock, the network and the terminal.
