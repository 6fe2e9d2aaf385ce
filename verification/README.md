# phai

The core of a household's finances, verified with Verus: money and dates, card bills,
statements from the bank, cash flow, plans and budgets, the review of transactions on
screen, and the checks on new releases of the program.

- `src/` is the library. Every function states in its contract what it returns or
  changes; calls into other crates stand behind a few small wrappers whose contracts say
  what those crates promise.
- `tests/` runs the library on concrete values.
- `app/` is the program around it: the command line, the files, the network and the
  terminal.

The program keeps its records as JSON files, one per table or view, in the directory that
`FINANCE_OS_DATA_DIR` names.
