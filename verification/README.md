# og_param

A verified library, and a command line tool around it, that discovers, reads and writes openGear
parameters over binary OGP.

- `src/` is the library, proved by Verus but for the few outside calls whose contracts are taken on
  trust (UTF-8 decoding, the `Debug` form of a text, appending a character, and the `csv` writer):
  frames and messages (`protocol`), parameters and their values (`model`, `value`, `number`,
  `decimal`), the parameters and menus of a device and how they are found by name (`catalog`), the
  conversation with a device as state machines without input or output (`client`), comma-separated
  values (`csv_output`), and what the tool decides and prints (`cli`). `laws` and the functions
  named `law_*` state what holds across functions.
- `app/` is the tool: arguments, the connection, JSON, and floating-point arithmetic.
- `tests/` runs the library on concrete values.

Floats are held as their bits. Whether one lies within a range, or on one of its steps, is decided
in exact integer arithmetic that gives what double-precision arithmetic gives. Their decimal texts
are written and read in exact arithmetic too. Places on display scales are handed in from outside.
