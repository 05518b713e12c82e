# apmc

Apple Silicon hardware performance counters: which events a CPU can count, and
how many of them a command causes.

The library (`src/`) is verified with Verus.

- `document`: property lists, as far as an event database uses them
- `dates`: the dates in XML property lists
- `kpep`: the event database of a CPU, read from a property list
- `aliases`, `order`: event name aliases, and the order of events
- `load`: finding and loading the database of the running CPU
- `inject`: the results that measured processes send back
- `stat`, `session`: what a measurement decides, and its steps
- `report`, `list`: the texts that the commands print
- `color`: what color adds to a report
- `text`: numbers as text, padding, and searching in text

Proof functions whose names begin with `law_` state what holds of the library as
a whole. Functions marked `external_body` and `assume_specification` items state
what is relied on of `plist` and of the standard library.

The command line program is in `app/`: arguments, files, `sysctl`, processes and
pipes. Its `counters` module is where an interface to the kernel's counters goes.
