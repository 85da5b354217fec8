# bbtop

A small Linux task monitor: a terminal process view and a Prometheus exporter over
the same data, read from procfs and sysfs. Called under the name `gateway`, the
program is the gateway that takes events over HTTP and hands them to Kafka.

The library under `src/` is verified with [Verus](https://github.com/verus-lang/verus).
It holds what is decided or computed from what was read, but for floating point
(percentages, physical units and their sums) and the reading of the clock:

- `text`, `number`, `list`, `table`, `order`, `path`: lines and words, decimal
  numbers, filtered lists, tables, sorting, paths;
- `cpu`, `memory`, `network`, `disk`, `hwmon`, `power_supply`, `gpu`, `nvme`,
  `browser`, `process`: what the files of the kernel and of the helpers say;
- `clock`, `collector`: moments, and what is known of a host, from one collection to
  the next;
- `snapshot`: the host at one moment;
- `selection`, `metrics`, `server`: which processes are exported, the exposition, and
  the answers to HTTP requests;
- `ui`, `cli`: the terminal view and the command line;
- `gateway`: records, answers and the error count of the event gateway.

Each function states its result in full over spec functions on sequences of
characters and integers. Functions named `law_..` are proved statements about several
of them: that a label reads back, that a graphics context is charged to one process,
that the exported processes are bounded.

`app/` does the input and output and the floating point: it reads the files and the
clock, asks for the space of filesystems, serves connections, drives the terminal, and
turns counters into percentages. A real number enters the library as a `Figure`: the texts that are
printed of it, and an integer to order it by.
