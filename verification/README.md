# cql-stress-settings

The settings of a `cassandra-stress` run, verified with Verus.

- `src/` is the library.
  - `repair` cleans up the words of a command line; `repair_laws` says what holds of
    every repaired command line.
  - `grouping` groups the words by the command or option they belong to, into the
    map of `payload`; `grouping_laws` says what does not matter to it.
  - `parse` has the modules of the options read their groups, and makes up the
    settings.
  - `settings` holds the settings, and plans how to report them and how to create
    the schema.
  - `consistency` decides whether a run measures the consistency that it claims to
    measure; `datacenters` lists the datacenters of a cluster for it.
  - `text` joins texts and writes numbers.
- `tests/` runs the library.
- `app/` prints, and talks to the cluster.

The modules of the command and of the options are not part of the library. Whoever
uses it implements `settings::OptionModules` with them.

The consistency mode of a keyspace is public in the driver only where the driver is
built with `--cfg scylla_unstable`. Without it, `app/` asks whoever uses it for the mode,
and a program that does not say how to read it does not compile.
