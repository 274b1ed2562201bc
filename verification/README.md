# osrs-random

A boss and skill chooser for Old School RuneScape, with its logic verified by
Verus.

- `src/` is the verified library: the catalogue checks and the choice between
  cached, fetched and bundled data (`catalog`), reading the HiScores skill list
  and the OSRS Wiki boss table (`sources`, over the parsed page in `page`),
  ordered insertion (`ordered`), text helpers (`text`), release version
  comparison, asset selection, digest checks and archive extraction (`update`),
  and random choice, exclusions and the command and menu decisions (`chooser`).
- `app/` is the program around it: the command line, the interactive menu,
  HTTP, the cache file and installing a release.
- `tests/` runs the library on concrete inputs.
