# syswhy

Explains why something is present on a Linux system — an executable, a
file, a process, a systemd service, a Nix store path — as a graph of
entities, the relations between them, and the evidence for each relation.

## Layout

- `src/domain/` — the evidence graph and what it holds: entities and their
  metadata, relations, evidence, confidence levels, queries, and the text
  and number handling they need. `graph_laws.rs` proves what adding
  entities, relations and metadata keeps.
- `src/backend/` — the backends that fill the graph: `filesystem`
  (search path and symbolic links), `procfs` (process directories),
  `systemd` (`systemctl show`) and `nix` (store paths and their roots).
  They reach the machine only through the `FileSystem` and `CommandRunner`
  traits, so each backend's contract states what it does for every reply.
- `src/engine.rs` — runs the backends in order and concludes the
  investigation; `src/evidence_laws.rs` proves that every relation of an
  investigation is backed by evidence, and `src/match_laws.rs` that every
  match is an entity of the graph.
- `src/cli/` — command-line arguments, the JSON document and the plain
  text output, each specified exactly. The plain output has the sections
  Query, Answer, Matches, Main chain, Evidence, Incomplete and Backend
  status, in that order, with Graph after Evidence and Debug last in the
  modes that ask for them. The chain is drawn wherever the paths the
  drawing follows in the chosen mode hold no cycle. `styles.rs` proves
  that, where the investigation's texts hold no escape character, colour
  adds nothing but style sequences, and `json.rs` that every JSON string
  reads back as the text it was written from.
- `app/main.rs` — the program: real file system, real commands, the
  environment, and printing.
- `tests/` — the scenarios, run against in-memory file systems and
  command runners.
