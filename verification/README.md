# froe

Offline maintenance of a segment-tar repository: planning and applying a
compaction under the repository lock, with every decision verified by Verus.

Maintenance is split into a read-only plan and a prepared session that applies
exactly that plan. `src/` decides; it reads no file and holds no handle. What it
decides over (journal bytes, file metadata, node properties, archive indexes) is
handed to it as plain values, and what it decides comes back as plain values:
a plan, a refusal with its text, or the next step that is due.

## Layout

- `src/journal/`: classifying the physical lines of a journal, where a bound on
  its revisions falls, which lines stay, and the bytes of the replacement.
- `src/planning/`: what a plan rests on (the shape of the directory, the head,
  the content census, version histories, segment work) and how it is listed.
- `src/generations.rs`, `src/reclamation.rs`, `src/trace.rs`,
  `src/shared_bulk.rs`: generations, closures and what a copy shares.
- `src/apply/`, `src/publication.rs`, `src/certificate.rs`,
  `src/file_removal.rs`: the ordered stages of a run, and the proofs that stand
  around each of its mutations.
- `src/directory.rs`: a directory as the files it holds, for what is said of the
  bytes on disk over a whole run.
- `src/prepared.rs`: the session between a plan and its application.
- `tests/`: the library from outside.
- `app/`: the file system, the process and the storage engine around the library.

Laws that span several functions are public proof functions whose names begin
with `law_`.
