# choreo

The verified core of the Choreo trajectory editor's back end.

- `src/scope.rs`: `fix_scope`, which renumbers a path index once the
  initial-guess entries are taken out of the path, with its laws.
- `src/trajectory.rs`: `plan_trajectory`, the exact sequence of calls on a
  path builder that a path, its constraints and its obstacles produce, with
  the control interval counts; laws on waypoint numbering and counts.
- `src/project_files.rs`: whether a directory holds `build.gradle`, and which
  directory entries are saved segments of a trajectory (through the `regex`
  crate).
- `app/`: the Tauri commands, file I/O, and the calls into the trajectory
  optimiser, which run the plans that the library computes.
