# mines

The verified core of a cave game and its level editor, written in Verus. Each public
function states its behaviour in `requires` / `ensures`, and Verus proves the code
against it.

- `editor/` — the editor's state: the file list (`files`), recognising editor files by
  name (`modes`), which systems run when the mode or view changes (`switching`),
  picking and play-testing (`picking`), room parts (`rooms`), the previewed tunnel path
  (`preview`) and room validation (`validate`).
- `builder` — the asset build's input filtering, statistics, messages and archive names.
- `layout/` — room flags and portal directions (`assets`), the graph of placed rooms,
  portals and connections with its walks (`graph`), the layout's growth (`step`) and the
  routing of a tunnel between two portals (`route`).
- `door` — doorway states and the triangle topology of doorway meshes.
- `tunnel` — tunnel profile editing; `weapons` — weapon slots and pickups;
  `boundary` — what freezes and thaws at loading-chunk boundaries.
- `rng` — the layout's random choices; `text` — string helpers.

Calls into outside crates (`rand`, `pathfinding`, std's path joining and sorting) sit
behind small trusted wrappers whose contracts restate what those crates document.
`app/` holds the asset builder's command line and file handling.
