# git-time-machine

A terminal browser for the git reflog that restores a chosen state (hard
reset, soft reset or detached checkout), making a backup ref under
`refs/git-time-machine/backups/` before every hard reset.

- `src/` is the library, verified with Verus: parsing of the reflog and
  backup-ref listings, the git commands of each operation, the restore as a
  state machine that runs one git command at a time, search and highlighting,
  the timeline's key handling, and the texts it shows. Its laws (no restore
  without confirmation, backup before hard reset, the timeline stays
  consistent under every key, ...) are proof functions beside the code.
- `app/` is the program: it runs git and the clipboard programs, draws the
  timeline with ratatui, reads keys with crossterm, and hands every output
  back to the library.
- `tests/` runs the library on canned git output.
