# SaveVault engine

The verified core of SaveVault, a backup tool that treats emulators as first-class citizens: it
recognises an emulator's data folder, finds the saves in it and says which game each one is, and
on restore re-anchors each file onto the emulator's data folder on the machine at hand.

- `src/scan/emulator.rs` and its submodules: emulator profiles, folder recognition, save
  discovery, and readers for PlayStation memory cards (PS1, PS2), `PARAM.SFO` and DuckStation
  save-state headers.
- `src/scan/semantic.rs`: where a backed-up file goes on this machine.
- `src/scan/game_filter.rs`, `src/scan/game_group.rs`: the filters and groups of the game list.
- `src/gui`: the decisions behind the screens (the log of runs, the vault inventory, the
  controls).
- `src/path.rs`: paths compared by their resolved segments, ignoring ASCII case.
- `app/`: what touches the machine (listing folders, environment, clock, JSON), handing the
  library plain values.
