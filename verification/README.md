# romhack

A toolkit for building Rust "rom hacks" of The Legend of Zelda: The Wind Waker
(GameCube), verified with Verus.

- `src/` is the verified library:
  - `compiler`: the build tool's logic. It reads the game's disc image
    (`iso`), links the hack's static library (`static_lib`: the archive
    layout, the section closure, the layout order, the placement and the
    PowerPC relocations), writes the symbol map (`framework_map`), assembles
    patch files (`assembler`), demangles the game's C++ names (`demangle`),
    and reads and writes banners and textures (`banner`, `texture`).
  - `game`, `futures`, `link`, `system`, `warping`: the parts of the in-game
    runtime that compute something. These are the controller buttons, waits
    on buttons and frames, item names, the main loop's per-frame decisions,
    the reallocation plan, and stage entrances.
- `tests/` runs the library on concrete inputs.
- `app/` is the command line tool (`romhack build`, `romhack new`): files,
  processes, TOML and argument parsing around the library.

Every function in `src/` is verified by Verus; each public one carries a
contract that states what it does. The calls into `goblin`, `regex`, `rustc-demangle`, `syn`, `encoding_rs` and `byteorder` sit
behind small trusted wrappers, each documented with what it claims.
