# rmm2

A mod manager for The Elder Scrolls and Fallout games on Linux: it installs mods (from
directories, zip archives and fomod installers) and manages the load order.

- `src/` is the library, verified with Verus: paths, the load order and its plugins file,
  the game configuration, fomod installer reading and install plans, zip extraction plans,
  text layout and the key handling of the terminal menus.
- `app/` is the program around it: file system work, the terminal user interface, and the
  calls that read archives, XML and TOML from disk.
- `tests/` runs the library on concrete cases.
