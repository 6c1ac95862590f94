# itools_plugin

The verified core of a desktop plugin host: what a plugin may do, where its files go, how
packages are fetched, checked and put in place, and how pictures, sound, archives and program
output are turned into what a page sees.

- `src/` holds the core. Every function states what it returns; Verus proves it. Calls into
  outside crates go through small wrappers whose doc comments say what is taken on trust.
- `tests/` runs the core on concrete values.
- `app/` does the work on disk, on the network and with processes, drives microphones, cameras
  and the screen through traits, and keeps the floating-point arithmetic of displays and sound.
