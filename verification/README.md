# abs

A package builder for Arch Linux and CachyOS that adds emerge-like workflows:
it clones package repositories, bumps `pkgrel`, builds with `makepkg` or
`makechrootpkg`, offers the built artifacts for installation, and runs system
updates that keep self-built packages out of the repository update.

## Layout

- `src/` — the library, verified with Verus. Each module states its behaviour
  in `requires`/`ensures` contracts over spec functions:
  - `text`, `order`, `paths` — character sequences, lexicographic order, and
    path ordering/deduplication as `PathBuf` sorts them;
  - `pkgbuild`, `pkgbuild_laws` — reading and bumping `pkgrel`, with the laws
    of repeated bumps;
  - `install`, `deps` — the install prompt, artifact selection and the
    closure over local dependencies;
  - `git`, `repo` — finding a package's PKGBUILD directory, the scan cache,
    and the step machine that prepares a clone;
  - `config`, `report` — the configuration, its checks and the `--list` report;
  - `builds` — which repository a package comes from and the build plan
    (environment, `makepkg`/`makechrootpkg` arguments, clean installs);
  - `system`, `maintenance`, `cli`, `modes`, `command` — the system update
    command, keyrings and cleaning, the run plan, and the run-wide switches.
- `tests/` — tests of the library on concrete values.
- `app/` — the program: argument parsing (clap), the configuration file
  (serde, toml, dirs), coloured output, and every file, process and terminal
  interaction, driven by the library's decisions.
