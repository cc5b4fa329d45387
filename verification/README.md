# SPIN (Simple Package Installer for Nix)

A friendly command line around NixOS package management. System packages and fonts are
tracked in `/etc/nixos/packages.conf`, which `configuration.nix` imports:

```nix
imports = [ ./packages.conf ];
```

| Flag/Option | Short | Description |
|---|---|---|
| `--install <pkg>...` | `-i` | Install one or more packages system-wide |
| `--remove <pkg>...` | `-r` | Remove one or more packages |
| `--sync` | `-s` | Update Nix channels |
| `--upgrade` | `-u` | Upgrade all system packages |
| `--profile` | `-p` | Target the current user's Nix profile instead of the system |
| `--temp` | `-t` | Open a temporary `nix shell` with the package (not persisted) |
| `--font` | `-f` | With `-i`/`-r`: install/remove fonts instead of system packages |
| `--query <pkg>...` | `-q` | Search nixpkgs for one or more packages |
| `--clean` | `-c` | Delete generations older than 7 days and update the bootloader |
| `--all` | | With `--clean`: delete all old generations |

Flags can be combined, as in `spin -si git htop`.

## Layout

`src/` is the library. It decides everything and touches nothing; Verus proves that each
function does what its contract says.

- `session`: what `spin` does, step by step: `begin` gives the first step, `advance` the
  next one with what came of the last. A step is what to tell the user and what to do.
- `session_laws`: what holds of every session, such as that it ends, that the system is
  rebuilt once at most, and that a failed rebuild has the old lists written back.
- `reply`: what the system hands back, and what it means to a session.
- `request`: the values that pass between the decisions and the system.
- `conf`, `conf_laws`: `packages.conf`, and that what is written is what is read.
- `plan`: what a request changes in a list of names.
- `validate`, `suggest`, `distance`: checking names, and what to suggest for a mistyped one.
- `search`, `profile`, `json`: reading what `nix` prints.
- `command`, `stream`, `cli`: the commands to run, what is shown of their output, and the
  command line.
- `order`, `text`: sorting, and text as sequences of characters.

`app/` runs the program: it parses the command line, carries out each step and hands back
what came of it. `tests/` runs the library on examples.

What is taken on trust are the contracts of a few functions of `serde_json` and of the
standard library; each says so in the comment above it.
