# rustocker

A small, daemonless container engine. The library in `src/` holds the
engine's rules, each with a contract checked by Verus; the program in `app/`
does the work on disk, in processes and on the network around them.

## Library (`src/`)

- `text`: characters, lines, words, trimming and decimal numbers.
- `buildfile`, `rockerfile`, `rustockerfile`: parsing build files into
  instructions, with `Line N: ...` errors for the first refused line.
- `builder`: the settings a layout keeps from its instructions, and how a
  `COPY` reads its source and destination.
- `ignore`: `.rustockerignore` / `.crabtainerignore` rules (globs matched by
  `globset`; the last matching rule decides).
- `layers`: layer file names and the order layers are unpacked in.
- `ipam`: the address manager of the container network (subnets parsed by
  `ipnet`).
- `container`, `cgroups`, `exec`, `options`, `network`, `paths`: the
  settings, files, firewall rules, names and decisions of running
  containers.

Laws that relate several operations (allocation and release of addresses,
ignore rules, layer ordering, layout settings) are public proof functions
named `law_*`.

## Program (`app/`)

The `rustocker` command: building layouts (registry downloads, unpacking
layers, copying, running build commands), running, stopping, starting,
removing and entering containers, and the autostart service. It also serves
as the init process inside each container.
