# ops-mcp

A local [MCP](https://modelcontextprotocol.io) server giving an AI assistant
structured, read-only observability into a Linux machine: narrow, named
capabilities instead of shell access. There are four tools: `system_info`,
`system_health`, `container_list` and `container_health`.

## Layout

* `src/` is the library, verified by [Verus](https://github.com/verus-lang/verus):
  the parsers for the kernel's files, the container walk, the rules about what is
  reported and when, and the guard that decides which paths may be opened. It
  does no I/O and no floating-point arithmetic. A floating-point reading is kept
  as the text that denotes it.
* `app/` is the server: the declaration of the tools, the reads, the response
  types with their schemas, and the floating-point figures derived from what the
  library returns.
* `tests/` are tests of the library on concrete values.

## What is proved

Each public function of the library states exactly what it returns. What holds
across functions stands in the `law_` proof functions beside them. Among those:

* Discovery reports exactly the containers within reach of the walk, in order of
  path, whatever the order in which directories list their children
  (`hierarchy`).
* Reading and listing go through one allowlist (`guard`), which `proc::read`,
  `proc::read_optional`, `proc::read_dir`, `proc::dir_mtime` and the container
  walk all ask first. What it refuses yields a fault or nothing, and none of the
  content, whatever the file system gave. Of a process it admits the name alone:
  not its arguments, not its environment.
* Each container that is listed under an ID of its own is one that
  `container_health` answers for (`container_health`).
* What the model is told of a failed read does not depend on what failed
  (`fault`).
* A figure that was written is read back as itself (`proc`, `cgroup`, `number`),
  and a timestamp says which instant it is (`clock`).

Two functions are trusted rather than proved: `clock::timestamp`, which calls
chrono, and `fault::debug_quoted`, which is `{:?}` on a string.

## Container runtimes

Container data comes from the cgroup v2 hierarchy, so it reads the same whatever
created the container. Only discovery knows about runtimes: by the name of a scope
(`cgroup::classify`), and, for Docker with the cgroupfs driver, by where the
directory stands (`discovery::recognize`).

| runtime | discovery | status |
|---|---|---|
| Docker (systemd cgroup driver) | `system.slice/docker-<id>.scope` | tested |
| podman, rootless | `user.slice/…/user@<uid>.service/user.slice/libpod-<id>.scope` | tested |
| podman, rootful | `machine.slice/libpod-<id>.scope` | untested |
| Docker (cgroupfs driver) | `docker/<id>` | untested |
| containerd / CRI-O (Kubernetes) | `kubepods.slice/…/cri-containerd-<id>.scope` | untested |

The status says whether the layout has been seen on a real host.
