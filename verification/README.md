# limavel

Limavel creates, provisions and manages Lima virtual machines for Laravel
development on macOS (see `limavel --help`).

- `src/` is the verified library: the configuration and the Lima template
  derived from it, the `/etc/hosts` block of each instance, the `limactl`
  invocations and what is read from their answers, the Ansible variables, and
  each command's decisions as a state machine (`flows`, `ansible::PlaybookRun`).
- `app/` is the program around it: command line, files, processes, terminal.
  It drives the library's state machines and performs the actions they ask for.
- `tests/` exercise the library.

The program reads its shipped provisioning files (`bootstrap/main.sh`,
`ansible/`, `templates/default.yaml`) from the directory named by
`LIMAVEL_PROVISION_DIR`, or from `provision/` beside the executable.
