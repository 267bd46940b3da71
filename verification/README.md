# pktctl

The rules of pktctl, an MCP server for Cisco Packet Tracer, as a library
verified with Verus: what each tool checks before it talks to Packet Tracer,
and how it reads and reports what Packet Tracer answers. Where a tool's
calls depend on decisions, the decisions are state machines or step lists
with stated order: configuration blocks (`cli::ConfigureRun`), terminal
collection (`terminal::Collector`), event watches (`watch::Watch`), module
changes (`modules::plan_add_module`), DHCP pools (`services::DhcpRun`), power,
radio and IPv6 steps; linking, moving, removing places and sending mail have
their checks in one function each (`links::link_plan`, `places::move_checks`,
`places::removal_units`, `desktop::send_checks`). The
other tools' calls to Packet Tracer are outside the library.

- `src/` is the library. Every function carries a `requires`/`ensures`
  contract stated over `Seq`, `int` and the views of its types; the laws
  that span functions are public proof functions (`lemma_*` and the cabling
  laws in `links`).
- `tests/` runs the library on concrete values.
- `app/` is the `pktctl` command: it reads the environment, prints the
  resolved settings and registers pktctl with Packet Tracer's `meta` tool.

Modules by area:

| Area | Modules |
|---|---|
| Text, errors, ordering | `text`, `error`, `order` |
| Addresses | `net` (IPv4, masks, subnets), `ipv6` |
| Devices and cabling | `devices`, `links`, `catalog`, `modules`, `power` |
| Consoles | `cli`, `terminal`, `host_console` |
| End devices | `hosts`, `firewall`, `ipv6`, `desktop`, `web`, `vpn`, `wireless`, `services` |
| Physical workspace | `tree`, `places` |
| Files, notes, drawings, screenshots | `workspace`, `capture` |
| IPC reference and calls | `describe`, `ipc`, `watch` |
| Activities, simulation, preferences | `activity`, `simulation`, `preferences` |
| Start-up and registration | `config`, `setup`, `status` |
