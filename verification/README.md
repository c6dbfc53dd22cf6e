# SpaceOne

Flight-software core for the SpaceOne Mars platform, written in Verus: every
function under `src/` carries a `requires`/`ensures` contract that Verus proves.

## Layout

- `src/` — the verified library.
  - Safety and hardware: `watchdog`, `memory_controller`, `hal`, `power`,
    `health`, `recovery`, `supervisor`, `snapshot`.
  - Communication: `priority_bundle`, `store_forward`, `command_relay`, `dsn`,
    `bridge` (wire formats of the DTN daemon, RAUC and systemd),
    `message_types`, `negotiation`, `compression`.
  - Security: `hashing`, `encryption`, `signing`, `auth`, `auth_service`,
    `access_control`,
    `rbac`, `security`, `entropy`.
  - Planning: `tasks`, `prioritizer`, `conflict_resolver`,
    `contingency_planner`, `crew_decision`, `diagnostics`, `science`,
    `processing`.
  - Support: `text` (characters, decimals, lines), `clock` (wall-clock time).
- `tests/` — tests of the library, run against the compiled crate.
- `app/` — host-side glue that Verus does not see: systemd, journald, RAUC and
  socket I/O, memory-mapped registers, serde wire forms, asynchronous shared
  handles, and the orbital approximation in floating point.

Fractional quantities are held as integers in fixed units (thousandths,
ten-thousandths, microwatts, kilohertz, centi-dB); the wire forms in `app/`
convert them to and from the floating-point values used on the wire.

Calls into outside crates (`sha3`, `hex`, `aes-gcm`, `rand`, `chrono`, `uuid`)
go through small trusted wrappers whose contracts are stated next to them.
