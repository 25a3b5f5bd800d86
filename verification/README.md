# maison

The decision logic of a small home-automation controller, verified with
Verus: device reports arriving over MQTT are turned into messages, a weekly
schedule and a persistent state decide what the boiler's heating and
hot-water relays, the heating zones and a few switches should do, and a
control API changes that state.

- `src/` is the verified library. Each module holds one part of the logic:
  `parse` (device reports), `schedule`, `local_time` and `week` (the weekly
  schedule, read from text, followed in a time zone, and replayed),
  `thermostat` (per-zone heating decisions and their hysteresis holds),
  `boiler`, `heat`, `hotwater` (driving the relays), `lights`, `autokitchen`,
  `autogarden`, `daylight` (switches and automations), `api` (what control
  requests do), `state`, `mqtt` (connection health), `time` and
  `temperature` (instants, durations, and the order of temperatures kept as
  IEEE-754 bit patterns), `zone` (time-zone files and local time), `text`
  (string operations), and `pb` (the message types).
- `tests/` runs the library on concrete inputs.
- `app/` is the service around it: the MQTT client, the tasks and timers,
  reading and writing files, JSON decoding, command-line arguments, and the
  floating-point steps (sunrise times, temperatures read from text, set-point
  arithmetic).
  The control API's operations are in `app/api.rs`, but no gRPC server is
  built around them, and the persistent state file is read and written as
  JSON; health is reported in the log.
