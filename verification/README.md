# lanline

The protocol and fleet logic of the LANline radio server, written in Verus
with its behaviour stated as contracts and proved.

- `src/` — the verified library:
  - receive paths: `hdlc`, `deframe` (NRZI/bit-stuffed frame recovery),
    `ax25`, `aprs`, `ais_link`, `ais`, `nmea`, `mode_s`, `beast`, `apt`;
  - station state: `recent`, `txlog`, `txaudio`, `wav`, `catalog`, `model`,
    `flight`, `net`;
  - the hypervisor: `fleet` (config merge, port blocks, restart policy),
    `devices` (binding radios to SDR units), `launch` (each child's command
    line) and `fleet_view` (the fleet page);
  - `text`, the string helpers they share.
- `tests/` — tests that run the library with the outside crates linked.
- `app/` — the hypervisor program around the library: command line, config
  files, process supervision, UDP beacons, and the floating-point conversions.
