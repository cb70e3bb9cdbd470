# espcan_br

An SLCAN / LAWICEL (CANUSB) bridge between a CAN bus and its hosts, for an ESP32 board
with a serial port and WiFi, written in Verus.

- `src/` is the verified library: the line protocol, the shared CAN controller, the ports,
  the persisted settings, the web interface, the outbound connection with its pinned server
  key, mDNS, and the activity LED. Every function states in its contract what it returns;
  what holds across functions is stated in the public proof functions.
- `tests/` runs the library on concrete values.
- `app/` is the firmware around it: tasks, sockets, flash and hardware. It needs the ESP32
  crates, which build for that target only.

What is not proved is listed where it is used: the functions marked as trusted wrap
`embedded-can` (identifier ranges), `heapless` (the mDNS message buffer) and `p256` (the
server's signature), and two items give `String::push` and `core::str::from_utf8` their
documented meaning.
