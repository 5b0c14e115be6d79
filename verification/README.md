# btleplug (verified core)

The platform-independent core of a Bluetooth LE host library, written in
Verus: every function in `src/` carries a contract that Verus proves, but
for six small wrappers around `uuid` and std text functions (hyphenated
UUID text, UUID parsing, lowercasing, UTF-8 decoding and lossy decoding,
pushing a character), whose contracts are believed as their documentation
states them.

- `src/api.rs`, `src/bdaddr.rs`, `src/bleuuid.rs`, `src/advertisement.rs`:
  the API's data types, device addresses and their text forms, BLE short
  UUIDs, advertising-data sections.
- `src/hci.rs`, `src/hci_packet.rs`, `src/hci_codes.rs`, `src/att.rs`,
  `src/device.rs`, `src/hci_adapter.rs`: HCI and ATT packets read from and
  written to a raw HCI socket, and the registry of devices heard while
  scanning.
- `src/adapter_manager.rs`: the peripherals an adapter has told its
  listeners of.
- `src/corebluetooth.rs`, `src/cb_peripheral.rs`, `src/cb_adapter.rs`,
  `src/cb_thread.rs`: the CoreBluetooth back end's decisions, as state
  machines that take an event and return the actions to perform (replies,
  framework calls, events for listeners), and the thread's table of known
  peripherals.
- `src/bluez_peripheral.rs`: the BlueZ back end's rules for device property
  updates, characteristic handle ranges and flags, characteristic lookup,
  and the events told of a device.

`app/` holds the glue that Verus does not see: serde and `std::error::Error`
copies of library types, conversions to the `uuid` crate, the loops of the
CoreBluetooth adapter and thread that perform the actions the library
returns, a handler for CoreBluetooth peripheral events, and the application
of BlueZ property changes. The HCI registry and the BlueZ back end have no
driver here. `tests/` runs the library on concrete values.
