# soundcore_a3956

Support for the Soundcore Liberty 5 Pro (A3956), verified with Verus.

The device reports its state as a list of tag/length/value records and sends an
unsolicited Easy Chat event (command 0x3103) when a conversation starts or ends.

- `src/structures.rs`: the record list and its lookup, device information, Easy Chat status.
- `src/packets.rs`: reading and writing state packets and Easy Chat events, with the
  round-trip laws of the record format.
- `src/text.rs`: decoding text fields, decimal and hexadecimal text.
- `src/state.rs`: the device state and how Easy Chat events change it.
- `src/modules.rs`: the setting modules (device information, Easy Chat status) and their
  registration.
- `app/`: watch channels, change notification and logging around the library.
