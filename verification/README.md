# naginata

Naginata-style chorded kana input for a split keyboard (RP2040 / Pico W),
written in Verus.

- `src/` is the verified library: the key layout and its lookups
  (`layout`, `keymap`), the chord engine (`engine`), kana to romaji
  (`romaji`) and HID key codes (`hid`), the configuration format with its
  parser and serializer (`config`), and the firmware's decisions: the USB
  configuration protocol (`usb_config`), the split link frames (`split`),
  debouncing (`matrix`), flash record formats (`handedness`,
  `config_store`, `ble_bond_store`), the status LEDs, overlay building and
  event routing (`board`), and the BLE connection state machine (`ble`).
  Laws that relate several functions are public proof functions, mostly
  in `config/laws.rs` and `engine/laws.rs`.
- `app/` is the firmware around it (embassy tasks, GPIO, flash, UART, USB,
  the CYW43 radio): it performs the I/O and hands plain values to the
  library.
- `tests/` runs the library on concrete inputs.
