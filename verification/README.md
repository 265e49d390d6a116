# stenoswitch

Firmware core of the Stenoswitch split stenography keyboard, written in
Verus. `src/` is the verified library; `app/` is the set of device programs
(one binary, the first argument names the program) that drive GPIO, SPI,
I2C, USB gadget and systemd around it.

Library modules:

- `usb_keyboard`: Plover output decoded into key presses and packed into
  HID boot-keyboard reports.
- `usb_comms`: USB power budget and the nine byte report of the bring-up
  program.
- `scan`: key matrix scans accumulated into GeminiPR steno packets.
- `i2c`: framing of the bit-banged I2C bus.
- `battery_monitor`: BQ27427 fuel gauge command spacing, register and block
  encoding, checksums, configuration routines, state-of-charge calibration.
- `current_monitor`: MCP3204 converter framing and USB-C current levels.
- `current_rheostat`: current-limit rheostat setting and its tuning.
- `notify_lines`, `charge_control`: line notifications and the charging
  decisions taken on them.
