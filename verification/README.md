# flow_motion_controller

Verified core of the Flow Motion Controller: a Raspberry Pi Pico controller
block sends 16-byte UDP input frames to a Monado plugin that routes them to
two virtual Index controllers.

- `src/` is the Verus-verified library: the frame protocol, the receiver's
  session and hand-switch state machine, the firmware's joystick scaling and
  send scheduling, the debug server's action names, and the calibration file
  format. Each module states its behaviour in contracts and proves the
  properties that tie the pieces together (encode/decode round trip, frame
  ordering, debouncing, write/read round trip of the calibration file).
- `app/` is the unverified shell: the C ABI exported to Monado, the UDP
  socket thread, the floating-point pose mathematics and calibration I/O, the
  debug server, and the firmware main loop written against a board interface.
- `tests/` exercises the library on concrete values.
