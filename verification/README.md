# rover

The logic of a small two-wheeled bot: a line-command server over WiFi that drives it, a fixed drive
test, a clap detector with two microphones, and a microphone listener.

The library under `src/` decides and is verified with Verus; it touches no hardware. What the board
is to do comes out of it as a list of single steps (`board::Op`), in order.

- `board`: the steps, and what the lines of a board hold after them
- `motion`: which way the wheels turn while the board waits, and where that takes the bot
- `rig`: the motors, the indicator LED and the moves of the command server's bot
- `tunables`, `text`, `command`, `client`: the values that can be set, the line commands, and one
  client's connection
- `station`: joining the network
- `drive_test`: the fixed routine without a network
- `clap`, `listener`: the microphones

`app/` carries the steps out: the drivers, the sockets and the clock of an ESP32-C3.
`IMAGE` in the build environment picks the image (`command-server`, `drive-test`, `detector` or
`listener`); the command server also takes `WIFI_SSID` and `WIFI_PASS` from there.
