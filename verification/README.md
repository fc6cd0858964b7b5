# color_hoster

The verified core of an OpenRGB SDK server for VIA per-key RGB keyboards, written in
Verus.

- `src/config.rs`: VIA keyboard definitions become a `Config`: LED positions read from
  key legends (sorted), lighting effects with their OpenRGB mode flags (direct mode
  first), speed and brightness ranges, USB ids.
- `src/text.rs`: splitting, trimming and number reading on characters, with the meaning
  of the corresponding `str` methods.
- `src/condition.rs`: `showIf` conditions, evaluated by `evalexpr`.
- `src/utils.rs`: protocol buffers (little-endian integers, strings, colours), response
  frames, disconnect detection, log markers.
- `src/handlers.rs`: routing of requests and the payloads of the answers (controller
  description, profile list, mode updates).
- `src/keyboards.rs`: which definition serves which connected device.
- `src/consts.rs`: protocol constants and request ids.
- `app/`: JSON reading with serde, the TCP stream helpers and the logger.
