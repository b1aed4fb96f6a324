# cloudcontrol

The logic of a WiFi Android device-farm server, verified with Verus.

- `src/` is the library. `text` holds verified versions of the string
  routines the rest relies on (trimming, lines, words, integer parsing and
  printing); `json` a model of JSON values; `device` the `adb` and atx-agent
  decisions (device lists, ports, commands, the initialization steps);
  `utils::hierarchy` the UIAutomator XML to JSON tree conversion; `models`
  the device and installed-file records; `pool` the batch processor's
  decisions (when a batch is cut, in what order and how each event is
  answered) and the screenshot cache; `routes::scrcpy_ws` the scrcpy
  WebSocket message formats; `services::file_service` what is saved of an
  uploaded file; `services::scrcpy_manager` which devices the scrcpy server was
  pushed to; `config` the configuration defaults.
- `app/` runs the I/O around it: `adb` processes, the configuration file,
  HTTP error pages, the batch processor's task, and the serde forms of the
  records.
- `tests/` exercises the library on concrete values.
