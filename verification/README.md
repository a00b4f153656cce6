# flvproxy

A proxy for UniFi cameras: it takes the stream that a camera pushes, serves it over RTSP, and lets
itself be found and asked over ONVIF.

- `src/` is the library, verified with Verus: the FLV and AMF parsers, the H.264 packetizer, the
  stream hub, the RTSP, ONVIF, WebSocket and AVClient protocols, the configuration, and the decisions
  of the TLS handshake, the certificate and the Windows service. Contracts are stated over the views
  of the types. What relates several functions stands as a proof function whose name begins with
  `law_`.
- `app/` is the program around it: sockets, threads, files and the Windows calls. It hands bytes and
  events to the library and does what it is told.
- `tests/` runs the library on concrete values.

A camera's bytes go from `camera_listener` through `flv_parser` and `flv_video` into `stream_state`;
`rtsp_server` and `rtsp_pump` take frames from there, and `rtp` cuts them into packets. On Windows a
camera is adopted over `protect_listener` and `protect_controller` first.

What is taken from the standard library without proof is in `text`: UTF-8 checking and repair,
capitals, characters by their number, and appending a character to a string. `logging` takes file
names out of paths, and puts them in, as the platform does. `rtsp_pump` declares the standard
library's I/O error, of which nothing is known but that sinks give it back.
