# muxi_rust

Client-side logic of the MUXI SDK, verified with Verus.

- `src/` — the verified library: HMAC request signing (`auth`), the error that an HTTP
  status and body stand for and the value a successful body gives (`errors`, `response`,
  `ServerClient::handle_response`, `FormationClient::handle_response`), what is read of
  JSON bodies (`json`), request URLs and headers and the retry decision (`http`,
  `server_client`, `formation_client`), the
  `text/event-stream` readers (`server_client::parse_sse_events`,
  `formation_client::SseEventParser`), webhook signature checks (`webhook`), and the
  SDK version bookkeeping (`version_check`). `text` holds the string operations they are
  built from; `crypto` and `sys` hold the calls into `hmac`, `sha2`, `base64`, `uuid`
  and the clock.
- `app/` — what sends and receives: the asynchronous HTTP calls of both clients (with the
  platform from `std::env::consts` and the waits `http::retry_delay` decides), event
  streams, the version cache file, and the serde forms of the library's types.
- `tests/` — tests of the library on concrete values.
