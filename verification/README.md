# drawing

A shared live drawing canvas. Browsers draw with the mouse; each segment
goes over a websocket to the server, which keeps the segments (clearing
them beyond `MAX_MESSAGES`), sends each one to every other browser and
replays them all to a browser that connects later.

- `src/` — the library, verified with Verus:
  - `message.rs`: segments (`Line`) and server messages (`DrawingMsg`, `Delivery`);
  - `registry.rs`: the connected clients and who a broadcast reaches;
  - `board.rs`: the server's decisions on connect, segment and leave, with the laws that relate them;
  - `relay.rs`: the relay protocol (raw frames forwarded, segments kept and cleared as on the board);
  - `pen.rs`: the browser's pen, from mouse events to canvas calls and segments;
  - `ids.rs`: random client ids (bytes from `getrandom`, text from `uuid`).
- `app/` — the server (`warp`, `tokio`) and the WASM client (`web-sys`), which
  run the library's decisions and do the I/O and JSON.
- `tests/` — tests of the library on concrete values.
