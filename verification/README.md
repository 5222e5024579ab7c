# grindr-mcp

A [Model Context Protocol](https://modelcontextprotocol.io) server for the
**unofficial** Grindr API, with its logic verified by
[Verus](https://github.com/verus-lang/verus).

> **For educational purposes only.** This project is unofficial and not
> affiliated with, authorized, or endorsed by Grindr. Automating access may
> violate Grindr's Terms of Service. Use it only with your own account and at
> your own risk.

## Layout

- `src/` is the verified library.
  - `geohash.rs`, `double.rs`, `location.rs`: geohashes of points given as
    double-precision numbers, by bisection with a rounding that is defined on
    their bits, and the choice of a location. That this is what the doubles of
    the machine do is shown by `tests/geohash.rs`.
  - `openapi.rs`, `openapi_laws.rs`: discovery of the API from its OpenAPI
    document, and what holds of it as a whole.
  - `query.rs`: percent-encoding and query strings.
  - `tools/`: the requests that the tools make, and the results that they give.
  - `ws.rs`: the phases of a command over the realtime websocket.
  - `state.rs`: the device, the session and the pinned location on disk.
  - `json.rs`, `document.rs`, `reply.rs`, `text.rs`: JSON values, JSON text by
    way of `serde_json`, replies of tools, and strings.
- `app/` is the program: the MCP server over stdio, the client of the API, the
  websocket and the files. It reads `openapi.json` from the directory of the
  executable.
- `tests/` runs the library.

## State and secrets

The device identity and the session are kept at `$GRINDR_MCP_STATE` if set,
otherwise at `<config dir>/grindr-mcp/state.json`. The file is written with
permissions `0600`. It contains bearer tokens: treat it as a secret. The pinned
location is kept next to it.
