# bzr

The verified core of a Bugzilla client, written in Verus.

- `src/` is the library. Every function in it carries a contract that Verus
  proves: attachment payload extraction from JSON and XML-RPC responses
  (`attachment`), response classification (`response`, `adjacency`, `lookup`,
  `wire`), search query construction (`search`), auth and API-mode detection
  as state machines (`auth`), the settings a client is built from and its
  fallback decisions (`client`, `server`), and the removal of API keys from
  the body previews that diagnostics quote (`redact`). The calls into base64, quick-xml, serde_json, percent-encoding
  and reqwest that the logic makes stand behind small trusted wrappers whose
  contracts are stated next to them.
- `tests/` runs the library on concrete inputs.
- `app/` is the unverified glue: the HTTP requests themselves, reading JSON
  text into the library's values, and staging downloaded attachments in a
  temporary file. It reads a whole attachment response into memory before
  the library extracts from it, rather than streaming it. It covers only part
  of the client's requests: among those it does not carry are the fallbacks
  from REST to XML-RPC, the group lookup and the attachment size lookup
  (whose decisions the library holds), and the detection of server settings.
