# ipet

The backend of iPet, a desktop companion that chats with an OpenAI-compatible
model, calls local and HTTP tools, watches the system and tracks foreground
app usage.

- `src/` is the verified library. Each module states its behaviour in
  `requires` / `ensures` contracts over spec models, and Verus proves them.
  Calls into `base64`, `chacha20poly1305` and `serde_json` go through small
  trusted functions whose contracts are documented beside them.
- `tests/` runs the library on concrete values.
- `app/` is the host program: SQLite storage, HTTP requests, the file-system
  walks of the desktop tools and the disk scanner, process spawning, the
  system monitor and the command-line front end. It hands plain values to the
  library and acts on what comes back.
