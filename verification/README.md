# rustdesk (verified host core)

The decision logic of a headless remote-desktop host, written in Verus and proved against
its contracts.

- `src/` is the verified library: command-line handling (`core_main`), the direct-access
  server's port and state machine (`rendezvous_mediator`), the registry of services and
  connections and the key-exchange decisions (`server`), clipboard text decoding
  (`server::clipboard_service`), Linux session discovery and system facts
  (`platform::linux`, `platform::linux::desktop`), two-factor settings (`auth_2fa`), the
  user-interface state kept in sync with the server process (`ui_interface`), key
  classification (`keyboard`), and text helpers with exact specifications (`text`,
  `pattern`).
- `app/` holds what performs the system calls: reading `/proc`, running commands, the sound
  server, the wallpaper, the wake lock, the clipboard listener, and the serialised forms of
  library values.
- `tests/` exercises the library on concrete values.
