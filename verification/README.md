# SnapCode

SnapCode captures verification codes from phone notifications (mirrored to
the desktop as system toasts) and from mail accounts (POP3 or IMAP), keeps a
history of them and pastes the newest one with a global shortcut.

## Layout

- `src/` — the verified library (Verus). The application's loops and
  commands ask functions here, each with a contract, what to do next:
  - `parser` — finding a code in a text (keyword rule, stand-alone rule);
  - `html`, `mail` — turning a raw mail into sender, text and date;
  - `pop3` — the POP3 protocol and a client over any byte stream;
  - `monitor` — which mail workers run, what a poll fetches, where IMAP
    synchronisation resumes and each step of an IMAP session, back-off, and
    what a mail is stored as;
  - `notifications`, `toast` — how the notification listener starts, how
    often it polls (every second when change events are unavailable), each
    step of its loop and the de-duplication of toasts by id, the toast source
    filter, toast text, toast documents;
  - `hotkey`, `paste` — parsing shortcut strings, and waiting until the
    modifier keys are released before pasting;
  - `settings`, `state`, `storage`, `commands`, `i18n`, `text` — settings and
    their legacy layout, status tables, store computations, command
    decisions (including what a refused settings update puts back),
    messages, and string helpers.
- `app/` — the desktop program around the library: Tauri windows and tray,
  threads, sockets and TLS, SQLite, `settings.json`, and the Windows APIs.
- `tests/` — tests of the library.
