# imsg

iMessage from a web page or a terminal: a server that runs on a Mac and a
terminal client, around a library whose rules are verified with Verus.

- `src/` is the library. All of its logic is verified. Calls into other crates, and
  into parts of std that have no specification, stand in small wrappers whose
  contracts are trusted; the comment on each says what is claimed of the call.
  - `text`, `numbers`, `order`, `maps`: strings as sequences of characters,
    decimal numbers, stable sorting, keys of maps.
  - `wire`: what the server and its clients exchange.
  - `rows`, `content`, `db`, `reactions`, `history`, `chats`, `contacts`: how rows
    of the Messages and Contacts databases become chats, messages and contacts.
  - `send`, `server`, `watch`: sending, the rules of the server, and what is
    pushed to clients when the database changes.
  - `config`, `client`, `state`, `keys`, `emoji`: settings, requests and the
    state of the terminal client under events and keys.
  - `screen`, `wrap`, `clock`, `bubbles`, `panes`: what the client draws.
  - `laws`: properties that span several of these.
- `app/` is the program: `imsg serve` is the server, `imsg` alone the client. It
  reads SQLite, speaks HTTP and draws on the terminal, and asks the library for
  every decision.
- `tests/` run the library on concrete values.
