# mistv

An end-to-end encrypted chat for the terminal: temporary sessions, sealed messages, invites that
work once, and attachments. The library in `src/` holds the protocol, the key schedule, the state of
the server and of the client, and the layout of the screen. What each function returns or changes is
stated in its contract and proved with Verus; the promises that span several functions are proof
functions whose names begin with `law_`.

- `src/crypto/`: connections, rooms, invitations, the group's epochs and message chains, safety codes.
- `src/protocol/`: the lines that travel between clients, and between a client and its own display.
- `src/transport/`: packets, acknowledgements and signs of life.
- `src/server/`: rooms, invite tokens, and a connection from its first line to its last.
- `src/attachments/`: sending, receiving and storing files.
- `src/client/`: entering a room, what comes in and goes out, keys, the conversation.
- `src/ui/`: layout, help, the clipboard.
- `src/util/`: texts, paths, orders and maps.
- `src/outside/`: the calls into other crates, with what is taken on trust of each.

`app/` is the programs around the library: sockets, files, the terminal and the clipboard. Without
arguments it is the client; with the argument `server` it is the server (`-p` for the port, `-k` for
the password).
