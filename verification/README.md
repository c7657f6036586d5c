# minerp

A reverse proxy for Minecraft servers. The owner of a server behind a firewall
runs the client. The client asks the proxy server for a name, keeps a control
connection open, and claims each player whom the server announces to it.

`src/` is the library: the encodings of the Minecraft protocol and of the control
connection, the routing table, and the decisions of both programs. Verus proves
every function of it against its contract. What it relies on without proof are
the functions marked `external_body`, which call `bincode`, `serde_json`, `rand`,
`tokio`, `rustls`, `rustls-pemfile` and the standard library; each says what it
claims of the call.

`app/` holds the two programs, which move bytes between sockets and the library
and draw the client's window. The server reads `LISTEN_ADDR`, `CERTCHAIN` and
`PRIVKEY` from its environment; it listens for players on port 25565, for clients
on 25566, and for operators on 25567.
