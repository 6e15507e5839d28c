# trojan-server

A Trojan proxy server over TLS. A client that sends the SHA-224 hash of the password is given a
TCP tunnel or a UDP relay; everybody else is shown a web site.

- `src/` is the library, verified with Verus: the formats on the wire, the password, the
  decisions about clients, tunnels and relays, and the TLS identity. The decisions are state
  machines: they are told what happened and say what to do next. `*_laws.rs` and the `law_`
  functions state what holds of the server as a whole.
- `app/` is the program: it owns the sockets, the files and the clock, and does what the library
  says.
- `tests/` runs the library on given values.

The program takes the password as its argument, and expects `server.crt` and `server.key` in the
working directory. The web site is Google (`DEFAULT_BACKEND` in `src/tunnel.rs`).
