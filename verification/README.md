# aion2_tunnel

Game traffic goes through an encrypted tunnel: a client captures TCP connections
to the game's address ranges and sends them as sealed packets to a relay, which
opens the connections to the game servers and passes the data on.

The library under `src/` holds what that takes, with contracts that Verus proves:

- `protocol`, `codec`, `bytes`: tunnel messages and their wire form
- `crypto`, `cipher`: keys, sealing and opening packets
- `hex`, `keys`, `text`: key files and texts
- `routing`, `tun`: which traffic is captured, and what a captured packet means
- `tunnel`, `probe`: the client's connections
- `relay`, `bridge`, `framing`, `addr`: the relay's users, streams and connections
- `table`: tables keyed by connections and by key ids
- `status`, `profiles`, `deploy`: the desktop program

`cipher`, `codec` and `hex` hold the calls into the cipher, the random generator,
`bincode` and SHA-256. What is taken for granted of them stands in their contracts.

`app/` holds sockets, files, signals, SSH and the window. The executable is the
client when called `aion2-proxy`, the relay when called `aion2-relay`, and else the
desktop program.
