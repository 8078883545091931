# musify

The logic of Musify, a peer-to-peer node that shares music files over
libp2p, verified with Verus.

- `src/text.rs`: finding a character, splitting a line at a separator.
- `src/varint.rs`: length-prefixed messages (base-128 varint length, then
  the bytes), with the reader's step function and its laws.
- `src/codec.rs`: file requests and responses as they travel between peers.
- `src/transfer.rs`: where a file is served from, how it is framed with its
  name, and where the receiver stores it.
- `src/command.rs`: the commands the user types (`sh:`, `dwn:`, `ls ps`,
  `help`, `sto:`).
- `src/provide.rs`: which files a node announces when it starts.
- `app/`: the program: libp2p swarm, event loop, standard input and files.
