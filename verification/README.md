# reverb

The core of the reverb chat service as a verified library: the byte format of
packets and commands, the server's registry of users and groups and its
answers to each command, the command-line command tree of the client, and
the client's configuration and connection state.

- `src/` is verified with Verus. Each public function states in its
  contract what it returns or changes; the laws of the library (packet and
  command round trips, consistency of the registry under every handler,
  registering and then removing a user, what adding a command guarantees,
  and how a line of input resolves to the command it names)
  are public proof functions next to the code they speak of.
- `app/` is the server program around it: QUIC connections, the postcard
  encoding of command bodies, and the configuration files of the client.
- `tests/` runs the library on concrete values.
