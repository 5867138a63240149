# drone_network

A network of drones, clients and servers that talk by source routing,
with its decisions verified by Verus.

- `src/` is the verified library: packets and their routes
  (`packet`), fragmentation and reassembly (`fragmentation`, `assembler`,
  `session_assembler`), the drone's routing decisions (`drone`), what
  clients and servers learn from floods and how they answer requests
  (`topology`, `node`, `client`, `communication_server`, `content_server`,
  `message`), the configuration checks and the distribution of content
  (`config`, `distribution`, `random`), and the simulation controller's
  model of the network, its log and its window state (`simulation`, `logs`,
  `text`, `app_state`, `graph`, `downloads`).
- `app/` runs the network: configuration file, channels, one thread per
  node, and a terminal front end for the controller.
- `tests/` exercises the library on concrete scenarios.
