# load_balancer

A round-robin load balancer made of three programs: a manager, servers that
register with it, and clients that repeatedly ask it for a server and leave.

- `src/` is the verified library: reading received messages (`protocol`,
  `json`), the manager's state machine (`manager`, over the address table of
  `table`), the server and client nodes and the client's connect/disconnect
  cycle (`server`, `client`), and the command lines (`cli`).
- `app/` drives the library with sockets and timers. It is one binary whose
  first argument picks the program:

      load_balancer manager <host> <port>
      load_balancer server <manager_host> <manager_port> <server_host> <server_port> [max_clients=1]
      load_balancer client <manager_host> <manager_port> <client_host> <client_port>
