# a2fa_daemon

The rules of a daemon that keeps SSH logins with one-time codes alive: it holds
the masters of many hosts open, runs port forwards through them, mounts remote
folders, and answers the requests of its clients line by line over a socket.

`src/` is the library: the daemon's rules and records, with contracts that Verus
proves:

- `dispatch` reads a request line, routes it and writes the reply line;
- `handlers/` holds the requests, by subject: hosts, credentials, mounts, tunnels
  and their settings, batches, discovery, and the daemon itself;
- `managers` and `heartbeat` keep the pool of each host and decide what a
  heartbeat does with its slots;
- `tunnel_runtime`, `tunnel_maintenance`, `starts` and `workers` decide how
  forwards are started, watched, recovered and given up, and which one-time code
  may be submitted when;
- `server` is the boot and the life of a connection, as steps from event to ask;
- `log_rotation` names the archives of the log and says which are outdated;
- `model`, `json`, `text`, `paths`, `names`, `split` and `latch` are what the
  others stand on.

What a module promises beyond its single functions is stated in the proof
functions whose names begin with `law_`.

`json` passes through `serde_json`; the functions marked `external_body` say what
is taken for granted of it and of a few conversions of the standard library.

`tests/` runs the library on concrete values. `app/` is the program around it:
threads, processes, sockets and files. It performs what the library asks for and
hands back what came of it.
