# exam_monitor_core

The verified core of a classroom exam monitor: students' machines stream
their screens to the teacher's dashboard over the local network.

- `src/` is the library, verified with Verus: the wire format (`protocol`),
  student identities (`identity`), class codes and the ports derived from
  them (`room`), finding the room on the network (`discovery`), the
  teacher's roster of tiles (`roster`), the decisions of the server
  (`server`) and of the student client (`client`), the evidence log's text
  (`logging`, `calendar`), frames as data URLs and JPEG (`frames`), and the
  load-testing tool's command line and synthetic frames (`stress`).
- `app/` is the runtime around it: sockets, threads, files, the clock, the
  screen capture and the dashboards' commands.
- `tests/` runs the library on concrete values.
