# appletalk

A verified AppleTalk stack: the wire formats of EtherTalk, LocalTalk and the
AURP tunnel; a node that claims an address and asks the network questions; a
bridge that puts LocalTalk over UDP onto an EtherTalk cable; and the routing
core of an exterior router. Each function states what it returns or changes as
a contract, and Verus proves it.

- `src/` is the library. It is pure: it is handed what arrived and the time, and
  hands back what to send.
- `app/` is the program around it: the command line, the NIC, the multicast
  socket, the serial port and the clocks.
- `tests/` runs the library on concrete packets.

| Module            | What it holds                                                    |
|-------------------|------------------------------------------------------------------|
| `wire`            | AARP, DDP, NBP, ATP, AEP, ZIP, RTMP, LLAP, AURP: parse and encode |
| `node`, `runtime` | Claiming and defending an address, lookups, zone lists, echoes    |
| `session`         | ATP transactions put back together                                |
| `bridge`, `repeat`| Which side a node is on, and what is repeated                     |
| `tashtalk`, `ltoudp` | The framing of the two LocalTalk links                         |
| `router`          | Tables, ports, the local services, and the AURP peers             |
| `capture`, `cli`, `text`, `report`, `config`, `peer_list` | Choosing a NIC, filters, printing, settings |

Laws that span several functions stand beside what they are about, as public
proof functions whose names begin with `law_`.
