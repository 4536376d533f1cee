# ros_flake

A decoder for classic PCAP captures: Ethernet → IP/ARP (with fragment
reassembly) → TCP/UDP → TCP streams, written in Verus. The functions of the
library carry contracts, and Verus proves the code against them. The few calls
into other code (the `lru` tables in `cache`, UTF-8 decoding in `text`) sit behind
trusted wrappers whose contracts are taken as given, not proved.

## Layout

| Module      | Role                                                            |
| ----------- | --------------------------------------------------------------- |
| `pcap`      | File header and frame record header                             |
| `ethernet`  | Ethernet II and VLAN-tagged frames                              |
| `ip`        | IPv4, IPv6 (extension headers), ARP; `ip::frag` reassembly      |
| `tcpip`     | The same network layer in an older shape                        |
| `transport` | TCP and UDP segments; `transport::frag` stream reassembly       |
| `event`     | The decoder that runs a frame through every layer               |
| `text`      | Decimal, hexadecimal and UTF-8 text for the `to_text` methods   |
| `cache`     | The `lru` tables that hold buffers and flows, and their contracts |
| `bytes`, `ordered` | Byte-order reading, and facts about ordered keys         |

The contracts are stated over spec functions of each module (`parse_error`,
`decodes`, `open_ingest`, `buffer_insert`, ...). Laws that relate several calls
are public proof functions named `lemma_*`.

`app/` holds the program: it reads the capture file, hands the bytes to the
library and prints the events.

```bash
ros_flake path/to/capture.pcap
```
