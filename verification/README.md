# NetShield

Rate-based DDoS detection on raw Ethernet frames, written in Verus.

`src/` is the verified library:

- `parser`, `packet`, `protocol`: Ethernet/IPv4/TCP/UDP/ICMP parsing, with
  the accepted frames and every rejection reason stated byte by byte.
- `generator`, `mock`, `server_traffic`, `scenarios`: synthetic frames and
  traffic patterns; building a frame and parsing it back is proved to give
  the fields it was built from.
- `rate_tracker`, `engine`: sliding-window packet rates per source address
  and the detection engine that raises, refreshes and resolves alerts.
- `stats`, `pipeline`, `api`: traffic counters, the parse-count-detect
  pipeline with its alert log, base64 ingest, top talkers and the query
  helpers of the HTTP API.
- `simulation`: the decisions of a simulation run (schedule, in-process
  ticks, tallies of a remote run).
- `dpdk`: the configuration and status checks of DPDK capture.

`app/` holds the programs around it: the HTTP/WebSocket server (`serve`)
and the traffic simulator (`simulate`), with the JSON shapes and the
floating-point figures shown to users.  DPDK capture is compiled only with
`--cfg netshield_dpdk` on a host with the DPDK libraries.

`tests/` runs the library on concrete inputs.
