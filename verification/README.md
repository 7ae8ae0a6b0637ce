# packet_sniffer

A packet sniffer whose decoding logic is verified with Verus.

- `src/` is the verified library: decoders for Ethernet, IPv4, TCP (with the
  TLS record header at the start of the payload) and UDP frames, the names
  and texts shown for EtherTypes, ports, TCP flags and TLS content types, the
  payload dump, the table of processes per local port, and the decision of
  which packets a listing shows.
- `app/` is the program around it: command-line parsing, reading the socket
  table of the system, capturing frames and printing them in colour.
- `tests/` runs the library on concrete frames.
