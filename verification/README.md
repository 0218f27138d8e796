# Custos

Custos inspects gRPC traffic that carries tensors. It parses Ethernet, IPv4, TCP,
HTTP/2 and gRPC headers, walks the Protobuf payload and decides whether a packet
goes on: by fixed limits on shapes, or by a policy that can be replaced while it is
in force. Around that stand the packet loop of a worker on AF_XDP rings, batched
sending, counters with their reports, and a generator of good and bad traffic.

The library under `src/` is written in Verus. Every function states in its contract
what it returns, and Verus proves it.

## Modules

| Module | What is in it |
| --- | --- |
| `endian`, `text` | Numbers as bytes and as text |
| `grpc` | Headers, the Internet checksum, parsing of packets, a generator of pseudorandom numbers |
| `protobuf` | Varints, the walk through a payload, limits on shapes |
| `policy`, `engine`, `manager` | Policies, matching packets against them, replacing the one in force |
| `common`, `inspect`, `worker` | Modes, what becomes of a packet, the packet loop and where its frames are |
| `tx`, `sharding` | Batches for the transmit ring, rings in memory, workers that share nothing |
| `numa`, `settings` | Cores of workers, and what is checked before they start |
| `metrics`, `prometheus`, `report` | Counters, and their rendering as text |
| `packet_gen`, `bench`, `pcap` | Traffic, the benchmark, capture files |
| `k8s` | Workers without privileges |

Laws that relate several functions stand at the end of a module as public proof
functions.

## What is taken on trust

- `zerocopy` reads and writes numbers in network byte order (`endian`).
- `rand` rolls a number below a bound (`bench`).
- `arc_swap` holds the policy in force (`manager`): what it hands out was put there
  before, and which of the policies it is depends on the threads.
- `Debug` quotes a text (`common`).

## The programs

`app/` holds the programs: workers on AF_XDP sockets, the benchmark with its
dashboards, the daemon for workers without privileges and a demonstration of
replacing a policy. They work the rings, the files and the clock, and leave the
decisions to the library.
