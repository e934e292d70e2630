# lowping

Game traffic over relay servers ("bridges") that you, or someone you trust,
operate. A client captures the traffic of a game, picks for each destination
whether to send it directly or over a bridge, and tunnels it in encrypted
frames; a backend issues license tokens and publishes a signed list of bridges.

The library under `src/` is verified with Verus: every function states what it
returns or changes, and the proof stands beside it.

| Module | What it holds |
| --- | --- |
| `protocol` | frames between client and bridge, and the CONNECT message |
| `handshake`, `signing`, `crypto` | keys; `crypto` calls the crates that implement the primitives |
| `license` | license tokens |
| `fec` | Reed-Solomon parity and recovery |
| `receiver` | taking each frame once |
| `bridge` | what a bridge makes of packets, and its sessions |
| `tunnel` | the client's side of a tunnel |
| `capture` | destination NAT of captured packets |
| `aws_regions`, `router`, `smart` | which region an address is in, and which route is taken |
| `backend` | the signed directory, and signups |
| `forwarder`, `config`, `dashboard` | rules, defaults, and what the dashboard shows |
| `bytes`, `text`, `encoding`, `addr`, `table` | byte strings, texts, addresses and maps |

What is believed without proof are the contracts of the functions that call
other crates: all of `crypto`, `b64_*` and `hex_*` in `encoding`, `rs_*` in
`fec`, and `random_u32` in `tunnel`. Each says which function it calls and what
is claimed of it.

`app/` is the program around the library: the command line, sockets, HTTP, the
terminal and the WinDivert driver. The client's smart routing reads AWS's
address ranges from `data/aws-ranges.json`:

```bash
curl -sSL https://ip-ranges.amazonaws.com/ip-ranges.json -o data/aws-ranges.json
```
