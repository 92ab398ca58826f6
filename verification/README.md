# Seam

The core of a post-quantum encrypted transport protocol over UDP, verified with
[Verus](https://github.com/verus-lang/verus), and the `seam` file transfer
program around it.

| Where | What |
|---|---|
| `src/crypto` | packet protection: format, header masking, anti-replay |
| `src/handshake` | Noise XX with ML-KEM-768, identities, stateless cookies |
| `src/session` | streams, flow control, acknowledgements, retransmission, scheduling, datagrams |
| `src/transport` | the connection state machine, pacing, connection tables, session tickets |
| `src/api.rs`, `src/tunnel.rs` | what an application does with a connection; multiplexing |
| `src/cli` | the rules of the `seam` commands: frames, remotes, transfers, listings, updates |
| `app` | sockets, files, processes and the terminal |
| `tests` | executable examples |

The library does no I/O. Its state machines take packets and the time, and hand
back packets, events and errors; `app` moves them. Every function of `src` has a
contract over a mathematical view of its type (`SessionState`, `ConnState`,
`StreamState`, …). What relates several functions stands as a public proof
function, among others:

- `session::laws::written_data_is_read` and `session::laws::taken_data_is_read`:
  what is written into a stream is read from it on the other side, however its
  frames arrive and whenever it is read
- `session::laws::flushed_packets_are_decoded` and
  `crypto::decoder::replayed_packet_is_rejected`: a packet is decoded once
- `session::laws::limits_hold`: no more streams, packets in flight and received
  bytes than the limits of a session say
- `session::stream::received_bytes_stay`: what was received is not lost before it
  is read
- `transport::connection::flush_obeys_the_window` and
  `transport::pacer::pace_is_kept`: data leaves only as the congestion window
  allows, and no faster than a window for each round trip
- `session::laws::acknowledged_packets_land`: acknowledged packets are not sent again
- `session::laws::sides_never_collide`: both sides can open streams at any time
- `session::laws::opened_ids_count_up`: which ids the streams of a side get
- `handshake::state::handshake_agrees`: both sides end with the same session and
  keys, each knowing the other's static key
- `transport::connection::cookie_handshake_establishes`: the cookie handshake
  establishes both sides
- `transport::endpoint::no_state_before_cookie` and
  `transport::endpoint::connections_come_from_cookies`: nothing is kept of a
  client that has not echoed the cookie for its address
- `transport::resumption::ticket_round_trip`: a ticket is worth what it was
  issued for, until it expires
- `cli::transfer::sent_files_arrive`: files arrive with their names and contents
- `cli::transfer::names_stay_inside`: no file is created outside the destination

The cryptographic primitives, the Noise handshake, compression, hexadecimal
text, byte buffers, the clock and the random number generator come from other
crates and from `std`. What is believed of them stands in the contracts of
`crypto/aead.rs`, `handshake/noise.rs`, `handshake/kem.rs`, `buffers.rs`,
`clock.rs`, `entropy.rs`, `text.rs`, `cli/connect.rs`, `cli/transfer.rs` and
`cli/ls.rs`, each with the outside function it is about.
