# recovery

Loss recovery and congestion control bookkeeping of a QUIC path, with support
for a proxy near the sender that reports which packets it has received
("quacks"). The library is verified with Verus.

- `src/recovery.rs` holds the state of a path, its settings and its timers;
  `sending.rs`, `detection.rs`, `expiry.rs` and `quacking.rs` hold what happens
  when a packet is sent, when an ACK frame arrives, when the timer expires and
  when a quack arrives.
- `src/space.rs`, `loss.rs` and `sidecar.rs` work on the packets of one packet
  number space. `src/quack.rs` decodes quacks.
- `src/congestion.rs` has the hooks of a congestion control algorithm and the
  state that it works on. `src/reno.rs` is such an algorithm. `algorithms.rs`
  dispatches to the one that a connection has chosen; the hooks of CUBIC and of
  BBR are type parameters. `pacer.rs`,
  `delivery_rate.rs`, `hystart.rs`, `prr.rs` and `minmax.rs` are parts of that
  state.
- `src/model.rs` says, over mathematical values, what each operation does. The
  contracts of the operations speak of it. `tally.rs`, `custody.rs`, `flight.rs`
  and `laws.rs` state and prove what holds of all of them.
- `app/` is ordinary Rust: the system clock, the socket for resets, log text and
  qlog events.

Times are counted in whole nanoseconds, and there is no floating point
arithmetic. Where a duration is multiplied by a fraction, it is rounded to the
nearest nanosecond, halves upwards. A rate in bytes per second is rounded down.
A result can therefore differ by one unit from what `f64` arithmetic would give.
