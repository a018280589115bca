# netflector

The decision core of a packet reflector: a daemon that captures link-layer frames on several network
interfaces and re-emits discovery traffic (mDNS, SSDP, WSD, Wake-on-LAN) from one to another.

- `src/` is the library, written in Verus and verified: the interface table, packet filters, routing,
  draining, sending, deadlines, following interface changes, repairing recreated interfaces, and what
  reflectors require of an interface. What the kernel reports comes in as plain values; what has to be
  done goes out as plain values.
  A reflector implements `PacketHandler`. What every one keeps is `DispatchState::left_by_a_call`; one
  may say more of its own calls in `took`, `kept_time` and `heeded`, and routing, deadlines and repairs
  are stated over what those say.
- `app/` performs the system calls in between, and writes the logs.
- `tests/` runs the library on concrete values.

Times are nanoseconds on a monotonic clock. Public proof functions named `law_...` state what holds of
the library as a whole.
