# osdp

Verified drivers for the two ends of an OSDP bus: the ACU (`driver::acu`), which issues
commands, and the PD (`driver::pd`), which answers them. Framing (`packet`), command and
reply bodies (`command`, `reply`) and the secure channel (`secure`) are part of the library.

What a driver does is stated as a function of what its surroundings answer: the transport
operations, the clock readings, the random draws and the answers of the application. The
functions are in `driver/acu/model.rs` and `driver/pd/model.rs`; the contract of each driver
method says that its outcome is what the function makes of the events that took place.
What follows for the drivers, alone and together, is proved in the `laws` modules.

- `src/` is the library, verified with Verus.
- `tests/` runs it.
- `app/` is ordinary Rust around it: a system clock and two complete flows.

AES-128 comes from the `aes` crate, behind the two wrappers in `secure/cipher.rs`.
