# Riscbox

Riscbox is a small RV64 virtual platform that runs in a web page: one hart with
M/S/U privilege modes and Sv39, guest memory, a `virt`-style set of devices, boot
loading, and the state machine that drives it from a page. Its logic is a Verus
library whose behaviour is stated in contracts and proved.

## Layout

- `src/` is the verified library.
  - `arith`, `bytes`, `text`, `listing`: powers, little-endian values, text and
    line-oriented formats.
  - `softfp`: binary32 and binary64 arithmetic with rounding modes and flags.
  - `cpu`: control registers, translation and protection, instructions, traps and
    runs; `cpu::laws` holds what every CPU keeps.
  - `memory`, `guest_memory`: the physical memory map and the devices' view of it.
  - `platform`: finisher, timer, interrupt controller, serial port and clock.
  - `virtio`, `virtio_devices`, `ninep`: queues and the devices behind them.
  - `config`, `fdt`, `crypto`: configurations, device trees, encrypted files.
  - `machine`, `boot`, `display`, `errors`, `laws`: the assembled platform.
  - `http_9p`, `p9`: a 9P2000.L filesystem whose files are fetched over HTTP.
  - `browser`, `browser_storage`, `running`, `browser_runtime`, `quantum`,
    `browser_quantum`, `browser_abi`: input, disks, loading, timed runs, and the
    calls of a page.
- `tests/` runs the library.
- `app/` is what surrounds it: entropy of the host, rates in floating point, and
  the functions that a page calls.

## How contracts are written

Every type has a model, reached by `@`, and a `valid` or `well_formed` predicate
that constructors establish and operations keep. An operation is a spec function
on the model; its executable method states that result and new model are those of
the spec function. Properties that span operations are public proof functions
whose names start with `law_`.

Key derivation and block decryption come from the crates `pbkdf2`, `sha2`, `aes`
and `cbc`, through two small functions in `crypto` whose contracts are believed.
So are those of `String::push` and `String::from_utf8` in `text`. A source of
entropy is a trait, `EntropySource`, that the host implements; its answers are
arbitrary, and contracts speak of them only as what was drawn.
