# labwired_core

Register-level models of microcontroller peripherals for a firmware
simulator, written in Verus. Each peripheral is a state machine whose MMIO
reads and writes, time advance and bus-aware transfers carry contracts over a
mathematical view of its state; the properties the models keep are proved as
lemmas beside them.

Layout:

- `src/` — the verified library:
  - `timg.rs` ESP32/C3/C6 timer group (T0/T1, LACT, RTC calibration, MWDT),
  - `gdma.rs` ESP32-C6 GDMA with memory-to-memory descriptor walks,
  - `lp_timer.rs` ESP32-C6 LP_TIMER snapshot protocol,
  - `pcr.rs` ESP32-C6 PCR register table, `c6_uart.rs` C6 UART sources,
  - `uicr.rs` nRF52 UICR flash fields, `clock.rs` nRF54L CLOCK,
  - `uarte.rs` nRF54L UARTE with EasyDMA, `scs_debug.rs` Cortex-M DHCSR,
  - `session.rs` the scriptable session: console stream, virtual time and
    the decisions that drive a machine,
  - `expr.rs` and `formula.rs` the float expression language of derived
    channels (tokens, grammar, name checks, the resource bounds of
    `quantize`), with `formula_text.rs` the texts of its errors,
  - `exact.rs` the checked `i64` language: parser, evaluator, programs of
    local bindings and the lower-bound inverse search, with `exact_text.rs`
    the texts of its load errors,
  - `derived.rs` a descriptor's derived channels compiled in declaration
    order, and the exact producers' values, with `derived_text.rs` the texts
    of their refusals and failures,
  - `schedule.rs` finite GPIO edge schedules: expansion and the bank that
    plays them, `gpio_device.rs` a pin-only device's pads and derived clock,
  - `sd_hle.rs` the decisions of the SoftDevice high-level emulation,
  - `flash_u5_regs.rs` STM32U5 FLASH register map,
  - `bus.rs` a RAM bus, `regs.rs` byte-lane helpers, `shared.rs` host-shared
    byte queues, `cycle_clock.rs` the published cycle clock.
- `tests/` — the behaviour tests.
- `app/` — host-side code: the session loops, error messages, JSON snapshots,
  the console echo, float evaluation of derived channels and the resolution
  of schedule durations to cycles.
