//! ESP32-C6 UART family values: the interrupt-matrix sources of UART0 and
//! UART1, the core clock the UART pacing is scaled to, and the choice of a
//! default source from the UART's page base.

use vstd::prelude::*;

verus! {

/// Interrupt-matrix source of UART0 on the C6.
pub const UART0_INTR_SOURCE_ID: u32 = 43;
/// Interrupt-matrix source of UART1 on the C6.
pub const UART1_INTR_SOURCE_ID: u32 = 44;
/// The C6 HP-core clock the UART pacing is scaled to.
pub const CPU_CLOCK_HZ: u64 = 160_000_000;
/// UART1's page base.
pub const UART1_BASE: u64 = 0x6000_1000;

/// The default interrupt-matrix source for a UART at `base`: UART1's page
/// selects UART1's source, anything else UART0's.
pub fn default_source_id(base: u64) -> (r: u32)
    ensures
        base == UART1_BASE ==> r == UART1_INTR_SOURCE_ID,
        base != UART1_BASE ==> r == UART0_INTR_SOURCE_ID,
{
    if base == UART1_BASE {
        UART1_INTR_SOURCE_ID
    } else {
        UART0_INTR_SOURCE_ID
    }
}

} // verus!
