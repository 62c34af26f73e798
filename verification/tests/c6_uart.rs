//! ESP32-C6 UART interrupt-matrix sources.

use labwired_core::c6_uart::{default_source_id, UART0_INTR_SOURCE_ID, UART1_INTR_SOURCE_ID};

/// The ESP32-C3's UART0 source, which the C6 must not reuse.
const C3_UART0_INTR_SOURCE_ID: u32 = 21;

#[test]
fn source_ids_match_the_c6_interrupt_matrix() {
    assert_eq!(UART0_INTR_SOURCE_ID, 43);
    assert_eq!(UART1_INTR_SOURCE_ID, 44);
    assert_ne!(UART0_INTR_SOURCE_ID, C3_UART0_INTR_SOURCE_ID);
    assert_eq!(default_source_id(0x6000_0000), 43);
    assert_eq!(default_source_id(0x6000_1000), 44);
}
