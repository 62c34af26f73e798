//! UICR flash semantics: erased reset, bits only cleared, byte programming.

use labwired_core::uicr::{Nrf52Uicr, ERASED, OFF_APPROTECT, OFF_CUSTOMER_FIRST, OFF_NRFFW_FIRST};

#[test]
fn approtect_starts_erased() {
    let u = Nrf52Uicr::new();
    assert_eq!(u.read_u32(OFF_APPROTECT).unwrap(), 0xFFFF_FFFF);
}

#[test]
fn write_zero_clears_bits() {
    let mut u = Nrf52Uicr::new();
    u.write_u32(OFF_APPROTECT, 0x0000_00FF).unwrap();
    assert_eq!(u.read_u32(OFF_APPROTECT).unwrap(), 0x0000_00FF);
}

/// The Intel-HEX UICR record of the micro:bit V2 MakeCode base image
/// (`:081014000070070000E0070076`), delivered the way
/// `Machine::load_firmware` delivers a segment outside flash/RAM: one
/// byte at a time.
#[test]
fn byte_writes_program_the_containing_word() {
    let mut u = Nrf52Uicr::new();
    for (i, b) in [0x00u8, 0x70, 0x07, 0x00, 0x00, 0xE0, 0x07, 0x00]
        .iter()
        .enumerate()
    {
        u.write(OFF_NRFFW_FIRST + i as u64, *b).unwrap();
    }
    assert_eq!(u.read_u32(OFF_NRFFW_FIRST).unwrap(), 0x0007_7000);
    assert_eq!(u.read_u32(OFF_NRFFW_FIRST + 4).unwrap(), 0x0007_E000);
    // Byte reads agree with the word view.
    assert_eq!(u.read(OFF_NRFFW_FIRST + 1).unwrap(), 0x70);
    assert_eq!(u.read(OFF_NRFFW_FIRST + 2).unwrap(), 0x07);
    // Untouched fields stay erased.
    assert_eq!(u.read_u32(OFF_NRFFW_FIRST + 8).unwrap(), ERASED);
    assert_eq!(u.read(OFF_APPROTECT).unwrap(), 0xFF);
}

#[test]
fn byte_write_keeps_flash_semantics_and_other_lanes() {
    let mut u = Nrf52Uicr::new();
    u.write_u32(OFF_CUSTOMER_FIRST, 0x1234_5678).unwrap();
    u.write(OFF_CUSTOMER_FIRST + 1, 0xFF).unwrap(); // cannot set bits
    assert_eq!(u.read_u32(OFF_CUSTOMER_FIRST).unwrap(), 0x1234_5678);
    u.write(OFF_CUSTOMER_FIRST + 3, 0x02).unwrap(); // 0x12 & 0x02
    assert_eq!(u.read_u32(OFF_CUSTOMER_FIRST).unwrap(), 0x0234_5678);
}

#[test]
fn write_cannot_set_bits() {
    let mut u = Nrf52Uicr::new();
    u.write_u32(OFF_APPROTECT, 0).unwrap();
    u.write_u32(OFF_APPROTECT, 0xFFFF_FFFF).unwrap();
    assert_eq!(u.read_u32(OFF_APPROTECT).unwrap(), 0);
}
