//! The ESP32-C6 PCR register table, storage and gate-name lookup.

use labwired_core::pcr::{pcr_registers, Esp32c6Pcr};

#[test]
fn reset_values_match_the_svd_for_the_gate_registers() {
    let p = Esp32c6Pcr::new();
    // Every gate register we actually declare on the C6 chip yaml.
    assert_eq!(p.read_u32(0x00).unwrap(), 1, "UART0_CONF reset");
    assert_eq!(p.read_u32(0x0C).unwrap(), 1, "UART1_CONF reset");
    assert_eq!(p.read_u32(0x3C).unwrap(), 1, "TIMERGROUP0_CONF reset");
    assert_eq!(p.read_u32(0x48).unwrap(), 1, "TIMERGROUP1_CONF reset");
    assert_eq!(p.read_u32(0xBC).unwrap(), 1, "GDMA_CONF reset");
    assert_eq!(p.read_u32(0x110).unwrap(), 0x2800_0200, "SYSCLK_CONF reset");
    assert_eq!(p.read_u32(0xFFC).unwrap(), 0x0220_6150, "DATE reset");
    // SVD entries with no resetValue seed 0.
    assert_eq!(p.read_u32(0x118).unwrap(), 0, "CPU_FREQ_CONF seeded 0");
}

#[test]
fn writes_round_trip_and_unknown_offsets_are_storage() {
    let mut p = Esp32c6Pcr::new();
    p.write_u32(0x004, 0x0050_1234).unwrap();
    assert_eq!(p.read_u32(0x004).unwrap(), 0x0050_1234);
    // Gate bit writes are plain storage.
    p.write_u32(0x00, 0).unwrap();
    assert_eq!(p.read_u32(0x00).unwrap(), 0);
    p.write_u32(0x00, 3).unwrap();
    assert_eq!(p.read_u32(0x00).unwrap(), 3);
    // Byte access to the same word.
    p.write(0x00, 0x00).unwrap();
    assert_eq!(p.read(0x00).unwrap(), 0x00);
    assert_eq!(p.read(0x01).unwrap(), 0x00);
    // Unknown offsets round-trip rather than faulting.
    p.write_u32(0x200, 0xCAFE_BABE).unwrap();
    assert_eq!(p.read_u32(0x200).unwrap(), 0xCAFE_BABE);
}

#[test]
fn gate_names_resolve_case_insensitively() {
    assert_eq!(Esp32c6Pcr::gate_reg_offset("UART0_CONF"), Some(0x00));
    assert_eq!(Esp32c6Pcr::gate_reg_offset("uart0_conf"), Some(0x00));
    assert_eq!(Esp32c6Pcr::gate_reg_offset("TIMERGROUP0_CONF"), Some(0x3C));
    assert_eq!(Esp32c6Pcr::gate_reg_offset("GDMA_CONF"), Some(0xBC));
    assert_eq!(Esp32c6Pcr::gate_reg_offset("NO_SUCH_REG"), None);
}

#[test]
fn every_table_entry_has_a_unique_offset_and_name() {
    let table = pcr_registers();
    let mut offsets: Vec<u32> = table.iter().map(|(o, _, _)| *o).collect();
    let mut names: Vec<&str> = table.iter().map(|(_, n, _)| *n).collect();
    offsets.sort_unstable();
    names.sort_unstable();
    let n = offsets.len();
    offsets.dedup();
    names.dedup();
    assert_eq!(offsets.len(), n, "duplicate PCR offset in the table");
    assert_eq!(names.len(), n, "duplicate PCR register name in the table");
}

#[test]
fn every_listed_register_round_trips_between_name_and_offset() {
    let table = pcr_registers();
    for (offset, name, _) in &table {
        assert_eq!(Esp32c6Pcr::register_name(*offset as u64), Some(*name));
        assert_eq!(Esp32c6Pcr::gate_reg_offset(name), Some(*offset as u64));
        assert_eq!(Esp32c6Pcr::gate_reg_offset(&name.to_lowercase()), Some(*offset as u64));
    }
}
