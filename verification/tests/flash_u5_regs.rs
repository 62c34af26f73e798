use labwired_core::flash_u5_regs::{
    ACR_WRITABLE_MASK, BANK_SIZE, NSCR_LOCK, NSCR_OPTLOCK, NSCR_PNB_MASK, NSCR_RESET, NSSR_BSY,
    NSSR_W1C_MASK, NSSR_WDW, PAGES_PER_BANK, PAGE_SIZE, PROG_GRANULARITY,
};

#[test]
fn u5_flash_fields_and_geometry_agree() {
    assert_eq!(NSCR_RESET, 0xC000_0000);
    assert_eq!(NSCR_RESET, NSCR_LOCK | NSCR_OPTLOCK);
    assert_eq!(NSCR_PNB_MASK, 0x3F8);
    assert_eq!(ACR_WRITABLE_MASK, 0x790F);
    // Live status is never write-one-to-clear.
    assert_eq!(NSSR_W1C_MASK & (NSSR_BSY | NSSR_WDW), 0);
    assert_eq!(NSSR_W1C_MASK, 0x20FB);
    assert_eq!(PAGE_SIZE * PAGES_PER_BANK as u64, BANK_SIZE);
    assert_eq!(PROG_GRANULARITY, 4 * 4);
}
