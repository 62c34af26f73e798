//! ESP32-C6 PCR (Peripheral Clock and Reset).
//!
//! Register-backed storage for the whole documented PCR map, seeded with the
//! SVD reset values, plus resolution of the symbolic gate-register names that
//! chip descriptions use. No clock tree is interpreted and `RST_EN` is stored,
//! not enforced.

use crate::regs::{align_word, byte_of, get_byte, map_word, set_byte, with_byte, word_base, word_in};
use crate::{PeripheralTickResult, SimResult};
use std::collections::HashMap;
use vstd::prelude::*;
use vstd::string::StringSliceAdditionalSpecFns;

verus! {

/// Number of registers in the PCR table.
pub const PCR_COUNT: usize = 83;

pub open spec fn pcr_entry(i: int) -> (u32, &'static str, u32) {
    if i == 0 {
        (0x000, "UART0_CONF", 0x00000001)
    } else if i == 1 {
        (0x004, "UART0_SCLK_CONF", 0x00700000)
    } else if i == 2 {
        (0x008, "UART0_PD_CTRL", 0x00000002)
    } else if i == 3 {
        (0x00C, "UART1_CONF", 0x00000001)
    } else if i == 4 {
        (0x010, "UART1_SCLK_CONF", 0x00700000)
    } else if i == 5 {
        (0x014, "UART1_PD_CTRL", 0x00000002)
    } else if i == 6 {
        (0x018, "MSPI_CONF", 0x00000005)
    } else if i == 7 {
        (0x01C, "MSPI_CLK_CONF", 0x00000300)
    } else if i == 8 {
        (0x020, "I2C0_CONF", 0x00000001)
    } else if i == 9 {
        (0x024, "I2C_SCLK_CONF", 0x00400000)
    } else if i == 10 {
        (0x028, "UHCI_CONF", 0x00000001)
    } else if i == 11 {
        (0x02C, "RMT_CONF", 0x00000001)
    } else if i == 12 {
        (0x030, "RMT_SCLK_CONF", 0x00501000)
    } else if i == 13 {
        (0x034, "LEDC_CONF", 0x00000001)
    } else if i == 14 {
        (0x038, "LEDC_SCLK_CONF", 0x00400000)
    } else if i == 15 {
        (0x03C, "TIMERGROUP0_CONF", 0x00000001)
    } else if i == 16 {
        (0x040, "TIMERGROUP0_TIMER_CLK_CONF", 0x00400000)
    } else if i == 17 {
        (0x044, "TIMERGROUP0_WDT_CLK_CONF", 0x00400000)
    } else if i == 18 {
        (0x048, "TIMERGROUP1_CONF", 0x00000001)
    } else if i == 19 {
        (0x04C, "TIMERGROUP1_TIMER_CLK_CONF", 0x00400000)
    } else if i == 20 {
        (0x050, "TIMERGROUP1_WDT_CLK_CONF", 0x00400000)
    } else if i == 21 {
        (0x054, "SYSTIMER_CONF", 0x00000001)
    } else if i == 22 {
        (0x058, "SYSTIMER_FUNC_CLK_CONF", 0x00400000)
    } else if i == 23 {
        (0x05C, "TWAI0_CONF", 0x00000001)
    } else if i == 24 {
        (0x060, "TWAI0_FUNC_CLK_CONF", 0x00400000)
    } else if i == 25 {
        (0x064, "TWAI1_CONF", 0x00000001)
    } else if i == 26 {
        (0x068, "TWAI1_FUNC_CLK_CONF", 0x00400000)
    } else if i == 27 {
        (0x06C, "I2S_CONF", 0x00000001)
    } else if i == 28 {
        (0x070, "I2S_TX_CLKM_CONF", 0x00402000)
    } else if i == 29 {
        (0x074, "I2S_TX_CLKM_DIV_CONF", 0x00000200)
    } else if i == 30 {
        (0x078, "I2S_RX_CLKM_CONF", 0x00402000)
    } else if i == 31 {
        (0x07C, "I2S_RX_CLKM_DIV_CONF", 0x00000200)
    } else if i == 32 {
        (0x080, "SARADC_CONF", 0x00000005)
    } else if i == 33 {
        (0x084, "SARADC_CLKM_CONF", 0x00404000)
    } else if i == 34 {
        (0x088, "TSENS_CLK_CONF", 0x00400000)
    } else if i == 35 {
        (0x08C, "USB_DEVICE_CONF", 0x00000001)
    } else if i == 36 {
        (0x090, "INTMTX_CONF", 0x00000001)
    } else if i == 37 {
        (0x094, "PCNT_CONF", 0x00000001)
    } else if i == 38 {
        (0x098, "ETM_CONF", 0x00000001)
    } else if i == 39 {
        (0x09C, "PWM_CONF", 0x00000001)
    } else if i == 40 {
        (0x0A0, "PWM_CLK_CONF", 0x00404000)
    } else if i == 41 {
        (0x0A4, "PARL_IO_CONF", 0x00000001)
    } else if i == 42 {
        (0x0A8, "PARL_CLK_RX_CONF", 0x00040000)
    } else if i == 43 {
        (0x0AC, "PARL_CLK_TX_CONF", 0x00040000)
    } else if i == 44 {
        (0x0B0, "SDIO_SLAVE_CONF", 0x00000001)
    } else if i == 45 {
        (0x0B4, "PVT_MONITOR_CONF", 0x0000001D)
    } else if i == 46 {
        (0x0B8, "PVT_MONITOR_FUNC_CLK_CONF", 0x00400000)
    } else if i == 47 {
        (0x0BC, "GDMA_CONF", 0x00000001)
    } else if i == 48 {
        (0x0C0, "SPI2_CONF", 0x00000001)
    } else if i == 49 {
        (0x0C4, "SPI2_CLKM_CONF", 0x00400000)
    } else if i == 50 {
        (0x0C8, "AES_CONF", 0x00000001)
    } else if i == 51 {
        (0x0CC, "SHA_CONF", 0x00000001)
    } else if i == 52 {
        (0x0D0, "RSA_CONF", 0x00000001)
    } else if i == 53 {
        (0x0D4, "RSA_PD_CTRL", 0x00000002)
    } else if i == 54 {
        (0x0D8, "ECC_CONF", 0x00000001)
    } else if i == 55 {
        (0x0DC, "ECC_PD_CTRL", 0x00000002)
    } else if i == 56 {
        (0x0E0, "DS_CONF", 0x00000001)
    } else if i == 57 {
        (0x0E4, "HMAC_CONF", 0x00000001)
    } else if i == 58 {
        (0x0E8, "IOMUX_CONF", 0x00000001)
    } else if i == 59 {
        (0x0EC, "IOMUX_CLK_CONF", 0x00700000)
    } else if i == 60 {
        (0x0F0, "MEM_MONITOR_CONF", 0x00000001)
    } else if i == 61 {
        (0x0F4, "REGDMA_CONF", 0x00000000)
    } else if i == 62 {
        (0x0F8, "RETENTION_CONF", 0x00000000)
    } else if i == 63 {
        (0x0FC, "TRACE_CONF", 0x00000001)
    } else if i == 64 {
        (0x100, "ASSIST_CONF", 0x00000001)
    } else if i == 65 {
        (0x104, "CACHE_CONF", 0x00000001)
    } else if i == 66 {
        (0x108, "MODEM_APB_CONF", 0x00000001)
    } else if i == 67 {
        (0x10C, "TIMEOUT_CONF", 0x00000000)
    } else if i == 68 {
        (0x110, "SYSCLK_CONF", 0x28000200)
    } else if i == 69 {
        (0x114, "CPU_WAITI_CONF", 0x0000000D)
    } else if i == 70 {
        (0x118, "CPU_FREQ_CONF", 0x00000000)
    } else if i == 71 {
        (0x11C, "AHB_FREQ_CONF", 0x00000300)
    } else if i == 72 {
        (0x120, "APB_FREQ_CONF", 0x00000000)
    } else if i == 73 {
        (0x124, "SYSCLK_FREQ_QUERY_0", 0x0001E014)
    } else if i == 74 {
        (0x128, "PLL_DIV_CLK_EN", 0x0000007F)
    } else if i == 75 {
        (0x12C, "CTRL_CLK_OUT_EN", 0x000007FF)
    } else if i == 76 {
        (0x130, "CTRL_TICK_CONF", 0x00010727)
    } else if i == 77 {
        (0x134, "CTRL_32K_CONF", 0x00000000)
    } else if i == 78 {
        (0x138, "SRAM_POWER_CONF", 0x0000700F)
    } else if i == 79 {
        (0xFF0, "RESET_EVENT_BYPASS", 0x00000002)
    } else if i == 80 {
        (0xFF4, "FPGA_DEBUG", 0xFFFFFFFF)
    } else if i == 81 {
        (0xFF8, "CLOCK_GATE", 0x00000000)
    } else {
        (0xFFC, "DATE", 0x02206150)
    }
}

fn pcr_register(i: usize) -> (r: (u32, &'static str, u32))
    requires
        i < PCR_COUNT,
    ensures
        r == pcr_entry(i as int),
{
    if i == 0 {
        (0x000, "UART0_CONF", 0x00000001)
    } else if i == 1 {
        (0x004, "UART0_SCLK_CONF", 0x00700000)
    } else if i == 2 {
        (0x008, "UART0_PD_CTRL", 0x00000002)
    } else if i == 3 {
        (0x00C, "UART1_CONF", 0x00000001)
    } else if i == 4 {
        (0x010, "UART1_SCLK_CONF", 0x00700000)
    } else if i == 5 {
        (0x014, "UART1_PD_CTRL", 0x00000002)
    } else if i == 6 {
        (0x018, "MSPI_CONF", 0x00000005)
    } else if i == 7 {
        (0x01C, "MSPI_CLK_CONF", 0x00000300)
    } else if i == 8 {
        (0x020, "I2C0_CONF", 0x00000001)
    } else if i == 9 {
        (0x024, "I2C_SCLK_CONF", 0x00400000)
    } else if i == 10 {
        (0x028, "UHCI_CONF", 0x00000001)
    } else if i == 11 {
        (0x02C, "RMT_CONF", 0x00000001)
    } else if i == 12 {
        (0x030, "RMT_SCLK_CONF", 0x00501000)
    } else if i == 13 {
        (0x034, "LEDC_CONF", 0x00000001)
    } else if i == 14 {
        (0x038, "LEDC_SCLK_CONF", 0x00400000)
    } else if i == 15 {
        (0x03C, "TIMERGROUP0_CONF", 0x00000001)
    } else if i == 16 {
        (0x040, "TIMERGROUP0_TIMER_CLK_CONF", 0x00400000)
    } else if i == 17 {
        (0x044, "TIMERGROUP0_WDT_CLK_CONF", 0x00400000)
    } else if i == 18 {
        (0x048, "TIMERGROUP1_CONF", 0x00000001)
    } else if i == 19 {
        (0x04C, "TIMERGROUP1_TIMER_CLK_CONF", 0x00400000)
    } else if i == 20 {
        (0x050, "TIMERGROUP1_WDT_CLK_CONF", 0x00400000)
    } else if i == 21 {
        (0x054, "SYSTIMER_CONF", 0x00000001)
    } else if i == 22 {
        (0x058, "SYSTIMER_FUNC_CLK_CONF", 0x00400000)
    } else if i == 23 {
        (0x05C, "TWAI0_CONF", 0x00000001)
    } else if i == 24 {
        (0x060, "TWAI0_FUNC_CLK_CONF", 0x00400000)
    } else if i == 25 {
        (0x064, "TWAI1_CONF", 0x00000001)
    } else if i == 26 {
        (0x068, "TWAI1_FUNC_CLK_CONF", 0x00400000)
    } else if i == 27 {
        (0x06C, "I2S_CONF", 0x00000001)
    } else if i == 28 {
        (0x070, "I2S_TX_CLKM_CONF", 0x00402000)
    } else if i == 29 {
        (0x074, "I2S_TX_CLKM_DIV_CONF", 0x00000200)
    } else if i == 30 {
        (0x078, "I2S_RX_CLKM_CONF", 0x00402000)
    } else if i == 31 {
        (0x07C, "I2S_RX_CLKM_DIV_CONF", 0x00000200)
    } else if i == 32 {
        (0x080, "SARADC_CONF", 0x00000005)
    } else if i == 33 {
        (0x084, "SARADC_CLKM_CONF", 0x00404000)
    } else if i == 34 {
        (0x088, "TSENS_CLK_CONF", 0x00400000)
    } else if i == 35 {
        (0x08C, "USB_DEVICE_CONF", 0x00000001)
    } else if i == 36 {
        (0x090, "INTMTX_CONF", 0x00000001)
    } else if i == 37 {
        (0x094, "PCNT_CONF", 0x00000001)
    } else if i == 38 {
        (0x098, "ETM_CONF", 0x00000001)
    } else if i == 39 {
        (0x09C, "PWM_CONF", 0x00000001)
    } else if i == 40 {
        (0x0A0, "PWM_CLK_CONF", 0x00404000)
    } else if i == 41 {
        (0x0A4, "PARL_IO_CONF", 0x00000001)
    } else if i == 42 {
        (0x0A8, "PARL_CLK_RX_CONF", 0x00040000)
    } else if i == 43 {
        (0x0AC, "PARL_CLK_TX_CONF", 0x00040000)
    } else if i == 44 {
        (0x0B0, "SDIO_SLAVE_CONF", 0x00000001)
    } else if i == 45 {
        (0x0B4, "PVT_MONITOR_CONF", 0x0000001D)
    } else if i == 46 {
        (0x0B8, "PVT_MONITOR_FUNC_CLK_CONF", 0x00400000)
    } else if i == 47 {
        (0x0BC, "GDMA_CONF", 0x00000001)
    } else if i == 48 {
        (0x0C0, "SPI2_CONF", 0x00000001)
    } else if i == 49 {
        (0x0C4, "SPI2_CLKM_CONF", 0x00400000)
    } else if i == 50 {
        (0x0C8, "AES_CONF", 0x00000001)
    } else if i == 51 {
        (0x0CC, "SHA_CONF", 0x00000001)
    } else if i == 52 {
        (0x0D0, "RSA_CONF", 0x00000001)
    } else if i == 53 {
        (0x0D4, "RSA_PD_CTRL", 0x00000002)
    } else if i == 54 {
        (0x0D8, "ECC_CONF", 0x00000001)
    } else if i == 55 {
        (0x0DC, "ECC_PD_CTRL", 0x00000002)
    } else if i == 56 {
        (0x0E0, "DS_CONF", 0x00000001)
    } else if i == 57 {
        (0x0E4, "HMAC_CONF", 0x00000001)
    } else if i == 58 {
        (0x0E8, "IOMUX_CONF", 0x00000001)
    } else if i == 59 {
        (0x0EC, "IOMUX_CLK_CONF", 0x00700000)
    } else if i == 60 {
        (0x0F0, "MEM_MONITOR_CONF", 0x00000001)
    } else if i == 61 {
        (0x0F4, "REGDMA_CONF", 0x00000000)
    } else if i == 62 {
        (0x0F8, "RETENTION_CONF", 0x00000000)
    } else if i == 63 {
        (0x0FC, "TRACE_CONF", 0x00000001)
    } else if i == 64 {
        (0x100, "ASSIST_CONF", 0x00000001)
    } else if i == 65 {
        (0x104, "CACHE_CONF", 0x00000001)
    } else if i == 66 {
        (0x108, "MODEM_APB_CONF", 0x00000001)
    } else if i == 67 {
        (0x10C, "TIMEOUT_CONF", 0x00000000)
    } else if i == 68 {
        (0x110, "SYSCLK_CONF", 0x28000200)
    } else if i == 69 {
        (0x114, "CPU_WAITI_CONF", 0x0000000D)
    } else if i == 70 {
        (0x118, "CPU_FREQ_CONF", 0x00000000)
    } else if i == 71 {
        (0x11C, "AHB_FREQ_CONF", 0x00000300)
    } else if i == 72 {
        (0x120, "APB_FREQ_CONF", 0x00000000)
    } else if i == 73 {
        (0x124, "SYSCLK_FREQ_QUERY_0", 0x0001E014)
    } else if i == 74 {
        (0x128, "PLL_DIV_CLK_EN", 0x0000007F)
    } else if i == 75 {
        (0x12C, "CTRL_CLK_OUT_EN", 0x000007FF)
    } else if i == 76 {
        (0x130, "CTRL_TICK_CONF", 0x00010727)
    } else if i == 77 {
        (0x134, "CTRL_32K_CONF", 0x00000000)
    } else if i == 78 {
        (0x138, "SRAM_POWER_CONF", 0x0000700F)
    } else if i == 79 {
        (0xFF0, "RESET_EVENT_BYPASS", 0x00000002)
    } else if i == 80 {
        (0xFF4, "FPGA_DEBUG", 0xFFFFFFFF)
    } else if i == 81 {
        (0xFF8, "CLOCK_GATE", 0x00000000)
    } else {
        (0xFFC, "DATE", 0x02206150)
    }
}

/// Every PCR register as `(offset, name, reset value)`, in table order.
pub fn pcr_registers() -> (r: Vec<(u32, &'static str, u32)>)
    ensures
        r@.len() == PCR_COUNT,
        forall|i: int| 0 <= i < PCR_COUNT ==> r@[i] == pcr_entry(i),
{
    let mut v: Vec<(u32, &'static str, u32)> = Vec::new();
    let mut i: usize = 0;
    while i < PCR_COUNT
        invariant
            i <= PCR_COUNT,
            v@.len() == i,
            forall|k: int| 0 <= k < i ==> v@[k] == pcr_entry(k),
        decreases PCR_COUNT - i,
    {
        v.push(pcr_register(i));
        i = i + 1;
    }
    v
}

/// The register store after seeding the first `n` table entries (entries
/// whose reset value is zero are left unstored and read as zero).
pub open spec fn pcr_seed(n: nat) -> Map<u64, u32>
    decreases n,
{
    if n == 0 {
        Map::empty()
    } else {
        let e = pcr_entry(n - 1);
        let m = pcr_seed((n - 1) as nat);
        if e.2 != 0 {
            m.insert(e.0 as u64, e.2)
        } else {
            m
        }
    }
}

/// The name of the first table entry at or after `i` whose offset is
/// `offset`.
pub open spec fn pcr_name_at(offset: u64, i: nat) -> Option<&'static str>
    decreases PCR_COUNT - i,
{
    if i >= PCR_COUNT {
        None
    } else if pcr_entry(i as int).0 as u64 == offset {
        Some(pcr_entry(i as int).1)
    } else {
        pcr_name_at(offset, i + 1)
    }
}

/// The offset of the first table entry at or after `i` whose name equals
/// `name` up to ASCII case.
pub open spec fn pcr_offset_of(name: Seq<u8>, i: nat) -> Option<u64>
    decreases PCR_COUNT - i,
{
    if i >= PCR_COUNT {
        None
    } else if eq_ignore_ascii_case(pcr_entry(i as int).1.spec_bytes(), name) {
        Some(pcr_entry(i as int).0 as u64)
    } else {
        pcr_offset_of(name, i + 1)
    }
}

/// ASCII lowercase of a byte.
pub open spec fn ascii_lower(b: u8) -> u8 {
    if 65 <= b <= 90 {
        (b + 32) as u8
    } else {
        b
    }
}

/// Byte strings equal up to ASCII case.
pub open spec fn eq_ignore_ascii_case(a: Seq<u8>, b: Seq<u8>) -> bool {
    &&& a.len() == b.len()
    &&& forall|k: int| 0 <= k < a.len() ==> ascii_lower(#[trigger] a[k]) == ascii_lower(b[k])
}

fn lower(b: u8) -> (r: u8)
    ensures
        r == ascii_lower(b),
{
    if 65 <= b && b <= 90 {
        b + 32
    } else {
        b
    }
}

/// `str::eq_ignore_ascii_case`, over the strings' bytes.
pub fn str_eq_ignore_ascii_case(a: &str, b: &str) -> (r: bool)
    ensures
        r == eq_ignore_ascii_case(a.spec_bytes(), b.spec_bytes()),
{
    let x = a.as_bytes();
    let y = b.as_bytes();
    if x.len() != y.len() {
        return false;
    }
    let mut k: usize = 0;
    while k < x.len()
        invariant
            x@ == a.spec_bytes(),
            y@ == b.spec_bytes(),
            x@.len() == y@.len(),
            k <= x@.len(),
            forall|j: int| 0 <= j < k ==> ascii_lower(#[trigger] x@[j]) == ascii_lower(y@[j]),
        decreases x@.len() - k,
    {
        if lower(x[k]) != lower(y[k]) {
            return false;
        }
        k = k + 1;
    }
    true
}

/// Case-insensitive equality is transitive.
proof fn lemma_eq_ignore_case_trans(a: Seq<u8>, b: Seq<u8>, c: Seq<u8>)
    requires
        eq_ignore_ascii_case(a, b),
        eq_ignore_ascii_case(b, c),
    ensures
        eq_ignore_ascii_case(a, c),
{
    assert forall|k: int| 0 <= k < a.len() implies ascii_lower(#[trigger] a[k]) == ascii_lower(
        c[k],
    ) by {
        assert(ascii_lower(a[k]) == ascii_lower(b[k]));
        assert(ascii_lower(b[k]) == ascii_lower(c[k]));
    }
}

/// Gate names resolve case-insensitively: two names equal up to ASCII case
/// name the same register (or none).
pub proof fn lemma_gate_lookup_ignores_case(a: Seq<u8>, b: Seq<u8>, i: nat)
    requires
        eq_ignore_ascii_case(a, b),
    ensures
        pcr_offset_of(a, i) == pcr_offset_of(b, i),
    decreases PCR_COUNT - i,
{
    if i < PCR_COUNT {
        let e = pcr_entry(i as int).1.spec_bytes();
        assert(eq_ignore_ascii_case(b, a)) by {
            assert forall|k: int| 0 <= k < b.len() implies ascii_lower(#[trigger] b[k])
                == ascii_lower(a[k]) by {
                assert(ascii_lower(a[k]) == ascii_lower(b[k]));
            }
        }
        if eq_ignore_ascii_case(e, a) {
            lemma_eq_ignore_case_trans(e, a, b);
        }
        if eq_ignore_ascii_case(e, b) {
            lemma_eq_ignore_case_trans(e, b, a);
        }
        lemma_gate_lookup_ignores_case(a, b, i + 1);
    }
}

/// The register table lists offsets in strictly increasing order.
proof fn lemma_offsets_increase(i: int)
    requires
        0 <= i < PCR_COUNT - 1,
    ensures
        pcr_entry(i).0 < pcr_entry(i + 1).0,
{
}

/// Every table entry's offset is above the offsets of the entries before
/// it.
proof fn lemma_earlier_offsets_lower(j: int, i: int)
    requires
        0 <= j < i < PCR_COUNT,
    ensures
        pcr_entry(j).0 < pcr_entry(i).0,
    decreases i - j,
{
    lemma_offsets_increase(i - 1);
    if j < i - 1 {
        lemma_earlier_offsets_lower(j, i - 1);
    }
}

proof fn lemma_name_at_finds(i: int, j: nat)
    requires
        0 <= j <= i < PCR_COUNT,
    ensures
        pcr_name_at(pcr_entry(i).0 as u64, j) == Some(pcr_entry(i).1),
    decreases i - j,
{
    if j < i {
        lemma_earlier_offsets_lower(j as int, i);
        lemma_name_at_finds(i, j + 1);
    }
}

proof fn lemma_offset_of_finds(i: int, j: nat)
    requires
        0 <= j <= i < PCR_COUNT,
    ensures
        pcr_offset_of(pcr_entry(i).1.spec_bytes(), j) matches Some(o) && exists|k: int|
            j <= k <= i && #[trigger] pcr_entry(k).0 as u64 == o && eq_ignore_ascii_case(
                pcr_entry(k).1.spec_bytes(),
                pcr_entry(i).1.spec_bytes(),
            ),
    decreases i - j,
{
    let name = pcr_entry(i).1.spec_bytes();
    if eq_ignore_ascii_case(pcr_entry(j as int).1.spec_bytes(), name) {
        assert(pcr_entry(j as int).0 as u64 == pcr_entry(j as int).0 as u64);
    } else if j < i {
        lemma_offset_of_finds(i, j + 1);
        let o = pcr_offset_of(name, j + 1)->0;
        let k = choose|k: int|
            j + 1 <= k <= i && #[trigger] pcr_entry(k).0 as u64 == o && eq_ignore_ascii_case(
                pcr_entry(k).1.spec_bytes(),
                name,
            );
        assert(pcr_entry(k).0 as u64 == o);
    } else {
        assert forall|k: int| 0 <= k < name.len() implies ascii_lower(#[trigger] name[k])
            == ascii_lower(name[k]) by {}
    }
}

/// Offsets and names of the register table agree both ways: the name found
/// at a listed register's offset is that register's, so no two registers
/// share an offset; and looking that name up again finds a register of the
/// same name (up to ASCII case).
pub proof fn lemma_register_names_round_trip(i: int)
    requires
        0 <= i < PCR_COUNT,
    ensures
        pcr_name_at(pcr_entry(i).0 as u64, 0) == Some(pcr_entry(i).1),
        pcr_offset_of(pcr_entry(i).1.spec_bytes(), 0) matches Some(o) && exists|k: int|
            0 <= k <= i && #[trigger] pcr_entry(k).0 as u64 == o && eq_ignore_ascii_case(
                pcr_entry(k).1.spec_bytes(),
                pcr_entry(i).1.spec_bytes(),
            ),
        forall|j: int|
            0 <= j < PCR_COUNT && j != i ==> #[trigger] pcr_entry(j).0 != pcr_entry(i).0,
{
    lemma_name_at_finds(i, 0);
    lemma_offset_of_finds(i, 0);
    assert forall|j: int| 0 <= j < PCR_COUNT && j != i implies #[trigger] pcr_entry(j).0
        != pcr_entry(i).0 by {
        if j < i {
            lemma_earlier_offsets_lower(j, i);
        } else {
            lemma_earlier_offsets_lower(i, j);
        }
    }
}

/// ESP32-C6 Peripheral Clock and Reset block (HP PCR).
#[derive(Debug)]
pub struct Esp32c6Pcr {
    regs: HashMap<u64, u32>,
}

impl View for Esp32c6Pcr {
    type V = Map<u64, u32>;

    closed spec fn view(&self) -> Map<u64, u32> {
        self.regs@
    }
}

impl Esp32c6Pcr {
    /// A PCR seeded with the SVD reset values.
    pub fn new() -> (r: Self)
        ensures
            r@ == pcr_seed(PCR_COUNT as nat),
    {
        let mut regs: HashMap<u64, u32> = HashMap::new();
        let mut i: usize = 0;
        while i < PCR_COUNT
            invariant
                i <= PCR_COUNT,
                regs@ == pcr_seed(i as nat),
            decreases PCR_COUNT - i,
        {
            let (offset, _name, reset) = pcr_register(i);
            if reset != 0 {
                regs.insert(offset as u64, reset);
            }
            i = i + 1;
        }
        Esp32c6Pcr { regs }
    }

    /// SVD register name at `offset`, if the PCR map has one.
    pub fn register_name(offset: u64) -> (r: Option<&'static str>)
        ensures
            r == pcr_name_at(offset, 0),
    {
        let mut i: usize = 0;
        while i < PCR_COUNT
            invariant
                i <= PCR_COUNT,
                pcr_name_at(offset, i as nat) == pcr_name_at(offset, 0),
            decreases PCR_COUNT - i,
        {
            let (o, name, _reset) = pcr_register(i);
            if o as u64 == offset {
                return Some(name);
            }
            i = i + 1;
        }
        None
    }

    /// Resolve an SVD register name (ASCII case-insensitive) to its offset.
    pub fn gate_reg_offset(name: &str) -> (r: Option<u64>)
        ensures
            r == pcr_offset_of(name.spec_bytes(), 0),
    {
        let mut i: usize = 0;
        while i < PCR_COUNT
            invariant
                i <= PCR_COUNT,
                pcr_offset_of(name.spec_bytes(), i as nat) == pcr_offset_of(name.spec_bytes(), 0),
            decreases PCR_COUNT - i,
        {
            let (o, n, _reset) = pcr_register(i);
            if str_eq_ignore_ascii_case(n, name) {
                return Some(o as u64);
            }
            i = i + 1;
        }
        None
    }

    fn word(&self, offset: u64) -> (r: u32)
        ensures
            r == word_in(self@, offset),
    {
        map_word(&self.regs, offset)
    }

    /// Byte read of the addressed lane.
    pub fn read(&self, offset: u64) -> (r: SimResult<u8>)
        ensures
            r == Ok::<u8, crate::SimulationError>(
                byte_of(word_in(self@, word_base(offset)), offset),
            ),
    {
        Ok(get_byte(self.word(align_word(offset)), offset))
    }

    /// Byte write into the addressed lane of the stored word.
    pub fn write(&mut self, offset: u64, value: u8) -> (r: SimResult<()>)
        ensures
            r is Ok,
            final(self)@ == old(self)@.insert(
                word_base(offset),
                with_byte(word_in(old(self)@, word_base(offset)), offset, value),
            ),
    {
        let word_off = align_word(offset);
        let cur = self.word(word_off);
        self.regs.insert(word_off, set_byte(cur, offset, value));
        Ok(())
    }

    /// Word read of the stored word (zero when never written).
    pub fn read_u32(&self, offset: u64) -> (r: SimResult<u32>)
        ensures
            r == Ok::<u32, crate::SimulationError>(word_in(self@, word_base(offset))),
    {
        Ok(self.word(align_word(offset)))
    }

    /// Word write: plain storage.
    pub fn write_u32(&mut self, offset: u64, value: u32) -> (r: SimResult<()>)
        ensures
            r is Ok,
            final(self)@ == old(self)@.insert(word_base(offset), value),
    {
        self.regs.insert(align_word(offset), value);
        Ok(())
    }

    /// Side-effect-free probe.
    pub fn peek(&self, offset: u64) -> (r: Option<u8>)
        ensures
            r == Some(byte_of(word_in(self@, word_base(offset)), offset)),
    {
        Some(get_byte(self.word(align_word(offset)), offset))
    }

    /// Resolve a clock-gate register name in this block.
    pub fn clock_gate_reg_offset(&self, name: &str) -> (r: Option<u64>)
        ensures
            r == pcr_offset_of(name.spec_bytes(), 0),
    {
        Self::gate_reg_offset(name)
    }

    /// PCR has no time-driven behaviour.
    pub fn tick(&mut self) -> (r: PeripheralTickResult)
        ensures
            final(self)@ == old(self)@,
            !r.irq && r.cycles == 0 && r.explicit_irqs is None,
    {
        PeripheralTickResult::quiet()
    }
}

} // verus!
