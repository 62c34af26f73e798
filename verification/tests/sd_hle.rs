use labwired_core::sd_hle::{host_may_touch, is_scs_word_write, now_us, CoreView, SdHleState};

fn at(active_exception: u32, pc: u32, lr: u32) -> CoreView {
    CoreView { active_exception, pc, lr, psp: 0x2000_1000, sp: 0x2000_3000 }
}

#[test]
fn an_svc_is_served_from_the_stack_it_was_issued_on() {
    let mut s = SdHleState::new(0x18000, 0x18A40);
    // Thumb bit set on the PC, return to thread mode on the process stack.
    assert_eq!(s.svc_frame(at(11, 0x18A41, 0xFFFF_FFFD)), Some(0x2000_1000));
    // Counted only once served.
    assert_eq!(s.svc_count, 0);
    s.svc_served();
    assert_eq!(s.svc_count, 1);
    // On the main stack.
    assert_eq!(s.svc_frame(at(11, 0x18A40, 0xFFFF_FFF9)), Some(0x2000_3000));
    s.svc_served();
    assert_eq!(s.svc_count, 2);
    // Another exception, or elsewhere in the handler, is not an SVC entry.
    assert_eq!(s.svc_frame(at(15, 0x18A40, 0xFFFF_FFF9)), None);
    assert_eq!(s.svc_frame(at(11, 0x18A44, 0xFFFF_FFF9)), None);
    assert_eq!(s.svc_count, 2);
}

#[test]
fn the_softdevice_is_polled_every_millisecond() {
    let mut s = SdHleState::new(0x18000, 0x18A40);
    assert!(!s.poll(999));
    assert!(s.poll(1000));
    assert_eq!(s.last_poll_us, 1000);
    assert!(!s.poll(1999));
    assert_eq!(s.last_poll_us, 1000);
    assert!(s.poll(2500));
    assert_eq!(s.last_poll_us, 2500);
}

#[test]
fn emulated_time_is_whole_mhz_and_at_least_one() {
    assert_eq!(now_us(16_000_000, 160), 10);
    assert_eq!(now_us(32_768, 500), 500);
    assert_eq!(now_us(1_500_000, 7), 7);
}

#[test]
fn the_host_sees_only_the_application_and_scs_words() {
    assert!(!host_may_touch(0x17FFF, 0x18000));
    assert!(host_may_touch(0x18000, 0x18000));
    assert!(is_scs_word_write(0xE000_E100, 4));
    assert!(!is_scs_word_write(0xE000_E100, 1));
    assert!(!is_scs_word_write(0xE000_F000, 4));
}
