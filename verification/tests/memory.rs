use syslab::inferior::Inferior;
use syslab::memory::{align_addr_to_word, extract_byte, replace_byte, TRAP_BYTE, WORD_BYTES};

#[test]
fn aligned_address_is_the_start_of_the_word() {
    assert_eq!(align_addr_to_word(0), 0);
    assert_eq!(align_addr_to_word(7), 0);
    assert_eq!(align_addr_to_word(8), 8);
    assert_eq!(align_addr_to_word(0x1003), 0x1000);
    assert_eq!(align_addr_to_word(0x100f), 0x1008);
    assert_eq!(align_addr_to_word(u64::MAX), u64::MAX - 7);
    assert_eq!(WORD_BYTES, 8);
}

#[test]
fn bytes_are_counted_from_the_low_end() {
    let word: u64 = 0x8877_6655_4433_2211;
    assert_eq!(extract_byte(word, 0), 0x11);
    assert_eq!(extract_byte(word, 3), 0x44);
    assert_eq!(extract_byte(word, 7), 0x88);
}

#[test]
fn replacing_a_byte_leaves_the_others() {
    let word: u64 = 0x8877_6655_4433_2211;
    assert_eq!(replace_byte(word, 0, 0xcc), 0x8877_6655_4433_22cc);
    assert_eq!(replace_byte(word, 2, 0xcc), 0x8877_6655_44cc_2211);
    assert_eq!(replace_byte(word, 7, 0x00), 0x0077_6655_4433_2211);
}

#[test]
fn write_byte_hands_out_the_byte_that_was_there() {
    let word: u64 = 0x8877_6655_4433_2211;
    let (patched, orig) = Inferior::write_byte(word, 0x1005, TRAP_BYTE);
    assert_eq!(orig, 0x66);
    assert_eq!(patched, 0x8877_cc55_4433_2211);
    assert_ne!(patched, word);
}

#[test]
fn write_byte_twice_gives_the_word_back() {
    let word: u64 = 0x0123_4567_89ab_cdef;
    let mut addr: u64 = 0x2000;
    while addr < 0x2008 {
        let (patched, orig) = Inferior::write_byte(word, addr, TRAP_BYTE);
        assert_eq!(extract_byte(patched, addr - 0x2000), TRAP_BYTE);
        let (restored, trap) = Inferior::write_byte(patched, addr, orig);
        assert_eq!(trap, TRAP_BYTE);
        assert_eq!(restored, word);
        addr += 1;
    }
}
