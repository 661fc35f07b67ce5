//! The two report layouts of the virtual pad.

use nobd::gip;
use nobd::pad::bit;
use nobd::report;

#[test]
fn neutral_centered() {
    let g = gip::pack(0, 0, 0, 0, 0, 0, 0);
    assert_eq!(u16::from_le_bytes([g[0], g[1]]), 0x8000); // LX center
    assert_eq!(u16::from_le_bytes([g[2], g[3]]), 0x7FFF); // LY center (32767)
    assert_eq!(g[12], 0);
    assert_eq!(g[13], 0);
}

#[test]
fn buttons_and_hat() {
    let g = gip::pack(bit::A | bit::START | bit::DPAD_UP, 0, 0, 0, 0, 0, 0);
    assert_eq!(g[12] & 0x01, 0x01); // A
    assert_eq!(g[13] & 0x02, 0x02); // Start
    assert_eq!((g[13] >> 2) & 0x0F, 1); // hat = North
}

#[test]
fn triggers_10bit() {
    let g = gip::pack(0, 255, 0, 0, 0, 0, 0);
    assert_eq!(u16::from_le_bytes([g[8], g[9]]), 1023); // LT full
}

#[test]
fn axis_center() {
    assert_eq!(report::axis_u8(0), 128);
    assert_eq!(report::axis_u8(i16::MIN), 0);
    assert_eq!(report::axis_u8(i16::MAX), 255);
}

#[test]
fn buttons_map_to_bits() {
    // A -> button 1 (bit0 of byte3); X -> button 3 (bit2 of byte3)
    let r = report::pack(bit::A | bit::X, 0, 0, 0, 0);
    assert_eq!(r[3], 0b0000_0101);
    // Guide -> button 13 (bit4 of byte4)
    let r = report::pack(bit::GUIDE, 0, 0, 0, 0);
    assert_eq!(r[4], 0b0001_0000);
}

#[test]
fn triggers_become_buttons_7_8() {
    let r = report::pack(0, 200, 0, 0, 0); // LT -> button 7 (bit6 of byte3)
    assert_eq!(r[3], 0b0100_0000);
    let r = report::pack(0, 0, 200, 0, 0); // RT -> button 8 (bit7 of byte3)
    assert_eq!(r[3], 0b1000_0000);
}

#[test]
fn hat_directions() {
    assert_eq!(report::pack(bit::DPAD_UP, 0, 0, 0, 0)[2], 0);
    assert_eq!(report::pack(bit::DPAD_RIGHT, 0, 0, 0, 0)[2], 2);
    assert_eq!(report::pack(bit::DPAD_DOWN | bit::DPAD_LEFT, 0, 0, 0, 0)[2], 5);
    assert_eq!(report::pack(0, 0, 0, 0, 0)[2], 8); // neutral
}
