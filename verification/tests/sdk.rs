use yggdrasil::sdk::{pack, unpack};

#[test]
fn pack_unpack_roundtrip() {
    let pl = pack(0x1234_5678, 0xABCD_EF01);
    let (ptr, len) = unpack(pl);
    assert_eq!(ptr, 0x1234_5678);
    assert_eq!(len, 0xABCD_EF01);
}

#[test]
fn pack_puts_pointer_high() {
    assert_eq!(pack(1, 2), 0x0000_0001_0000_0002);
    assert_eq!(unpack(0xFFFF_FFFF_0000_0000), (0xFFFF_FFFF, 0));
}
