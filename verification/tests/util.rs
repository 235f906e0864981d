use takadb::util::pack_string;

#[test]
fn pack_string_pads_with_zeros() {
    let slot: [u8; 8] = pack_string::<8>("hello");
    assert_eq!(slot, [b'h', b'e', b'l', b'l', b'o', 0, 0, 0]);
}

#[test]
fn pack_string_truncates() {
    let slot: [u8; 4] = pack_string::<4>("toolong");
    assert_eq!(slot, *b"tool");
}

#[test]
fn pack_string_empty_and_exact() {
    let empty: [u8; 3] = pack_string::<3>("");
    assert_eq!(empty, [0, 0, 0]);
    let exact: [u8; 3] = pack_string::<3>("abc");
    assert_eq!(exact, *b"abc");
    let nothing: [u8; 0] = pack_string::<0>("abc");
    assert_eq!(nothing.len(), 0);
}

#[test]
fn pack_string_keeps_utf8_bytes() {
    let slot: [u8; 4] = pack_string::<4>("é!");
    assert_eq!(slot, [0xc3, 0xa9, b'!', 0]);
}
