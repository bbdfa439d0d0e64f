use fandom_data::color::as_hex;

#[test]
fn colours_as_text() {
    assert_eq!(as_hex(176, 56, 90), "#B0385A");
    assert_eq!(as_hex(255, 255, 255), "#FFFFFF");
    assert_eq!(as_hex(16, 171, 205), "#10ABCD");
    assert_eq!(as_hex(0, 0, 0), "#000");
    assert_eq!(as_hex(1, 15, 16), "#1F10");
}

#[test]
fn each_part_is_as_short_as_it_can_be() {
    let mut n: u16 = 0;
    while n < 256 {
        let part = n as u8;
        assert_eq!(as_hex(part, 0, part), format!("#{:X}{:X}{:X}", part, 0, part));
        n += 1;
    }
}
