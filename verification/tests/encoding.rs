use light_assembler::bag_of_cells_text;

#[test]
fn base64_of_whole_groups() {
    assert_eq!(bag_of_cells_text(b"Man"), "TWFu");
    assert_eq!(bag_of_cells_text(b"hello world!"), "aGVsbG8gd29ybGQh");
    assert_eq!(bag_of_cells_text(&[0xFB, 0xFF, 0xBF]), "+/+/");
}

#[test]
fn base64_pads_the_last_group() {
    assert_eq!(bag_of_cells_text(b""), "");
    assert_eq!(bag_of_cells_text(&[0x00]), "AA==");
    assert_eq!(bag_of_cells_text(&[0xFF, 0xFE]), "//4=");
    assert_eq!(bag_of_cells_text(b"hello"), "aGVsbG8=");
}

#[test]
fn base64_of_a_bag_of_cells_header() {
    let boc = [0xB5, 0xEE, 0x9C, 0x72, 0x41, 0x01];
    assert_eq!(bag_of_cells_text(&boc), "te6cckEB");
}
