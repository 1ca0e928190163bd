use langton_ant::palette::get_base_palette;

#[test]
fn blue_palette_endpoints() {
    let palette = get_base_palette("blue").expect("blue is a known palette");
    assert_eq!(palette.len(), 9);
    assert_eq!(palette[0], [247, 251, 255, 255]);
    assert_eq!(palette[4], [107, 174, 214, 255]);
    assert_eq!(palette[8], [8, 48, 107, 255]);
}

#[test]
fn red_palette_endpoints() {
    let palette = get_base_palette("red").expect("red is a known palette");
    assert_eq!(palette.len(), 9);
    assert_eq!(palette[0], [255, 245, 240, 255]);
    assert_eq!(palette[8], [103, 0, 13, 255]);
}

#[test]
fn unknown_palette_name_is_rejected() {
    assert!(get_base_palette("green").is_err());
    assert!(get_base_palette("").is_err());
}
