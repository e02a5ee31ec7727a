use sketches::array::convert_vec_to_array;

#[test]
fn convert_keeps_items_in_order() {
    let a: [u16; 4] = convert_vec_to_array(vec![3, 1, 4, 1]);
    assert_eq!(a, [3, 1, 4, 1]);
}

#[test]
fn convert_empty_vector() {
    let a: [u8; 0] = convert_vec_to_array(Vec::new());
    assert_eq!(a.len(), 0);
}

#[test]
fn convert_moves_owned_items() {
    let a: [String; 2] = convert_vec_to_array(vec!["left".to_string(), "right".to_string()]);
    assert_eq!(a[0], "left");
    assert_eq!(a[1], "right");
}

#[test]
fn convert_saturated_channels_to_pixel() {
    let channels: Vec<u8> = [300u16, 20, 255, 255]
        .iter()
        .map(|u| sketches::pixel::u16_to_u8(*u))
        .collect();
    let px: [u8; 4] = convert_vec_to_array(channels);
    assert_eq!(px, [255, 20, 255, 255]);
}
