use raytracer::colour::RGBColour;

#[test]
fn colour_new_and_components() {
    let c = RGBColour::new(10, 20, 30);
    assert_eq!((c.r, c.g, c.b), (10, 20, 30));
    let a: [u8; 3] = <[u8; 3]>::from(&c);
    assert_eq!(a, [10, 20, 30]);
    assert_eq!(c, RGBColour { r: 10, g: 20, b: 30 });
    assert_ne!(c, RGBColour::new(10, 20, 31));
}

#[test]
fn colour_text_is_decimal_channels() {
    assert_eq!(RGBColour::new(1, 20, 255).to_string(), "1 20 255");
    assert_eq!(RGBColour::new(0, 0, 0).to_string(), "0 0 0");
    assert_eq!(RGBColour::new(100, 9, 10).to_string(), "100 9 10");
}

#[test]
fn default_colour_is_black() {
    let c = RGBColour::default();
    assert_eq!((c.r, c.g, c.b), (0, 0, 0));
    assert_eq!(c.to_string(), "0 0 0");
}
