use raytracer::colour::RGBColour;
use raytracer::{render_frame, render_line, Viewport};

fn coords(x: usize, y: usize) -> RGBColour {
    RGBColour::new(x as u8, y as u8, (x + y) as u8)
}

#[test]
fn viewport_new_and_area() {
    let v = Viewport::new(4, 3, 2, 10);
    assert_eq!((v.width, v.height, v.samples, v.depth), (4, 3, 2, 10));
    assert_eq!(v.area(), 12);
    assert_eq!(Viewport::new(0, 9, 1, 1).area(), 0);
}

#[test]
fn render_line_writes_pixels_left_to_right() {
    let v = Viewport::new(3, 2, 1, 1);
    let bytes = render_line(&v, 1, &coords);
    assert_eq!(bytes, vec![0, 1, 1, 1, 1, 2, 2, 1, 3]);
    let none = render_line(&Viewport::new(0, 2, 1, 1), 0, &coords);
    assert!(none.is_empty());
}

#[test]
fn render_frame_starts_at_bottom_row() {
    let v = Viewport::new(2, 3, 1, 1);
    let bytes = render_frame(&v, &coords);
    assert_eq!(
        bytes,
        vec![
            0, 2, 2, 1, 2, 3, // row 2
            0, 1, 1, 1, 1, 2, // row 1
            0, 0, 0, 1, 0, 1, // row 0
        ]
    );
    assert!(render_frame(&Viewport::new(5, 0, 1, 1), &coords).is_empty());
}
