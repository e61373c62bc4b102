use tracer::canvas::Canvas;
use tracer::color::Color;
use tracer::rational::Scalar;

fn s(n: i64, d: i64) -> Scalar {
    Scalar::new(n, d)
}

fn color(r: i64, rd: i64, g: i64, gd: i64, b: i64, bd: i64) -> Color {
    Color::new(s(r, rd), s(g, gd), s(b, bd))
}

#[test]
fn creating_canvas() {
    let c = Canvas::new(10, 20);
    assert_eq!(c.width, 10);
    assert_eq!(c.height, 20);
    for row in c.pixels {
        for pixel in row {
            assert_eq!(pixel, color(0, 1, 0, 1, 0, 1));
        }
    }
}

#[test]
fn writing_pixels_to_canvas() {
    let mut c = Canvas::new(10, 20);
    let red = color(1, 1, 0, 1, 0, 1);
    c.write_pixel(2, 3, red);
    assert_eq!(c.pixel_at(2, 3), red);
}

#[test]
fn constructing_ppm_header() {
    let c = Canvas::new(5, 3);
    let ppm = c.canvas_to_ppm();
    let lines: Vec<&str> = ppm.split("\n").collect();
    assert_eq!(lines[0], "P3");
    assert_eq!(lines[1], "5 3");
    assert_eq!(lines[2], "255");
}

#[test]
fn header_prints_multi_digit_dimensions() {
    let c = Canvas::new(123, 45);
    let ppm = c.canvas_to_ppm();
    let lines: Vec<&str> = ppm.split("\n").collect();
    assert_eq!(lines[0], "P3");
    assert_eq!(lines[1], "123 45");
    assert_eq!(lines[2], "255");
}

#[test]
fn empty_canvas_serializes_to_a_bare_header() {
    let c = Canvas::new(0, 0);
    assert_eq!(c.canvas_to_ppm(), "P3\n0 0\n255\n");
}

#[test]
fn colors_within_the_tolerance_compare_equal() {
    let a = color(1, 1, 0, 1, 0, 1);
    let close = Color::new(s(2000000001, 2000000000), s(0, 1), s(0, 1));
    let far = Color::new(s(100000001, 100000000), s(0, 1), s(0, 1));
    assert_eq!(a, close);
    assert_ne!(a, far);
}

#[test]
fn writes_outside_the_canvas_are_ignored() {
    let mut c = Canvas::new(4, 4);
    let red = color(1, 1, 0, 1, 0, 1);
    c.write_pixel(4, 0, red);
    c.write_pixel(0, 4, red);
    for row in c.pixels {
        for pixel in row {
            assert_eq!(pixel, color(0, 1, 0, 1, 0, 1));
        }
    }
}

#[test]
fn ppm_pixel_data_is_clamped_and_rounded() {
    let mut c = Canvas::new(5, 3);
    c.write_pixel(0, 0, color(3, 2, 0, 1, 0, 1));
    c.write_pixel(2, 1, color(0, 1, 1, 2, 0, 1));
    c.write_pixel(4, 2, color(-1, 2, 0, 1, 1, 1));
    let ppm = c.canvas_to_ppm();
    let lines: Vec<&str> = ppm.split("\n").collect();
    assert_eq!(lines[3], "255 0 0 0 0 0 0 0 0 0 0 0 0 0 0 ");
    assert_eq!(lines[4], "0 0 0 0 0 0 0 128 0 0 0 0 0 0 0 ");
    assert_eq!(lines[5], "0 0 0 0 0 0 0 0 0 0 0 0 0 0 255 ");
}

#[test]
fn long_ppm_lines_wrap_without_splitting_triplets() {
    let mut c = Canvas::new(10, 2);
    let shade = color(1, 1, 4, 5, 3, 5);
    for y in 0..2 {
        for x in 0..10 {
            c.write_pixel(x, y, shade);
        }
    }
    let ppm = c.canvas_to_ppm();
    let lines: Vec<&str> = ppm.split("\n").collect();
    let expected = "255 204 153 255 204 153 255 204 153 255 204 153 255 204 153 ";
    assert_eq!(lines[3], expected);
    assert_eq!(lines[4], expected);
    assert_eq!(lines[5], expected);
    assert_eq!(lines[6], expected);
    for line in &lines {
        assert!(line.len() <= 70);
    }
}
