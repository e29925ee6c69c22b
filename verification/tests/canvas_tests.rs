use weather_charts::canvas::{composite, Canvas};
use weather_charts::gradient::Rgb;

fn colour(red: u8, green: u8, blue: u8) -> Rgb {
    Rgb { red, green, blue }
}

#[test]
fn new_canvas_is_black() {
    let c = Canvas::new(4, 3);
    assert_eq!(c.width(), 4);
    assert_eq!(c.height(), 3);
    for x in 0..4 {
        for y in 0..3 {
            assert_eq!(c.get_pixel(x, y), colour(0, 0, 0));
        }
    }
}

#[test]
fn set_pixel_changes_only_its_target() {
    let mut c = Canvas::new(3, 3);
    c.set_pixel(1, 2, colour(9, 8, 7));
    for x in 0..3 {
        for y in 0..3 {
            let expected = if (x, y) == (1, 2) {
                colour(9, 8, 7)
            } else {
                colour(0, 0, 0)
            };
            assert_eq!(c.get_pixel(x, y), expected);
        }
    }
}

#[test]
fn fill_rect_covers_exactly_its_rectangle() {
    let mut c = Canvas::new(5, 4);
    c.fill_rect(1, 1, 3, 2, colour(1, 2, 3));
    for x in 0..5 {
        for y in 0..4 {
            let inside = (1..4).contains(&x) && (1..3).contains(&y);
            let expected = if inside {
                colour(1, 2, 3)
            } else {
                colour(0, 0, 0)
            };
            assert_eq!(c.get_pixel(x, y), expected);
        }
    }
}

#[test]
fn composite_stacks_vertically() {
    let mut top = Canvas::new(3, 2);
    top.set_pixel(0, 0, colour(10, 0, 0));
    top.set_pixel(2, 1, colour(20, 0, 0));
    let mut bottom = Canvas::new(3, 1);
    bottom.set_pixel(1, 0, colour(0, 30, 0));
    let stacked = composite(&vec![top, bottom]).unwrap();
    assert_eq!(stacked.width(), 3);
    assert_eq!(stacked.height(), 3);
    // the first canvas keeps its rows, the second starts two rows down
    assert_eq!(stacked.get_pixel(0, 0), colour(10, 0, 0));
    assert_eq!(stacked.get_pixel(2, 1), colour(20, 0, 0));
    assert_eq!(stacked.get_pixel(1, 2), colour(0, 30, 0));
    assert_eq!(stacked.get_pixel(1, 1), colour(0, 0, 0));
}

#[test]
fn composite_height_is_the_sum_of_heights() {
    let canvases = vec![Canvas::new(7, 2), Canvas::new(7, 5), Canvas::new(7, 1)];
    let stacked = composite(&canvases).unwrap();
    assert_eq!(stacked.width(), 7);
    assert_eq!(stacked.height(), 8);
}

#[test]
fn composite_rejects_mismatched_widths() {
    let canvases = vec![Canvas::new(3, 2), Canvas::new(4, 2)];
    assert!(composite(&canvases).is_err());
}

#[test]
fn composite_rejects_an_empty_list() {
    assert!(composite(&Vec::new()).is_err());
}
