use weather_charts::canvas::Canvas;
use weather_charts::gradient::Rgb;
use weather_charts::png::make_png;

fn patterned_canvas(width: usize, height: usize) -> Canvas {
    let mut c = Canvas::new(width, height);
    for x in 0..width {
        for y in 0..height {
            c.set_pixel(
                x,
                y,
                Rgb {
                    red: (x * 40 + y) as u8,
                    green: (y * 70 + x) as u8,
                    blue: (x * y + 13) as u8,
                },
            );
        }
    }
    c
}

#[test]
fn png_starts_with_the_signature() {
    let c = Canvas::new(1, 1);
    let bytes = make_png(&c);
    assert_eq!(&bytes[..8], &[137, 80, 78, 71, 13, 10, 26, 10]);
}

#[test]
fn png_round_trips_losslessly() {
    let width = 5;
    let height = 4;
    let c = patterned_canvas(width, height);
    let bytes = make_png(&c);

    let decoder = png::Decoder::new(std::io::Cursor::new(&bytes[..]));
    let mut reader = decoder.read_info().expect("the encoder writes a readable PNG");
    let mut buf = vec![0u8; reader.output_buffer_size().expect("a small image")];
    let info = reader.next_frame(&mut buf).expect("one frame");
    assert_eq!(info.width, width as u32);
    assert_eq!(info.height, height as u32);
    assert_eq!(info.color_type, png::ColorType::Rgb);
    assert_eq!(info.bit_depth, png::BitDepth::Eight);
    let decoded = &buf[..info.buffer_size()];
    for x in 0..width {
        for y in 0..height {
            let p = c.get_pixel(x, y);
            let at = 3 * (y * width + x);
            assert_eq!(decoded[at], p.red);
            assert_eq!(decoded[at + 1], p.green);
            assert_eq!(decoded[at + 2], p.blue);
        }
    }
}

#[test]
fn png_round_trips_a_large_canvas() {
    // more than one stored deflate block (a block holds 65535 bytes)
    let width = 300;
    let height = 90;
    let c = patterned_canvas(width, height);
    let bytes = make_png(&c);

    let decoder = png::Decoder::new(std::io::Cursor::new(&bytes[..]));
    let mut reader = decoder.read_info().expect("the encoder writes a readable PNG");
    let mut buf = vec![0u8; reader.output_buffer_size().expect("a small image")];
    let info = reader.next_frame(&mut buf).expect("one frame");
    assert_eq!(info.width, width as u32);
    assert_eq!(info.height, height as u32);
    let decoded = &buf[..info.buffer_size()];
    for x in 0..width {
        for y in 0..height {
            let p = c.get_pixel(x, y);
            let at = 3 * (y * width + x);
            assert_eq!(decoded[at], p.red);
            assert_eq!(decoded[at + 1], p.green);
            assert_eq!(decoded[at + 2], p.blue);
        }
    }
}
