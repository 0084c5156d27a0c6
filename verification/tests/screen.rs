use noto_sans_mono_bitmap::{get_raster, FontWeight, RasterHeight};
use spikeling_os::console;
use spikeling_os::console::{Console, FrameBufferInfo, PixelFormat};
use spikeling_os::mouse::{init, read_ready, write_ready, Mouse, Ps2Op};

fn info(width: usize, height: usize) -> FrameBufferInfo {
    FrameBufferInfo {
        width,
        height,
        pixel_format: PixelFormat::U8,
        bytes_per_pixel: 1,
        stride: width,
    }
}

fn screen(width: usize, height: usize) -> Option<Console> {
    let mut s = None;
    console::init(&mut s, vec![9; width * height], info(width, height));
    s
}

fn pixel(s: &Option<Console>, x: usize, y: usize) -> u8 {
    let c = s.as_ref().unwrap();
    c.framebuffer[y * c.info.stride + x]
}

fn lit(s: &Option<Console>) -> Vec<(usize, usize)> {
    let c = s.as_ref().unwrap();
    let mut v = vec![];
    for y in 0..c.info.height {
        for x in 0..c.info.width {
            if pixel(s, x, y) != 0 {
                v.push((x, y));
            }
        }
    }
    v
}

fn cursor(s: &Option<Console>) -> (usize, usize) {
    let c = s.as_ref().unwrap();
    (c.x_pos, c.y_pos)
}

#[test]
fn a_new_screen_is_dark() {
    let s = screen(100, 60);
    assert!(lit(&s).is_empty());
    assert_eq!(cursor(&s), (4, 4));
    assert_eq!(console::dimensions(&s), Some((100, 60)));
    assert_eq!(console::dimensions(&None), None);
}

#[test]
fn a_letter_is_drawn_with_the_font() {
    let mut s = screen(100, 60);
    console::write_char(&mut s, 'A');
    assert_eq!(cursor(&s), (11, 4));
    let glyph = get_raster('A', FontWeight::Regular, RasterHeight::Size16).unwrap();
    let mut some_lit = false;
    for (dy, row) in glyph.raster().iter().enumerate() {
        for (dx, v) in row.iter().enumerate() {
            assert_eq!(pixel(&s, 4 + dx, 4 + dy), *v);
            some_lit = some_lit || *v != 0;
        }
    }
    assert!(some_lit);
}

#[test]
fn an_unknown_character_is_drawn_as_a_question_mark() {
    let mut a = screen(100, 60);
    let mut b = screen(100, 60);
    console::write_char(&mut a, '\u{4e2d}');
    console::write_char(&mut b, '?');
    assert_eq!(a.unwrap().framebuffer, b.unwrap().framebuffer);
}

#[test]
fn lines_wrap_and_the_screen_starts_over() {
    let mut s = screen(40, 61);
    console::write_str(&mut s, "\n");
    assert_eq!(cursor(&s), (4, 22));
    console::write_str(&mut s, "ab\rc");
    assert_eq!(cursor(&s), (11, 22));
    console::write_str(&mut s, "\n");
    // five letters fit between the borders
    console::write_str(&mut s, "12345");
    assert_eq!(cursor(&s), (39, 40));
    console::write_str(&mut s, "6");
    assert_eq!(cursor(&s), (11, 4));
}

#[test]
fn texts_written_one_after_the_other_are_joined() {
    let mut a = screen(80, 60);
    let mut b = screen(80, 60);
    console::write_str(&mut a, "hello ");
    console::write_str(&mut a, "world\n");
    console::write_str(&mut b, "hello world\n");
    assert_eq!(cursor(&a), cursor(&b));
    assert_eq!(a.unwrap().framebuffer, b.unwrap().framebuffer);
}

#[test]
fn backspace_takes_a_letter_back() {
    let mut s = screen(80, 60);
    console::write_str(&mut s, "x");
    console::backspace(&mut s);
    assert_eq!(cursor(&s), (4, 4));
    assert!(lit(&s).is_empty());
    console::backspace(&mut s);
    assert_eq!(cursor(&s), (4, 4));
}

#[test]
fn backspace_darkens_one_cell_and_nothing_else() {
    for pixel_format in [PixelFormat::Rgb, PixelFormat::Bgr, PixelFormat::U8, PixelFormat::Unknown] {
        let mut s = None;
        let info = FrameBufferInfo { width: 60, height: 60, pixel_format, bytes_per_pixel: 4, stride: 64 };
        console::init(&mut s, vec![0; 64 * 60 * 4], info);
        console::write_str(&mut s, "ab");
        let before = s.as_ref().unwrap().framebuffer.clone();
        console::write_char(&mut s, 'W');
        console::backspace(&mut s);
        assert_eq!(cursor(&s), (18, 4));
        assert_eq!(s.as_ref().unwrap().framebuffer, before);
        // what was in the cell is lost
        if let Some(c) = &mut s {
            c.framebuffer.fill(7);
        }
        let painted = s.as_ref().unwrap().framebuffer.clone();
        console::write_char(&mut s, 'W');
        console::backspace(&mut s);
        let after = s.as_ref().unwrap().framebuffer.clone();
        for b in 0..after.len() {
            let (x, y, part) = (b / 4 % 64, b / 4 / 64, b % 4);
            let drawn = match pixel_format {
                PixelFormat::Rgb | PixelFormat::Bgr => part < 3,
                PixelFormat::U8 => part == 0,
                PixelFormat::Unknown => false,
            };
            let in_cell = (18..25).contains(&x) && (4..20).contains(&y) && drawn;
            assert_eq!(after[b], if in_cell { 0 } else { painted[b] });
        }
    }
}

#[test]
fn backspace_does_nothing_at_the_start_of_a_line() {
    let mut s = screen(80, 60);
    console::write_str(&mut s, "ab\n");
    console::draw_pixel(&mut s, 6, 30, true);
    for x in 4..11 {
        if let Some(c) = &mut s {
            c.x_pos = x;
        }
        let before = s.as_ref().unwrap().framebuffer.clone();
        console::backspace(&mut s);
        assert_eq!(cursor(&s), (x, 22));
        assert_eq!(s.as_ref().unwrap().framebuffer, before);
    }
}

#[test]
fn clearing_darkens_everything() {
    let mut s = screen(80, 60);
    console::write_str(&mut s, "abc\nd");
    console::clear_screen(&mut s);
    assert!(lit(&s).is_empty());
    assert_eq!(cursor(&s), (4, 4));
}

#[test]
fn pixels_are_set_in_every_format() {
    for (format, bpp, expected) in [
        (PixelFormat::Rgb, 4usize, vec![255u8, 255, 255, 0]),
        (PixelFormat::Bgr, 3, vec![255, 255, 255]),
        (PixelFormat::U8, 2, vec![255, 0]),
        (PixelFormat::Unknown, 1, vec![0]),
    ] {
        let i = FrameBufferInfo {
            width: 4,
            height: 4,
            pixel_format: format,
            bytes_per_pixel: bpp,
            stride: 5,
        };
        let mut c = Console::new(vec![7; 5 * 4 * bpp], i);
        c.draw_pixel(2, 1, true);
        let at = (5 + 2) * bpp;
        assert_eq!(&c.framebuffer[at..at + bpp], &expected[..]);
        c.draw_pixel(2, 1, false);
        assert!(c.framebuffer.iter().all(|b| *b == 0));
        c.draw_pixel(0, 100, true);
        c.draw_pixel(usize::MAX, usize::MAX, true);
        assert!(c.framebuffer.iter().all(|b| *b == 0));
    }
}

#[test]
fn lines_join_their_ends() {
    let mut s = screen(20, 20);
    console::draw_line(&mut s, 2, 3, 7, 3);
    assert_eq!(lit(&s), vec![(2, 3), (3, 3), (4, 3), (5, 3), (6, 3), (7, 3)]);
    let mut s = screen(20, 20);
    console::draw_line(&mut s, 5, 5, 2, 2);
    assert_eq!(lit(&s), vec![(2, 2), (3, 3), (4, 4), (5, 5)]);
    let mut s = screen(20, 20);
    console::draw_line(&mut s, 4, 9, 4, 6);
    assert_eq!(lit(&s), vec![(4, 6), (4, 7), (4, 8), (4, 9)]);
    let mut s = screen(20, 20);
    console::draw_line(&mut s, 1, 1, 1, 1);
    assert_eq!(lit(&s), vec![(1, 1)]);
}

#[test]
fn lines_are_those_of_the_error_accumulating_method() {
    for (x0, y0, x1, y1) in
        [(0i64, 0i64, 9i64, 4i64), (9, 4, 0, 0), (3, 12, 15, 2), (0, 15, 4, 0), (7, 2, 12, 13), (1, 6, 14, 5)]
    {
        let mut s = screen(20, 20);
        console::draw_line(&mut s, x0 as usize, y0 as usize, x1 as usize, y1 as usize);
        let mut expected = vec![];
        let (dx, dy) = ((x1 - x0).abs(), -(y1 - y0).abs());
        let (sx, sy) = (if x0 < x1 { 1 } else { -1 }, if y0 < y1 { 1 } else { -1 });
        let (mut x, mut y, mut err) = (x0, y0, dx + dy);
        loop {
            expected.push((y as usize, x as usize));
            if x == x1 && y == y1 {
                break;
            }
            let e2 = 2 * err;
            if e2 >= dy {
                err += dy;
                x += sx;
            }
            if e2 <= dx {
                err += dx;
                y += sy;
            }
        }
        expected.sort();
        let got: Vec<(usize, usize)> = lit(&s).iter().map(|p| (p.1, p.0)).collect();
        assert_eq!(got, expected);
    }
}

#[test]
fn rectangles_are_outlined_or_filled() {
    let mut s = screen(10, 10);
    console::draw_rect(&mut s, 2, 3, 3, 3, false);
    assert_eq!(
        lit(&s),
        vec![(2, 3), (3, 3), (4, 3), (2, 4), (4, 4), (2, 5), (3, 5), (4, 5)]
    );
    console::draw_rect(&mut s, 2, 3, 3, 3, true);
    assert_eq!(lit(&s).len(), 9);
    let mut s = screen(10, 10);
    console::draw_rect(&mut s, 2, 3, 0, 3, true);
    console::draw_rect(&mut s, 2, 3, 3, 0, false);
    assert!(lit(&s).is_empty());
}

#[test]
fn nothing_is_drawn_without_a_screen() {
    let mut s: Option<Console> = None;
    console::write_str(&mut s, "abc");
    console::write_char(&mut s, 'x');
    console::backspace(&mut s);
    console::clear_screen(&mut s);
    console::draw_pixel(&mut s, 1, 1, true);
    console::draw_line(&mut s, 1, 1, 2, 2);
    console::draw_rect(&mut s, 1, 1, 2, 2, true);
    assert!(s.is_none());
}

fn packet(m: &mut Mouse, s: &mut Option<Console>, b: [u8; 3]) {
    for x in b {
        m.on_interrupt(x, s);
    }
}

#[test]
fn packets_move_the_mouse() {
    let mut m = Mouse::new();
    let mut s = screen(50, 50);
    packet(&mut m, &mut s, [0x09, 10, 5]);
    assert_eq!((m.state.x, m.state.y), (10, -5));
    assert!(m.state.left && !m.state.right && !m.state.middle);
    packet(&mut m, &mut s, [0x3E, 0xFE, 0xFF]);
    assert_eq!((m.state.x, m.state.y), (8, -4));
    assert!(!m.state.left && m.state.right && m.state.middle);
    assert_eq!(m.state().packet_count, 2);
}

#[test]
fn a_byte_that_cannot_begin_a_packet_is_dropped() {
    let mut m = Mouse::new();
    let mut s = None;
    m.on_interrupt(0x00, &mut s);
    m.on_interrupt(0xF7, &mut s);
    assert_eq!(m.packet_index, 0);
    packet(&mut m, &mut s, [0x08, 1, 1]);
    assert_eq!(m.state.packet_count, 1);
}

#[test]
fn positions_wrap_around() {
    let mut m = Mouse::new();
    m.state.x = i32::MAX;
    m.state.y = i32::MIN;
    let mut s = None;
    packet(&mut m, &mut s, [0x08, 1, 1]);
    assert_eq!((m.state.x, m.state.y), (i32::MIN, i32::MAX));
}

#[test]
fn the_mouse_draws_while_its_left_button_is_held() {
    let mut m = Mouse::new();
    let mut s = screen(30, 30);
    m.enter_draw_mode();
    assert!(m.drawing_active());
    packet(&mut m, &mut s, [0x29, 5, 0xF6]);
    assert_eq!(lit(&s), vec![(5, 10)]);
    packet(&mut m, &mut s, [0x09, 3, 0]);
    assert_eq!(lit(&s), vec![(5, 10), (6, 10), (7, 10), (8, 10)]);
    packet(&mut m, &mut s, [0x08, 5, 0]);
    assert_eq!(m.draw_last, None);
    packet(&mut m, &mut s, [0x09, 100, 0]);
    assert_eq!(pixel(&s, 29, 10), 255);
    m.exit_draw_mode();
    packet(&mut m, &mut s, [0x09, 0, 5]);
    assert_eq!(lit(&s).len(), 5);
}

#[test]
fn a_right_click_ends_drawing() {
    let mut m = Mouse::new();
    let mut s = screen(200, 100);
    m.enter_draw_mode();
    packet(&mut m, &mut s, [0x0A, 0, 0]);
    assert!(!m.drawing_active());
    let mut expected = screen(200, 100);
    console::write_str(&mut expected, "\nexited drawing mode (right-click)\n> ");
    assert_eq!(s.unwrap().framebuffer, expected.unwrap().framebuffer);
}

#[test]
fn the_controller_is_set_up() {
    let ops = |config: Option<u8>| -> Vec<(u8, u8)> {
        init(config)
            .iter()
            .map(|o| match o {
                Ps2Op::Command(c) => (1, *c),
                Ps2Op::Data(d) => (2, *d),
                Ps2Op::Read => (3, 0),
            })
            .collect()
    };
    assert_eq!(ops(None), vec![(1, 0xA8), (1, 0x20), (3, 0)]);
    assert_eq!(
        ops(Some(0x61)),
        vec![
            (1, 0x60), (2, 0x43), (1, 0xD4), (2, 0xF6), (3, 0), (1, 0xD4), (2, 0xF4), (3, 0),
        ]
    );
    assert!(write_ready(0xFD) && !write_ready(2));
    assert!(read_ready(1) && !read_ready(0xFE));
}
