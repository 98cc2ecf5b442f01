use utu::buffer::TextPosition;
use utu::config::{Color, ColorError, FrameSize, PairError, Palette};

#[test]
fn color_rgb_and_rgba() {
    assert_eq!(Color::rgb(1, 2, 3), Color { r: 1, g: 2, b: 3, a: 255 });
    assert_eq!(Color::rgba(1, 2, 3, 4), Color { r: 1, g: 2, b: 3, a: 4 });
}

#[test]
fn color_from_hex() {
    assert_eq!(Color::from_hex("#FFFFFF"), Ok(Color::rgb(255, 255, 255)));
    assert_eq!(Color::from_hex("#000000"), Ok(Color::rgb(0, 0, 0)));
    assert_eq!(Color::from_hex("#1a2B3c"), Ok(Color::rgb(0x1a, 0x2b, 0x3c)));
    assert_eq!(Color::from_hex("#1a2B3c4D"), Ok(Color::rgba(0x1a, 0x2b, 0x3c, 0x4d)));
    assert_eq!(Color::from_hex("#+f+0+a"), Ok(Color::rgb(15, 0, 10)));
    assert_eq!(Color::from_hex(""), Err(ColorError::NoHash));
    assert_eq!(Color::from_hex("FFFFFF"), Err(ColorError::NoHash));
    assert_eq!(Color::from_hex("#"), Err(ColorError::BadLength));
    assert_eq!(Color::from_hex("#FFF"), Err(ColorError::BadLength));
    assert_eq!(Color::from_hex("#FFFFFFF"), Err(ColorError::BadLength));
    assert_eq!(Color::from_hex("#FFFFFFFFF"), Err(ColorError::BadLength));
    assert_eq!(Color::from_hex("#GGGGGG"), Err(ColorError::BadDigits));
    assert_eq!(Color::from_hex("#FFFFF+"), Err(ColorError::BadDigits));
    assert_eq!(Color::from_hex("#-1FFFF"), Err(ColorError::BadDigits));
    assert_eq!(Color::from_hex("#FF FF "), Err(ColorError::BadDigits));
}

#[test]
fn color_from_hex_agrees_with_std_on_every_byte() {
    for high in 0..=127u8 {
        for low in 0..=127u8 {
            let pair: String = [high as char, low as char].iter().collect();
            let text = format!("#{}0000", pair);
            let expected = u8::from_str_radix(&pair, 16).ok();
            assert_eq!(Color::from_hex(&text).ok().map(|c| c.r), expected, "{:?}", pair);
        }
    }
}

#[test]
fn frame_size_from_str() {
    assert_eq!(FrameSize::from_str("16x8"), Ok(FrameSize { width: 16, height: 8 }));
    assert_eq!(FrameSize::from_str("0x0"), Ok(FrameSize { width: 0, height: 0 }));
    assert_eq!(FrameSize::from_str("+3x007"), Ok(FrameSize { width: 3, height: 7 }));
    assert_eq!(FrameSize::from_str("16"), Err(PairError::Format));
    assert_eq!(FrameSize::from_str(""), Err(PairError::Format));
    assert_eq!(FrameSize::from_str("x8"), Err(PairError::First));
    assert_eq!(FrameSize::from_str("ax8"), Err(PairError::First));
    assert_eq!(FrameSize::from_str("-1x8"), Err(PairError::First));
    assert_eq!(FrameSize::from_str("16x"), Err(PairError::Second));
    assert_eq!(FrameSize::from_str("16x8x2"), Err(PairError::Second));
    assert_eq!(FrameSize::from_str("16x 8"), Err(PairError::Second));
    assert_eq!(FrameSize::from_str("+x8"), Err(PairError::First));
}

#[test]
fn numbers_at_the_limit() {
    let max = usize::MAX.to_string();
    assert_eq!(
        FrameSize::from_str(&format!("{}x{}", max, max)),
        Ok(FrameSize { width: usize::MAX, height: usize::MAX })
    );
    let over = format!("{}0", max);
    assert_eq!(FrameSize::from_str(&format!("{}x1", over)), Err(PairError::First));
    let next = ((usize::MAX as u128) + 1).to_string();
    assert_eq!(FrameSize::from_str(&format!("1x{}", next)), Err(PairError::Second));
    for n in [0usize, 1, 9, 10, 11, 99, 100, 12345, usize::MAX - 1, usize::MAX / 10, usize::MAX / 10 + 1] {
        assert_eq!(FrameSize::from_str(&format!("{}x{}", n, n)), Ok(FrameSize { width: n, height: n }));
    }
}

#[test]
fn position_from_text_counts_from_one() {
    assert_eq!(TextPosition::from_str("1:1"), Ok(TextPosition { row: 0, col: 0 }));
    assert_eq!(TextPosition::from_str("3:10"), Ok(TextPosition { row: 2, col: 9 }));
    assert_eq!(TextPosition::from_str("0:1"), Err(PairError::First));
    assert_eq!(TextPosition::from_str("1:0"), Err(PairError::Second));
    assert_eq!(TextPosition::from_str("1"), Err(PairError::Format));
    assert_eq!(TextPosition::from_str("a:1"), Err(PairError::First));
    assert_eq!(TextPosition::from_str("1:b"), Err(PairError::Second));
    assert_eq!(TextPosition::from_str("1:2:3"), Err(PairError::Second));
}

#[test]
fn palette_gives_the_first_colour_of_a_character() {
    let palette = Palette {
        colors: vec![('a', Color::rgb(1, 1, 1)), ('b', Color::rgb(2, 2, 2)), ('a', Color::rgb(3, 3, 3))],
    };
    assert_eq!(palette.get('a'), Some(Color::rgb(1, 1, 1)));
    assert_eq!(palette.get('b'), Some(Color::rgb(2, 2, 2)));
    assert_eq!(palette.get('c'), None);
}
