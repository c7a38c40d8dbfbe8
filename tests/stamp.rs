use stockbook::encoding::{encode, InvalidPixel};
use stockbook::{encoding_len, Color, Data, Size, Stamp};

const BLACK: [u8; 4] = [0, 0, 0, 255];
const WHITE: [u8; 4] = [255, 255, 255, 255];
const HUGE: usize = usize::MAX;

fn rgba_of(pixels: &[[u8; 4]]) -> Vec<u8> {
    pixels.iter().flat_map(|p| p.iter().copied()).collect()
}

#[test]
fn integration() {
    let rgba = rgba_of(&[WHITE, BLACK, BLACK, WHITE]);
    let data: &'static [u8] = Box::leak(encode(2, 2, &rgba).unwrap().into_boxed_slice());
    let stamp = Stamp::<Size<2, 2>>::from_raw(data);

    assert_eq!(stamp.width(), 2);
    assert_eq!(stamp.height(), 2);
    assert_eq!(stamp.size(), [2, 2]);

    assert!(stamp.is_within_bounds(0, 0));
    assert!(stamp.is_within_bounds(1, 1));
    assert!(!stamp.is_within_bounds(2, 1));
    assert!(!stamp.is_within_bounds(1, 2));

    assert_eq!(stamp.get_color(0, 0), Color::White);
    assert_eq!(stamp.get_color(1, 0), Color::Black);
    assert_eq!(stamp.get_color(0, 1), Color::Black);
    assert_eq!(stamp.get_color(1, 1), Color::White);

    assert_eq!(stamp.get_color_checked(0, 0), Some(Color::White));
    assert_eq!(stamp.get_color_checked(1, 0), Some(Color::Black));
    assert_eq!(stamp.get_color_checked(0, 1), Some(Color::Black));
    assert_eq!(stamp.get_color_checked(1, 1), Some(Color::White));

    assert_eq!(stamp.get_color_unchecked(0, 0), Color::White);
    assert_eq!(stamp.get_color_unchecked(1, 0), Color::Black);
    assert_eq!(stamp.get_color_unchecked(0, 1), Color::Black);
    assert_eq!(stamp.get_color_unchecked(1, 1), Color::White);

    let mut pixels = stamp.pixels();
    assert_eq!(pixels.next(), Some((0, 0, Color::White)));
    assert_eq!(pixels.next(), Some((1, 0, Color::Black)));
    assert_eq!(pixels.next(), Some((0, 1, Color::Black)));
    assert_eq!(pixels.next(), Some((1, 1, Color::White)));
    assert_eq!(pixels.next(), None);
}

#[test]
fn from_raw_keeps_the_size() {
    let stamp = Stamp::<Size<3, 2>>::from_raw(&[0b0000_0000]);
    assert_eq!(stamp.size(), [3, 2]);
    assert_eq!(stamp.width(), 3);
    assert_eq!(stamp.height(), 2);
    assert_eq!(stamp.pixel_count(), 6);

    let wide = Stamp::<Size<17, 1>>::from_raw(&[0, 0, 0, 9]);
    assert_eq!(wide.size(), [17, 1]);
}

#[test]
fn try_from_raw_refuses_a_short_buffer() {
    assert!(Stamp::<Size<3, 3>>::try_from_raw(&[0b1111_1111]).is_none());
    assert!(Stamp::<Size<1, 1>>::try_from_raw(&[]).is_none());
    assert!(Stamp::<Size<HUGE, 2>>::try_from_raw(&[0]).is_none());

    let stamp = Stamp::<Size<3, 3>>::try_from_raw(&[0b1111_1111, 0b1000_0000]).unwrap();
    assert_eq!(stamp.size(), [3, 3]);
    assert!(Stamp::<Size<0, 5>>::try_from_raw(&[]).is_some());
}

#[test]
fn the_three_lookups_agree_in_bounds() {
    let stamp = Stamp::<Size<3, 3>>::from_raw(&[0b1010_1010, 0b1000_0000]);
    for y in 0..3 {
        for x in 0..3 {
            let color = stamp.get_color(x, y);
            assert_eq!(stamp.get_color_checked(x, y), Some(color));
            assert_eq!(stamp.get_color_unchecked(x, y), color);
            let expected = if (x + y) % 2 == 0 { Color::White } else { Color::Black };
            assert_eq!(color, expected);
        }
    }
}

#[test]
fn checked_lookup_is_none_out_of_bounds() {
    let stamp = Stamp::<Size<3, 3>>::from_raw(&[0b1010_1010, 0b1000_0000]);
    assert_eq!(stamp.get_color_checked(3, 0), None);
    assert_eq!(stamp.get_color_checked(0, 3), None);
    assert_eq!(stamp.get_color_checked(usize::MAX, usize::MAX), None);
}

#[test]
fn bounds_of_a_five_by_four_stamp() {
    let stamp = Stamp::<Size<5, 4>>::from_raw(&[0, 0, 0]);
    assert!(stamp.is_within_bounds(0, 0));
    assert!(stamp.is_within_bounds(4, 3));
    assert!(!stamp.is_within_bounds(5, 3));
    assert!(!stamp.is_within_bounds(4, 4));
}

#[test]
fn downgrade_keeps_size_and_colors() {
    let stamp = Stamp::<Size<3, 3>>::from_raw(&[0b1010_1010, 0b1000_0000]);
    let dynamic_stamp: Stamp = stamp.downgrade();
    assert_eq!(dynamic_stamp.size(), [3, 3]);
    assert_eq!(
        dynamic_stamp.pixels().collect_vec(),
        stamp.pixels().collect_vec()
    );
}

#[test]
fn data_reads_bytes_by_index() {
    let data = Data::from_raw(&[3, 1, 4]);
    assert_eq!(data.len(), 3);
    assert_eq!(data.get_unchecked(0), 3);
    assert_eq!(data.get_unchecked(2), 4);
}

#[test]
fn encoding_len_rounds_up() {
    assert_eq!(encoding_len(0), 0);
    assert_eq!(encoding_len(1), 1);
    assert_eq!(encoding_len(8), 1);
    assert_eq!(encoding_len(9), 2);
    assert_eq!(encoding_len(16), 2);
    assert_eq!(encoding_len(usize::MAX), usize::MAX / 8 + 1);
}

#[test]
fn encode_packs_msb_first_with_zero_padding() {
    let rgba = rgba_of(&[WHITE, BLACK, WHITE, BLACK, WHITE, BLACK, WHITE, BLACK, WHITE]);
    assert_eq!(encode(3, 3, &rgba), Ok(vec![0b1010_1010, 0b1000_0000]));

    let rgba = rgba_of(&[WHITE; 9]);
    assert_eq!(encode(9, 1, &rgba), Ok(vec![0b1111_1111, 0b1000_0000]));

    assert_eq!(encode(0, 0, &[]), Ok(vec![]));
}

#[test]
fn encode_reports_the_first_invalid_pixel() {
    let grey = [128, 128, 128, 255];
    let clear_white = [255, 255, 255, 0];
    let rgba = rgba_of(&[WHITE, BLACK, BLACK, BLACK, grey, clear_white]);
    assert_eq!(
        encode(3, 2, &rgba),
        Err(InvalidPixel {
            x: 1,
            y: 1,
            red: 128,
            green: 128,
            blue: 128,
            alpha: 255,
        })
    );

    let rgba = rgba_of(&[clear_white]);
    assert_eq!(
        encode(1, 1, &rgba),
        Err(InvalidPixel {
            x: 0,
            y: 0,
            red: 255,
            green: 255,
            blue: 255,
            alpha: 0,
        })
    );
}
