use stockbook::{Color, Size, Stamp};

#[test]
fn test_zero_size_stamp() {
    let stamp = Stamp::<Size<0, 0>>::from_raw(&[]);
    let mut pixels = stamp.pixels();

    assert_eq!(pixels.next(), None);
}

#[test]
fn test_zero_width_stamp() {
    let stamp = Stamp::<Size<0, 3>>::from_raw(&[]);
    let mut pixels = stamp.pixels();

    assert_eq!(pixels.next(), None);
}

#[test]
fn test_zero_height_stamp() {
    let stamp = Stamp::<Size<3, 0>>::from_raw(&[]);
    let mut pixels = stamp.pixels();

    assert_eq!(pixels.next(), None);
}

#[test]
fn test_double_ended() {
    let stamp = Stamp::<Size<2, 2>>::from_raw(&[0b1010_0000]);
    let mut pixels = stamp.pixels();

    assert_eq!(pixels.next(), Some((0, 0, Color::White)));
    assert_eq!(pixels.next_back(), Some((1, 1, Color::Black)));
    assert_eq!(pixels.next_back(), Some((0, 1, Color::White)));
    assert_eq!(pixels.next(), Some((1, 0, Color::Black)));
    assert_eq!(pixels.next(), None);
    assert_eq!(pixels.next_back(), None);
}

#[test]
fn test_rev() {
    let stamp = Stamp::<Size<2, 2>>::from_raw(&[0b1010_0000]);
    let mut pixels = stamp.pixels();

    assert_eq!(pixels.next_back(), Some((1, 1, Color::Black)));
    assert_eq!(pixels.next_back(), Some((0, 1, Color::White)));
    assert_eq!(pixels.next_back(), Some((1, 0, Color::Black)));
    assert_eq!(pixels.next_back(), Some((0, 0, Color::White)));
    assert_eq!(pixels.next_back(), None);
}

#[test]
fn rev_collects_the_reverse_of_forward() {
    let stamp = Stamp::<Size<3, 3>>::from_raw(&[0b1010_1010, 0b1000_0000]);
    let forward = stamp.pixels().collect_vec();
    let mut backward = stamp.pixels().collect_rev();
    assert_eq!(backward.len(), 9);
    backward.reverse();
    assert_eq!(forward, backward);
}

#[test]
fn forward_order_is_row_major_and_complete() {
    let stamp = Stamp::<Size<3, 2>>::from_raw(&[0b0000_0000]);
    let items = stamp.pixels().collect_vec();
    let coords: Vec<(usize, usize)> = items.iter().map(|p| (p.0, p.1)).collect();
    assert_eq!(coords, vec![(0, 0), (1, 0), (2, 0), (0, 1), (1, 1), (2, 1)]);
    assert!(items.iter().all(|p| p.2 == Color::Black));
}

#[test]
fn interleaved_takes_hand_out_each_pixel_once() {
    let stamp = Stamp::<Size<3, 3>>::from_raw(&[0b1010_1010, 0b1000_0000]);
    let mut pixels = stamp.pixels();
    let ends = [false, true, true, false, true, false, false, true, true];
    let mut seen: Vec<(usize, usize)> = Vec::new();
    for from_back in ends {
        assert_eq!(pixels.size_hint().0, 9 - seen.len());
        let p = if from_back { pixels.next_back() } else { pixels.next() };
        let p = p.unwrap();
        assert_eq!(stamp.get_color(p.0, p.1), p.2);
        seen.push((p.0, p.1));
    }
    seen.sort();
    let mut all: Vec<(usize, usize)> = Vec::new();
    for x in 0..3 {
        for y in 0..3 {
            all.push((x, y));
        }
    }
    all.sort();
    assert_eq!(seen, all);
    assert_eq!(pixels.len(), 0);
    for _ in 0..3 {
        assert_eq!(pixels.next(), None);
        assert_eq!(pixels.next_back(), None);
    }
}

#[test]
fn two_by_two_forward_sequence() {
    let stamp = Stamp::<Size<2, 2>>::from_raw(&[0b1010_0000]);
    assert_eq!(
        stamp.pixels().collect_vec(),
        vec![
            (0, 0, Color::White),
            (1, 0, Color::Black),
            (0, 1, Color::White),
            (1, 1, Color::Black),
        ]
    );
}

#[test]
fn three_by_three_checkerboard_sequence() {
    let stamp = Stamp::<Size<3, 3>>::from_raw(&[0b1010_1010, 0b1000_0000]);
    let mut pixels = stamp.pixels();

    assert_eq!(pixels.next(), Some((0, 0, Color::White)));
    assert_eq!(pixels.next(), Some((1, 0, Color::Black)));
    assert_eq!(pixels.next(), Some((2, 0, Color::White)));
    assert_eq!(pixels.next(), Some((0, 1, Color::Black)));
    for _ in 0..4 {
        pixels.next();
    }
    assert_eq!(pixels.next(), Some((2, 2, Color::White)));
    assert_eq!(pixels.next(), None);
}

#[test]
fn degenerate_stamps_are_empty_from_both_ends() {
    let a = Stamp::<Size<0, 0>>::from_raw(&[]).downgrade();
    let b = Stamp::<Size<0, 7>>::from_raw(&[]).downgrade();
    let c = Stamp::<Size<7, 0>>::from_raw(&[]).downgrade();
    for mut pixels in [a.pixels(), b.pixels(), c.pixels()] {
        assert_eq!(pixels.size_hint(), (0, Some(0)));
        assert_eq!(pixels.next_back(), None);
        assert_eq!(pixels.next(), None);
    }
}
