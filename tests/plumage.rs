use plumage::bitmap::{bitmap_header, encode_bitmap, encoded_row_length, Rgb8, HEADER_LEN};
use plumage::generate::{fill_order, initial_pixmap, neighbors, Neighbor};
use plumage::params::{default_dimensions, default_seed, default_spread, seed_from_bytes, SeedLengthError, Spread};
use plumage::{Dimensions, Pixmap, Position};

fn pos(x: usize, y: usize) -> Position {
    Position::new(x, y)
}

fn le32(bytes: &[u8], at: usize) -> u32 {
    u32::from_le_bytes([bytes[at], bytes[at + 1], bytes[at + 2], bytes[at + 3]])
}

fn le16(bytes: &[u8], at: usize) -> u16 {
    u16::from_le_bytes([bytes[at], bytes[at + 1]])
}

fn one_pixel(color: Rgb8) -> Pixmap<Rgb8> {
    let black = Rgb8 { red: 0, green: 0, blue: 0 };
    initial_pixmap(Dimensions::new(1, 1), black, color)
}

#[test]
fn dimensions_basics() {
    let d = Dimensions::new(4, 3);
    assert_eq!(d.width, 4);
    assert_eq!(d.height, 3);
    assert_eq!(d.count(), 12);
    assert_eq!(Dimensions::square(5), Dimensions::new(5, 5));
    assert_eq!(Dimensions::new(0, 7).count(), 0);
}

#[test]
fn dimensions_min_max() {
    let a = Dimensions::new(2, 9);
    let b = Dimensions::new(5, 3);
    assert_eq!(a.min(b), Dimensions::new(2, 3));
    assert_eq!(a.max(b), Dimensions::new(5, 9));
    assert_eq!(a.min(a), a);
}

#[test]
fn dimensions_for_each_visits_all() {
    let seen = std::cell::RefCell::new(Vec::new());
    Dimensions::new(3, 2).for_each(|p| seen.borrow_mut().push(p));
    assert_eq!(
        seen.into_inner(),
        vec![pos(0, 0), pos(1, 0), pos(2, 0), pos(0, 1), pos(1, 1), pos(2, 1)]
    );
}

#[test]
fn position_arithmetic_and_conversions() {
    assert_eq!(pos(3, 4) + pos(1, 2), pos(4, 6));
    assert_eq!(pos(3, 4) - pos(1, 2), pos(2, 2));
    assert_eq!(Dimensions::from(pos(7, 8)), Dimensions::new(7, 8));
    assert_eq!(Position::from(Dimensions::new(7, 8)), pos(7, 8));
}

#[test]
fn spread_bounds() {
    assert_eq!(Spread::Square { width: 5 }.bounds(), Dimensions::new(6, 6));
    assert_eq!(Spread::QuarterCircle { radius: 2 }.bounds(), Dimensions::new(3, 3));
    assert_eq!(Spread::Square { width: 0 }.bounds(), Dimensions::new(1, 1));
}

#[test]
fn spread_extent() {
    assert_eq!(Spread::Square { width: 4 }.extent(), 4);
    assert_eq!(Spread::QuarterCircle { radius: 9 }.extent(), 9);
}

#[test]
fn defaults() {
    assert_eq!(default_dimensions(), Dimensions::new(3840, 2160));
    assert_eq!(default_spread(), Spread::Square { width: 5 });
}

#[test]
fn default_seeds_are_fresh() {
    let a = default_seed();
    let b = default_seed();
    assert_ne!(a, b);
    assert_ne!(a, [0u8; 32]);
}

#[test]
fn seed_of_exact_length() {
    let bytes: Vec<u8> = (0..32).collect();
    let seed = seed_from_bytes(&bytes).unwrap();
    assert_eq!(seed.to_vec(), bytes);
}

#[test]
fn seed_of_wrong_length() {
    assert_eq!(seed_from_bytes(&[1, 2, 3]), Err(SeedLengthError { len: 3 }));
    assert_eq!(seed_from_bytes(&[]), Err(SeedLengthError { len: 0 }));
    assert_eq!(seed_from_bytes(&[0; 33]), Err(SeedLengthError { len: 33 }));
}

#[test]
fn pixmap_new_has_one_cell_per_position() {
    let p = Pixmap::new(Dimensions::new(4, 3), 7u32);
    assert_eq!(p.count(), 12);
    assert_eq!(p.dimensions(), Dimensions::new(4, 3));
    assert!(p.data().iter().all(|&c| c == 7));
}

#[test]
fn pixmap_positions_are_distinct() {
    let d = Dimensions::new(3, 2);
    let mut p = Pixmap::new(d, 0usize);
    let mut n = 0;
    for y in 0..2 {
        for x in 0..3 {
            n += 1;
            p.set(pos(x, y), n);
        }
    }
    assert_eq!(p.into_data(), vec![1, 2, 3, 4, 5, 6]);
}

#[test]
fn pixmap_get_and_get_unchecked_mut() {
    let mut p = Pixmap::new(Dimensions::new(2, 2), 0u8);
    *p.get_unchecked_mut(pos(1, 1)) = 9;
    assert_eq!(p.get(pos(1, 1)), Some(9));
    assert_eq!(p.get_unchecked(pos(0, 1)), 0);
    assert_eq!(p.get(pos(2, 0)), None);
    assert_eq!(p.get(pos(0, 2)), None);
    assert_eq!(p.data(), &[0, 0, 0, 9]);
}

#[test]
fn pixmap_map_keeps_places() {
    let mut p = Pixmap::new(Dimensions::new(3, 1), 1u16);
    p.set(pos(2, 0), 5);
    let q = p.map(|c| c * 10);
    assert_eq!(q.dimensions(), Dimensions::new(3, 1));
    assert_eq!(q.into_data(), vec![10, 10, 50]);
}

#[test]
fn initial_pixmap_holds_start_color_at_origin() {
    let p = initial_pixmap(Dimensions::new(3, 2), 0u8, 200u8);
    assert_eq!(p.get(pos(0, 0)), Some(200));
    assert_eq!(p.data(), &[200, 0, 0, 0, 0, 0]);
}

#[test]
fn fill_order_is_row_major_without_origin() {
    assert_eq!(
        fill_order(Dimensions::new(2, 2)),
        vec![pos(1, 0), pos(0, 1), pos(1, 1)]
    );
    assert_eq!(fill_order(Dimensions::new(1, 1)), vec![]);
    assert_eq!(fill_order(Dimensions::new(0, 5)), vec![]);
    assert_eq!(fill_order(Dimensions::new(3, 1)), vec![pos(1, 0), pos(2, 0)]);
}

#[test]
fn fill_order_never_visits_origin() {
    let order = fill_order(Dimensions::new(7, 5));
    assert_eq!(order.len(), 34);
    assert!(!order.contains(&pos(0, 0)));
    assert!(order.iter().all(|p| p.x < 7 && p.y < 5));
}

#[test]
fn neighbors_two_by_one_square_one() {
    let n = neighbors(Spread::Square { width: 1 }, Dimensions::new(2, 1), pos(1, 0));
    assert_eq!(n, vec![Neighbor { offset: pos(1, 0), position: pos(0, 0) }]);
}

#[test]
fn neighbors_square_full_window() {
    let n = neighbors(Spread::Square { width: 1 }, Dimensions::new(4, 4), pos(2, 2));
    let offsets: Vec<Position> = n.iter().map(|n| n.offset).collect();
    assert_eq!(offsets, vec![pos(1, 0), pos(0, 1), pos(1, 1)]);
    let places: Vec<Position> = n.iter().map(|n| n.position).collect();
    assert_eq!(places, vec![pos(1, 2), pos(2, 1), pos(1, 1)]);
}

#[test]
fn neighbors_window_is_clipped_at_the_edges() {
    let n = neighbors(Spread::Square { width: 2 }, Dimensions::new(5, 5), pos(1, 0));
    assert_eq!(n, vec![Neighbor { offset: pos(1, 0), position: pos(0, 0) }]);
    let n = neighbors(Spread::Square { width: 2 }, Dimensions::new(5, 5), pos(0, 3));
    let offsets: Vec<Position> = n.iter().map(|n| n.offset).collect();
    assert_eq!(offsets, vec![pos(0, 1), pos(0, 2)]);
}

#[test]
fn neighbors_quarter_circle_drops_far_corners() {
    let n = neighbors(Spread::QuarterCircle { radius: 1 }, Dimensions::new(3, 3), pos(1, 1));
    let offsets: Vec<Position> = n.iter().map(|n| n.offset).collect();
    assert_eq!(offsets, vec![pos(1, 0), pos(0, 1)]);

    let n = neighbors(Spread::QuarterCircle { radius: 2 }, Dimensions::new(5, 5), pos(2, 2));
    let offsets: Vec<Position> = n.iter().map(|n| n.offset).collect();
    assert_eq!(
        offsets,
        vec![pos(1, 0), pos(2, 0), pos(0, 1), pos(1, 1), pos(0, 2)]
    );
}

#[test]
fn neighbors_of_zero_spread_are_empty() {
    let n = neighbors(Spread::Square { width: 0 }, Dimensions::new(3, 3), pos(2, 2));
    assert!(n.is_empty());
}

#[test]
fn neighbors_precede_the_pixel() {
    let d = Dimensions::new(6, 5);
    for p in fill_order(d) {
        for n in neighbors(Spread::Square { width: 3 }, d, p) {
            assert!(n.position.x < 6 && n.position.y < 5);
            assert!(n.position.y * 6 + n.position.x < p.y * 6 + p.x);
        }
    }
}

#[test]
fn row_length_values() {
    assert_eq!(encoded_row_length(0), 0);
    assert_eq!(encoded_row_length(1), 4);
    assert_eq!(encoded_row_length(2), 8);
    assert_eq!(encoded_row_length(3), 12);
    assert_eq!(encoded_row_length(4), 12);
    assert_eq!(encoded_row_length(5), 16);
}

#[test]
fn row_length_padding_law() {
    for w in 0..200usize {
        let len = encoded_row_length(w);
        assert_eq!(len % 4, 0);
        assert!(len >= w * 3 && len - w * 3 <= 3);
    }
}

#[test]
fn header_fields() {
    let h = bitmap_header(Dimensions::new(3, 2), 24);
    assert_eq!(h.len(), HEADER_LEN);
    assert_eq!(&h[0..2], b"BM");
    assert_eq!(le32(&h, 2), 54 + 24);
    assert_eq!(&h[6..10], b"PLMG");
    assert_eq!(le32(&h, 10), 54);
    assert_eq!(le32(&h, 14), 40);
    assert_eq!(le32(&h, 18), 3);
    assert_eq!(le32(&h, 22) as i32, -2);
    assert_eq!(le16(&h, 26), 1);
    assert_eq!(le16(&h, 28), 24);
    assert_eq!(le32(&h, 30), 0);
    assert_eq!(le32(&h, 34), 0);
    assert_eq!(le32(&h, 38), 96);
    assert_eq!(le32(&h, 42), 96);
    assert_eq!(le32(&h, 46), 0);
    assert_eq!(le32(&h, 50), 0);
}

#[test]
fn header_of_zero_height() {
    let h = bitmap_header(Dimensions::new(0, 0), 0);
    assert_eq!(le32(&h, 2), 54);
    assert_eq!(le32(&h, 22), 0);
}

#[test]
fn single_pixel_file() {
    let file = encode_bitmap(&one_pixel(Rgb8 { red: 10, green: 20, blue: 30 }));
    assert_eq!(file.len(), 58);
    assert_eq!(le32(&file, 2), 58);
    assert_eq!(&file[54..], &[30, 20, 10, 0]);
}

#[test]
fn two_by_two_rows_are_padded() {
    let d = Dimensions::new(2, 2);
    let mut p = Pixmap::new(d, Rgb8 { red: 0, green: 0, blue: 0 });
    p.set(pos(0, 0), Rgb8 { red: 1, green: 2, blue: 3 });
    p.set(pos(1, 0), Rgb8 { red: 4, green: 5, blue: 6 });
    p.set(pos(0, 1), Rgb8 { red: 7, green: 8, blue: 9 });
    p.set(pos(1, 1), Rgb8 { red: 10, green: 11, blue: 12 });
    assert_eq!(
        p.to_bgr_unchecked(),
        vec![3, 2, 1, 6, 5, 4, 0, 0, 9, 8, 7, 12, 11, 10, 0, 0]
    );
    let file = encode_bitmap(&p);
    assert_eq!(file.len(), 54 + 16);
    assert_eq!(le32(&file, 2), 70);
    assert_eq!(le32(&file, 22) as i32, -2);
    assert_eq!(&file[54..], &p.to_bgr_unchecked()[..]);
}

#[test]
fn width_four_needs_no_padding() {
    let p = Pixmap::new(Dimensions::new(4, 1), Rgb8 { red: 1, green: 1, blue: 1 });
    assert_eq!(p.to_bgr_unchecked(), vec![1; 12]);
}

#[test]
fn encoding_is_repeatable() {
    let mut p = Pixmap::new(Dimensions::new(5, 3), Rgb8 { red: 9, green: 8, blue: 7 });
    p.set(pos(4, 2), Rgb8 { red: 255, green: 0, blue: 128 });
    let first = encode_bitmap(&p);
    let mut sink: Vec<u8> = Vec::new();
    sink.extend_from_slice(&encode_bitmap(&p));
    assert_eq!(first, sink);
}

#[test]
fn header_depends_on_dimensions_only() {
    let d = Dimensions::new(3, 3);
    let a = Pixmap::new(d, Rgb8 { red: 0, green: 0, blue: 0 });
    let b = Pixmap::new(d, Rgb8 { red: 200, green: 100, blue: 50 });
    let fa = encode_bitmap(&a);
    let fb = encode_bitmap(&b);
    assert_eq!(fa.len(), fb.len());
    assert_eq!(&fa[..54], &fb[..54]);
    assert_ne!(&fa[54..], &fb[54..]);
}
