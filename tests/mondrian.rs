use mondrian::color::{consume_iter_for_u8, parse_hex_color, parse_hex_optional_octothorpe_to_rgb, ColorParseError};
use mondrian::compose::generate;
use mondrian::paint::{border_width, paint, paint_all, paint_leaf, sample_weighted, weights_valid, Color, PixelBuffer};
use mondrian::rect::Rectangle;
use mondrian::tree::{build, Tree};

const BLACK: Color = Color { r: 0, g: 0, b: 0 };

fn palette() -> Vec<Color> {
    vec![
        Color { r: 255, g: 255, b: 255 },
        Color { r: 255, g: 0, b: 0 },
        Color { r: 255, g: 255, b: 0 },
        Color { r: 0, g: 0, b: 255 },
    ]
}

fn contains(r: &Rectangle, px: u32, py: u32) -> bool {
    r.x <= px && px < r.x + r.width && r.y <= py && py < r.y + r.height
}

fn overlap(a: &Rectangle, b: &Rectangle) -> bool {
    a.x < b.x + b.width && b.x < a.x + a.width && a.y < b.y + b.height && b.y < a.y + a.height
}

fn area(r: &Rectangle) -> u64 {
    r.width as u64 * r.height as u64
}

fn check_tiling(root: &Rectangle, leaves: &[Rectangle]) {
    let total: u64 = leaves.iter().map(area).sum();
    assert_eq!(total, area(root));
    for (i, a) in leaves.iter().enumerate() {
        assert!(a.width > 0 && a.height > 0);
        assert!(a.x >= root.x && a.y >= root.y);
        assert!(a.x + a.width <= root.x + root.width);
        assert!(a.y + a.height <= root.y + root.height);
        for b in &leaves[i + 1..] {
            assert!(!overlap(a, b));
        }
    }
}

#[test]
fn split_children_tile_parent_both_axes() {
    let parent = Rectangle::new(3, 5, 10, 9);
    for coin in [false, true] {
        for draw in [0u32, 3, 4, 5, 6, 9, 1000] {
            let (l, r) = parent.split_with(coin, draw);
            for px in 0..20 {
                for py in 0..20 {
                    let inl = contains(&l, px, py);
                    let inr = contains(&r, px, py);
                    assert_eq!(contains(&parent, px, py), inl || inr);
                    assert!(!(inl && inr));
                }
            }
        }
    }
}

#[test]
fn split_with_exact_children() {
    let wide = Rectangle::new(0, 0, 100, 10);
    let (l, r) = wide.split_with(false, 50);
    assert_eq!(l, Rectangle { x: 0, y: 0, width: 50, height: 10 });
    assert_eq!(r, Rectangle { x: 50, y: 0, width: 50, height: 10 });
    let (l, r) = wide.split_with(true, 0);
    assert_eq!(l.width, 40);
    assert_eq!(r, Rectangle { x: 40, y: 0, width: 60, height: 10 });
    let tall = Rectangle::new(2, 2, 10, 100);
    let (l, r) = tall.split_with(true, 99);
    assert_eq!(l, Rectangle { x: 2, y: 2, width: 10, height: 60 });
    assert_eq!(r, Rectangle { x: 2, y: 62, width: 10, height: 40 });
}

#[test]
fn split_axis_policy() {
    assert!(Rectangle::new(0, 0, 100, 10).split_side_by_side(false));
    assert!(!Rectangle::new(0, 0, 10, 100).split_side_by_side(true));
    assert!(Rectangle::new(0, 0, 10, 10).split_side_by_side(true));
    assert!(!Rectangle::new(0, 0, 10, 10).split_side_by_side(false));
    assert!(!Rectangle::new(0, 0, 1, 2).split_side_by_side(true));
    assert!(Rectangle::new(0, 0, 2, 1).split_side_by_side(false));
    assert!(!Rectangle::new(0, 0, 1, 1).splittable());
}

#[test]
fn cut_ranges() {
    assert_eq!(Rectangle::cut_range(10), (4, 6));
    assert_eq!(Rectangle::cut_range(2), (1, 1));
    assert_eq!(Rectangle::cut_range(3), (1, 1));
    assert_eq!(Rectangle::cut_range(4096), (1638, 2457));
}

#[test]
fn random_splits_tile() {
    let parent = Rectangle::new(7, 1, 37, 23);
    for _ in 0..200 {
        let (l, r) = parent.split();
        check_tiling(&parent, &[l, r]);
    }
}

#[test]
fn single_level_canvas_is_one_leaf() {
    let root = Rectangle::new(0, 0, 1000, 1000);
    let tree = build(root, 0);
    assert_eq!(tree.leaves(), vec![root]);
    let img = generate(1000, 1000, 0, &palette(), &vec![10, 2, 1, 1]);
    assert_eq!((img.width, img.height), (1000, 1000));
    let inner = img.get(1, 1);
    assert_ne!(inner, BLACK);
    assert!(palette().contains(&inner));
    for i in 0..1000 {
        assert_eq!(img.get(i, 0), BLACK);
        assert_eq!(img.get(i, 999), BLACK);
        assert_eq!(img.get(0, i), BLACK);
        assert_eq!(img.get(999, i), BLACK);
    }
    for px in 1..999 {
        for py in 1..999 {
            assert_eq!(img.get(px, py), inner);
        }
    }
}

#[test]
fn default_canvas_has_32_tiling_leaves() {
    let root = Rectangle::new(0, 0, 4096, 2160);
    let tree = build(root, 5);
    let leaves = tree.leaves();
    assert_eq!(leaves.len(), 32);
    check_tiling(&root, &leaves);
}

#[test]
fn leaf_count_is_power_of_two() {
    for n in 0..8usize {
        let root = Rectangle::new(0, 0, 3000, 3000);
        let leaves = build(root, n).leaves();
        assert_eq!(leaves.len(), 1 << n);
        check_tiling(&root, &leaves);
    }
}

#[test]
fn single_pixel_is_never_split() {
    let root = Rectangle::new(4, 4, 1, 1);
    let leaves = build(root, 3).leaves();
    assert_eq!(leaves, vec![root]);
    let thin = Rectangle::new(0, 0, 1, 5);
    let leaves = build(thin, 6).leaves();
    check_tiling(&thin, &leaves);
    assert!(leaves.len() <= 5);
}

#[test]
fn leaf_order_is_stable() {
    let mut tree = Tree::new(Rectangle::new(0, 0, 640, 480));
    tree.split(4);
    let first = tree.leaves();
    let second = tree.leaves();
    assert_eq!(first, second);
    assert_eq!(first.len(), 16);
}

#[test]
fn tree_split_shapes() {
    let mut tree = Tree::new(Rectangle::new(0, 0, 90, 90));
    assert_eq!(tree.depth, 0);
    tree.split(1);
    let l = tree.left.as_ref().unwrap();
    let r = tree.right.as_ref().unwrap();
    assert_eq!((l.depth, r.depth), (1, 1));
    assert!(l.left.is_none() && r.right.is_none());
    assert_eq!(tree.leaves(), vec![l.item, r.item]);
}

#[test]
fn narrow_leaf_has_no_interior() {
    let mut buf = PixelBuffer::new(10, 10);
    let fill = Color { r: 9, g: 9, b: 9 };
    paint_leaf(&mut buf, Rectangle::new(0, 0, 10, 10), fill, 0);
    let red = Color { r: 255, g: 0, b: 0 };
    let leaf = Rectangle::new(2, 1, 3, 8);
    paint_leaf(&mut buf, leaf, red, 2);
    for px in 0..10 {
        for py in 0..10 {
            let want = if contains(&leaf, px, py) { BLACK } else { fill };
            assert_eq!(buf.get(px, py), want);
        }
    }
}

#[test]
fn painted_leaf_bands_are_black() {
    let mut buf = PixelBuffer::new(20, 20);
    let blue = Color { r: 0, g: 0, b: 255 };
    paint_leaf(&mut buf, Rectangle::new(0, 0, 20, 20), blue, 0);
    let red = Color { r: 255, g: 0, b: 0 };
    let leaf = Rectangle::new(2, 3, 10, 8);
    paint_leaf(&mut buf, leaf, red, 2);
    for px in 0..20 {
        for py in 0..20 {
            let c = buf.get(px, py);
            if !contains(&leaf, px, py) {
                assert_eq!(c, blue);
            } else if px < 4 || px >= 10 || py < 5 || py >= 9 {
                assert_eq!(c, BLACK);
            } else {
                assert_eq!(c, red);
            }
        }
    }
}

#[test]
fn paint_all_uses_given_colors() {
    let mut buf = PixelBuffer::new(4, 2);
    let leaves = vec![Rectangle::new(0, 0, 2, 2), Rectangle::new(2, 0, 2, 2)];
    let colors = vec![Color { r: 1, g: 2, b: 3 }, Color { r: 4, g: 5, b: 6 }];
    paint_all(&mut buf, &leaves, &colors, 0);
    assert_eq!(buf.get(1, 1), colors[0]);
    assert_eq!(buf.get(2, 0), colors[1]);
    assert_eq!(buf.pixels.len(), 8);
}

#[test]
fn paint_reports_choices() {
    let mut buf = PixelBuffer::new(6, 3);
    let leaves = vec![Rectangle::new(0, 0, 3, 3), Rectangle::new(3, 0, 3, 3)];
    let pal = palette();
    let weights = vec![0, 5, 0, 0];
    let choices = paint(&mut buf, &leaves, &pal, &weights, 1);
    assert_eq!(choices, vec![1, 1]);
    assert_eq!(buf.get(1, 1), pal[1]);
    assert_eq!(buf.get(4, 1), pal[1]);
    assert_eq!(buf.get(0, 1), BLACK);
    assert_eq!(buf.get(3, 2), BLACK);
}

#[test]
fn weighted_sampling_frequencies() {
    let weights = vec![10, 2, 1, 1];
    let mut counts = [0u32; 4];
    let trials = 100000;
    for _ in 0..trials {
        counts[sample_weighted(&weights).unwrap()] += 1;
    }
    let expected = [10.0 / 14.0, 2.0 / 14.0, 1.0 / 14.0, 1.0 / 14.0];
    for i in 0..4 {
        let freq = counts[i] as f64 / trials as f64;
        assert!((freq - expected[i]).abs() < 0.01, "index {} frequency {}", i, freq);
    }
}

#[test]
fn sampling_skips_zero_weights() {
    for _ in 0..1000 {
        let k = sample_weighted(&vec![0, 3, 0, 7]).unwrap();
        assert!(k == 1 || k == 3);
    }
    assert_eq!(sample_weighted(&vec![]), None);
    assert_eq!(sample_weighted(&vec![0, 0]), None);
}

#[test]
fn weight_validation() {
    assert!(weights_valid(&vec![10, 2, 1, 1]));
    assert!(!weights_valid(&vec![]));
    assert!(!weights_valid(&vec![0, 0, 0]));
    assert!(!weights_valid(&vec![u32::MAX, 1]));
    assert!(weights_valid(&vec![u32::MAX, 0]));
}

#[test]
fn border_width_from_canvas() {
    assert_eq!(border_width(4096, 2160), 4);
    assert_eq!(border_width(1000, 1000), 1);
    assert_eq!(border_width(999, 500), 0);
    assert_eq!(border_width(10, 2999), 2);
}

#[test]
fn zero_border_on_small_canvas() {
    let img = generate(50, 40, 2, &palette(), &vec![10, 2, 1, 1]);
    for px in 0..50 {
        for py in 0..40 {
            assert!(palette().contains(&img.get(px, py)));
        }
    }
}

#[test]
fn generated_pixels_black_or_palette() {
    let weights = vec![10, 2, 0, 1];
    let pal = palette();
    let img = generate(1200, 300, 3, &pal, &weights);
    for px in (0..1200).step_by(7) {
        for py in (0..300).step_by(3) {
            let c = img.get(px, py);
            assert!(c == BLACK || c == pal[0] || c == pal[1] || c == pal[3]);
        }
    }
    for px in 0..1200 {
        assert_eq!(img.get(px, 0), BLACK);
        assert_eq!(img.get(px, 299), BLACK);
    }
}

#[test]
fn parse_colors() {
    assert_eq!(parse_hex_optional_octothorpe_to_rgb("#ff0000"), Ok(Color { r: 255, g: 0, b: 0 }));
    assert_eq!(parse_hex_optional_octothorpe_to_rgb("  00FF7f \n"), Ok(Color { r: 0, g: 255, b: 127 }));
    assert_eq!(parse_hex_optional_octothorpe_to_rgb("##0a0B0c"), Ok(Color { r: 10, g: 11, b: 12 }));
    assert_eq!(parse_hex_optional_octothorpe_to_rgb("fff"), Err(ColorParseError::WrongLength));
    assert_eq!(parse_hex_optional_octothorpe_to_rgb("#ff00000"), Err(ColorParseError::WrongLength));
    assert_eq!(parse_hex_optional_octothorpe_to_rgb("gg0000"), Err(ColorParseError::NotHex));
    assert_eq!(parse_hex_optional_octothorpe_to_rgb(""), Err(ColorParseError::WrongLength));
}

#[test]
fn parse_untrimmed_chars() {
    let chars: Vec<char> = " 123456".chars().collect();
    assert_eq!(parse_hex_color(&chars), Err(ColorParseError::WrongLength));
    let chars: Vec<char> = "#123456".chars().collect();
    assert_eq!(parse_hex_color(&chars), Ok(Color { r: 0x12, g: 0x34, b: 0x56 }));
}

#[test]
fn consume_two_digits() {
    let chars: Vec<char> = "a9Fz".chars().collect();
    let mut pos = 0usize;
    assert_eq!(consume_iter_for_u8(&chars, &mut pos), Some(0xa9));
    assert_eq!(pos, 2);
    assert_eq!(consume_iter_for_u8(&chars, &mut pos), None);
    assert_eq!(pos, 4);
}

#[test]
fn split_past_max_depth_keeps_node() {
    let mut tree = Tree::new(Rectangle::new(0, 0, 90, 90));
    tree.split(2);
    let before = tree.leaves();
    tree.depth = 2;
    tree.split(2);
    assert_eq!(tree.depth, 2);
    assert!(tree.left.is_some() && tree.right.is_some());
    assert_eq!(tree.leaves(), before);
}
