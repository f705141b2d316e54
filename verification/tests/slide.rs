use uncap::solver::gray::GrayImage;
use uncap::solver::slide::{column_edges, find_notch_offset, finish};
use uncap::solver::SolveError;

fn striped(width: u32, height: u32) -> GrayImage {
    let mut pixels = Vec::new();
    for _y in 0..height {
        for x in 0..width {
            pixels.push(if (78..=82).contains(&x) { 30 } else { 200 });
        }
    }
    GrayImage { width, height, pixels }
}

fn band(width: u32) -> (usize, usize) {
    ((width as f32 * 0.1) as usize, (width as f32 * 0.9) as usize)
}

#[test]
fn test_slide_basic() {
    // A 200x100 gray image with a dark vertical stripe at x=80
    let img = striped(200, 100);
    let edges = column_edges(&img);
    let (start, end) = band(img.width);
    let offset = find_notch_offset(&edges, start, end).unwrap() as u32;
    // Should be near 80 (±5)
    assert!((75..=85).contains(&offset), "got offset {offset}");
}

#[test]
fn column_edges_exact_values() {
    let img = striped(200, 100);
    let edges = column_edges(&img);
    assert_eq!(edges.len(), 200);
    assert_eq!(edges[0], 0);
    assert_eq!(edges[199], 0);
    assert_eq!(edges[77], 170 * 100);
    assert_eq!(edges[78], 170 * 100);
    assert_eq!(edges[80], 0);
    assert_eq!(edges[83], 170 * 100);
    assert_eq!(edges[10], 0);
}

#[test]
fn notch_prefers_last_of_equal_maxima() {
    let edges = vec![1u64, 5, 3, 5, 2];
    assert_eq!(find_notch_offset(&edges, 0, 5), Some(3));
    assert_eq!(find_notch_offset(&edges, 0, 3), Some(1));
    assert_eq!(find_notch_offset(&edges, 2, 2), None);
}

#[test]
fn slide_finish_answers_with_offset() {
    let img = striped(200, 100);
    let edges = column_edges(&img);
    assert_eq!(finish(&edges, 20, 180).unwrap(), "83");
    assert_eq!(finish(&edges, 20, 20), Err(SolveError::EmptyImage));
}

#[test]
fn column_edges_of_tiny_images() {
    let one = GrayImage { width: 1, height: 3, pixels: vec![9, 9, 9] };
    assert_eq!(column_edges(&one), vec![0]);
    let empty = GrayImage { width: 0, height: 0, pixels: vec![] };
    assert_eq!(column_edges(&empty), Vec::<u64>::new());
}

fn varied(width: u32, height: u32) -> GrayImage {
    let mut pixels = Vec::new();
    for y in 0..height {
        for x in 0..width {
            pixels.push(((x * 37 + y * 11 + (x * y) % 7) % 200) as u8 + 20);
        }
    }
    GrayImage { width, height, pixels }
}

#[test]
fn notch_ignores_row_order() {
    let img = varied(40, 9);
    let w = img.width as usize;
    let mut flipped = Vec::new();
    for y in (0..img.height as usize).rev() {
        flipped.extend_from_slice(&img.pixels[y * w..(y + 1) * w]);
    }
    let flipped = GrayImage { width: img.width, height: img.height, pixels: flipped };
    let a = column_edges(&img);
    let b = column_edges(&flipped);
    assert_eq!(a, b);
    assert_eq!(find_notch_offset(&a, 4, 36), find_notch_offset(&b, 4, 36));
}

#[test]
fn notch_ignores_brightness_shift() {
    let img = varied(40, 9);
    let brighter = GrayImage {
        width: img.width,
        height: img.height,
        pixels: img.pixels.iter().map(|p| p + 15).collect(),
    };
    let a = column_edges(&img);
    let b = column_edges(&brighter);
    assert_eq!(a, b);
    assert_eq!(find_notch_offset(&a, 4, 36), find_notch_offset(&b, 4, 36));
}
