use uv_remapper::raster::{apply_mask, gradient};
use uv_remapper::{Image, Lattice, Range, RemapCommand, RemapQueue, Remapper, RemapperError, UNIT};

const ONE: i32 = UNIT as i32;
const RED: [u8; 4] = [255, 0, 0, 255];

fn solid(width: u32, height: u32, rgba: [u8; 4]) -> Image {
    let mut pixels = Vec::new();
    for _ in 0..width * height {
        pixels.extend_from_slice(&rgba);
    }
    Image { width, height, pixels }
}

fn pixel(image: &Image, x: u32, y: u32) -> [u8; 4] {
    let i = ((y * image.width + x) * 4) as usize;
    [image.pixels[i], image.pixels[i + 1], image.pixels[i + 2], image.pixels[i + 3]]
}

fn full_command(key: &str) -> RemapCommand {
    RemapCommand {
        source_key: key.to_string(),
        range: Range::new(0, 0, ONE, ONE),
        mask_key: None,
        lattice: None,
    }
}

/// A 50 by 50 mask, black on the left half and white on the right half.
fn half_mask() -> Image {
    let mut pixels = Vec::new();
    for _y in 0..50 {
        for x in 0..50 {
            if x < 25 {
                pixels.extend_from_slice(&[0, 0, 0, 255]);
            } else {
                pixels.extend_from_slice(&[255, 255, 255, 255]);
            }
        }
    }
    Image { width: 50, height: 50, pixels }
}

fn red_setup() -> Remapper {
    let mut r = Remapper::new(100, 100);
    r.insert_source("a", solid(50, 50, RED));
    r
}

#[test]
fn new_canvas_is_transparent() {
    let r = Remapper::new(4, 3);
    let c = r.base_image();
    assert_eq!((c.width, c.height), (4, 3));
    assert!(c.pixels.iter().all(|&b| b == 0));
    assert_eq!(c.pixels.len(), 4 * 3 * 4);
}

#[test]
fn missing_source_fails_and_keeps_canvas() {
    let mut r = red_setup();
    let before = r.base_image().clone();
    let result = r.patch(full_command("nope"));
    assert_eq!(result, Err(RemapperError::SourceNotFound("nope".to_string())));
    assert_eq!(r.base_image().pixels, before.pixels);
}

#[test]
fn missing_mask_fails_and_keeps_canvas() {
    let mut r = red_setup();
    let before = r.base_image().clone();
    let mut cmd = full_command("a");
    cmd.mask_key = Some("no_mask".to_string());
    let result = r.patch(cmd);
    assert_eq!(result, Err(RemapperError::SourceNotFound("no_mask".to_string())));
    assert_eq!(r.base_image().pixels, before.pixels);
}

#[test]
fn full_patch_paints_canvas_red() {
    let mut r = red_setup();
    assert_eq!(r.patch(full_command("a")), Ok(()));
    let c = r.base_image();
    assert_eq!((c.width, c.height), (100, 100));
    for y in 0..100 {
        for x in 0..100 {
            assert_eq!(pixel(c, x, y), RED, "at {} {}", x, y);
        }
    }
}

#[test]
fn masked_patch_paints_white_half_only() {
    let mut r = red_setup();
    r.insert_source("m", half_mask());
    let mut cmd = full_command("a");
    cmd.mask_key = Some("m".to_string());
    assert_eq!(r.patch(cmd), Ok(()));
    let c = r.base_image();
    for y in 0..100 {
        for x in 0..40 {
            assert_eq!(pixel(c, x, y), [0, 0, 0, 0], "at {} {}", x, y);
        }
        for x in 60..100 {
            assert_eq!(pixel(c, x, y), RED, "at {} {}", x, y);
        }
    }
}

#[test]
fn identity_lattice_matches_plain_patch() {
    let mut plain = red_setup();
    plain.patch(full_command("a")).unwrap();
    let mut warped = red_setup();
    let mut cmd = full_command("a");
    cmd.lattice = Some(Lattice::new(4, 4));
    warped.patch(cmd).unwrap();
    assert_eq!(warped.base_image().pixels, plain.base_image().pixels);
}

#[test]
fn identity_lattice_matches_plain_patch_with_mask() {
    let mut plain = red_setup();
    plain.insert_source("m", half_mask());
    let mut cmd = full_command("a");
    cmd.mask_key = Some("m".to_string());
    plain.patch(cmd.clone()).unwrap();
    let mut warped = red_setup();
    warped.insert_source("m", half_mask());
    cmd.lattice = Some(Lattice::new(1, 1));
    warped.patch(cmd).unwrap();
    let (a, b) = (plain.base_image(), warped.base_image());
    for y in 0..100 {
        for x in (0..40).chain(60..100) {
            assert_eq!(pixel(a, x, y), pixel(b, x, y), "at {} {}", x, y);
        }
    }
}

#[test]
fn patch_lands_in_its_rectangle() {
    let mut r = red_setup();
    let mut cmd = full_command("a");
    cmd.range = Range::new(ONE / 2, ONE / 4, ONE / 4, ONE / 2);
    r.patch(cmd).unwrap();
    let c = r.base_image();
    assert_eq!(pixel(c, 60, 40), RED);
    assert_eq!(pixel(c, 74, 74), RED);
    assert_eq!(pixel(c, 49, 40), [0, 0, 0, 0]);
    assert_eq!(pixel(c, 75, 40), [0, 0, 0, 0]);
    assert_eq!(pixel(c, 60, 24), [0, 0, 0, 0]);
    assert_eq!(pixel(c, 60, 75), [0, 0, 0, 0]);
}

#[test]
fn patch_past_the_canvas_is_clipped() {
    let mut r = red_setup();
    let mut cmd = full_command("a");
    cmd.range = Range::new(3 * ONE / 4, 3 * ONE / 4, ONE, ONE);
    r.patch(cmd).unwrap();
    let c = r.base_image();
    assert_eq!(c.pixels.len(), 100 * 100 * 4);
    assert_eq!(pixel(c, 99, 99), RED);
    assert_eq!(pixel(c, 74, 99), [0, 0, 0, 0]);
}

#[test]
fn later_patch_overlays_earlier() {
    let mut r = red_setup();
    r.insert_source("b", solid(10, 10, [0, 0, 255, 255]));
    r.patch(full_command("a")).unwrap();
    let mut cmd = full_command("b");
    cmd.range = Range::new(0, 0, ONE / 2, ONE);
    r.patch(cmd).unwrap();
    let c = r.base_image();
    assert_eq!(pixel(c, 10, 10), [0, 0, 255, 255]);
    assert_eq!(pixel(c, 90, 10), RED);
}

#[test]
fn insert_source_replaces() {
    let mut r = Remapper::new(10, 10);
    r.insert_source("a", solid(5, 5, [0, 255, 0, 255]));
    r.insert_source("a", solid(5, 5, RED));
    r.patch(full_command("a")).unwrap();
    assert_eq!(pixel(r.base_image(), 5, 5), RED);
}

#[test]
fn default_uv_source_is_registered() {
    let mut r = Remapper::new(8, 8);
    r.patch(full_command("default_uv")).unwrap();
    let c = r.base_image();
    assert_eq!(pixel(c, 0, 0), [0, 0, 0, 255]);
    assert_eq!(pixel(c, 4, 0)[0], 127);
    assert_eq!(pixel(c, 0, 4)[1], 127);
}

#[test]
fn from_image_keeps_base() {
    let r = Remapper::from_image(solid(3, 2, [1, 2, 3, 4]));
    let c = r.base_image();
    assert_eq!((c.width, c.height), (3, 2));
    assert_eq!(pixel(c, 2, 1), [1, 2, 3, 4]);
}

#[test]
fn gradient_values() {
    let g = gradient(4, 2);
    assert_eq!(g.pixels.len(), 32);
    assert_eq!(pixel(&g, 0, 0), [0, 0, 0, 255]);
    assert_eq!(pixel(&g, 3, 1), [191, 127, 0, 255]);
}

#[test]
fn mask_scales_every_channel() {
    let pixels = vec![255, 128, 10, 200, 255, 255, 255, 255];
    let mask = vec![128, 0];
    assert_eq!(apply_mask(&pixels, &mask), vec![128, 64, 5, 100, 0, 0, 0, 0]);
}

#[test]
fn queue_keeps_order() {
    let mut q = RemapQueue::new();
    q.push(full_command("first"));
    q.push(full_command("second"));
    let keys: Vec<String> = q.commands().into_iter().map(|c| c.source_key).collect();
    assert_eq!(keys, vec!["first".to_string(), "second".to_string()]);
}

#[test]
fn mirror_lattice_flips_the_patch() {
    let mut r = Remapper::new(100, 100);
    let mut pixels = Vec::new();
    for _y in 0..50 {
        for x in 0..50 {
            if x < 25 {
                pixels.extend_from_slice(&RED);
            } else {
                pixels.extend_from_slice(&[0, 0, 255, 255]);
            }
        }
    }
    r.insert_source("s", Image { width: 50, height: 50, pixels });
    let rows = vec![
        vec![vec![ONE, 0], vec![0, 0]],
        vec![vec![ONE, ONE], vec![0, ONE]],
    ];
    let mut cmd = full_command("s");
    cmd.lattice = Some(Lattice::from_grid(&rows).unwrap());
    r.patch(cmd).unwrap();
    let c = r.base_image();
    assert_eq!(pixel(c, 10, 50), [0, 0, 255, 255]);
    assert_eq!(pixel(c, 90, 50), RED);
}

#[test]
fn ordinary_patches_fit() {
    let r = red_setup();
    let mut cmd = full_command("a");
    assert!(r.can_patch(&cmd));
    cmd.mask_key = Some("missing".to_string());
    assert!(r.can_patch(&cmd));
}

fn gradient_patch(lattice: Option<Lattice>, size: u32) -> Vec<u8> {
    let mut r = Remapper::new(size, size);
    r.insert_source("g", gradient(37, 23));
    let mut cmd = full_command("g");
    cmd.lattice = lattice;
    r.patch(cmd).unwrap();
    r.base_image().pixels.clone()
}

#[test]
fn identity_lattice_keeps_gradient_pixels() {
    for &blocks in &[1usize, 2, 4, 8] {
        for &size in &[100u32, 64, 77] {
            let plain = gradient_patch(None, size);
            let warped = gradient_patch(Some(Lattice::new(blocks, blocks)), size);
            assert_eq!(warped, plain, "blocks {} size {}", blocks, size);
        }
    }
}

#[test]
fn identity_lattice_keeps_default_uv() {
    let mut plain = Remapper::new(100, 100);
    plain.patch(full_command("default_uv")).unwrap();
    let mut warped = Remapper::new(100, 100);
    let mut cmd = full_command("default_uv");
    cmd.lattice = Some(Lattice::new(4, 4));
    warped.patch(cmd).unwrap();
    assert_eq!(warped.base_image().pixels, plain.base_image().pixels);
}

#[test]
fn error_message_names_the_key() {
    let e = RemapperError::SourceNotFound("mask".to_string());
    assert_eq!(e.message(), "キー mask の画像がありません");
}

#[test]
fn empty_canvas_takes_patches() {
    for &(w, h) in &[(0u32, 0u32), (0, 5), (5, 0)] {
        let mut r = Remapper::new(w, h);
        assert_eq!(r.patch(full_command("default_uv")), Ok(()));
        assert_eq!(r.base_image().pixels.len(), (w * h * 4) as usize);
    }
}

#[test]
fn queue_applies_in_order() {
    let mut r = red_setup();
    r.insert_source("b", solid(10, 10, [0, 0, 255, 255]));
    let mut q = RemapQueue::new();
    q.push(full_command("b"));
    q.push(full_command("a"));
    assert_eq!(r.apply_queue(q), Ok(()));
    assert_eq!(pixel(r.base_image(), 50, 50), RED);
}

#[test]
fn queue_stops_at_missing_key() {
    let mut r = red_setup();
    let mut q = RemapQueue::new();
    let mut first = full_command("a");
    first.range = Range::new(0, 0, ONE / 2, ONE);
    q.push(first);
    q.push(full_command("gone"));
    q.push(full_command("a"));
    assert_eq!(r.apply_queue(q), Err(RemapperError::SourceNotFound("gone".to_string())));
    assert_eq!(pixel(r.base_image(), 10, 10), RED);
    assert_eq!(pixel(r.base_image(), 90, 10), [0, 0, 0, 0]);
}

#[test]
fn empty_source_draws_nothing() {
    let mut r = red_setup();
    r.patch(full_command("a")).unwrap();
    r.insert_source("empty", Image { width: 0, height: 7, pixels: Vec::new() });
    assert_eq!(r.patch(full_command("empty")), Ok(()));
    assert_eq!(pixel(r.base_image(), 50, 50), RED);
}

#[test]
fn empty_mask_hides_the_patch() {
    let mut r = red_setup();
    r.insert_source("nothing", Image { width: 3, height: 0, pixels: Vec::new() });
    let mut cmd = full_command("a");
    cmd.mask_key = Some("nothing".to_string());
    assert_eq!(r.patch(cmd), Ok(()));
    assert!(r.base_image().pixels.iter().all(|&b| b == 0));
}

#[test]
fn queue_reports_missing_mask_key() {
    let mut r = red_setup();
    let mut q = RemapQueue::new();
    q.push(full_command("a"));
    let mut cmd = full_command("a");
    cmd.mask_key = Some("no_mask".to_string());
    q.push(cmd);
    assert_eq!(r.apply_queue(q), Err(RemapperError::SourceNotFound("no_mask".to_string())));
}
