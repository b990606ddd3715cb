use inpaint::error::Error;
use inpaint::grid::{Grid, ImageBuffer};
use inpaint::queue::{NarrowBandQueue, QueueItem};
use inpaint::telea::{convert_mask_to_flag_array, telea_inpaint, Flag, ProcessData};

fn image_from(vals: &[f32], height: usize, width: usize, channels: usize) -> ImageBuffer {
    let data: Vec<u32> = vals.iter().map(|v| v.to_bits()).collect();
    ImageBuffer::from_parts(data, height, width, channels).unwrap()
}

fn mask_from(vals: &[u8], height: usize, width: usize) -> Grid<u8> {
    Grid {
        data: vals.to_vec(),
        height,
        width,
    }
}

fn pixels(img: &ImageBuffer) -> Vec<f32> {
    img.data.iter().map(|b| f32::from_bits(*b)).collect()
}

#[test]
fn flag_from_value_classifies_the_thresholded_sample() {
    assert_eq!(Flag::from_value(1), Flag::Band);
    assert_eq!(Flag::from_value(0), Flag::Known);
    assert_eq!(Flag::from_value(7), Flag::Known);
}

#[test]
fn flag_flip_swaps_known_and_inside() {
    assert_eq!(Flag::Known.flip(), Flag::Inside);
    assert_eq!(Flag::Inside.flip(), Flag::Known);
    assert_eq!(Flag::Band.flip(), Flag::Band);
}

#[test]
fn convert_mask_marks_ones_as_band() {
    let mask = mask_from(&[0, 1, 2, 1], 2, 2);
    let flags = convert_mask_to_flag_array(&mask);
    assert_eq!(
        flags.data,
        vec![Flag::Known, Flag::Band, Flag::Known, Flag::Band]
    );
}

#[test]
fn dimension_mismatch_fails_and_leaves_the_image_untouched() {
    let vals: Vec<f32> = (0..100).map(|i| i as f32 / 100.0).collect();
    let mut img = image_from(&vals, 10, 10, 1);
    let before = img.data.clone();
    let mask = mask_from(&vec![1u8; 25], 5, 5);
    let r = telea_inpaint(&mut img, &mask, 2);
    assert_eq!(r, Err(Error::DimensionMismatch));
    assert_eq!(img.data, before);
}

#[test]
fn buffer_with_wrong_length_is_rejected() {
    let r = ImageBuffer::from_parts(vec![0u32; 5], 2, 2, 1);
    assert!(matches!(r, Err(Error::Shape)));
    let r2 = ImageBuffer::from_parts(vec![0u32; 4], 2, 2, 0);
    assert!(matches!(r2, Err(Error::Shape)));
}

#[test]
fn queue_pops_by_distance_then_row_then_column() {
    let mut q = NarrowBandQueue::new();
    q.push(QueueItem::new(2.0f32.to_bits(), 0, 0));
    q.push(QueueItem::new(1.0f32.to_bits(), 5, 9));
    q.push(QueueItem::new(1.0f32.to_bits(), 5, 2));
    q.push(QueueItem::new(1.0f32.to_bits(), 3, 7));
    q.push(QueueItem::new(0.5f32.to_bits(), 9, 9));
    let mut popped: Vec<(u32, usize, usize)> = Vec::new();
    while !q.is_empty() {
        let it = q.pop();
        popped.push((it.priority, it.y, it.x));
    }
    assert_eq!(
        popped,
        vec![
            (0.5f32.to_bits(), 9, 9),
            (1.0f32.to_bits(), 3, 7),
            (1.0f32.to_bits(), 5, 2),
            (1.0f32.to_bits(), 5, 9),
            (2.0f32.to_bits(), 0, 0),
        ]
    );
    // the popped distances are non-decreasing over the run
    for w in popped.windows(2) {
        assert!(f32::from_bits(w[0].0) <= f32::from_bits(w[1].0));
    }
}

/// A 4x4 image with a centered 2x2 masked block and radius 2: exactly
/// the four masked pixels change, everything else is bit-identical,
/// and every masked pixel is finalized.
#[test]
fn small_block_scenario() {
    let vals: Vec<f32> = vec![
        0.1, 0.2, 0.3, 0.4, //
        0.5, 0.0, 0.0, 0.6, //
        0.7, 0.0, 0.0, 0.8, //
        0.9, 1.0, 0.2, 0.3,
    ];
    let mask: Vec<u8> = vec![
        0, 0, 0, 0, //
        0, 1, 1, 0, //
        0, 1, 1, 0, //
        0, 0, 0, 0,
    ];
    let img = image_from(&vals, 4, 4, 1);
    let before = img.data.clone();
    let maskg = mask_from(&mask, 4, 4);

    let mut pd = ProcessData::new(&img, &maskg, 2).unwrap();
    pd.run(2);

    // no pixel remains flagged Inside, and each masked pixel was
    // finalized Known
    for (i, f) in pd.flags.data.iter().enumerate() {
        assert_ne!(*f, Flag::Inside, "pixel {i} still Inside");
        if mask[i] == 1 {
            assert_eq!(*f, Flag::Known, "masked pixel {i} not finalized");
        }
    }

    // exactly the four masked pixels changed
    let mut changed = 0;
    for i in 0..16 {
        if pd.process_image.data[i] != before[i] {
            changed += 1;
            assert_eq!(mask[i], 1, "unmasked pixel {i} changed");
        }
    }
    assert_eq!(changed, 4);

    // the masked pixels hold plausible reconstructed values
    for i in 0..16 {
        if mask[i] == 1 {
            let v = f32::from_bits(pd.process_image.data[i]);
            assert!(v.is_finite());
            assert!(v > 0.0 && v < 1.0, "pixel {i} = {v}");
        }
    }
}

/// Unmasked pixels are unchanged bit for bit.
#[test]
fn known_pixels_are_unchanged_bit_for_bit() {
    let vals: Vec<f32> = (0..32).map(|i| (i as f32) * 0.03125 + 0.001).collect();
    let mask: Vec<u8> = vec![
        0, 0, 0, 0, //
        0, 1, 0, 0, //
        0, 0, 1, 0, //
        0, 0, 0, 0,
    ];
    let mut img = image_from(&vals, 4, 4, 2);
    let before = img.data.clone();
    let maskg = mask_from(&mask, 4, 4);
    telea_inpaint(&mut img, &maskg, 3).unwrap();
    for y in 0..4 {
        for x in 0..4 {
            if mask[y * 4 + x] == 0 {
                for ch in 0..2 {
                    let i = (y * 4 + x) * 2 + ch;
                    assert_eq!(img.data[i], before[i], "pixel ({y},{x}) ch {ch}");
                }
            }
        }
    }
}

/// Identical input gives bit-identical output across runs.
#[test]
fn deterministic_across_runs() {
    let vals: Vec<f32> = (0..48).map(|i| ((i * 37 % 19) as f32) / 19.0).collect();
    let mask: Vec<u8> = (0..16).map(|i| if i == 5 || i == 6 || i == 9 { 1 } else { 0 }).collect();
    let mut img1 = image_from(&vals, 4, 4, 3);
    let mut img2 = image_from(&vals, 4, 4, 3);
    let maskg = mask_from(&mask, 4, 4);
    telea_inpaint(&mut img1, &maskg, 2).unwrap();
    telea_inpaint(&mut img2, &maskg, 2).unwrap();
    assert_eq!(img1.data, img2.data);
}

/// A masked region surrounded by one constant color fills with exactly
/// that color (shown here for colors whose products and sums are exact).
#[test]
fn flat_region_fills_with_the_surrounding_color() {
    for &c in &[0.5f32, 1.0f32, 0.25f32] {
        for radius in [1i32, 2, 4] {
            let mut vals = vec![c; 25];
            let mut mask = vec![0u8; 25];
            for y in 1..4 {
                for x in 1..4 {
                    mask[y * 5 + x] = 1;
                    vals[y * 5 + x] = 0.0;
                }
            }
            let mut img = image_from(&vals, 5, 5, 1);
            let maskg = mask_from(&mask, 5, 5);
            telea_inpaint(&mut img, &maskg, radius).unwrap();
            for (i, p) in pixels(&img).iter().enumerate() {
                assert_eq!(p.to_bits(), c.to_bits(), "pixel {i} radius {radius} color {c}");
            }
        }
    }
}

/// A single masked pixel surrounded by a constant color reconstructs
/// to exactly that color.
#[test]
fn isolated_pixel_reconstructs_the_surrounding_color() {
    for &c in &[0.5f32, 1.0f32] {
        for radius in [1i32, 2, 3] {
            let mut vals = vec![c; 9];
            vals[4] = 0.0;
            let mask: Vec<u8> = vec![0, 0, 0, 0, 1, 0, 0, 0, 0];
            let mut img = image_from(&vals, 3, 3, 1);
            let maskg = mask_from(&mask, 3, 3);
            telea_inpaint(&mut img, &maskg, radius).unwrap();
            assert_eq!(img.data[4], c.to_bits(), "radius {radius} color {c}");
        }
    }
}

/// An image that is masked everywhere has no initial frontier: the
/// call succeeds and the buffer is left as it was.
#[test]
fn fully_masked_image_is_left_unchanged() {
    let vals = vec![0.25f32; 9];
    let mut img = image_from(&vals, 3, 3, 1);
    let before = img.data.clone();
    let maskg = mask_from(&vec![1u8; 9], 3, 3);
    telea_inpaint(&mut img, &maskg, 1).unwrap();
    assert_eq!(img.data, before);
}

#[test]
fn error_messages_name_the_failure() {
    assert!(Error::DimensionMismatch.message().contains("dimensions"));
    assert!(Error::HeapDoesNotContainData.message().contains("heap"));
}
