use albumpaper::background::{blur_downscale, BLUR_SCALE};
use albumpaper::colors::{
    color_difference, dominant_colors, gradient_colors, rank_clusters, saturation, Cluster,
};
use albumpaper::compose::{background_offset, foreground_offset, paste_images};
use albumpaper::gradient::{linear, radial, sqrt_floor};
use albumpaper::pixels::{solid, PixelBuffer, WallpaperError};
use albumpaper::resize::{fast_resize, MAX_RESAMPLE_SIDE};
use albumpaper::seed::content_seed;
use kmeans_colors::get_kmeans;
use palette::{FromColor, IntoColor, Lab, Pixel, Srgb};

use albumpaper::wallpaper::{
    background_kind, generate_wallpaper, Background, BackgroundKind, Foreground,
};

fn pixel(img: &PixelBuffer, x: u32, y: u32) -> [u8; 3] {
    let i = ((y * img.width + x) * 3) as usize;
    [img.data[i], img.data[i + 1], img.data[i + 2]]
}

fn filled(width: u32, height: u32, color: [u8; 3]) -> PixelBuffer {
    solid([width, height], color)
}

#[test]
fn resize_output_length_matches_geometry() {
    let src = filled(7, 5, [10, 200, 30]);
    for (w, h) in [(1u32, 1u32), (3, 9), (16, 4), (7, 5), (20, 20)] {
        let out = fast_resize(&src, w, h).unwrap();
        assert_eq!(out.width, w);
        assert_eq!(out.height, h);
        assert_eq!(out.data.len(), (w * h * 3) as usize);
    }
}

#[test]
fn resize_keeps_a_uniform_image_uniform() {
    let src = filled(8, 8, [200, 100, 50]);
    let out = fast_resize(&src, 3, 2).unwrap();
    assert_eq!(out.data.len(), 18);
    for y in 0..2 {
        for x in 0..3 {
            let p = pixel(&out, x, y);
            for c in 0..3 {
                let want = [200i32, 100, 50][c];
                assert!((p[c] as i32 - want).abs() <= 1, "{:?}", p);
            }
        }
    }
}

#[test]
fn resize_rejects_zero_dimensions() {
    let src = filled(4, 4, [1, 2, 3]);
    assert_eq!(fast_resize(&src, 0, 4).err(), Some(WallpaperError::InvalidGeometry));
    assert_eq!(fast_resize(&src, 4, 0).err(), Some(WallpaperError::InvalidGeometry));
    let empty = PixelBuffer { width: 0, height: 3, data: Vec::new() };
    assert_eq!(fast_resize(&empty, 2, 2).err(), Some(WallpaperError::InvalidGeometry));
}

#[test]
fn resize_rejects_crops_under_a_pixel() {
    let src = filled(2, 1, [1, 2, 3]);
    assert_eq!(fast_resize(&src, 1, 5).err(), Some(WallpaperError::InvalidGeometry));
    let tall = filled(1, 2, [1, 2, 3]);
    assert_eq!(fast_resize(&tall, 5, 1).err(), Some(WallpaperError::InvalidGeometry));
    // A crop of exactly one pixel is accepted.
    let wide = filled(4, 2, [1, 2, 3]);
    let out = fast_resize(&wide, 1, 2).unwrap();
    assert_eq!(out.data.len(), 6);
}

#[test]
fn resize_rejects_sides_beyond_the_limit() {
    let src = filled(2, 2, [1, 2, 3]);
    assert_eq!(
        fast_resize(&src, MAX_RESAMPLE_SIDE + 1, 1).err(),
        Some(WallpaperError::InvalidGeometry)
    );
    let long = filled(MAX_RESAMPLE_SIDE, 1, [1, 2, 3]);
    let out = fast_resize(&long, MAX_RESAMPLE_SIDE, 1).unwrap();
    assert_eq!(out.data.len(), MAX_RESAMPLE_SIDE as usize * 3);
}

#[test]
fn content_seed_is_fnv1a() {
    assert_eq!(content_seed(&Vec::new()), 0x811c_9dc5);
    assert_eq!(content_seed(&b"a".to_vec()), 0xe40c_292c);
    assert_eq!(content_seed(&b"foobar".to_vec()), 0xbf9c_f968);
}

#[test]
fn from_raw_checks_the_length() {
    assert!(PixelBuffer::from_raw(2, 2, vec![0; 12]).is_ok());
    assert_eq!(
        PixelBuffer::from_raw(2, 2, vec![0; 11]).err(),
        Some(WallpaperError::InvalidBufferSize)
    );
    assert_eq!(
        PixelBuffer::from_raw(2, 2, vec![0; 13]).err(),
        Some(WallpaperError::InvalidBufferSize)
    );
}

#[test]
fn linear_with_equal_endpoints_is_solid() {
    for color in [[255u8, 255, 255], [0, 0, 0], [13, 200, 77]] {
        let g = linear([9, 4], color, color).unwrap();
        let s = solid([9, 4], color);
        assert_eq!(g.data, s.data);
    }
}

#[test]
fn linear_zero_height_is_invalid_geometry() {
    let r = linear([4, 0], [0, 0, 0], [255, 255, 255]);
    assert_eq!(r.err(), Some(WallpaperError::InvalidGeometry));
}

#[test]
fn linear_interpolates_along_the_diagonal() {
    let g = linear([2, 2], [0, 0, 0], [255, 255, 255]).unwrap();
    assert_eq!(pixel(&g, 0, 0), [0, 0, 0]);
    assert_eq!(pixel(&g, 1, 0), [63, 63, 63]);
    assert_eq!(pixel(&g, 0, 1), [63, 63, 63]);
    assert_eq!(pixel(&g, 1, 1), [127, 127, 127]);
    let g = linear([3, 1], [100, 0, 40], [0, 200, 40]).unwrap();
    assert_eq!(pixel(&g, 0, 0), [100, 0, 40]);
    assert_eq!(pixel(&g, 1, 0), [75, 50, 40]);
    assert_eq!(pixel(&g, 2, 0), [50, 100, 40]);
}

#[test]
fn radial_center_is_inner_color() {
    for (w, h) in [(3u32, 3u32), (10, 7), (64, 36)] {
        let g = radial([w, h], [12, 34, 56], [200, 100, 0], 0).unwrap();
        assert_eq!(pixel(&g, w / 2, h / 2), [12, 34, 56]);
    }
}

#[test]
fn radial_exact_values() {
    let g = radial([3, 3], [0, 0, 0], [255, 255, 255], 0).unwrap();
    assert_eq!(pixel(&g, 0, 0), [255, 255, 255]);
    assert_eq!(pixel(&g, 1, 0), [180, 180, 180]);
    assert_eq!(pixel(&g, 1, 1), [0, 0, 0]);
}

#[test]
fn radial_saturates_inside_the_foreground() {
    // The ramp starts at distance 2: nearer pixels extrapolate beyond the inner colour.
    let g = radial([9, 9], [100, 100, 100], [0, 0, 0], 4).unwrap();
    assert_eq!(pixel(&g, 4, 4), [154, 154, 154]);
    let g = radial([9, 9], [0, 0, 0], [255, 255, 255], 4).unwrap();
    assert_eq!(pixel(&g, 4, 4), [0, 0, 0]);
}

#[test]
fn radial_invalid_geometry() {
    assert_eq!(radial([0, 5], [0; 3], [0; 3], 0).err(), Some(WallpaperError::InvalidGeometry));
    assert_eq!(radial([1, 1], [0; 3], [0; 3], 0).err(), Some(WallpaperError::InvalidGeometry));
    assert_eq!(radial([10, 10], [0; 3], [0; 3], 20).err(), Some(WallpaperError::InvalidGeometry));
}

#[test]
fn radial_thin_ramp_still_has_room() {
    // The centre is sqrt(40001) from the corner, just beyond the 200 of half the foreground.
    let g = radial([400, 2], [0, 0, 0], [255, 255, 255], 400).unwrap();
    assert_eq!(pixel(&g, 0, 0), [255, 255, 255]);
    assert_eq!(pixel(&g, 0, 1), [0, 0, 0]);
    assert_eq!(pixel(&g, 200, 1), [0, 0, 0]);
    assert_eq!(radial([400, 2], [0; 3], [0; 3], 402).err(), Some(WallpaperError::InvalidGeometry));
}

#[test]
fn integer_square_root() {
    assert_eq!(sqrt_floor(0), 0);
    assert_eq!(sqrt_floor(1), 1);
    assert_eq!(sqrt_floor(131072), 362);
    assert_eq!(sqrt_floor(u128::MAX), u64::MAX as u128);
}

#[test]
fn clusters_ranked_by_pixel_count() {
    let centroids = vec![[1, 1, 1], [2, 2, 2], [3, 3, 3], [4, 4, 4]];
    let indices = vec![1u8, 1, 0, 2, 1, 0, 3, 2];
    let r = rank_clusters(&centroids, &indices);
    let got: Vec<(usize, usize)> = r.iter().map(|c: &Cluster| (c.centroid, c.pixels)).collect();
    assert_eq!(got, vec![(1, 3), (0, 2), (2, 2), (3, 1)]);
    let total: usize = r.iter().map(|c| c.pixels).sum();
    assert_eq!(total, indices.len());
    let shares: Vec<f64> = r.iter().map(|c| c.pixels as f64 / indices.len() as f64).collect();
    assert!((shares.iter().sum::<f64>() - 1.0).abs() < 1e-9);
    assert!(shares.windows(2).all(|w| w[0] >= w[1]));
    assert_eq!(dominant_colors(&centroids, &indices), vec![[2, 2, 2], [1, 1, 1], [3, 3, 3], [4, 4, 4]]);
}

#[test]
fn empty_clusters_are_dropped() {
    let centroids = vec![[9, 0, 0], [0, 9, 0], [0, 0, 9]];
    let indices = vec![2u8, 2, 2];
    let r = rank_clusters(&centroids, &indices);
    assert_eq!(r.len(), 1);
    assert_eq!(r[0].color, [0, 0, 9]);
    assert_eq!(r[0].pixels, 3);
    assert!(rank_clusters(&centroids, &Vec::new()).is_empty());
}

fn kmeans_clusters(pixels: &[u8]) -> (Vec<[u8; 3]>, Vec<u8>) {
    let lab: Vec<Lab> = Srgb::from_raw_slice(pixels)
        .iter()
        .map(|x| x.into_format().into_color())
        .collect();
    let mut best: Option<kmeans_colors::Kmeans<Lab>> = None;
    for i in 0..10u64 {
        let run = get_kmeans(10, 20, 0.0001, false, &lab, 1000 + i);
        if best.as_ref().map_or(true, |b| run.score > b.score) {
            best = Some(run);
        }
    }
    let best = best.unwrap();
    let centroids = best
        .centroids
        .iter()
        .map(|c| {
            let (r, g, b) = Srgb::from_color(*c).into_format::<u8>().into_components();
            [r, g, b]
        })
        .collect();
    (centroids, best.indices)
}

#[test]
fn all_red_artwork_has_one_dominant_color() {
    let pixels: Vec<u8> = [255u8, 0, 0].repeat(16);
    let (centroids, indices) = kmeans_clusters(&pixels);
    let r = rank_clusters(&centroids, &indices);
    assert_eq!(r.len(), 1);
    let c = r[0].color;
    assert!(c[0] >= 250 && c[1] <= 5 && c[2] <= 5, "{:?}", c);
    assert_eq!(r[0].pixels, 16);
    assert!((r[0].pixels as f64 / indices.len() as f64 - 1.0).abs() < 1e-9);
    assert_eq!(dominant_colors(&centroids, &indices).len(), 1);
}

#[test]
fn saturation_exact_values() {
    assert_eq!(saturation([255, 0, 0]), (255, 255));
    assert_eq!(saturation([0, 0, 0]), (0, 1));
    assert_eq!(saturation([255, 255, 255]), (0, 1));
    assert_eq!(saturation([128, 64, 64]), (64, 192));
    assert_eq!(saturation([200, 100, 250]), (150, 160));
}

#[test]
fn color_difference_exact_values() {
    assert_eq!(color_difference([255, 0, 0], [0, 0, 0]), 1279 * 65025);
    assert_eq!(color_difference([0, 0, 0], [0, 10, 0]), 2048 * 100);
    assert_eq!(color_difference([0, 0, 0], [0, 0, 10]), 1534 * 100);
    assert_eq!(color_difference([7, 8, 9], [7, 8, 9]), 0);
}

#[test]
fn accents_most_saturated_then_most_distant() {
    let dominant = vec![[128, 128, 128], [200, 30, 30], [250, 250, 250], [20, 20, 200], [190, 40, 40]];
    assert_eq!(gradient_colors(&dominant), Some([[20, 20, 200], [250, 250, 250]]));
}

#[test]
fn accents_consider_only_the_first_seven() {
    let mut dominant = vec![[100, 100, 100]; 7];
    dominant[3] = [120, 100, 100];
    dominant.push([255, 0, 0]);
    dominant.push([0, 0, 255]);
    assert_eq!(gradient_colors(&dominant), Some([[120, 100, 100], [100, 100, 100]]));
}

#[test]
fn accents_with_few_colors() {
    assert_eq!(gradient_colors(&Vec::new()), None);
    assert_eq!(gradient_colors(&vec![[5, 6, 7]]), Some([[5, 6, 7], [5, 6, 7]]));
    let two = gradient_colors(&vec![[10, 10, 10], [10, 10, 10], [10, 10, 11]]).unwrap();
    assert_ne!(two[0], two[1]);
}

#[test]
fn foreground_centered_in_display() {
    assert_eq!(foreground_offset([1920, 1080, 0, 0], 100, 100), (910, 490));
    assert_eq!(foreground_offset([1000, 800, 50, 20], 100, 100), (500, 370));
    assert_eq!(background_offset([10, 10], 13, 4), (-1, 3));

    let bg = filled(1920, 1080, [0, 0, 255]);
    let fg = filled(100, 100, [255, 0, 0]);
    let out = paste_images(&bg, Some(fg), [1920, 1080], [1920, 1080, 0, 0]);
    assert_eq!(out.data.len(), 1920 * 1080 * 3);
    assert_eq!(pixel(&out, 910, 490), [255, 0, 0]);
    assert_eq!(pixel(&out, 1009, 589), [255, 0, 0]);
    assert_eq!(pixel(&out, 909, 490), [0, 0, 255]);
    assert_eq!(pixel(&out, 910, 489), [0, 0, 255]);
    assert_eq!(pixel(&out, 1010, 589), [0, 0, 255]);
}

#[test]
fn composite_of_solid_background_is_the_fill() {
    for (w, h) in [(1u32, 1u32), (5, 3), (16, 9)] {
        let bg = solid([w, h], [9, 8, 7]);
        let out = paste_images(&bg, None, [w, h], [3, 3, 1, 1]);
        assert_eq!(out.data, solid([w, h], [9, 8, 7]).data);
    }
}

#[test]
fn composite_clips_and_leaves_black() {
    let bg = filled(2, 2, [50, 50, 50]);
    let out = paste_images(&bg, None, [4, 2], [4, 2, 0, 0]);
    assert_eq!(pixel(&out, 0, 0), [0, 0, 0]);
    assert_eq!(pixel(&out, 1, 0), [50, 50, 50]);
    assert_eq!(pixel(&out, 2, 1), [50, 50, 50]);
    assert_eq!(pixel(&out, 3, 1), [0, 0, 0]);
    let big = linear([6, 2], [0, 0, 0], [255, 255, 255]).unwrap();
    let out = paste_images(&big, None, [2, 2], [2, 2, 0, 0]);
    assert_eq!(pixel(&out, 0, 0), pixel(&big, 2, 0));
    assert_eq!(pixel(&out, 1, 1), pixel(&big, 3, 1));
}

#[test]
fn background_kinds_by_name() {
    let kinds = [
        ("DefaultWallpaper", BackgroundKind::DefaultWallpaper),
        ("Artwork", BackgroundKind::Artwork),
        ("SolidColor", BackgroundKind::SolidColor),
        ("LinearGradient", BackgroundKind::LinearGradient),
        ("RadialGradient", BackgroundKind::RadialGradient),
        ("ColoredNoise", BackgroundKind::ColoredNoise),
    ];
    for (name, kind) in kinds {
        assert_eq!(background_kind(&name.to_string()), Ok(kind));
    }
    assert_eq!(
        background_kind(&"Plasma".to_string()),
        Err(WallpaperError::UnsupportedVariant)
    );
}

#[test]
fn blur_works_at_a_quarter_of_the_display() {
    assert_eq!(BLUR_SCALE, 4);
    let src = filled(10, 10, [1, 2, 3]);
    let small = blur_downscale(&src, 40, 21).unwrap();
    assert_eq!((small.width, small.height, small.data.len()), (10, 5, 150));
    assert_eq!(blur_downscale(&src, 3, 40).err(), Some(WallpaperError::InvalidGeometry));
    let wide = filled(40, 1, [1, 2, 3]);
    assert_eq!(blur_downscale(&wide, 4, 40).err(), Some(WallpaperError::InvalidGeometry));
}

#[test]
fn wallpaper_with_solid_background() {
    let fg = Foreground {
        artwork_buffer: [255u8, 0, 0].repeat(16),
        artwork_size: [4, 4],
        artwork_resize: 2,
    };
    let out = generate_wallpaper(Background::SolidColor([0, 0, 255]), &fg, [6, 4], [6, 4, 0, 0]).unwrap();
    assert_eq!((out.width, out.height, out.data.len()), (6, 4, 72));
    assert_eq!(pixel(&out, 0, 0), [0, 0, 255]);
    assert_eq!(pixel(&out, 1, 1), [0, 0, 255]);
    for (x, y) in [(2, 1), (3, 1), (2, 2), (3, 2)] {
        let p = pixel(&out, x, y);
        assert!(p[0] >= 254 && p[1] <= 1 && p[2] <= 1, "{:?}", p);
    }
}

#[test]
fn wallpaper_errors() {
    let bad = Foreground { artwork_buffer: vec![0; 10], artwork_size: [2, 2], artwork_resize: 2 };
    assert_eq!(
        generate_wallpaper(Background::SolidColor([0; 3]), &bad, [6, 4], [6, 4, 0, 0]).err(),
        Some(WallpaperError::InvalidBufferSize)
    );
    let fg = Foreground { artwork_buffer: vec![0; 12], artwork_size: [2, 2], artwork_resize: 20 };
    assert_eq!(
        generate_wallpaper(Background::RadialGradient([0; 3], [9; 3]), &fg, [6, 4], [6, 4, 0, 0]).err(),
        Some(WallpaperError::InvalidGeometry)
    );
    assert_eq!(
        generate_wallpaper(Background::LinearGradient([0; 3], [9; 3]), &fg, [0, 4], [6, 4, 0, 0]).err(),
        Some(WallpaperError::InvalidGeometry)
    );
}
