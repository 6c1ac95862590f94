use itools_plugin::commands::read_base64;
use itools_plugin::display::{plan, start, touch, Placement, Side};
use itools_plugin::image_api::{
    check_displays, check_part, compress_blocking, convert_blocking, crop_blocking, format_name, info_blocking,
    monitor_at_physical, monitor_for, nearest_monitor_physical, parse_fit, parse_target_format, pixel_color,
    resize_blocking, scaled_reply, written_reply, Fit, MonitorRect, CLR_INVALID,
};
use itools_plugin::picture::{read_pixels, rgba_to_bmp, rgba_to_png, PictureFormat};
use base64::Engine;

fn to_b64(bytes: &[u8]) -> String {
    base64::engine::general_purpose::STANDARD.encode(bytes)
}

fn from_b64(s: &str) -> Vec<u8> {
    let raw = s.rsplit(',').next().unwrap();
    base64::engine::general_purpose::STANDARD.decode(raw).unwrap()
}

/// 构造一张 4x3 纯色 PNG，返回其 base64。
fn tiny_png_b64() -> String {
    let img = image::RgbaImage::from_pixel(4, 3, image::Rgba([10, 20, 30, 255]));
    let mut out = std::io::Cursor::new(Vec::new());
    image::DynamicImage::ImageRgba8(img)
        .write_to(&mut out, image::ImageFormat::Png)
        .expect("测试用纯色 PNG 编码不应失败");
    to_b64(&out.into_inner())
}

#[test]
fn info_reports_real_dimensions_and_format() {
    let b64 = tiny_png_b64();
    let info = info_blocking(&b64).expect("应能解出信息");
    assert_eq!(info.width, 4);
    assert_eq!(info.height, 3);
    assert_eq!(info.format, "png");
    assert!(info.size_bytes > 0);
}

#[test]
fn resize_contain_keeps_aspect_within_box() {
    let b64 = tiny_png_b64();
    let out = resize_blocking(&b64, 8, 8, "contain").expect("等比缩放应成功");
    let info = info_blocking(&out).expect("应能解出信息");
    // 4x3 等比缩到 8x8 的框内：最长边 4 贴 8，得到 8x6（不裁剪、不超框）
    assert_eq!((info.width, info.height), (8, 6));
}

#[test]
fn resize_fill_matches_exact_target() {
    let b64 = tiny_png_b64();
    let out = resize_blocking(&b64, 10, 5, "fill").expect("拉伸应成功");
    let info = info_blocking(&out).expect("应能解出信息");
    assert_eq!((info.width, info.height), (10, 5));
}

#[test]
fn resize_cover_matches_exact_target() {
    let out = resize_blocking(&tiny_png_b64(), 6, 6, "cover").expect("裁剪填充应成功");
    let info = info_blocking(&out).expect("应能解出信息");
    assert_eq!((info.width, info.height), (6, 6));
}

#[test]
fn resize_rejects_unknown_mode() {
    let b64 = tiny_png_b64();
    let err = resize_blocking(&b64, 8, 8, "nope").unwrap_err();
    assert!(err.contains("不支持的缩放模式"));
}

#[test]
fn resize_rejects_impossible_sizes() {
    let b64 = tiny_png_b64();
    assert!(resize_blocking(&b64, 0, 8, "fill").is_err());
    assert!(resize_blocking(&b64, u32::MAX, u32::MAX, "fill").unwrap_err().contains("尺寸过大"));
    assert!(resize_blocking("***", 8, 8, "fill").is_err());
    assert!(resize_blocking("aGVsbG8=", 8, 8, "fill").is_err());
}

#[test]
fn crop_out_of_bounds_is_rejected_not_silently_clamped() {
    let b64 = tiny_png_b64();
    let err = crop_blocking(&b64, 0, 0, 100, 100).unwrap_err();
    assert!(err.contains("超出图片范围"));
}

#[test]
fn crop_happy_path_matches_requested_size() {
    let b64 = tiny_png_b64();
    let out = crop_blocking(&b64, 1, 1, 2, 2).expect("裁剪应成功");
    let info = info_blocking(&out).expect("应能解出信息");
    assert_eq!((info.width, info.height), (2, 2));
}

#[test]
fn crop_keeps_the_pixels() {
    let mut img = image::RgbaImage::from_pixel(4, 3, image::Rgba([0, 0, 0, 255]));
    img.put_pixel(1, 1, image::Rgba([200, 100, 50, 255]));
    let png = rgba_to_png(4, 3, img.into_raw()).unwrap();
    let out = crop_blocking(&to_b64(&png), 1, 1, 2, 1).unwrap();
    let px = read_pixels(&from_b64(&out)).unwrap();
    assert_eq!((px.width, px.height), (2, 1));
    assert_eq!(px.rgba, vec![200, 100, 50, 255, 0, 0, 0, 255]);
    assert!(crop_blocking(&to_b64(&png), -1, 0, 1, 1).is_err());
    assert!(crop_blocking(&to_b64(&png), 0, 0, 0, 1).is_err());
    assert!(check_part(4, 3, 3, 0, 1, 3).is_ok());
    assert!(check_part(4, 3, 3, 0, 2, 3).is_err());
}

#[test]
fn convert_png_to_jpeg_changes_format() {
    let b64 = tiny_png_b64();
    let out = convert_blocking(&b64, "jpeg").expect("转 jpeg 应成功");
    let info = info_blocking(&out).expect("应能解出信息");
    assert_eq!(info.format, "jpeg");
}

#[test]
fn convert_writes_every_target() {
    let b64 = tiny_png_b64();
    for (name, format) in [("png", "png"), ("jpg", "jpeg"), ("webp", "webp"), ("bmp", "bmp")] {
        let out = convert_blocking(&b64, name).unwrap();
        let info = info_blocking(&out).unwrap();
        assert_eq!(info.format, format);
        assert_eq!((info.width, info.height), (4, 3));
    }
}

#[test]
fn convert_rejects_unsupported_format() {
    let b64 = tiny_png_b64();
    let err = convert_blocking(&b64, "avif").unwrap_err();
    assert!(err.contains("不支持的目标格式"));
}

#[test]
fn compress_rejects_non_jpeg_instead_of_silently_switching_format() {
    let b64 = tiny_png_b64();
    let err = compress_blocking(&b64, 50).unwrap_err();
    assert!(err.contains("仅支持 JPEG 源图"));
}

#[test]
fn compress_jpeg_roundtrip_stays_jpeg() {
    let png_b64 = tiny_png_b64();
    let jpeg_b64 = convert_blocking(&png_b64, "jpeg").expect("转 jpeg 应成功");
    let out = compress_blocking(&jpeg_b64, 40).expect("压缩应成功");
    let info = info_blocking(&out).expect("应能解出信息");
    assert_eq!(info.format, "jpeg");
}

#[test]
fn parse_target_format_covers_supported_and_rejects_others() {
    assert!(matches!(parse_target_format("PNG"), Ok(PictureFormat::Png)));
    assert!(matches!(parse_target_format("jpg"), Ok(PictureFormat::Jpeg)));
    assert!(matches!(parse_target_format("WebP"), Ok(PictureFormat::WebP)));
    assert!(matches!(parse_target_format("bmp"), Ok(PictureFormat::Bmp)));
    assert!(parse_target_format("gif").is_err());
}

#[test]
fn names_of_formats_and_modes() {
    assert_eq!(format_name(PictureFormat::Jpeg), "jpeg");
    assert_eq!(parse_fit("Cover"), Ok(Fit::Cover));
    assert!(written_reply("png", Err("坏".to_string())).unwrap_err().contains("坏"));
    assert!(!written_reply("png", Ok(vec![1, 2, 3])).unwrap().is_empty());
}

#[test]
fn pixels_survive_png_and_bmp() {
    let rgba = vec![1, 2, 3, 255, 4, 5, 6, 255];
    let png = rgba_to_png(2, 1, rgba.clone()).unwrap();
    assert_eq!(&png[..8], &[0x89, b'P', b'N', b'G', 13, 10, 26, 10]);
    assert_eq!(read_pixels(&png).unwrap().rgba, rgba);
    let bmp = rgba_to_bmp(2, 1, &rgba).unwrap();
    assert_eq!(&bmp[..2], b"BM");
    assert_eq!(read_pixels(&bmp).unwrap().rgba, rgba);
    assert!(rgba_to_png(2, 2, rgba).is_err(), "像素不够");
    assert!(read_pixels(b"junk").is_err());
}

#[test]
fn colours_are_read_off_the_screen() {
    let c = pixel_color(1, 2, 0x0030_20_10).unwrap();
    assert_eq!((c.r, c.g, c.b), (0x10, 0x20, 0x30));
    assert_eq!(c.hex.to_lowercase(), "#102030");
    assert!(pixel_color(1, 2, CLR_INVALID).is_err());
}

fn mon(x: i32, y: i32, width: u32, height: u32, is_primary: bool) -> MonitorRect {
    MonitorRect { x, y, width, height, is_primary }
}

#[test]
fn places_belong_to_displays() {
    let mons = [mon(0, 0, 1920, 1080, true), mon(1920, 0, 1080, 1920, false)];
    assert_eq!(monitor_at_physical(&mons, 300, 150), Some(0));
    assert_eq!(monitor_at_physical(&mons, 1920, 0), Some(1));
    assert_eq!(monitor_at_physical(&mons, 100, 1500), None);
    assert_eq!(nearest_monitor_physical(&mons, 1900, 1500), 1);
    assert_eq!(monitor_for(&mons, -50, 10), 0);
    assert!(check_displays(0).is_err());
    assert!(check_displays(2).is_ok());
}

#[test]
fn a_single_display_is_the_origin() {
    let mons = [mon(0, 0, 1920, 1080, true)];
    let p = plan(&mons);
    assert_eq!(p, vec![(0, Placement::Origin)]);
    assert_eq!(start(&mons), 0);
}

#[test]
fn neighbours_are_placed_beside_each_other() {
    let mons = [mon(1920, 0, 1080, 1920, false), mon(0, 0, 1920, 1080, true), mon(9000, 9000, 10, 10, false)];
    assert_eq!(start(&mons), 1);
    let p = plan(&mons);
    assert!(p.contains(&(1, Placement::Origin)));
    assert!(p.contains(&(0, Placement::Beside { anchor: 1, side: Side::Right })));
    assert!(p.contains(&(2, Placement::Alone)));
    assert_eq!(touch(mons[1], mons[2]), None);
}

#[test]
fn long_targets_are_filled() {
    let out = resize_blocking(&tiny_png_b64(), 5_000_000, 1, "fill").expect("只限制源图的边长");
    let info = info_blocking(&out).unwrap();
    assert_eq!((info.width, info.height), (5_000_000, 1));
}

#[test]
fn own_size_keeps_the_picture() {
    let b64 = tiny_png_b64();
    let info = info_blocking(&b64).unwrap();
    let before = read_pixels(&read_base64(&b64).unwrap()).unwrap();
    for mode in ["contain", "fill", "cover"] {
        let out = resize_blocking(&b64, info.width, info.height, mode).unwrap();
        let after = read_pixels(&read_base64(&out).unwrap()).unwrap();
        assert_eq!((after.width, after.height), (before.width, before.height));
        assert_eq!(after.rgba, before.rgba, "{mode}");
    }
}

#[test]
fn scaled_pictures_are_written_in_their_format() {
    let img = image::DynamicImage::ImageRgba8(image::RgbaImage::from_raw(1, 1, vec![9, 8, 7, 255]).unwrap());
    let out = scaled_reply(&img, PictureFormat::Png).unwrap();
    let back = read_pixels(&read_base64(&out).unwrap()).unwrap();
    assert_eq!((back.width, back.height, back.rgba), (1, 1, vec![9, 8, 7, 255]));
    let out = scaled_reply(&img, PictureFormat::Bmp).unwrap();
    assert_eq!(&from_b64(&out)[..2], b"BM");
}

#[test]
fn contained_pictures_keep_their_proportions() {
    let size = |w: u32, h: u32, bw: u32, bh: u32| {
        let png = rgba_to_png(w, h, vec![9; (w * h * 4) as usize]).unwrap();
        let info = info_blocking(&resize_blocking(&to_b64(&png), bw, bh, "contain").unwrap()).unwrap();
        (info.width, info.height)
    };
    assert_eq!(size(2, 1, 2, 2), (2, 1));
    assert_eq!(size(2, 1, 5, 5), (5, 3));
    assert_eq!(size(100, 1, 10, 10), (10, 1));
    assert_eq!(size(3, 5, 6, 6), (4, 6));
}

#[test]
fn overlapping_displays_are_taken_in_order() {
    let rect = |x: i32, w: u32| MonitorRect { x, y: 0, width: w, height: 100, is_primary: false };
    let mons = [rect(500, 10), rect(0, 100), rect(50, 100)];
    assert_eq!(monitor_for(&mons, 60, 10), 1, "重叠时取第一个");
    assert_eq!(monitor_for(&mons, 120, 10), 2);
    let apart = [rect(0, 10), rect(20, 10)];
    assert_eq!(monitor_for(&apart, 15, 10), 0, "同样近时取第一个");
}

/// 8x4：中间四列绿色，两侧各两列红色。
fn two_colours_b64() -> String {
    let mut img = image::RgbaImage::from_pixel(8, 4, image::Rgba([255, 0, 0, 255]));
    for y in 0..4 {
        for x in 2..6 {
            img.put_pixel(x, y, image::Rgba([0, 255, 0, 255]));
        }
    }
    to_b64(&rgba_to_png(8, 4, img.into_raw()).unwrap())
}

#[test]
fn cover_cuts_where_fill_squeezes() {
    let b64 = two_colours_b64();
    let pixels = |mode: &str| read_pixels(&from_b64(&resize_blocking(&b64, 4, 4, mode).unwrap())).unwrap();
    let covered = pixels("cover");
    assert_eq!((covered.width, covered.height), (4, 4));
    assert_eq!(covered.rgba, [0, 255, 0, 255].repeat(16), "两侧被裁掉");
    let filled = pixels("fill");
    assert_eq!((filled.width, filled.height), (4, 4));
    assert!(filled.rgba[0] > filled.rgba[1], "左边仍是红色");
    assert!(filled.rgba[4] < filled.rgba[5], "中间仍是绿色");
    let contained = pixels("contain");
    assert_eq!((contained.width, contained.height), (4, 2));
}

#[test]
fn long_pictures_are_scaled_down() {
    let png = rgba_to_png(5_000_000, 1, [7, 7, 7, 255].repeat(5_000_000)).unwrap();
    let out = resize_blocking(&to_b64(&png), 100, 1, "fill").unwrap();
    let info = info_blocking(&out).unwrap();
    assert_eq!((info.width, info.height), (100, 1));
    assert_eq!(read_pixels(&from_b64(&out)).unwrap().rgba, [7, 7, 7, 255].repeat(100));
}
