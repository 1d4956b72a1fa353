use cross_platform_screenshot_rust::capture_core::stitcher::{
    append_decision, coarse_overlaps, compare_pixel_overlap_sums, frame_len, overlap_search, refine_range, row_offset,
    OverlapSearch,
};
use cross_platform_screenshot_rust::capture_core::LongScreenshotStitcher;
use cross_platform_screenshot_rust::common::gif::{duration_to_centiseconds, GifTool};
use cross_platform_screenshot_rust::dc_control::{bgra_to_rgba, pixelate_region};
use cross_platform_screenshot_rust::longshot::capture::{copy_window_region, covered_window_offset};
use cross_platform_screenshot_rust::longshot::session::{
    LongShotAppendStatus, LongShotSession, LongShotSessionLimits, LongShotStartError, StitchDecision,
};
use cross_platform_screenshot_rust::longshot::types::rgba_len;
use cross_platform_screenshot_rust::longshot::{
    trim_image_trailing_capture_dropout, trim_trailing_capture_dropout, tuned_row_limits, AppendReaction,
    LongShotImage, LongShotPoint, LongShotRect, LongShotRuntime, LongShotRuntimeConfig,
};
use cross_platform_screenshot_rust::platform::{Color, Point, Rect, Size};
use cross_platform_screenshot_rust::png::encode_rgba_png;
use cross_platform_screenshot_rust::raster::Image;
use cross_platform_screenshot_rust::select_border::{SelectBorder, ToolbarButton, ToolbarCommand};
use cross_platform_screenshot_rust::uibase::UINodeBase;
use cross_platform_screenshot_rust::win32::{
    clip_to_screen, clipboard_dib, copy_wide_into, fit_long_preview_rect, get_wheel_delta, get_x_lparam, get_y_lparam,
    long_scroll_point, loword, make_lparam, padded_rect, point_in_passthrough_region, render_dim_mask,
    wheel_wparam,
};
use cross_platform_screenshot_rust::windows::gifdlg::{plan_recording, GifRecordOptions};
use cross_platform_screenshot_rust::windows::pindlg::{rgba_to_bgra, PinWindowOptions};

fn make_source_image(width: i32, height: i32) -> Vec<u8> {
    let mut pixels = vec![0; width as usize * height as usize * 4];
    for y in 0..height {
        for x in 0..width {
            let i = (y as usize * width as usize + x as usize) * 4;
            pixels[i] = ((x * 17 + y * 11) & 0xff) as u8;
            pixels[i + 1] = ((x * 7 + y * 23) & 0xff) as u8;
            pixels[i + 2] = ((x * 13 + y * 5) & 0xff) as u8;
            pixels[i + 3] = 255;
        }
    }
    pixels
}

fn crop_rows(source: &[u8], width: i32, start_y: i32, height: i32) -> Vec<u8> {
    let row = width as usize * 4;
    source[start_y as usize * row..(start_y + height) as usize * row].to_vec()
}

fn frame(width: i32, height: i32) -> LongShotImage {
    LongShotImage::from_rgba(width, height, make_source_image(width, height)).unwrap()
}

fn limits(max_output_height: i32) -> LongShotSessionLimits {
    LongShotSessionLimits { max_output_height, trim_capture_dropout: true }
}

#[test]
fn rect_edges_containment_and_intersection() {
    let r = Rect { x: 1, y: 2, w: 3, h: 4 };
    assert_eq!(r.right(), 4);
    assert_eq!(r.bottom(), 6);
    assert!(!r.is_empty());
    assert!(Rect { x: 0, y: 0, w: 0, h: 5 }.is_empty());
    assert!(r.contains(Point { x: 1, y: 2 }));
    assert!(!r.contains(Point { x: 4, y: 2 }));
    assert_eq!(r.intersect(Rect { x: 2, y: 3, w: 10, h: 10 }), Some(Rect { x: 2, y: 3, w: 2, h: 3 }));
    assert_eq!(r.intersect(Rect { x: 4, y: 0, w: 5, h: 5 }), None);
}

#[test]
fn long_shot_rect_and_image_basics() {
    let r = LongShotRect::new(1, 2, 3, 4);
    assert_eq!(r.right(), 4);
    assert_eq!(r.bottom(), 6);
    assert!(r.contains(LongShotPoint { x: 3, y: 5 }));
    assert!(!r.contains(LongShotPoint { x: 3, y: 6 }));
    assert_eq!(
        r.intersect(LongShotRect::new(0, 0, 2, 3)),
        Some(LongShotRect { x: 1, y: 2, w: 1, h: 1 })
    );
    assert_eq!(rgba_len(2, 3), Some(24));
    assert_eq!(rgba_len(0, 3), None);
    assert_eq!(rgba_len(-1, 3), None);
    let img = LongShotImage::new(2, 3);
    assert_eq!(img.pixels, vec![0; 24]);
    assert!(img.is_valid_rgba());
    assert_eq!(img.bounds(), LongShotRect { x: 0, y: 0, w: 2, h: 3 });
    assert!(LongShotImage::from_rgba(2, 2, vec![0; 15]).is_none());
    assert!(LongShotImage::from_rgba(2, 2, vec![0; 16]).is_some());
}

#[test]
fn long_shot_image_crop_clips_to_the_image() {
    let img = frame(3, 2);
    let cropped = img.crop(LongShotRect::new(1, 0, 5, 5)).unwrap();
    assert_eq!((cropped.width, cropped.height), (2, 2));
    let mut expected = Vec::new();
    expected.extend_from_slice(&img.pixels[4..12]);
    expected.extend_from_slice(&img.pixels[16..24]);
    assert_eq!(cropped.pixels, expected);
    assert!(img.crop(LongShotRect::new(10, 10, 2, 2)).is_none());
}

#[test]
fn trailing_black_rows_are_trimmed_once() {
    let width = 10;
    let height = 100;
    let mut pixels = make_source_image(width, height);
    for y in 70..100usize {
        for x in 0..10usize {
            let i = (y * 10 + x) * 4;
            pixels[i..i + 4].copy_from_slice(&[0, 0, 0, 255]);
        }
    }
    let before = pixels.clone();
    let h = trim_trailing_capture_dropout(&mut pixels, width, height);
    assert_eq!(h, 70);
    assert_eq!(pixels, before[..10 * 70 * 4].to_vec());
    let again = trim_trailing_capture_dropout(&mut pixels, width, h);
    assert_eq!(again, 70);
    assert_eq!(pixels.len(), 10 * 70 * 4);
}

#[test]
fn short_or_total_dropout_is_kept() {
    let width = 10;
    let height = 100;
    let mut pixels = make_source_image(width, height);
    for b in pixels[10 * 80 * 4..].chunks_exact_mut(4) {
        b.copy_from_slice(&[0, 0, 0, 255]);
    }
    assert_eq!(trim_trailing_capture_dropout(&mut pixels, width, height), 100);
    let mut black = vec![0u8; 10 * 100 * 4];
    assert_eq!(trim_trailing_capture_dropout(&mut black, width, height), 100);
    let mut wrong = vec![0u8; 7];
    assert_eq!(trim_trailing_capture_dropout(&mut wrong, width, height), 100);
    assert_eq!(wrong.len(), 7);
    let mut img = LongShotImage::from_rgba(width, height, make_source_image(width, height)).unwrap();
    assert_eq!(trim_image_trailing_capture_dropout(&mut img), 100);
    assert_eq!(img.height, 100);
}

#[test]
fn stitcher_core_sums_and_append() {
    let width = 8;
    let source = make_source_image(width, 18);
    assert_eq!(frame_len(width, 8), 256);
    assert_eq!(frame_len(-3, 8), 0);
    assert_eq!(row_offset(width, 5), 160);
    let mut stitcher = LongScreenshotStitcher::new(width);
    assert!(stitcher.empty());
    let first = crop_rows(&source, width, 0, 8);
    stitcher.start(&first, 8);
    assert_eq!(stitcher.height(), 8);
    assert_eq!(stitcher.last_frame_height(), 8);
    assert_eq!(stitcher.compare_duplicate_sums(&first, 8), Some((0, 192)));
    let next = crop_rows(&source, width, 5, 8);
    assert_eq!(stitcher.compare_duplicate_sums(&next, 7), None);
    assert_eq!(compare_pixel_overlap_sums(stitcher.last_frame(), width, 8, &next, 8, 3), Some((0, 63)));
    let (diff, samples) = compare_pixel_overlap_sums(stitcher.last_frame(), width, 8, &next, 8, 4).unwrap();
    assert!(diff > 0);
    assert_eq!(samples, 84);
    assert_eq!(compare_pixel_overlap_sums(stitcher.last_frame(), width, 8, &next, 8, 8), None);
    stitcher.commit_append(&next, 8, 3);
    assert_eq!(stitcher.height(), 13);
    assert_eq!(stitcher.pixels(), &source[..13 * 8 * 4]);
    assert_eq!(stitcher.last_frame(), &next[..]);
    stitcher.start(&first[..10], 8);
    assert!(stitcher.empty());
    assert_eq!(stitcher.height(), 0);
}

#[test]
fn session_start_checks_and_errors() {
    let mut session = LongShotSession::default();
    assert!(!session.is_active());
    assert_eq!(
        session.start(LongShotRect::new(0, 0, 0, 50), frame(4, 50), limits(16_000)),
        Err(LongShotStartError::InvalidRegion)
    );
    let bad = LongShotImage { width: 4, height: 50, pixels: vec![0; 3] };
    assert_eq!(
        session.start(LongShotRect::new(0, 0, 4, 50), bad, limits(16_000)),
        Err(LongShotStartError::InvalidFrame)
    );
    assert_eq!(
        session.start(LongShotRect::new(0, 0, 5, 50), frame(4, 50), limits(16_000)),
        Err(LongShotStartError::FrameWidthMismatch)
    );
    assert!(!session.is_active());
    assert_eq!(session.start(LongShotRect::new(0, 0, 4, 50), frame(4, 50), limits(16_000)), Ok(()));
    assert!(session.is_active());
    assert_eq!(session.source_region(), LongShotRect::new(0, 0, 4, 50));
    assert_eq!(session.width(), 4);
    assert_eq!(session.height(), 50);
    assert_eq!(session.pixels(), &make_source_image(4, 50)[..]);
    assert_eq!(session.output_image().unwrap(), frame(4, 50));
}

#[test]
fn session_appends_each_scroll_once() {
    let mut session = LongShotSession::default();
    session.start(LongShotRect::new(0, 0, 4, 50), frame(4, 50), limits(16_000)).unwrap();
    assert_eq!(session.next_scroll_seq(), 1);
    assert_eq!(session.current_scroll_seq(), 1);

    let mut wrong_width = frame(5, 50);
    assert_eq!(session.begin_append(1, &mut wrong_width), Err(LongShotAppendStatus::WidthMismatch));
    let mut empty = LongShotImage { width: 4, height: 50, pixels: vec![] };
    assert_eq!(session.begin_append(1, &mut empty), Err(LongShotAppendStatus::EmptyFrame));

    let mut next = frame(4, 50);
    assert_eq!(session.begin_append(1, &mut next), Ok(true));
    assert_eq!(next, frame(4, 50));
    let status = session.finish_append(1, &next, StitchDecision::Append { append_from: 40 });
    assert_eq!(status, LongShotAppendStatus::Appended);
    assert_eq!(session.height(), 60);
    let mut expected = make_source_image(4, 50);
    expected.extend_from_slice(&next.pixels[40 * 16..]);
    assert_eq!(session.pixels(), &expected[..]);

    let mut again = frame(4, 50);
    assert_eq!(
        session.begin_append(1, &mut again),
        Err(LongShotAppendStatus::SameScrollAlreadyAppended)
    );
    assert_eq!(session.begin_append(0, &mut again), Ok(true));
    assert_eq!(session.finish_append(2, &again, StitchDecision::Duplicate), LongShotAppendStatus::Duplicate);
    assert_eq!(session.finish_append(2, &again, StitchDecision::Reject), LongShotAppendStatus::Rejected);
    assert_eq!(session.height(), 60);
    assert!(session.can_accept_frame_height(50));

    session.reset();
    assert!(!session.is_active());
    assert_eq!(session.begin_append(3, &mut again), Err(LongShotAppendStatus::NotActive));
    assert!(!session.can_accept_frame_height(50));
}

#[test]
fn session_refuses_frames_past_the_height_limit() {
    let mut session = LongShotSession::default();
    session.start(LongShotRect::new(0, 0, 4, 50), frame(4, 50), limits(100)).unwrap();
    assert!(session.can_accept_frame_height(49));
    assert!(!session.can_accept_frame_height(50));
    let mut next = frame(4, 50);
    assert_eq!(session.begin_append(1, &mut next), Err(LongShotAppendStatus::TooTall));
}

#[test]
fn session_starts_from_a_region_of_a_full_capture() {
    let full = frame(10, 10);
    let mut session = LongShotSession::default();
    let region = LongShotRect::new(2, 3, 4, 5);
    assert_eq!(session.start_from_full_capture(region, &full, limits(16_000)), Ok(()));
    assert_eq!(session.height(), 5);
    assert_eq!(session.pixels(), &full.crop(region).unwrap().pixels[..]);
    let mut other = LongShotSession::default();
    assert_eq!(
        other.start_from_full_capture(LongShotRect::new(20, 20, 4, 4), &full, limits(16_000)),
        Err(LongShotStartError::InvalidFrame)
    );
    assert!(!other.is_active());
}

#[test]
fn tuned_row_limits_follow_region_height() {
    let t = tuned_row_limits(1000);
    assert_eq!((t.min_append_rows, t.min_overlap_rows, t.max_overlap_rows), (50, 400, 900));
    let t = tuned_row_limits(300);
    assert_eq!((t.min_append_rows, t.min_overlap_rows, t.max_overlap_rows), (24, 120, 276));
    let t = tuned_row_limits(10);
    assert_eq!((t.min_append_rows, t.min_overlap_rows, t.max_overlap_rows), (24, 9, 1));
}

#[test]
fn gif_tool_caches_merges_and_limits_frames() {
    assert_eq!(duration_to_centiseconds(5), 1);
    assert_eq!(duration_to_centiseconds(250), 25);
    assert_eq!(duration_to_centiseconds(10_000_000), u16::MAX);

    let red = [255u8, 0, 0, 255, 255, 0, 0, 255];
    let blue = [0u8, 0, 255, 255, 0, 0, 255, 255];
    let mut gif = GifTool::new(2, 1);
    assert!(!gif.add_emptyframe(100));
    assert!(!gif.add_frame(&red[..7], 100));
    assert!(gif.add_frame(&red, 100));
    assert!(gif.add_frame(&red, 50));
    assert_eq!(gif.frame_count(), 1);
    assert_eq!(gif.duration(), 150);
    assert!(gif.add_frame(&blue, 100));
    assert_eq!(gif.frame_count(), 2);
    assert!(gif.add_emptyframe(100));
    assert_eq!(gif.frame_count(), 2);
    assert_eq!(gif.duration(), 350);

    let mut short = GifTool::new(2, 1).with_limits(8, 300);
    assert!(short.add_frame(&red, 200));
    assert!(!short.add_frame(&blue, 50));
    assert!(!short.add_frame(&red, 200));
    assert!(short.add_frame(&red, 100));
    assert_eq!(short.duration(), 300);
    assert_eq!(short.frame_count(), 1);
}

#[test]
fn gif_tool_encodes_a_looping_gif() {
    let mut gif = GifTool::new(2, 1);
    gif.add_frame(&[255, 0, 0, 255, 0, 255, 0, 255], 100);
    gif.add_frame(&[0, 0, 255, 255, 0, 255, 0, 255], 100);
    let bytes = gif.encode().unwrap();
    assert_eq!(&bytes[..6], b"GIF89a");
    assert_eq!(&bytes[6..10], &[2, 0, 1, 0]);
    assert_eq!(bytes[10], 0x80);
    assert_eq!(&bytes[19..22], &[0x21, 0xff, 0x0b]);
    assert_eq!(&bytes[22..33], b"NETSCAPE2.0");
    assert!(bytes.len() > 40);
    assert_eq!(*bytes.last().unwrap(), 0x3b);
    let empty = GifTool::new(1, 1).encode().unwrap();
    assert_eq!(empty.len(), 39);
    assert_eq!(empty[38], 0x3b);
}

#[test]
fn image_blending_and_cropping() {
    let mut img = Image::new(2, 2);
    assert_eq!(img.pixels, vec![0; 16]);
    img.blend_pixel(1, 0, Color::rgba(255, 0, 0, 255));
    assert_eq!(&img.pixels[4..8], &[255, 0, 0, 255]);
    img.blend_pixel(0, 1, Color::rgba(255, 100, 0, 128));
    assert_eq!(&img.pixels[8..12], &[128, 50, 0, 255]);
    let before = img.pixels.clone();
    img.blend_pixel(5, 0, Color::rgba(1, 2, 3, 255));
    img.blend_pixel(0, 0, Color::rgba(1, 2, 3, 0));
    assert_eq!(img.pixels, before);
    img.blend_rect(Rect { x: -1, y: -1, w: 2, h: 2 }, Color::rgba(9, 9, 9, 255));
    assert_eq!(&img.pixels[0..4], &[9, 9, 9, 255]);
    assert_eq!(&img.pixels[4..16], &before[4..16]);
    let right = img.crop(Rect { x: 1, y: 0, w: 1, h: 2 }).unwrap();
    assert_eq!((right.width, right.height), (1, 2));
    assert_eq!(right.pixels, [&img.pixels[4..8], &img.pixels[12..16]].concat());
    assert!(Image::from_rgba(2, 2, vec![0; 15]).is_none());
    assert_eq!(img.bounds(), Rect { x: 0, y: 0, w: 2, h: 2 });
}

#[test]
fn pixelate_averages_each_block() {
    let mut img = Image::from_rgba(
        2,
        2,
        vec![0, 0, 0, 0, 4, 8, 12, 16, 8, 16, 24, 32, 12, 24, 36, 48],
    )
    .unwrap();
    pixelate_region(&mut img, Rect { x: 0, y: 0, w: 2, h: 2 }, 1);
    assert_eq!(img.pixels, [6u8, 12, 18, 24].repeat(4));

    let mut wide = Image::from_rgba(3, 1, vec![10, 0, 0, 255, 20, 0, 0, 255, 7, 7, 7, 7]).unwrap();
    pixelate_region(&mut wide, Rect { x: -5, y: 0, w: 7, h: 1 }, 2);
    assert_eq!(wide.pixels, vec![15, 0, 0, 255, 15, 0, 0, 255, 7, 7, 7, 7]);
}

#[test]
fn dim_mask_covers_everything_but_the_selection() {
    let mut img = Image::new(2, 1);
    render_dim_mask(&mut img, Rect { x: 0, y: 0, w: 1, h: 1 }, Color::rgba(100, 50, 20, 255));
    assert_eq!(img.pixels, vec![0, 0, 0, 0, 100, 50, 20, 255]);
    let mut all = Image::new(1, 1);
    render_dim_mask(&mut all, Rect { x: 0, y: 0, w: 0, h: 0 }, Color::rgba(100, 50, 20, 255));
    assert_eq!(all.pixels, vec![100, 50, 20, 255]);
}

#[test]
fn toolbar_hit_test_takes_the_first_visible_button() {
    let mut border = SelectBorder::default();
    border.set_buttons(vec![
        ToolbarButton { command: ToolbarCommand::Pen, rect: Rect { x: 0, y: 0, w: 10, h: 10 }, visible: false },
        ToolbarButton { command: ToolbarCommand::Rectangle, rect: Rect { x: 0, y: 0, w: 10, h: 10 }, visible: true },
        ToolbarButton { command: ToolbarCommand::Arrow, rect: Rect { x: 5, y: 5, w: 10, h: 10 }, visible: true },
    ]);
    assert_eq!(border.hit_test(6, 6), Some(ToolbarCommand::Rectangle));
    assert_eq!(border.hit_test(12, 12), Some(ToolbarCommand::Arrow));
    assert_eq!(border.hit_test(100, 100), None);
    assert_eq!(border.buttons().len(), 3);
}

#[test]
fn message_parameters_pack_and_unpack() {
    assert_eq!(make_lparam(1, 2), 0x0002_0001);
    let l = make_lparam(-5, 300);
    assert_eq!(get_x_lparam(l), -5);
    assert_eq!(get_y_lparam(l), 300);
    assert_eq!(wheel_wparam(120), 120 << 16);
    assert_eq!(get_wheel_delta(wheel_wparam(-120)), -120);
    assert_eq!(loword(0x1234_5678), 0x5678);
    assert_eq!(padded_rect(Rect { x: 10, y: 10, w: 5, h: 5 }, 2), Rect { x: 8, y: 8, w: 9, h: 9 });
}

#[test]
fn wide_strings_are_copied_with_a_terminator() {
    let mut dst = [9u16; 4];
    copy_wide_into(&mut dst, &[1, 2]);
    assert_eq!(dst, [1, 2, 9, 0]);
    let mut small = [9u16; 2];
    copy_wide_into(&mut small, &[1, 2, 3]);
    assert_eq!(small, [1, 0]);
}

#[test]
fn overlay_geometry_helpers() {
    let screen = Size { w: 100, h: 50 };
    assert_eq!(clip_to_screen(screen, -10, 10, 30, 100), Some((0, 10, 20, 50)));
    assert_eq!(clip_to_screen(screen, 200, 10, 30, 10), None);
    let pass = Some(Rect { x: 0, y: 0, w: 10, h: 10 });
    assert!(point_in_passthrough_region(pass, Point { x: 2, y: 2 }));
    assert!(point_in_passthrough_region(pass, Point { x: 7, y: 7 }));
    assert!(!point_in_passthrough_region(pass, Point { x: 1, y: 5 }));
    assert!(!point_in_passthrough_region(pass, Point { x: 8, y: 5 }));
    assert!(!point_in_passthrough_region(None, Point { x: 5, y: 5 }));
    let sel = Rect { x: 10, y: 20, w: 30, h: 40 };
    assert_eq!(long_scroll_point(Rect::default(), sel), Point { x: 25, y: 40 });
    assert_eq!(long_scroll_point(Rect { x: 0, y: 0, w: 4, h: 6 }, sel), Point { x: 2, y: 3 });
    assert_eq!(
        fit_long_preview_rect(Rect::default(), Size { w: 1000, h: 800 }, 300, 2000),
        Rect { x: 350, y: 64, w: 300, h: 652 }
    );
    assert_eq!(
        fit_long_preview_rect(Rect::default(), Size { w: 1000, h: 800 }, 300, 600),
        Rect { x: 350, y: 90, w: 300, h: 600 }
    );
    assert_eq!(fit_long_preview_rect(sel, Size { w: 1000, h: 800 }, 300, 2000), sel);
}

#[test]
fn recording_plan_follows_the_options() {
    let options = GifRecordOptions::default();
    assert_eq!((options.fps, options.max_duration_ms, options.max_cache_bytes), (10, 300_000, 150 * 1024 * 1024));
    let plan = plan_recording(Rect { x: 0, y: 0, w: 10, h: 20 }, options).unwrap();
    assert_eq!((plan.width, plan.height, plan.frame_delay_ms, plan.frame_budget), (10, 20, 100, 3000));
    let zero_fps = GifRecordOptions { fps: 0, ..options };
    assert_eq!(plan_recording(Rect { x: 0, y: 0, w: 1, h: 1 }, zero_fps).unwrap().frame_delay_ms, 1000);
    let fast = GifRecordOptions { fps: 2000, ..options };
    assert_eq!(plan_recording(Rect { x: 0, y: 0, w: 1, h: 1 }, fast).unwrap().frame_delay_ms, 1);
    assert!(plan_recording(Rect { x: 0, y: 0, w: 0, h: 5 }, options).is_none());
    assert!(plan_recording(Rect { x: 0, y: 0, w: 70_000, h: 5 }, options).is_none());
}

#[test]
fn channel_order_conversions() {
    assert_eq!(bgra_to_rgba(&[1, 2, 3, 4, 5, 6, 7, 8, 9]), vec![3, 2, 1, 255, 7, 6, 5, 255, 0]);
    let img = Image::from_rgba(1, 1, vec![10, 20, 30, 40]).unwrap();
    assert_eq!(rgba_to_bgra(&img), vec![30, 20, 10, 40]);
    let pin = PinWindowOptions::default();
    assert_eq!((pin.min_width, pin.min_height, pin.topmost, pin.shadow), (50, 50, true, true));
}

#[test]
fn covered_window_region_is_located_and_copied() {
    let desktop = LongShotRect::new(0, 0, 1920, 1080);
    let region = LongShotRect::new(10, 10, 4, 4);
    assert_eq!(covered_window_offset(desktop, region, 5, 5, 20, 20), Some((5, 5)));
    assert_eq!(covered_window_offset(desktop, region, 12, 5, 20, 20), None);
    assert_eq!(covered_window_offset(desktop, region, 5, 5, 5, 20), None);
    assert_eq!(covered_window_offset(desktop, LongShotRect::new(10, 10, 0, 4), 5, 5, 20, 20), None);
    let bgra: Vec<u8> = (0u8..24).collect();
    let rgba = copy_window_region(&bgra, 3, 2, 1, 0, 2, 2);
    assert_eq!(
        rgba,
        vec![6, 5, 4, 255, 10, 9, 8, 255, 18, 17, 16, 255, 22, 21, 20, 255]
    );
}

#[test]
fn runtime_auto_scroll_stops_after_repeated_stalls() {
    let config = LongShotRuntimeConfig::default();
    assert_eq!(config.max_auto_stalls, 5);
    let mut rt = LongShotRuntime::new(config, 0);
    rt.set_auto_scroll(true, false, 0);
    assert!(!rt.is_auto_scroll_active());
    assert!(rt.toggle_auto_scroll(true, 10));
    assert!(!rt.auto_scroll_due(9));
    assert!(rt.auto_scroll_due(10));
    for _ in 0..4 {
        assert!(!rt.record_auto_stall());
        assert!(rt.is_auto_scroll_active());
    }
    assert!(rt.record_auto_stall());
    assert!(!rt.is_auto_scroll_active());
    assert!(!rt.record_auto_stall());
}

#[test]
fn runtime_schedules_and_filters_captures() {
    let mut rt = LongShotRuntime::new(LongShotRuntimeConfig::default(), 0);
    let desktop = LongShotRect::new(100, 200, 1920, 1080);
    let region = LongShotRect::new(10, 20, 40, 60);
    rt.started(desktop, 7, region, 0);
    assert_eq!(rt.source_region(), region);
    rt.set_auto_scroll(true, true, 10);
    assert_eq!(rt.begin_auto_scroll_step(10), LongShotPoint { x: 130, y: 250 });
    assert!(!rt.auto_scroll_due(129));
    assert!(rt.auto_scroll_due(130));

    rt.schedule_capture(1, 100, 50, 35);
    assert!(!rt.capture_dispatch_due(149));
    assert!(rt.capture_dispatch_due(150));
    rt.schedule_capture(2, 120, 50, 35);
    assert!(rt.capture_dispatch_due(150));

    let request = rt.begin_dispatch(150, true).unwrap();
    assert_eq!((request.seq, request.overlay_hwnd), (2, 7));
    assert_eq!(request.region, region);
    assert!(!rt.capture_dispatch_due(1000));
    rt.capture_requested(request.seq);
    assert!(rt.capture_in_flight());
    assert!(!rt.accept_response(request.generation, 1));
    assert!(!rt.accept_response(request.generation + 1, 2));
    assert!(rt.accept_response(request.generation, 2));
    assert!(!rt.capture_in_flight());

    rt.schedule_capture(3, 150, 0, 35);
    assert!(!rt.capture_dispatch_due(184));
    assert!(rt.capture_dispatch_due(185));

    rt.reset(300);
    assert!(!rt.accept_response(request.generation, 3));
}

#[test]
fn runtime_reacts_to_append_statuses() {
    let mut rt = LongShotRuntime::new(LongShotRuntimeConfig::default(), 0);
    rt.set_auto_scroll(true, true, 0);
    assert_eq!(
        rt.after_append(LongShotAppendStatus::Duplicate),
        AppendReaction::FrameIgnored { auto_scroll_stopped: false }
    );
    assert_eq!(rt.after_append(LongShotAppendStatus::Appended), AppendReaction::PreviewUpdated);
    assert_eq!(
        rt.after_append(LongShotAppendStatus::WidthMismatch),
        AppendReaction::FrameIgnored { auto_scroll_stopped: false }
    );
    assert!(rt.is_auto_scroll_active());
    assert_eq!(rt.after_append(LongShotAppendStatus::TooTall), AppendReaction::MaxOutputHeightReached);
    assert!(!rt.is_auto_scroll_active());
    rt.set_auto_scroll(true, true, 0);
    assert!(rt.begin_dispatch(0, false).is_none());
    assert!(!rt.is_auto_scroll_active());
}

#[test]
fn ui_node_starts_visible_without_spacing() {
    let node = UINodeBase::new(7, Rect { x: 1, y: 2, w: 3, h: 4 });
    assert_eq!(node.id, 7);
    assert!(node.visible);
    assert_eq!(node.margin.left + node.margin.top + node.margin.right + node.margin.bottom, 0);
    assert_eq!(node.padding.left + node.padding.top + node.padding.right + node.padding.bottom, 0);
}

#[test]
fn clipboard_dib_is_bottom_up_bgra_after_its_header() {
    let dib = clipboard_dib(&[1, 2, 3, 4, 5, 6, 7, 8], 1, 2);
    let mut header = vec![40, 0, 0, 0, 1, 0, 0, 0, 2, 0, 0, 0, 1, 0, 32, 0, 0, 0, 0, 0, 8, 0, 0, 0];
    header.extend_from_slice(&[0; 16]);
    assert_eq!(&dib[..40], &header[..]);
    assert_eq!(&dib[40..], &[7, 6, 5, 8, 3, 2, 1, 4]);
    assert_eq!(clipboard_dib(&[], 0, 0).len(), 40);
}

#[test]
fn overlap_search_ranges_and_steps() {
    let search = overlap_search(40, 240, 260, 260).unwrap();
    assert_eq!(search, OverlapSearch { min: 40, max: 240, coarse_step: 6 });
    let coarse = coarse_overlaps(search);
    assert_eq!(coarse.len(), 34);
    assert_eq!(coarse[0], 40);
    assert_eq!(coarse[1], 46);
    assert_eq!(*coarse.last().unwrap(), 238);
    assert_eq!(refine_range(search, 100), (94, 106));
    assert_eq!(refine_range(search, 238), (232, 240));
    assert_eq!(refine_range(search, 40), (40, 46));

    let small = overlap_search(2, 8, 8, 8).unwrap();
    assert_eq!(small, OverlapSearch { min: 2, max: 7, coarse_step: 1 });
    assert_eq!(coarse_overlaps(small), vec![2, 3, 4, 5, 6, 7]);
    assert_eq!(overlap_search(2, 8, 8, 1), None);
    assert_eq!(overlap_search(0, 8, 8, 8), None);

    assert_eq!(append_decision(8, 3, 1), StitchDecision::Append { append_from: 3 });
    assert_eq!(append_decision(8, 7, 6), StitchDecision::Duplicate);
}

#[test]
fn png_length_and_size_fields_follow_the_layout() {
    let png = encode_rgba_png(2, 1, &[255, 0, 0, 255, 0, 255, 0, 255]).unwrap();
    assert_eq!(png.len(), 63 + 9 + 5);
    assert_eq!(&png[16..24], &[0, 0, 0, 2, 0, 0, 0, 1]);
    let big = vec![7u8; 200 * 100 * 4];
    let n = (4 * 200 + 1) * 100;
    assert_eq!(encode_rgba_png(200, 100, &big).unwrap().len(), 63 + n + 5 * 2);
}

#[test]
fn gif_file_holds_each_frame_between_header_and_trailer() {
    let red = [255u8, 0, 0, 255, 255, 0, 0, 255];
    let mut one = GifTool::new(2, 1);
    one.add_frame(&red, 100);
    let mut two = GifTool::new(2, 1);
    two.add_frame(&red, 100);
    two.add_frame(&[0, 0, 255, 255, 0, 0, 255, 255], 100);
    let a = one.encode().unwrap();
    let b = two.encode().unwrap();
    assert!(a.len() > 39);
    assert!(b.len() > a.len());
    assert_eq!(&a[..a.len() - 1], &b[..a.len() - 1]);
}

#[test]
fn runtime_stops_after_five_frames_not_appended_for_any_reason() {
    let mut rt = LongShotRuntime::new(LongShotRuntimeConfig::default(), 0);
    rt.set_auto_scroll(true, true, 0);
    let refused = [
        LongShotAppendStatus::EmptyFrame,
        LongShotAppendStatus::WidthMismatch,
        LongShotAppendStatus::SameScrollAlreadyAppended,
        LongShotAppendStatus::Duplicate,
    ];
    for status in refused {
        assert_eq!(rt.after_append(status), AppendReaction::FrameIgnored { auto_scroll_stopped: false });
        assert!(rt.is_auto_scroll_active());
    }
    assert_eq!(
        rt.after_append(LongShotAppendStatus::EmptyFrame),
        AppendReaction::FrameIgnored { auto_scroll_stopped: true }
    );
    assert!(!rt.is_auto_scroll_active());
}
