use iview::viewport::{
    content, fit, sane_magnify, visible_offset, window_position_for, window_size_for, zoom,
    zoom_offset, FitState, FrameInput, HostMetrics, ImageSize, Pixels, Vec2, ViewportState,
    FULL_SIZE, KEY_STEP, MAX_MAGNIFY, MIN_MAGNIFY,
};

fn px(x: i32, y: i32) -> Pixels {
    Pixels { x, y }
}

fn v2(x: i64, y: i64) -> Vec2 {
    Vec2 { x, y }
}

fn size(width: u32, height: u32) -> ImageSize {
    ImageSize { width, height }
}

/// A host whose usable area is `w` by `h`.
fn usable(w: i32, h: i32) -> HostMetrics {
    HostMetrics { outer: px(816, 639), inner: px(800, 600), monitor: px(w + 16, h + 59) }
}

fn input(host: HostMetrics, center: bool, step: i32, pointer: Option<Pixels>, view: Pixels) -> FrameInput {
    FrameInput { host, center, step, pointer, view }
}

#[test]
fn host_areas() {
    let host = HostMetrics { outer: px(816, 639), inner: px(800, 600), monitor: px(1920, 1080) };
    assert_eq!(host.frame_size(), v2(16, 59));
    assert_eq!(host.usable_area(), v2(1904, 1021));
    assert_eq!(host.image_room(), v2(1887, 981));
    assert_eq!(usable(1200, 800).usable_area(), v2(1200, 800));
}

#[test]
fn fit_of_a_large_image() {
    let host = usable(1200, 800);
    let image = size(4000, 3000);
    let m = fit(&host, &image);
    assert_eq!(m, 25);
    assert_eq!(content(&image, m), v2(1000, 750));
    assert_eq!(window_size_for(&host, &image, m), v2(1017, 790));
}

#[test]
fn fit_below_full_size_rounds_down_to_a_twentieth() {
    let host = usable(1017, 1040);
    assert_eq!(fit(&host, &size(1001, 10)), 95);
    assert_eq!(fit(&host, &size(2000, 10)), 50);
    assert_eq!(fit(&host, &size(2001, 10)), 45);
    assert_eq!(fit(&host, &size(10, 1001)), 95);
    assert_eq!(fit(&host, &size(1000, 1001)), 95);
}

#[test]
fn fit_from_full_size_rounds_to_the_nearest_half() {
    let host = usable(1200, 800);
    assert_eq!(fit(&host, &size(400, 300)), 250);
    let host = usable(517, 540);
    assert_eq!(fit(&host, &size(500, 500)), 100);
    assert_eq!(fit(&host, &size(400, 400)), 150);
    assert_eq!(fit(&host, &size(401, 401)), 100);
    assert_eq!(fit(&host, &size(200, 100)), 250);
    assert_eq!(fit(&host, &size(100, 230)), 200);
}

#[test]
fn fit_stays_in_the_allowed_range() {
    let host = usable(1200, 800);
    assert_eq!(fit(&host, &size(100_000, 100_000)), MIN_MAGNIFY);
    assert_eq!(fit(&host, &size(u32::MAX, u32::MAX)), MIN_MAGNIFY);
    assert_eq!(fit(&host, &size(10, 10)), MAX_MAGNIFY);
    assert_eq!(fit(&host, &size(0, 0)), MAX_MAGNIFY);
    assert_eq!(fit(&usable(10, 10), &size(100, 100)), MIN_MAGNIFY);
    let worst = HostMetrics {
        outer: px(i32::MAX, i32::MAX),
        inner: px(i32::MIN, i32::MIN),
        monitor: px(i32::MIN, i32::MIN),
    };
    assert_eq!(fit(&worst, &size(1, 1)), MIN_MAGNIFY);
    let best = HostMetrics {
        outer: px(i32::MIN, i32::MIN),
        inner: px(i32::MAX, i32::MAX),
        monitor: px(i32::MAX, i32::MAX),
    };
    assert_eq!(fit(&best, &size(u32::MAX, u32::MAX)), 150);
    assert_eq!(fit(&best, &size(1, 1)), MAX_MAGNIFY);
}

#[test]
fn content_is_scaled_and_rounded_down() {
    assert_eq!(content(&size(333, 77), 25), v2(83, 19));
    assert_eq!(content(&size(333, 77), 100), v2(333, 77));
    assert_eq!(content(&size(333, 77), 5), v2(33, 7));
    assert_eq!(content(&size(333, 77), 5000), v2(3330, 770));
    assert_eq!(content(&size(0, 0), 100), v2(1, 1));
    assert_eq!(content(&size(u32::MAX, 1), 1000), v2(42_949_672_950, 10));
}

#[test]
fn window_is_capped_at_the_room() {
    let host = usable(1200, 800);
    assert_eq!(window_size_for(&host, &size(4000, 3000), 100), v2(1200, 800));
    assert_eq!(window_size_for(&host, &size(400, 3000), 100), v2(417, 800));
    assert_eq!(window_size_for(&host, &size(400, 300), 100), v2(417, 340));
}

#[test]
fn window_position() {
    let host = usable(1200, 800);
    let image = size(4000, 3000);
    assert_eq!(window_position_for(&host, &image, 25, true), v2(92, 15));
    assert_eq!(window_position_for(&host, &image, 25, false), v2(-8, 0));
    assert_eq!(window_position_for(&host, &image, 100, true), v2(0, 10));
    assert_eq!(window_position_for(&host, &size(401, 301), 100, true), v2(391, 239));
}

#[test]
fn zoom_steps_grow_with_the_magnification() {
    assert_eq!(zoom(50, KEY_STEP), 55);
    assert_eq!(zoom(50, -KEY_STEP), 45);
    assert_eq!(zoom(95, KEY_STEP), 100);
    assert_eq!(zoom(100, KEY_STEP), 110);
    assert_eq!(zoom(100, -KEY_STEP), 90);
    assert_eq!(zoom(390, KEY_STEP), 400);
    assert_eq!(zoom(400, KEY_STEP), 420);
    assert_eq!(zoom(400, -KEY_STEP), 380);
    assert_eq!(zoom(100, 3 * KEY_STEP), 130);
}

#[test]
fn zoom_stays_in_the_allowed_range() {
    assert_eq!(zoom(1000, KEY_STEP), 1000);
    assert_eq!(zoom(990, KEY_STEP), 1000);
    assert_eq!(zoom(10, -KEY_STEP), 10);
    assert_eq!(zoom(12, -KEY_STEP), 10);
    assert_eq!(zoom(100, i32::MAX), 1000);
    assert_eq!(zoom(100, i32::MIN), 10);
    assert_eq!(zoom(0, 0), 10);
    assert_eq!(zoom(u32::MAX, 0), 1000);
    assert_eq!(zoom(77, 0), 77);
}

#[test]
fn zoom_rounds_to_the_nearest_hundredth() {
    assert_eq!(zoom(50, 300), 52);
    assert_eq!(zoom(50, 299), 51);
    assert_eq!(zoom(50, 100), 51);
    assert_eq!(zoom(50, 99), 50);
    assert_eq!(zoom(50, -100), 50);
    assert_eq!(zoom(50, -101), 49);
    assert_eq!(zoom(50, -300), 49);
    assert_eq!(zoom(100, 50), 101);
    assert_eq!(zoom(100, 49), 100);
}

#[test]
fn zoom_keeps_the_point_under_the_pointer() {
    let image = size(1000, 1000);
    let o = zoom_offset(px(100, 100), Some(px(50, 50)), px(600, 400), &image, 100, 100, 200);
    assert_eq!(o, v2(250, 250));
}

#[test]
fn zoom_by_key_is_anchored_to_the_middle_of_the_view() {
    let image = size(1000, 1000);
    let o = zoom_offset(px(100, 100), None, px(600, 400), &image, 100, 100, 200);
    assert_eq!(o, v2(500, 400));
    let o = zoom_offset(px(100, 100), None, px(601, 401), &image, 100, 100, 200);
    assert_eq!(o, v2(500, 400));
    let o = zoom_offset(px(100, 100), None, px(-600, -400), &image, 100, 100, 200);
    assert_eq!(o, v2(200, 200));
}

#[test]
fn pointer_is_cut_to_the_image_as_shown() {
    let image = size(10, 20);
    let o = zoom_offset(px(100, 100), Some(px(50, 50)), px(600, 400), &image, 100, 100, 200);
    assert_eq!(o, v2(210, 220));
    let o = zoom_offset(px(100, 100), Some(px(50, 50)), px(600, 400), &image, 200, 100, 200);
    assert_eq!(o, v2(220, 240));
    let o = zoom_offset(px(100, 100), Some(px(-50, -1)), px(600, 400), &image, 100, 100, 200);
    assert_eq!(o, v2(200, 200));
}

#[test]
fn zoom_offset_rounds_down() {
    let image = size(1000, 1000);
    let o = zoom_offset(px(0, -5), Some(px(1, 0)), px(0, 0), &image, 100, 100, 110);
    assert_eq!(o, v2(0, -6));
    let o = zoom_offset(px(-5, 7), Some(px(0, 0)), px(0, 0), &image, 100, 100, 150);
    assert_eq!(o, v2(-8, 10));
    let o = zoom_offset(px(30, 30), Some(px(10, 20)), px(0, 0), &image, 100, 150, 100);
    assert_eq!(o, v2(16, 13));
}

#[test]
fn zoom_offset_at_the_limits() {
    let image = size(u32::MAX, u32::MAX);
    let o = zoom_offset(
        px(i32::MAX, i32::MIN),
        Some(px(i32::MAX, i32::MAX)),
        px(0, 0),
        &image,
        1000,
        10,
        1000,
    );
    assert_eq!(o, v2(2 * 2_147_483_647 * 100 - 2_147_483_647, -100 - 2_147_483_647));
}

#[test]
fn offset_shows_only_where_the_image_exceeds_the_screen() {
    let host = usable(1200, 800);
    let image = size(4000, 3000);
    assert_eq!(visible_offset(v2(7, 9), &host, &image, 25), v2(0, 0));
    assert_eq!(visible_offset(v2(7, 9), &host, &image, 30), v2(0, 9));
    assert_eq!(visible_offset(v2(7, 9), &host, &image, 31), v2(7, 9));
    assert_eq!(visible_offset(v2(7, 9), &host, &size(4001, 1), 30), v2(7, 0));
}

#[test]
fn first_pass_fits_once() {
    let mut state = ViewportState::new();
    assert_eq!(state.magnify, FULL_SIZE);
    assert_eq!(state.fit, FitState::NeverFit);
    assert_eq!(state.image_size, size(800, 600));
    assert!(state.needs_fit());
    state.set_image(size(4000, 3000), false);
    let host = usable(1200, 800);

    let out = state.layout(&input(host, true, 0, None, px(800, 600)));
    assert!(out.relaid);
    assert_eq!(out.magnify, 25);
    assert_eq!(out.content, v2(1000, 750));
    assert_eq!(out.window_size, Some(v2(1017, 790)));
    assert_eq!(out.window_position, Some(v2(92, 15)));
    assert_eq!(out.scroll, None);
    assert_eq!(state.fit, FitState::Fitted);
    assert_eq!(state.magnify, 25);
    assert_eq!(state.host, host);
    assert!(!state.needs_fit());

    let other = usable(3000, 2000);
    let out = state.layout(&input(other, true, 0, None, px(800, 600)));
    assert!(!out.relaid);
    assert_eq!(out.magnify, 25);
    assert_eq!(out.content, v2(1000, 750));
    assert_eq!(out.window_size, None);
    assert_eq!(out.window_position, None);
    assert_eq!(out.scroll, None);
    assert_eq!(state.host, host);
}

#[test]
fn pass_with_zoom() {
    let mut state = ViewportState::new();
    state.set_image(size(4000, 3000), false);
    let host = usable(1200, 800);
    state.layout(&input(host, true, 0, None, px(1000, 750)));

    let out = state.layout(&input(host, true, KEY_STEP, None, px(1000, 750)));
    assert!(out.relaid);
    assert_eq!(out.magnify, 30);
    assert_eq!(state.magnify, 30);
    assert_eq!(out.content, v2(1200, 900));
    assert_eq!(out.window_size, Some(v2(1200, 800)));
    assert_eq!(out.window_position, Some(v2(0, 10)));
    assert_eq!(out.scroll, Some(v2(0, 75)));

    state.record_offset(px(0, 75));
    let out = state.layout(&input(host, false, KEY_STEP, Some(px(100, 100)), px(1183, 760)));
    assert_eq!(out.magnify, 35);
    assert_eq!(out.window_position, Some(v2(-8, 0)));
    assert_eq!(out.scroll, Some(v2(16, 104)));
}

#[test]
fn pass_with_fit_and_zoom() {
    let mut state = ViewportState::new();
    state.set_image(size(4000, 3000), false);
    let host = usable(1200, 800);
    let out = state.layout(&input(host, false, KEY_STEP, None, px(1000, 750)));
    assert!(out.relaid);
    assert_eq!(out.magnify, 30);
    assert_eq!(out.window_size, Some(v2(1200, 800)));
    assert_eq!(out.window_position, Some(v2(-8, 0)));
    assert_eq!(out.scroll, Some(v2(0, 75)));
}

#[test]
fn zoom_at_the_limit_changes_nothing() {
    let mut state = ViewportState::new();
    state.fit = FitState::Fitted;
    state.magnify = 1000;
    let out = state.layout(&input(usable(1200, 800), true, KEY_STEP, None, px(100, 100)));
    assert!(!out.relaid);
    assert_eq!(out.magnify, 1000);
    assert_eq!(out.scroll, None);
    assert_eq!(out.window_size, None);
}

#[test]
fn stored_magnification_is_cut_before_use() {
    let mut state = ViewportState::new();
    state.fit = FitState::Fitted;
    state.magnify = 5000;
    let out = state.layout(&input(usable(1200, 800), true, 0, None, px(100, 100)));
    assert_eq!(out.magnify, 1000);
    assert_eq!(state.magnify, 1000);
    assert_eq!(sane_magnify(3), 10);
    assert_eq!(sane_magnify(10), 10);
    assert_eq!(sane_magnify(1000), 1000);
    assert_eq!(sane_magnify(1001), 1000);
}

#[test]
fn loading_asks_for_a_fit() {
    let mut state = ViewportState::new();
    state.on_load(false, true, false);
    assert_eq!(state.fit, FitState::NeverFit);
    state.fit = FitState::Fitted;
    state.on_load(false, false, false);
    assert_eq!(state.fit, FitState::Fitted);
    state.on_load(true, true, false);
    assert_eq!(state.fit, FitState::Fitted);
    state.on_load(true, false, true);
    assert_eq!(state.fit, FitState::Fitted);
    state.on_load(true, true, true);
    assert_eq!(state.fit, FitState::FitPending);
    state.fit = FitState::Fitted;
    state.on_load(false, true, false);
    assert_eq!(state.fit, FitState::FitPending);
    assert!(state.needs_fit());
    state.request_fit();
    assert_eq!(state.fit, FitState::FitPending);
}

#[test]
fn rotation_keeps_or_refits() {
    let mut state = ViewportState::new();
    let host = usable(1200, 800);
    state.set_image(size(4000, 3000), false);
    state.layout(&input(host, true, 8 * KEY_STEP, None, px(1000, 750)));
    assert_eq!(state.magnify, 65);
    state.record_offset(px(40, 50));

    let shown = state.set_image(size(3000, 4000), false);
    assert_eq!(state.image_size, size(3000, 4000));
    assert_eq!(state.fit, FitState::Fitted);
    assert_eq!(state.magnify, 65);
    assert_eq!(shown, v2(40, 50));

    let shown = state.set_image(size(1000, 2000), true);
    assert_eq!(state.fit, FitState::FitPending);
    assert_eq!(shown, v2(0, 50));
    let out = state.layout(&input(host, true, 0, None, px(1000, 750)));
    assert_eq!(out.magnify, 35);
    assert_eq!(out.window_size, Some(v2(367, 740)));
}

#[test]
fn fit_fills_the_room_on_one_axis() {
    for (w, h) in [(4000u32, 3000u32), (1234, 987), (5000, 100), (100, 5000), (1184, 761)] {
        let host = usable(1200, 800);
        let image = size(w, h);
        let m = fit(&host, &image);
        let room = host.image_room();
        if m > MIN_MAGNIFY && m < FULL_SIZE {
            let (w, h, m) = (w as i64, h as i64, m as i64);
            assert!(w * m <= 100 * room.x && h * m <= 100 * room.y);
            assert!(w * (m + 5) > 100 * room.x || h * (m + 5) > 100 * room.y);
            assert_eq!(m % 5, 0);
        }
    }
}

#[test]
fn anchor_stays_within_a_pixel() {
    let image = size(3000, 2000);
    for (before, after) in [(100u32, 110u32), (110, 100), (25, 30), (400, 380), (10, 1000)] {
        for offset in [0, 1, 17, 250, 4096] {
            for pointer in [0, 3, 99, 640] {
                let o = zoom_offset(
                    px(offset, offset),
                    Some(px(pointer, pointer)),
                    px(800, 600),
                    &image,
                    1000,
                    before,
                    after,
                );
                let (b, a) = (before as i64, after as i64);
                let exact = (offset as i64 + pointer as i64) * a;
                assert!((o.x + pointer as i64) * b <= exact);
                assert!(exact < (o.x + pointer as i64 + 1) * b);
                assert_eq!(o.x, o.y);
            }
        }
    }
}
