use iv::config::{Config, Geometry, ImageScaling, InterpTypeDef, Mode, ModeEntry, ViewerMode};
use iv::coordinator::{file_name, App, ImageTransition, State};
use iv::events::LoadError;
use iv::math::Pixels;
use iv::percent::Percent;
use iv::ratio::Ratio;

fn px(x: u32, y: u32) -> Pixels {
    Pixels { x, y }
}

fn config(initial: ImageScaling, step: u64) -> Config {
    Config {
        show_scrollbars: true,
        interpolation_algorithm: InterpTypeDef::Bilinear,
        zoom_step_size: Percent::from_integer_percent(step),
        mode: Mode {
            initial_scaling: initial,
            hide_status: false,
            geometry: Geometry {
                scale: Percent::from_integer_percent(80),
                aspect_ratio: Ratio(16, 9),
            },
        },
    }
}

fn paths(names: &[&str]) -> Vec<String> {
    names.iter().map(|n| n.to_string()).collect()
}

#[test]
fn startup_loads_the_first_image() {
    let (app, req) = App::new(paths(&["a", "b", "c"]), config(ImageScaling::Fit, 25));
    let req = req.unwrap();
    assert_eq!(req.cancel, None);
    assert_eq!(req.token, 0);
    assert_eq!(req.path, "a");
    assert_eq!(app.cursor, Some(req.key));
    assert_eq!(app.index, Some(1));
    assert!(matches!(app.state, State::LoadingImage { token: 0, .. }));
}

#[test]
fn startup_on_nothing_is_no_images() {
    let (mut app, req) = App::new(Vec::new(), config(ImageScaling::Fit, 25));
    assert!(req.is_none());
    assert!(matches!(app.state, State::NoImages));
    assert_eq!(app.cursor, None);
    assert_eq!(app.index, None);
    assert!(app.try_load(ImageTransition::Next).is_none());
    assert!(app.try_load(ImageTransition::Start).is_none());
}

#[test]
fn transitions_move_and_stop_at_boundaries() {
    let (mut app, _) = App::new(paths(&["a", "b", "c"]), config(ImageScaling::Fit, 25));
    // At the head, Previous is a boundary stop: no change, no load.
    assert!(app.try_load(ImageTransition::Prev).is_none());
    assert_eq!(app.index, Some(1));
    let req = app.try_load(ImageTransition::Next).unwrap();
    assert_eq!(req.path, "b");
    assert_eq!(req.cancel, Some(0));
    assert_eq!(app.index, Some(2));
    let req = app.try_load(ImageTransition::End).unwrap();
    assert_eq!(req.path, "c");
    assert_eq!(app.index, Some(3));
    // At the tail, Next stops silently.
    assert!(app.try_load(ImageTransition::Next).is_none());
    assert_eq!(app.index, Some(3));
    let req = app.try_load(ImageTransition::Start).unwrap();
    assert_eq!(req.path, "a");
    assert_eq!(app.index, Some(1));
}

#[test]
fn scenario_failed_load_skips_onward() {
    // Collection [a, b, c], cursor at a; Next moves to b; b fails to load;
    // b is removed and the coordinator retries Next, landing on c at index 2.
    let (mut app, _) = App::new(paths(&["a", "b", "c"]), config(ImageScaling::Fit, 25));
    let req_b = app.try_load(ImageTransition::Next).unwrap();
    assert_eq!(req_b.path, "b");
    assert_eq!(app.index, Some(2));
    let retry = app.on_load_failed(req_b.key, LoadError::UnreadableFile).unwrap();
    assert_eq!(retry.path, "c");
    assert_eq!(retry.cancel, Some(req_b.token));
    assert_eq!(app.cursor, Some(retry.key));
    assert_eq!(app.index, Some(2));
    assert_eq!(app.images.len(), 2);
    assert_eq!(app.images.get(req_b.key), None);
}

#[test]
fn scenario_last_failure_empties_the_collection() {
    // Collection [a]; the load of a fails; the collection becomes empty, the
    // state is NoImages, and a further Next is a no-op.
    let (mut app, req) = App::new(paths(&["a"]), config(ImageScaling::Fit, 25));
    let key_a = req.unwrap().key;
    assert!(app.on_load_failed(key_a, LoadError::UnsupportedFormat).is_none());
    assert!(matches!(app.state, State::NoImages));
    assert_eq!(app.cursor, None);
    assert_eq!(app.index, None);
    assert_eq!(app.images.len(), 0);
    assert!(app.try_load(ImageTransition::Next).is_none());
}

#[test]
fn each_failure_kind_is_recoverable() {
    for err in [
        LoadError::UnreadableFile,
        LoadError::UnsupportedFormat,
        LoadError::MetadataProbeFailed,
    ] {
        let (mut app, req) = App::new(paths(&["a", "b"]), config(ImageScaling::Fit, 25));
        let key_a = req.unwrap().key;
        let retry = app.on_load_failed(key_a, err).unwrap();
        assert_eq!(retry.path, "b");
        assert_eq!(app.images.len(), 1);
        assert!(matches!(app.state, State::LoadingImage { .. }));
    }
}

#[test]
fn failure_at_the_tail_retries_backward() {
    let (mut app, _) = App::new(paths(&["a", "b"]), config(ImageScaling::Fit, 25));
    let req_b = app.try_load(ImageTransition::Next).unwrap();
    let retry = app.on_load_failed(req_b.key, LoadError::UnreadableFile).unwrap();
    assert_eq!(retry.path, "a");
    assert_eq!(app.index, Some(1));
    assert_eq!(app.images.len(), 1);
}

#[test]
fn scenario_second_request_supersedes_the_first() {
    // Two rapid Next requests before the first load completes: only the
    // event for the second key is ever applied, in either delivery order.
    let (mut app, _) = App::new(paths(&["a", "b", "c"]), config(ImageScaling::NoScaling, 25));
    let req_b = app.try_load(ImageTransition::Next).unwrap();
    let req_c = app.try_load(ImageTransition::Next).unwrap();
    assert_eq!(req_c.cancel, Some(req_b.token));
    // Delivery order one: the superseded load lands first and is dropped.
    assert!(app.on_image_loaded(req_b.key, 11, px(10, 10), px(100, 100)).is_none());
    assert!(matches!(app.state, State::LoadingImage { .. }));
    let shown = app.on_image_loaded(req_c.key, 22, px(10, 10), px(100, 100)).unwrap();
    assert_eq!(shown.handle, 22);
    assert!(matches!(app.state, State::DisplayImage { handle: 22, .. }));

    // Delivery order two: the current load lands first; the stale one after.
    let (mut app, _) = App::new(paths(&["a", "b", "c"]), config(ImageScaling::NoScaling, 25));
    let req_b = app.try_load(ImageTransition::Next).unwrap();
    let req_c = app.try_load(ImageTransition::Next).unwrap();
    let shown = app.on_image_loaded(req_c.key, 22, px(10, 10), px(100, 100)).unwrap();
    assert_eq!(shown.handle, 22);
    assert!(app.on_image_loaded(req_b.key, 11, px(10, 10), px(100, 100)).is_none());
    assert!(matches!(app.state, State::DisplayImage { handle: 22, .. }));
    // A stale failure is dropped just the same.
    assert!(app.on_load_failed(req_b.key, LoadError::UnreadableFile).is_none());
    assert_eq!(app.images.len(), 3);
}

#[test]
fn loaded_image_is_scaled_by_the_initial_policy() {
    let (mut app, req) = App::new(paths(&["a"]), config(ImageScaling::Fit, 25));
    let key_a = req.unwrap().key;
    let shown = app.on_image_loaded(key_a, 7, px(1600, 900), px(800, 600)).unwrap();
    assert_eq!(shown.size, px(800, 450));
    assert_eq!(shown.scale, Percent(50));
    match app.state {
        State::DisplayImage { handle, native, scale } => {
            assert_eq!(handle, 7);
            assert_eq!(native, px(1600, 900));
            assert_eq!(scale, Percent(50));
        }
        ref other => panic!("expected DisplayImage, got {:?}", other),
    }
}

#[test]
fn scenario_zoom_steps_by_the_configured_step() {
    // Displayed at 50% with a 25% step: zoom in reaches 75%; zoom out from
    // 75% returns to 50%; zoom out at 25% clamps to 25%, never 0%.
    let (mut app, req) = App::new(paths(&["a"]), config(ImageScaling::Fit, 25));
    let key_a = req.unwrap().key;
    // Fit 100x100 into 50x50: displayed at 50%.
    app.on_image_loaded(key_a, 7, px(100, 100), px(50, 50)).unwrap();
    let shown = app.zoom_in().unwrap();
    assert_eq!(shown.scale, Percent(75));
    assert_eq!(shown.size, px(75, 75));
    let shown = app.zoom_out().unwrap();
    assert_eq!(shown.scale, Percent(50));
    let shown = app.zoom_out().unwrap();
    assert_eq!(shown.scale, Percent(25));
    let shown = app.zoom_out().unwrap();
    assert_eq!(shown.scale, Percent(25));
    assert_eq!(shown.size, px(25, 25));
}

#[test]
fn zoom_needs_a_displayed_image() {
    let (mut app, _) = App::new(paths(&["a"]), config(ImageScaling::Fit, 25));
    assert!(app.zoom_in().is_none());
    assert!(app.zoom_out().is_none());
    assert!(app.scale_to_fit(px(100, 100)).is_none());
}

#[test]
fn scale_to_fit_refits_the_viewport() {
    let (mut app, req) = App::new(paths(&["a"]), config(ImageScaling::NoScaling, 25));
    let key_a = req.unwrap().key;
    app.on_image_loaded(key_a, 7, px(1600, 900), px(800, 600));
    let shown = app.scale_to_fit(px(400, 300)).unwrap();
    assert_eq!(shown.size, px(400, 225));
    assert_eq!(shown.scale, Percent(25));
}

#[test]
fn metadata_fills_the_status_line() {
    let (mut app, req) = App::new(paths(&["dir/a.png", "dir/b.png"]), config(ImageScaling::Fit, 25));
    let key_a = req.unwrap().key;
    let info = app.status_info();
    assert_eq!(info.index, 1);
    assert_eq!(info.nimages, 2);
    assert_eq!(info.width, -1);
    assert_eq!(info.height, -1);
    assert_eq!(info.filesize, -1);
    assert_eq!(info.filename, "a.png");
    assert_eq!(info.fullpath, "dir/a.png");
    app.on_image_meta(
        key_a,
        iv::coordinator::ImageMeta { dimensions: px(640, 480), filesize: 12345 },
    );
    let info = app.status_info();
    assert_eq!(info.width, 640);
    assert_eq!(info.height, 480);
    assert_eq!(info.filesize, 12345);
}

#[test]
fn metadata_for_a_removed_key_is_dropped() {
    let (mut app, req) = App::new(paths(&["a", "b"]), config(ImageScaling::Fit, 25));
    let key_a = req.unwrap().key;
    app.on_load_failed(key_a, LoadError::UnreadableFile).unwrap();
    app.on_image_meta(
        key_a,
        iv::coordinator::ImageMeta { dimensions: px(1, 1), filesize: 1 },
    );
    let info = app.status_info();
    assert_eq!(info.width, -1);
    assert_eq!(info.filename, "b");
}

#[test]
fn empty_status_line_shows_placeholders() {
    let (app, _) = App::new(Vec::new(), config(ImageScaling::Fit, 25));
    let info = app.status_info();
    assert_eq!(info.index, -1);
    assert_eq!(info.nimages, 0);
    assert_eq!(info.filename, "");
    assert_eq!(info.fullpath, "");
}

#[test]
fn file_name_takes_the_last_component() {
    assert_eq!(file_name("dir/sub/c.png"), "c.png");
    assert_eq!(file_name("c.png"), "c.png");
    assert_eq!(file_name("dir/"), "");
    assert_eq!(file_name(""), "");
    assert_eq!(file_name("/abs/path.jpg"), "path.jpg");
}

#[test]
fn fullscreen_toggles() {
    let (mut app, _) = App::new(Vec::new(), config(ImageScaling::Fit, 25));
    assert!(!app.is_fullscreen);
    assert!(app.toggle_fullscreen());
    assert!(app.is_fullscreen);
    assert!(!app.toggle_fullscreen());
    assert!(!app.is_fullscreen);
}

#[test]
fn mode_select_picks_the_session_kind() {
    let image = Mode {
        initial_scaling: ImageScaling::Fit,
        hide_status: false,
        geometry: Geometry {
            scale: Percent::from_integer_percent(80),
            aspect_ratio: Ratio(16, 9),
        },
    };
    let archive = Mode { initial_scaling: ImageScaling::FitToWidth, hide_status: true, ..image };
    let entry = ModeEntry { image, archive };
    assert_eq!(entry.select(ViewerMode::Image), image);
    assert_eq!(entry.select(ViewerMode::Archive), archive);
}
