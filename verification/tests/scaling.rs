use iv::config::ImageScaling;
use iv::events::UserEvent;
use iv::math::{scale, scale_to_fit, Pixels};
use iv::percent::Percent;
use iv::scroll::{Scroll, ScrollH, ScrollV};
use std::convert::TryFrom;

fn px(x: u32, y: u32) -> Pixels {
    Pixels { x, y }
}

#[test]
fn scenario_fit_both_takes_the_smaller_ratio() {
    // Bounding 800x600 around a native 1600x900: the width ratio (one half)
    // is smaller than the height ratio, so the target is 800x450 at 50%.
    let (target, factor) = scale(px(800, 600), px(1600, 900), ImageScaling::Fit).unwrap();
    assert_eq!(target, px(800, 450));
    assert_eq!(factor, Percent(50));
    assert_eq!(
        scale_to_fit(px(800, 600), px(1600, 900)),
        Some((target, factor))
    );
}

#[test]
fn fit_width_and_height_follow_one_side() {
    let (target, factor) = scale(px(800, 600), px(1600, 900), ImageScaling::FitToWidth).unwrap();
    assert_eq!(target, px(800, 450));
    assert_eq!(factor, Percent(50));
    let (target, factor) = scale(px(800, 600), px(1600, 900), ImageScaling::FitToHeight).unwrap();
    assert_eq!(target, px(1066, 600));
    assert_eq!(factor, Percent(66));
}

#[test]
fn no_scaling_keeps_the_native_size() {
    let (target, factor) = scale(px(10, 10), px(1600, 900), ImageScaling::NoScaling).unwrap();
    assert_eq!(target, px(1600, 900));
    assert_eq!(factor, Percent(100));
}

#[test]
fn scaling_rejects_zero_sides() {
    assert!(scale(px(0, 600), px(1600, 900), ImageScaling::Fit).is_none());
    assert!(scale(px(800, 0), px(1600, 900), ImageScaling::Fit).is_none());
    assert!(scale(px(800, 600), px(0, 900), ImageScaling::Fit).is_none());
    assert!(scale(px(800, 600), px(1600, 0), ImageScaling::NoScaling).is_none());
}

#[test]
fn scaling_rejects_unrepresentable_targets() {
    // Blowing a tall image up to a huge width overflows the height.
    assert!(scale(px(u32::MAX, u32::MAX), px(1, u32::MAX), ImageScaling::FitToWidth).is_none());
}

#[test]
fn scroll_mapping_covers_exactly_the_scroll_events() {
    assert_eq!(Scroll::try_from(UserEvent::ScrollDown), Ok(Scroll::V(ScrollV::Down)));
    assert_eq!(Scroll::try_from(UserEvent::ScrollUp), Ok(Scroll::V(ScrollV::Up)));
    assert_eq!(Scroll::try_from(UserEvent::ScrollVStart), Ok(Scroll::V(ScrollV::Start)));
    assert_eq!(Scroll::try_from(UserEvent::ScrollVEnd), Ok(Scroll::V(ScrollV::End)));
    assert_eq!(Scroll::try_from(UserEvent::ScrollLeft), Ok(Scroll::H(ScrollH::Left)));
    assert_eq!(Scroll::try_from(UserEvent::ScrollRight), Ok(Scroll::H(ScrollH::Right)));
    assert_eq!(Scroll::try_from(UserEvent::ScrollHStart), Ok(Scroll::H(ScrollH::Start)));
    assert_eq!(Scroll::try_from(UserEvent::ScrollHEnd), Ok(Scroll::H(ScrollH::End)));
    assert_eq!(Scroll::try_from(UserEvent::Next), Err(()));
    assert_eq!(Scroll::try_from(UserEvent::Quit), Err(()));
}
