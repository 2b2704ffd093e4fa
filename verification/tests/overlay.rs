use hyprlaser::overlay::{
    AppState, FrameAction, FrameOutcome, HiDpiMode, OutputInfo,
};
use hyprlaser::scale::Scale;

fn info(x: i32, y: i32, scale_factor: i32) -> Option<OutputInfo> {
    Some(OutputInfo { logical_position: Some((x, y)), location: (-1, -1), scale_factor })
}

fn integer() -> AppState {
    AppState::new(true, false)
}

fn fractional() -> AppState {
    AppState::new(true, true)
}

#[test]
fn fractional_mode_takes_both_objects() {
    assert_eq!(AppState::new(true, true).hidpi_mode(), HiDpiMode::Fractional);
    assert_eq!(AppState::new(true, false).hidpi_mode(), HiDpiMode::IntegerOrNone);
    assert_eq!(AppState::new(false, true).hidpi_mode(), HiDpiMode::IntegerOrNone);
    assert_eq!(AppState::new(false, false).hidpi_mode(), HiDpiMode::IntegerOrNone);
}

#[test]
fn origin_falls_back() {
    assert_eq!(AppState::origin_of(&info(3, 4, 1)), (3, 4));
    let physical = OutputInfo { logical_position: None, location: (5, 6), scale_factor: 1 };
    assert_eq!(AppState::origin_of(&Some(physical)), (5, 6));
    assert_eq!(AppState::origin_of(&None), (0, 0));
    assert_eq!(AppState::initial_scale_of(&info(0, 0, 2)), Scale::Whole(2));
    assert_eq!(AppState::initial_scale_of(&None), Scale::Whole(1));
}

#[test]
fn surfaces_are_planned_once() {
    let mut s = integer();
    let plan = s.plan_output_surface(7, &info(3, 4, 2)).unwrap();
    assert_eq!(plan.origin, (3, 4));
    assert_eq!(plan.buffer_scale, Some(2));
    assert!(!plan.fractional);
    s.add_output_surface(7, 70, None, &info(3, 4, 2));
    assert!(s.plan_output_surface(7, &info(3, 4, 2)).is_none());
    s.add_output_surface(7, 71, None, &info(0, 0, 1));
    assert_eq!(s.ctx_for_surface(70), Some(7));
    assert_eq!(s.ctx_for_surface(71), None);
    let plan = fractional().plan_output_surface(7, &info(3, 4, 2)).unwrap();
    assert!(plan.fractional);
    assert_eq!(plan.buffer_scale, None);
}

#[test]
fn first_configure_makes_the_renderer() {
    let mut s = integer();
    s.add_output_surface(7, 70, None, &info(0, 0, 2));
    assert_eq!(s.draw_output(7), None);
    let step = s.configure(70, (0, 0), &info(1920, 0, 2)).unwrap();
    assert_eq!(step.id, 7);
    assert!(step.init && !step.resize);
    assert_eq!(step.physical, (3840, 2160));
    assert_eq!(step.origin, (1920, 0));
    assert_eq!(step.viewport, None);
    assert_eq!(s.draw_output(7), None);
    s.renderer_made(7, true);
    assert_eq!(s.draw_output(7), Some((3840, 2160)));
    let again = s.configure(70, (100, 50), &info(1920, 0, 2)).unwrap();
    assert!(!again.init && again.resize);
    assert_eq!(again.physical, (200, 100));
    assert!(s.configure(99, (1, 1), &None).is_none());
}

#[test]
fn failed_renderer_gives_the_overlay_up() {
    let mut s = fractional();
    s.add_output_surface(1, 10, Some(100), &info(0, 0, 1));
    s.add_output_surface(2, 20, Some(200), &info(0, 0, 1));
    s.configure(10, (5, 5), &None);
    s.renderer_made(1, false);
    assert!(s.context(1).is_none());
    assert!(s.keeps_running(false));
    assert_eq!(s.preferred_scale(100, 180).is_none(), true);
    s.configure(20, (5, 5), &None);
    s.renderer_made(2, false);
    assert!(!s.keeps_running(false));
}

#[test]
fn preferred_scale_reaches_its_output() {
    let mut s = fractional();
    s.add_output_surface(1, 10, Some(100), &info(0, 0, 1));
    s.add_output_surface(2, 20, Some(200), &info(0, 0, 1));
    s.configure(20, (1920, 1080), &None);
    s.renderer_made(2, true);
    let (id, step) = s.preferred_scale(200, 180).unwrap();
    assert_eq!(id, 2);
    assert_eq!(step.resize, Some((2880, 1620)));
    assert_eq!(step.viewport, Some((1920, 1080)));
    assert_eq!(step.buffer_scale, None);
    // The same scale again is no news, nor is that of an unknown object.
    assert!(s.preferred_scale(200, 180).is_none());
    assert!(s.preferred_scale(300, 240).is_none());
    assert_eq!(s.context(1).unwrap().scale, Scale::Whole(1));
    // Whole factors do not count here.
    assert!(s.scale_factor_changed(20, 3).is_none());
    assert_eq!(s.context(2).unwrap().scale, Scale::Fraction(180));
}

#[test]
fn whole_factors_go_to_the_surface() {
    let mut s = integer();
    s.add_output_surface(1, 10, None, &info(0, 0, 1));
    let (id, step) = s.scale_factor_changed(10, 2).unwrap();
    assert_eq!((id, step.buffer_scale), (1, Some(2)));
    assert_eq!(step.resize, None);
    assert!(s.scale_factor_changed(10, 2).is_none());
    let (_, step) = s.scale_factor_changed(10, -5).unwrap();
    assert_eq!(step.buffer_scale, Some(1));
    assert!(s.scale_factor_changed(11, 4).is_none());
}

#[test]
fn news_of_an_output() {
    let mut s = integer();
    s.add_output_surface(1, 10, None, &info(0, 0, 1));
    let step = s.update_output(1, &info(5, 6, 1));
    assert_eq!(step.move_renderer, None);
    assert!(step.scale.is_none());
    assert_eq!(s.context(1).unwrap().origin, (5, 6));
    s.configure(10, (10, 10), &info(5, 6, 1));
    s.renderer_made(1, true);
    let step = s.update_output(1, &info(7, 8, 2));
    assert_eq!(step.move_renderer, Some((7, 8)));
    assert_eq!(step.scale.unwrap().resize, Some((20, 20)));
    let step = s.update_output(9, &info(7, 8, 2));
    assert!(step.move_renderer.is_none() && step.scale.is_none());
    let mut f = fractional();
    f.add_output_surface(1, 10, Some(100), &info(0, 0, 1));
    assert!(f.update_output(1, &info(0, 0, 3)).scale.is_none());
}

#[test]
fn last_close_ends_the_program() {
    let mut s = fractional();
    s.add_output_surface(1, 10, Some(100), &info(0, 0, 1));
    s.add_output_surface(2, 20, Some(200), &info(0, 0, 1));
    assert_eq!(s.closed(99), None);
    assert_eq!(s.closed(10), Some(1));
    assert!(s.keeps_running(false));
    assert!(s.preferred_scale(100, 240).is_none());
    assert_eq!(s.closed(20), Some(2));
    assert!(!s.keeps_running(false));
    // A new output does not bring the program back.
    s.add_output_surface(3, 30, Some(300), &info(0, 0, 1));
    assert!(!s.keeps_running(false));
}

#[test]
fn unplugging_does_not_end_the_program() {
    let mut s = fractional();
    s.add_output_surface(1, 10, Some(100), &info(0, 0, 1));
    assert!(s.remove_output_surface(1));
    assert!(!s.remove_output_surface(1));
    assert!(s.keeps_running(false));
    assert!(!s.keeps_running(true));
    s.add_output_surface(1, 11, Some(101), &info(0, 0, 1));
    assert_eq!(s.ctx_for_surface(11), Some(1));
    assert!(s.preferred_scale(100, 240).is_none());
}

#[test]
fn frames_are_judged() {
    let mut s = integer();
    assert_eq!(s.frame_drawn(FrameOutcome::Shown), FrameAction::Nothing);
    assert_eq!(s.frame_drawn(FrameOutcome::Stale), FrameAction::Resize);
    assert_eq!(s.frame_drawn(FrameOutcome::Failed), FrameAction::Warn);
    assert!(s.keeps_running(false));
    assert_eq!(s.frame_drawn(FrameOutcome::OutOfMemory), FrameAction::Exit);
    assert!(!s.keeps_running(false));
}

#[test]
fn huge_logical_sizes_wrap_in_the_viewport() {
    let mut s = fractional();
    s.add_output_surface(1, 10, Some(100), &None);
    let step = s.configure(10, (u32::MAX, 0x7fff_ffff), &None).unwrap();
    assert_eq!(step.viewport, Some((-1, 0x7fff_ffff)));
    assert_eq!(step.physical, (u32::MAX, 0x7fff_ffff));
}
