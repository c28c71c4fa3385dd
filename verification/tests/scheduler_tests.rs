use clipstash::ControlSignal;
use clipstash::RenderScheduler;
use clipstash::TrayMessage;
use clipstash::WindowEvent;

#[test]
fn budget_tiers_follow_precedence() {
    let mut s = RenderScheduler::new(0);
    assert_eq!(s.frame_budget_ms(), 16);
    s.on_window_event(&WindowEvent::Resized { width: 0, height: 0 }, 0);
    assert_eq!(s.frame_budget_ms(), 100);
    s.on_window_event(&WindowEvent::Moved, 0);
    assert_eq!(s.frame_budget_ms(), 8);
    let mut t = RenderScheduler::new(0);
    t.on_window_event(&WindowEvent::Moved, 0);
    assert_eq!(t.frame_budget_ms(), 8);
}

#[test]
fn dragging_expires_after_three_seconds() {
    let mut s = RenderScheduler::new(0);
    s.on_window_event(&WindowEvent::Moved, 1000);
    assert_eq!(s.frame_budget_ms(), 8);
    s.on_frame_drawn(false, 0, 3500);
    assert_eq!(s.frame_budget_ms(), 8);
    s.on_frame_drawn(false, 0, 4500);
    assert_eq!(s.frame_budget_ms(), 16);
}

#[test]
fn frame_sleep_pads_out_the_budget() {
    let mut s = RenderScheduler::new(0);
    assert_eq!(s.on_frame_drawn(false, 4, 10), 12);
    assert_eq!(s.on_frame_drawn(false, 16, 20), 0);
    assert_eq!(s.on_frame_drawn(false, 40, 30), 0);
}

#[test]
fn show_then_quit_ends_in_exiting() {
    let mut s = RenderScheduler::new(0);
    let show_window = s.on_tray_messages(&vec![TrayMessage::Show, TrayMessage::Quit]);
    assert!(show_window);
    assert!(s.is_exiting());
}

#[test]
fn quit_wins_regardless_of_order() {
    let mut s = RenderScheduler::new(0);
    let show_window = s.on_tray_messages(&vec![TrayMessage::Quit, TrayMessage::Show]);
    assert!(show_window);
    assert!(s.is_exiting());
}

#[test]
fn show_alone_restores_the_window() {
    let mut s = RenderScheduler::new(0);
    s.on_window_event(&WindowEvent::Resized { width: 0, height: 0 }, 0);
    assert_eq!(s.idle_wait_ms(), 200);
    let show_window = s.on_tray_messages(&vec![TrayMessage::Show]);
    assert!(show_window);
    assert!(!s.is_exiting());
    assert_eq!(s.idle_wait_ms(), 0);
}

#[test]
fn empty_queue_changes_nothing() {
    let mut s = RenderScheduler::new(0);
    let show_window = s.on_tray_messages(&vec![]);
    assert!(!show_window);
    assert!(!s.is_exiting());
}

#[test]
fn refresh_request_schedules_one_extra_frame() {
    let mut s = RenderScheduler::new(0);
    assert!(s.on_redraw_events_cleared() == ControlSignal::Waiting);
    s.on_frame_drawn(true, 0, 0);
    assert!(s.on_redraw_events_cleared() == ControlSignal::Polling);
    assert!(s.on_redraw_events_cleared() == ControlSignal::Waiting);
}

#[test]
fn close_request_ends_the_loop() {
    let mut s = RenderScheduler::new(0);
    s.on_window_event(&WindowEvent::CloseRequested, 0);
    assert!(s.is_exiting());
    assert!(s.on_redraw_events_cleared() == ControlSignal::Exiting);
}

#[test]
fn zero_size_resize_minimizes_and_hides() {
    let mut s = RenderScheduler::new(0);
    let hide = s.on_window_event(&WindowEvent::Resized { width: 0, height: 0 }, 0);
    assert!(hide);
    let no_hide = s.on_window_event(&WindowEvent::Resized { width: 800, height: 600 }, 0);
    assert!(!no_hide);
}

#[test]
fn cursor_events_track_the_mouse() {
    let mut s = RenderScheduler::new(0);
    assert!(!s.on_window_event(&WindowEvent::CursorEntered, 0));
    assert!(!s.on_window_event(&WindowEvent::CursorLeft, 0));
    assert!(!s.on_window_event(&WindowEvent::Other, 0));
    assert!(!s.is_exiting());
}

#[test]
fn new_events_report_elapsed_delta() {
    let mut s = RenderScheduler::new(100);
    assert_eq!(s.on_new_events(116), 16);
    assert_eq!(s.on_new_events(116), 0);
    assert_eq!(s.on_new_events(216), 100);
}
