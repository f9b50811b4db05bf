use rustracer::controls::{InputEvent, MoveKeys, BACKWARD_SCANCODE, DOWN_SCANCODE, FORWARD_SCANCODE, LEFT_SCANCODE, RIGHT_SCANCODE, UP_SCANCODE};
use rustracer::frame::{gpu_frame_time_nanos, FrameStats, InFlightFrames, Queue, StatsDisplayMode, MAX_LOG_SIZE, ONE_MILLI_NANOS, ONE_SEC_NANOS};
use rustracer::frame_loop::{LoopAction, LoopEvent, LoopState};
use rustracer::order::stable_order_by_key;
use rustracer::resource::{find_gltf, has_suffix, load_cubemap, load_model};

#[test]
fn stats_display_cycles_through_three_modes() {
    let m = StatsDisplayMode::Off;
    assert_eq!(m.next(), StatsDisplayMode::Basic);
    assert_eq!(m.next().next(), StatsDisplayMode::Full);
    assert_eq!(m.next().next().next(), StatsDisplayMode::Off);
    for m in [StatsDisplayMode::Off, StatsDisplayMode::Basic, StatsDisplayMode::Full] {
        assert_eq!(m.next().next().next(), m);
    }
    assert!(!StatsDisplayMode::Off.shows_frame_stats());
    assert!(StatsDisplayMode::Basic.shows_frame_stats());
    assert!(!StatsDisplayMode::Basic.shows_graphs());
    assert!(StatsDisplayMode::Full.shows_graphs());
}

#[test]
fn full_log_drops_its_oldest_entry() {
    let mut q: Queue<u32> = Queue::new(3);
    for v in 1..=3 {
        q.push(v);
    }
    assert_eq!(q.0, vec![1, 2, 3]);
    q.push(4);
    assert_eq!(q.0, vec![2, 3, 4]);
    assert_eq!(q.1, 3);
    q.push(5);
    assert_eq!(q.0, vec![3, 4, 5]);
}

#[test]
fn log_stays_within_capacity() {
    let mut q: Queue<u32> = Queue::new(2);
    for v in 0..10 {
        q.push(v);
        assert!(q.0.len() <= 2);
        assert_eq!(*q.0.last().unwrap(), v);
    }
}

#[test]
fn frames_in_flight_wrap_around() {
    let mut f = InFlightFrames::new(vec!['a', 'b', 'c']);
    assert_eq!(f.current_frame, 0);
    assert_eq!(*f.current(), 'a');
    f.next();
    assert_eq!(*f.current(), 'b');
    f.next();
    f.next();
    assert_eq!(f.current_frame, 0);
    assert_eq!(*f.current(), 'a');
}

#[test]
fn frame_stats_tick_logs_and_counts() {
    let mut s = FrameStats::default();
    assert_eq!(s.frame_time_ms_log.1, MAX_LOG_SIZE);
    s.set_frame_time(16 * ONE_MILLI_NANOS);
    s.set_frame_time(20 * ONE_MILLI_NANOS);
    s.set_gpu_time_time(5 * ONE_MILLI_NANOS);
    assert_eq!(s.previous_frame_time, 16 * ONE_MILLI_NANOS);
    s.tick();
    assert_eq!(s.cpu_time, 11 * ONE_MILLI_NANOS);
    assert_eq!(s.frame_time_ms_log.0, vec![16]);
    assert_eq!(s.cpu_time_ms_log.0, vec![11]);
    assert_eq!(s.gpu_time_ms_log.0, vec![5]);
    assert_eq!((s.total_frame_count, s.frame_count, s.fps_counter), (1, 1, 0));
    assert_eq!(s.timer, 20 * ONE_MILLI_NANOS);
}

#[test]
fn frame_stats_report_fps_each_second() {
    let mut s = FrameStats::default();
    s.set_frame_time(400 * ONE_MILLI_NANOS);
    for _ in 0..2 {
        s.tick();
    }
    assert_eq!((s.frame_count, s.fps_counter), (2, 0));
    s.tick();
    assert_eq!((s.frame_count, s.fps_counter), (0, 3));
    assert_eq!(s.timer, 1200 * ONE_MILLI_NANOS - ONE_SEC_NANOS);
    assert_eq!(s.total_frame_count, 3);
}

#[test]
fn cpu_time_saturates_at_zero() {
    let mut s = FrameStats::default();
    s.set_frame_time(ONE_MILLI_NANOS);
    s.set_frame_time(ONE_MILLI_NANOS);
    s.set_gpu_time_time(3 * ONE_MILLI_NANOS);
    s.tick();
    assert_eq!(s.cpu_time, 0);
}

#[test]
fn gpu_time_is_the_timestamp_difference() {
    assert_eq!(gpu_frame_time_nanos(&[100, 350]), 250);
    assert_eq!(gpu_frame_time_nanos(&[350, 100]), 0);
}

#[test]
fn suffixes() {
    assert!(has_suffix("scene.gltf", ".gltf"));
    assert!(has_suffix(".gltf", ".gltf"));
    assert!(!has_suffix("gltf", ".gltf"));
    assert!(!has_suffix("scene.glb", ".gltf"));
    assert!(has_suffix("anything", ""));
}

#[test]
fn first_gltf_file_is_found() {
    let names: Vec<String> = ["readme.txt", "model.glb", "model.gltf"].iter().map(|s| s.to_string()).collect();
    assert_eq!(find_gltf(&names), Some(1));
    let none: Vec<String> = ["a.png", "b.bin"].iter().map(|s| s.to_string()).collect();
    assert_eq!(find_gltf(&none), None);
}

#[test]
fn cubemap_faces_are_the_images() {
    let names: Vec<String> = ["posx.png", "notes.txt", "negx.jpg", "posy.png", "negy.png", "posz.jpg", "negz.png"]
        .iter()
        .map(|s| s.to_string())
        .collect();
    assert_eq!(load_cubemap(&names), vec![0, 2, 3, 4, 5, 6]);
}

#[test]
fn model_search_keeps_the_last_find() {
    assert_eq!(load_model(&[]), None);
    assert_eq!(load_model(&[[false, false], [false, true]]), Some((1, 1)));
    assert_eq!(load_model(&[[false, true], [true, false]]), Some((1, 0)));
    assert_eq!(load_model(&[[true, false], [false, true]]), Some((0, 0)));
    assert_eq!(load_model(&[[false, true], [false, true]]), Some((0, 1)));
}

#[test]
fn stable_order_groups_by_key() {
    assert_eq!(stable_order_by_key(&vec![2, 0, 1, 0, 2], 3), vec![1, 3, 2, 0, 4]);
    assert_eq!(stable_order_by_key(&vec![], 3), Vec::<usize>::new());
}

#[test]
fn movement_keys_follow_key_state() {
    let k = MoveKeys::default();
    assert_eq!(k.move_axes(), [0, 0, 0]);
    let k = k.handle_event(InputEvent::Key { scancode: FORWARD_SCANCODE, pressed: true });
    assert!(k.go_forward);
    assert_eq!(k.move_axes(), [1, 0, 0]);
    let k = k.handle_event(InputEvent::Key { scancode: BACKWARD_SCANCODE, pressed: true });
    assert_eq!(k.move_axes(), [0, 0, 0]);
    let k = k
        .handle_event(InputEvent::Key { scancode: FORWARD_SCANCODE, pressed: false })
        .handle_event(InputEvent::Key { scancode: LEFT_SCANCODE, pressed: true })
        .handle_event(InputEvent::Key { scancode: UP_SCANCODE, pressed: true });
    assert_eq!(k.move_axes(), [-1, -1, 1]);
    let k = k
        .handle_event(InputEvent::Key { scancode: RIGHT_SCANCODE, pressed: true })
        .handle_event(InputEvent::Key { scancode: DOWN_SCANCODE, pressed: true });
    assert_eq!(k.move_axes(), [-1, 0, 0]);
    let same = k.handle_event(InputEvent::Key { scancode: 1, pressed: true });
    assert_eq!(same, k);
}

#[test]
fn right_mouse_button_looks_around() {
    let k = MoveKeys::default().handle_event(InputEvent::MouseButton { right: true, pressed: true });
    assert!(k.look_around);
    let k2 = k.handle_event(InputEvent::MouseButton { right: false, pressed: false });
    assert!(k2.look_around);
    let k3 = k2.handle_event(InputEvent::MouseButton { right: true, pressed: false });
    assert!(!k3.look_around);
    assert_eq!(k3.handle_event(InputEvent::Other), k3);
}

#[test]
fn repeated_key_events_change_nothing_more() {
    let e = InputEvent::Key { scancode: FORWARD_SCANCODE, pressed: true };
    let once = MoveKeys::default().handle_event(e);
    assert_eq!(once.handle_event(e), once);
}

#[test]
fn resize_rebuilds_the_swapchain_before_the_next_draw() {
    let s = LoopState::new();
    assert!(!s.swapchain_dirty);
    assert_eq!(s.stats_mode, StatsDisplayMode::Basic);
    let (s, a) = s.step(LoopEvent::Redraw { width: 800, height: 600 });
    assert_eq!(a, LoopAction::Draw);
    let (s, a) = s.step(LoopEvent::Resized);
    assert_eq!(a, LoopAction::Nothing);
    assert!(s.swapchain_dirty);
    let (s, a) = s.step(LoopEvent::Redraw { width: 0, height: 600 });
    assert_eq!(a, LoopAction::Nothing);
    let (s, a) = s.step(LoopEvent::Redraw { width: 1024, height: 768 });
    assert_eq!(a, LoopAction::RecreateSwapchainAndDraw { width: 1024, height: 768 });
    let (s, _) = s.step(LoopEvent::Drawn { swapchain_out_of_date: false });
    assert!(!s.swapchain_dirty);
    let (s, _) = s.step(LoopEvent::Drawn { swapchain_out_of_date: true });
    assert!(s.swapchain_dirty);
}

#[test]
fn loop_input_events() {
    let s = LoopState::new();
    let (s, a) = s.step(LoopEvent::StatsKey { pressed: true });
    assert_eq!((s.stats_mode, a), (StatsDisplayMode::Full, LoopAction::Nothing));
    let (s, _) = s.step(LoopEvent::StatsKey { pressed: false });
    assert_eq!(s.stats_mode, StatsDisplayMode::Full);
    assert_eq!(s.step(LoopEvent::RightMouse { pressed: true }).1, LoopAction::SetCursorVisible(false));
    assert_eq!(s.step(LoopEvent::RightMouse { pressed: false }).1, LoopAction::SetCursorVisible(true));
    assert_eq!(s.step(LoopEvent::CloseRequested).1, LoopAction::Exit);
    assert_eq!(s.step(LoopEvent::LoopDestroyed).1, LoopAction::WaitForGpu);
    assert_eq!(s.step(LoopEvent::Other), (s, LoopAction::Nothing));
}
