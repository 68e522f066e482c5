use nv1_ros::decimal::decimal_string;
use nv1_ros::pipeline::gstreamer_pipeline;
use nv1_ros::vision::{largest_component, ComponentStats, HsvThreshold, Rect};

fn stat(left: i32, top: i32, width: i32, height: i32, area: i32) -> ComponentStats {
    ComponentStats { left, top, width, height, area }
}

#[test]
fn pipeline_for_front_camera() {
    let s = gstreamer_pipeline(1, 720, 480, 720, 480, 60, 2);
    assert_eq!(
        s,
        "nvarguscamerasrc sensor-id=1 ! video/x-raw(memory:NVMM), width=(int)720, height=(int)480, framerate=(fraction)60/1 ! nvvidconv flip-method=2 ! video/x-raw, width=(int)720, height=(int)480, format=(string)BGRx ! videoconvert ! video/x-raw, format=(string)BGR ! appsink"
    );
}

#[test]
fn pipeline_orders_arguments_like_format() {
    let s = gstreamer_pipeline(0, 1, 2, 3, 4, 5, 6);
    let expected = format!(
        "nvarguscamerasrc sensor-id={} ! video/x-raw(memory:NVMM), width=(int){}, height=(int){}, framerate=(fraction){}/1 ! nvvidconv flip-method={} ! video/x-raw, width=(int){}, height=(int){}, format=(string)BGRx ! videoconvert ! video/x-raw, format=(string)BGR ! appsink",
        0, 1, 2, 5, 6, 3, 4
    );
    assert_eq!(s, expected);
}

#[test]
fn decimal_matches_to_string() {
    for n in [0u32, 7, 9, 10, 99, 100, 1234567, u32::MAX] {
        assert_eq!(decimal_string(n), n.to_string());
    }
}

#[test]
fn largest_component_none_without_foreground() {
    assert_eq!(largest_component(&vec![]), None);
    assert_eq!(largest_component(&vec![stat(0, 0, 720, 480, 345600)]), None);
    assert_eq!(
        largest_component(&vec![stat(0, 0, 720, 480, 1000), stat(1, 2, 3, 4, 0), stat(5, 6, 7, 8, -3)]),
        None
    );
}

#[test]
fn largest_component_skips_background_row() {
    let stats = vec![stat(0, 0, 720, 480, 900000), stat(10, 20, 30, 40, 50)];
    assert_eq!(largest_component(&stats), Some(Rect { x: 10, y: 20, width: 30, height: 40 }));
}

#[test]
fn largest_component_picks_largest_first_on_tie() {
    let stats = vec![
        stat(0, 0, 720, 480, 10),
        stat(1, 1, 1, 1, 5),
        stat(2, 2, 2, 2, 9),
        stat(3, 3, 3, 3, 9),
        stat(4, 4, 4, 4, 7),
    ];
    assert_eq!(largest_component(&stats), Some(Rect { x: 2, y: 2, width: 2, height: 2 }));
}

#[test]
fn center_x_rounds_toward_zero() {
    assert_eq!(Rect { x: 10, y: 0, width: 5, height: 1 }.center_x(), 12);
    assert_eq!(Rect { x: 10, y: 0, width: -5, height: 1 }.center_x(), 8);
    assert_eq!(Rect { x: 300, y: 7, width: 120, height: 60 }.center_x(), 360);
}

#[test]
fn threshold_starts_at_zero() {
    let t = HsvThreshold::new();
    assert_eq!(t, HsvThreshold { h_min: 0, s_min: 0, v_min: 0, h_max: 0, s_max: 0, v_max: 0 });
}

#[test]
fn threshold_takes_six_byte_messages_only() {
    let mut t = HsvThreshold::new();
    assert!(t.apply_message(&vec![1, 2, 3, 4, 5, 6]));
    assert_eq!(t, HsvThreshold { h_min: 1, s_min: 2, v_min: 3, h_max: 4, s_max: 5, v_max: 6 });
    assert!(!t.apply_message(&vec![9, 9, 9, 9, 9]));
    assert!(!t.apply_message(&vec![9, 9, 9, 9, 9, 9, 9]));
    assert!(!t.apply_message(&vec![]));
    assert_eq!(t, HsvThreshold { h_min: 1, s_min: 2, v_min: 3, h_max: 4, s_max: 5, v_max: 6 });
}

#[test]
fn wider_bounds_keep_a_detection_at_least_as_large() {
    let narrow = vec![stat(0, 0, 720, 480, 1000), stat(5, 5, 4, 4, 12)];
    let wide = vec![stat(0, 0, 720, 480, 900), stat(4, 4, 6, 6, 30), stat(100, 100, 2, 2, 4)];
    let r1 = largest_component(&narrow).unwrap();
    let r2 = largest_component(&wide).unwrap();
    assert_eq!(r1, Rect { x: 5, y: 5, width: 4, height: 4 });
    assert_eq!(r2, Rect { x: 4, y: 4, width: 6, height: 6 });
}

#[test]
fn different_arguments_give_different_pipelines() {
    assert_ne!(gstreamer_pipeline(1, 720, 480, 720, 480, 60, 2), gstreamer_pipeline(1, 720, 480, 720, 480, 6, 2));
    assert_ne!(gstreamer_pipeline(1, 72, 480, 720, 480, 60, 2), gstreamer_pipeline(1, 720, 480, 720, 480, 60, 2));
}
