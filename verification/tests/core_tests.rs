use cross_platform_screenshot_rust::capture_core::{
    AnnotationModel, AppEvent, AppState, CommandHistory, ScreenshotStateMachine,
};
use cross_platform_screenshot_rust::platform::Color;
use cross_platform_screenshot_rust::png::{adler32, crc32, encode_rgba_png, zlib_store};

#[test]
fn encodes_png_signature_and_chunks() {
    let pixels = vec![255, 0, 0, 255, 0, 255, 0, 255];
    let png = encode_rgba_png(2, 1, &pixels).unwrap();
    assert_eq!(&png[..8], b"\x89PNG\r\n\x1a\n");
    assert!(png.windows(4).any(|w| w == b"IHDR"));
    assert!(png.windows(4).any(|w| w == b"IDAT"));
    assert!(png.windows(4).any(|w| w == b"IEND"));
}

#[test]
fn state_machine_matches_capture_flow() {
    let mut sm = ScreenshotStateMachine::default();
    assert_eq!(sm.current_state(), AppState::Idle);
    sm.transition(AppEvent::HotkeyTriggered);
    assert_eq!(sm.current_state(), AppState::Capturing);
    sm.transition(AppEvent::FrameAcquired);
    assert_eq!(sm.current_state(), AppState::Selecting);
    sm.transition(AppEvent::MouseUp);
    assert_eq!(sm.current_state(), AppState::Annotating);
    sm.transition(AppEvent::SaveRequested);
    assert_eq!(sm.current_state(), AppState::Saving);
    sm.transition(AppEvent::SaveComplete);
    assert_eq!(sm.current_state(), AppState::Idle);
}

#[test]
fn invalid_transition_stays_in_current_state() {
    let mut sm = ScreenshotStateMachine::default();
    sm.transition(AppEvent::MouseUp);
    assert_eq!(sm.current_state(), AppState::Idle);
}

#[test]
fn cancel_returns_to_idle_from_every_unsaved_phase() {
    let mut sm = ScreenshotStateMachine::default();
    sm.transition(AppEvent::HotkeyTriggered);
    assert_eq!(sm.transition(AppEvent::Escape), AppState::Idle);
    sm.transition(AppEvent::HotkeyTriggered);
    sm.transition(AppEvent::FrameAcquired);
    assert!(sm.is_selecting());
    assert_eq!(sm.transition(AppEvent::CancelRequested), AppState::Idle);
    sm.transition(AppEvent::HotkeyTriggered);
    sm.transition(AppEvent::FrameAcquired);
    sm.transition(AppEvent::MouseUp);
    assert!(sm.is_annotating());
    assert_eq!(sm.transition(AppEvent::MouseMove), AppState::Annotating);
    assert_eq!(sm.transition(AppEvent::CopyRequested), AppState::Saving);
    assert_eq!(sm.transition(AppEvent::Escape), AppState::Saving);
    assert_eq!(sm.transition(AppEvent::SaveComplete), AppState::Idle);
}

#[test]
fn checksums_match_reference_values() {
    assert_eq!(crc32(b"123456789"), 0xCBF4_3926);
    assert_eq!(crc32(b""), 0);
    assert_eq!(adler32(b"Wikipedia"), 0x11E6_0398);
    assert_eq!(adler32(b""), 1);
}

#[test]
fn zlib_store_frames_empty_and_long_inputs() {
    assert_eq!(zlib_store(&[]), vec![0x78, 0x01, 0x01, 0x00, 0x00, 0xff, 0xff, 0x00, 0x00, 0x00, 0x01]);
    let data = vec![7u8; 70_000];
    let out = zlib_store(&data);
    assert_eq!(out.len(), 2 + 5 + 65_535 + 5 + (70_000 - 65_535) + 4);
    assert_eq!(&out[2..7], &[0x00, 0xff, 0xff, 0x00, 0x00]);
    let second = 2 + 5 + 65_535;
    let rest = (70_000 - 65_535) as u16;
    assert_eq!(out[second], 0x01);
    assert_eq!(&out[second + 1..second + 3], &rest.to_le_bytes());
    assert_eq!(&out[second + 3..second + 5], &(!rest).to_le_bytes());
    assert_eq!(&out[out.len() - 4..], &adler32(&data).to_be_bytes());
}

#[test]
fn png_rejects_bad_sizes_and_lays_out_chunks() {
    assert!(encode_rgba_png(0, 1, &[]).is_none());
    assert!(encode_rgba_png(1, -1, &[]).is_none());
    assert!(encode_rgba_png(1, 1, &[1, 2, 3]).is_none());
    let png = encode_rgba_png(1, 1, &[1, 2, 3, 4]).unwrap();
    // signature + IHDR(25) + IDAT(12 + 2 + 5 + 5 + 4) + IEND(12)
    assert_eq!(png.len(), 8 + 25 + 28 + 12);
    assert_eq!(&png[8..16], &[0, 0, 0, 13, b'I', b'H', b'D', b'R']);
    assert_eq!(&png[16..29], &[0, 0, 0, 1, 0, 0, 0, 1, 8, 6, 0, 0, 0]);
    assert_eq!(&png[29..33], &crc32(&png[12..29]).to_be_bytes());
    let idat_payload = &png[41..57];
    assert_eq!(&idat_payload[..7], &[0x78, 0x01, 0x01, 5, 0, 0xfa, 0xff]);
    assert_eq!(&idat_payload[7..12], &[0, 1, 2, 3, 4]);
    assert_eq!(&png[png.len() - 12..], &[0, 0, 0, 0, b'I', b'E', b'N', b'D', 0xae, 0x42, 0x60, 0x82]);
}

#[test]
fn undo_and_redo_walk_the_history() {
    let mut model: AnnotationModel<u32> = AnnotationModel::default();
    let mut history: CommandHistory<u32> = CommandHistory::default();
    assert!(!history.can_undo());
    history.execute(1, &mut model);
    history.execute(2, &mut model);
    assert_eq!(model.annotations(), &[1, 2]);
    history.undo(&mut model);
    assert_eq!(model.annotations(), &[1]);
    assert!(history.can_redo());
    history.redo(&mut model);
    assert_eq!(model.annotations(), &[1, 2]);
    history.undo(&mut model);
    history.execute(3, &mut model);
    assert!(!history.can_redo());
    assert_eq!(model.annotations(), &[1, 3]);
    history.undo(&mut model);
    history.undo(&mut model);
    history.undo(&mut model);
    assert_eq!(model.count(), 0);
    history.clear();
    assert!(!history.can_undo() && !history.can_redo());
}

#[test]
fn annotation_model_removes_by_index() {
    let mut model: AnnotationModel<char> = AnnotationModel::default();
    model.add_annotation('a');
    model.add_annotation('b');
    model.add_annotation('c');
    model.remove_annotation(5);
    assert_eq!(model.count(), 3);
    model.remove_annotation(1);
    assert_eq!(model.annotations(), &['a', 'c']);
    assert_eq!(model.remove_last(), Some('c'));
    model.clear();
    assert_eq!(model.remove_last(), None);
}

#[derive(Clone, Debug, PartialEq)]
struct PointF {
    x: f32,
    y: f32,
}

#[derive(Clone, Debug, PartialEq)]
struct FreehandAnnotation {
    points: Vec<PointF>,
    color: Color,
    thickness: f32,
}

#[derive(Clone, Debug, PartialEq)]
enum Annotation {
    Freehand(FreehandAnnotation),
    Line,
}

#[test]
fn freehand_annotation_model_stores_points() {
    let mut model = AnnotationModel::default();
    model.add_annotation(Annotation::Freehand(FreehandAnnotation {
        points: vec![
            PointF { x: 3.0, y: 4.0 },
            PointF { x: 8.0, y: 9.0 },
            PointF { x: 13.0, y: 10.0 },
        ],
        color: Color::rgba(255, 68, 68, 255),
        thickness: 3.0,
    }));
    assert_eq!(model.count(), 1);
    let Annotation::Freehand(stored) = &model.annotations()[0] else {
        panic!("expected freehand annotation");
    };
    assert_eq!(stored.points.len(), 3);
    assert_eq!(stored.points[0].x, 3.0);
    assert_eq!(stored.points[2].y, 10.0);
    assert_eq!(stored.thickness, 3.0);
    assert_ne!(model.annotations()[0], Annotation::Line);
}
