use agent_harness::skeleton::face_loop::{FaceAction, FaceEvent, FaceInput, FaceLoop, FaceWorkKind};
use agent_harness::skeleton::protocol::DisplayItem;

fn line(text: &str) -> FaceEvent {
    FaceEvent::Input(Some(FaceInput::Line(text.to_string())))
}

#[test]
fn input_waits_while_the_face_works_and_comes_back_in_order() {
    let mut face = FaceLoop::new();
    let actions = face.step(line("/open notes.md"));
    assert!(matches!(actions.as_slice(), [FaceAction::Apply(FaceInput::Line(l))] if l == "/open notes.md"));
    face.applied(false, Some(FaceWorkKind::Open));
    assert!(face.step(line("first")).is_empty());
    assert!(face.step(line("second")).is_empty());
    assert!(face.next_deferred().is_none());
    let done = face.step(FaceEvent::WorkDone { resume_input: false });
    assert!(done.is_empty());
    assert!(matches!(face.next_deferred(), Some(FaceInput::Line(l)) if l == "first"));
    assert!(matches!(face.next_deferred(), Some(FaceInput::Line(l)) if l == "second"));
    assert!(face.next_deferred().is_none());
}

#[test]
fn display_items_wait_for_the_editor_and_the_pump_resumes_after_a_dump() {
    let mut face = FaceLoop::new();
    face.applied(false, Some(FaceWorkKind::Dump));
    assert!(face.step(FaceEvent::Display(Some(DisplayItem::RequestStarted { request_id: 3 }))).is_empty());
    assert_eq!(face.buffered.len(), 1);
    let done = face.step(FaceEvent::WorkDone { resume_input: true });
    assert!(matches!(
        done.as_slice(),
        [FaceAction::Show(DisplayItem::RequestStarted { request_id: 3 }), FaceAction::ResumeInput]
    ));
    assert!(face.buffered.is_empty() && face.work.is_none());
    // Without the editor, an item is shown at once.
    assert!(matches!(
        face.step(FaceEvent::Display(Some(DisplayItem::RequestStarted { request_id: 4 }))).as_slice(),
        [FaceAction::Show(_)]
    ));
}

#[test]
fn a_session_closed_during_work_ends_the_face_when_the_work_does() {
    let mut face = FaceLoop::new();
    face.applied(false, Some(FaceWorkKind::Open));
    assert!(face.step(FaceEvent::Display(Some(DisplayItem::SessionClosed))).is_empty());
    assert!(face.session_closed && !face.reads_input() && !face.reads_display());
    assert!(matches!(face.step(FaceEvent::WorkDone { resume_input: false }).as_slice(), [FaceAction::Exit]));
    let mut idle = FaceLoop::new();
    assert!(matches!(idle.step(FaceEvent::Display(Some(DisplayItem::SessionClosed))).as_slice(), [FaceAction::Exit]));
    assert!(matches!(idle.step(FaceEvent::Display(None)).as_slice(), [FaceAction::Stop]));
}

#[test]
fn the_end_of_input_is_applied_or_remembered() {
    let mut face = FaceLoop::new();
    assert!(matches!(face.step(FaceEvent::Input(None)).as_slice(), [FaceAction::Apply(FaceInput::Eof)]));
    let mut busy = FaceLoop::new();
    busy.applied(false, Some(FaceWorkKind::Dump));
    assert!(busy.step(FaceEvent::Input(None)).is_empty());
    assert!(busy.input_finished);
}
