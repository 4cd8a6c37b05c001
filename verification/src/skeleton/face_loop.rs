//! The face's loop as decisions: while its own work (a dump in the editor,
//! a file being opened) is in flight, typed input waits its turn, display
//! items are held back as long as the editor owns the terminal, and a
//! session that closes meanwhile ends the face only once that work is
//! done. Reading the terminal, running the editor and reading the file
//! stay with the caller, which hands each event in and performs each
//! action that comes back.
use vstd::prelude::*;
use crate::skeleton::protocol::DisplayItem;

verus! {

/// What the terminal's line pump delivers.
pub enum FaceInput {
    Line(String),
    Eof,
    Failed(String),
}

/// The face's own work.
#[derive(PartialEq, Eq, Structural)]
pub enum FaceWorkKind {
    Dump,
    Open,
}

/// What happens to the face.
pub enum FaceEvent {
    /// The line pump delivered, or (`None`) stopped delivering.
    Input(Option<FaceInput>),
    /// The brain sent a display item, or (`None`) its channel closed.
    Display(Option<DisplayItem>),
    /// The face's own work ended; whether the line pump may resume.
    WorkDone { resume_input: bool },
}

/// What the face is to do.
pub enum FaceAction {
    /// Act on the input now.
    Apply(FaceInput),
    Show(DisplayItem),
    /// Let the line pump read again (after a dump).
    ResumeInput,
    /// The session closed: say so and stop.
    Exit,
    /// The display channel closed: stop.
    Stop,
}

/// The face's state between events.
pub struct FaceLoop {
    pub input_finished: bool,
    /// Input that arrived while work was in flight, oldest first.
    pub deferred: Vec<FaceInput>,
    pub work: Option<FaceWorkKind>,
    /// Display items held while the editor owns the terminal.
    pub buffered: Vec<DisplayItem>,
    /// The session closed while work was in flight.
    pub session_closed: bool,
}

/// Each held item, shown.
pub open spec fn shows(items: Seq<DisplayItem>) -> Seq<FaceAction> {
    items.map_values(|d: DisplayItem| FaceAction::Show(d))
}

impl FaceLoop {
    pub fn new() -> (r: FaceLoop)
        ensures
            !r.input_finished,
            r.deferred@.len() == 0,
            r.work is None,
            r.buffered@.len() == 0,
            !r.session_closed,
    {
        FaceLoop { input_finished: false, deferred: Vec::new(), work: None, buffered: Vec::new(), session_closed: false }
    }

    /// Whether the face still reads the line pump.
    pub fn reads_input(&self) -> (r: bool)
        ensures
            r == (!self.input_finished && !self.session_closed),
    {
        !self.input_finished && !self.session_closed
    }

    /// Whether the face still reads display items.
    pub fn reads_display(&self) -> (r: bool)
        ensures
            r == !self.session_closed,
    {
        !self.session_closed
    }

    /// The next input to act on: the oldest deferred one, once no work is
    /// in flight.
    pub fn next_deferred(&mut self) -> (r: Option<FaceInput>)
        ensures
            old(self).work is None && old(self).deferred@.len() > 0 ==> r == Some(old(self).deferred@[0])
                && final(self).deferred@ == old(self).deferred@.drop_first(),
            !(old(self).work is None && old(self).deferred@.len() > 0) ==> r is None
                && final(self).deferred@ == old(self).deferred@,
            final(self).work == old(self).work,
            final(self).buffered@ == old(self).buffered@,
            final(self).input_finished == old(self).input_finished,
            final(self).session_closed == old(self).session_closed,
    {
        if self.work.is_none() && self.deferred.len() > 0 {
            let first = self.deferred.remove(0);
            assert(self.deferred@ =~= old(self).deferred@.drop_first());
            Some(first)
        } else {
            None
        }
    }

    /// What applying an input left: whether input is finished, and the
    /// work it started, if any.
    pub fn applied(&mut self, finished: bool, started: Option<FaceWorkKind>)
        ensures
            final(self).input_finished == finished,
            final(self).work == started,
            final(self).deferred@ == old(self).deferred@,
            final(self).buffered@ == old(self).buffered@,
            final(self).session_closed == old(self).session_closed,
    {
        self.input_finished = finished;
        self.work = started;
    }

    /// The face's decision on one event.
    pub fn step(&mut self, event: FaceEvent) -> (actions: Vec<FaceAction>)
        ensures
            match event {
                FaceEvent::Input(Some(i)) => if old(self).work is Some {
                    final(self).deferred@ == old(self).deferred@.push(i) && actions@.len() == 0
                        && final(self).input_finished == old(self).input_finished
                } else {
                    actions@ == seq![FaceAction::Apply(i)] && final(self).deferred@ == old(self).deferred@
                        && final(self).input_finished == old(self).input_finished
                },
                FaceEvent::Input(None) => if old(self).work is Some {
                    final(self).input_finished && actions@.len() == 0 && final(self).deferred@ == old(self).deferred@
                } else {
                    actions@ == seq![FaceAction::Apply(FaceInput::Eof)] && final(self).deferred@ == old(self).deferred@
                        && final(self).input_finished == old(self).input_finished
                },
                FaceEvent::Display(Some(DisplayItem::SessionClosed)) => if old(self).work is Some {
                    final(self).session_closed && actions@.len() == 0 && final(self).buffered@ == old(self).buffered@
                } else {
                    actions@ == seq![FaceAction::Exit] && final(self).buffered@ == old(self).buffered@
                        && final(self).session_closed == old(self).session_closed
                },
                FaceEvent::Display(Some(d)) => if old(self).work == Some(FaceWorkKind::Dump) {
                    final(self).buffered@ == old(self).buffered@.push(d) && actions@.len() == 0
                } else {
                    actions@ == seq![FaceAction::Show(d)] && final(self).buffered@ == old(self).buffered@
                },
                FaceEvent::Display(None) => if old(self).work is Some {
                    final(self).session_closed && actions@.len() == 0 && final(self).buffered@ == old(self).buffered@
                } else {
                    actions@ == seq![FaceAction::Stop] && final(self).buffered@ == old(self).buffered@
                        && final(self).session_closed == old(self).session_closed
                },
                FaceEvent::WorkDone { resume_input } => {
                    &&& final(self).work is None
                    &&& final(self).buffered@.len() == 0
                    &&& final(self).session_closed == old(self).session_closed
                    &&& final(self).deferred@ == old(self).deferred@
                    &&& final(self).input_finished == old(self).input_finished
                    &&& actions@ == shows(old(self).buffered@)
                        + (if resume_input { seq![FaceAction::ResumeInput] } else { Seq::empty() })
                        + (if old(self).session_closed { seq![FaceAction::Exit] } else { Seq::empty() })
                },
            },
            !(event is WorkDone) ==> final(self).work == old(self).work,
            event is Input ==> final(self).buffered@ == old(self).buffered@ && final(self).session_closed == old(self).session_closed,
            event is Display ==> final(self).deferred@ == old(self).deferred@ && final(self).input_finished == old(self).input_finished,
            event matches FaceEvent::Display(Some(d)) && !(d is SessionClosed) ==> final(self).session_closed == old(self).session_closed,
    {
        let mut actions: Vec<FaceAction> = Vec::new();
        match event {
            FaceEvent::Input(Some(i)) => {
                if self.work.is_some() {
                    self.deferred.push(i);
                } else {
                    actions.push(FaceAction::Apply(i));
                }
            },
            FaceEvent::Input(None) => {
                if self.work.is_some() {
                    self.input_finished = true;
                } else {
                    actions.push(FaceAction::Apply(FaceInput::Eof));
                }
            },
            FaceEvent::Display(Some(DisplayItem::SessionClosed)) => {
                if self.work.is_some() {
                    self.session_closed = true;
                } else {
                    actions.push(FaceAction::Exit);
                }
            },
            FaceEvent::Display(Some(d)) => {
                if self.work == Some(FaceWorkKind::Dump) {
                    self.buffered.push(d);
                } else {
                    actions.push(FaceAction::Show(d));
                }
            },
            FaceEvent::Display(None) => {
                if self.work.is_some() {
                    self.session_closed = true;
                } else {
                    actions.push(FaceAction::Stop);
                }
            },
            FaceEvent::WorkDone { resume_input } => {
                self.work = None;
                let ghost held = self.buffered@;
                while self.buffered.len() > 0
                    invariant
                        shows(held) == actions@ + shows(self.buffered@),
                        held == old(self).buffered@,
                        self.work is None,
                        self.session_closed == old(self).session_closed,
                        self.deferred@ == old(self).deferred@,
                        self.input_finished == old(self).input_finished,
                    decreases self.buffered@.len(),
                {
                    let ghost before = self.buffered@;
                    let d = self.buffered.remove(0);
                    assert(shows(before) =~= seq![FaceAction::Show(d)] + shows(self.buffered@));
                    actions.push(FaceAction::Show(d));
                    assert(actions@ + shows(self.buffered@) =~= shows(held));
                }
                assert(actions@ =~= shows(held));
                if resume_input {
                    actions.push(FaceAction::ResumeInput);
                }
                if self.session_closed {
                    actions.push(FaceAction::Exit);
                }
                assert(actions@ =~= shows(held) + (if resume_input { seq![FaceAction::ResumeInput] } else { Seq::empty() })
                    + (if self.session_closed { seq![FaceAction::Exit] } else { Seq::empty() }));
            },
        }
        actions
    }
}

} // verus!
