//! The closed sets of kinds and states a row may carry, the constraints the
//! store holds every row to, and the state transitions of programs and links.

use vstd::prelude::*;
use vstd::string::StringExecFns;
use crate::models::{text_is, BpfLink, BpfLinkView, BpfProgram, BpfProgramView};

verus! {

/// A rule that every stored row obeys.
#[derive(Debug, Clone, Copy, PartialEq, Eq, Structural)]
pub enum Constraint {
    /// A program's kind is one of the known kinds.
    ProgramKind,
    /// A program's state is one of the known states.
    ProgramState,
    /// A program's location is a file with its path or an image with its
    /// reference.
    ProgramLocation,
    /// A link's state is one of the known states.
    LinkState,
}

/// The kinds of program the store knows.
pub open spec fn is_program_kind(s: Seq<char>) -> bool {
    ||| s == "xdp"@
    ||| s == "tc"@
    ||| s == "tcx"@
    ||| s == "tracepoint"@
    ||| s == "kprobe"@
    ||| s == "uprobe"@
    ||| s == "fentry"@
    ||| s == "fexit"@
}

/// How far along its lifecycle a program in state `s` is: `pre_load`, then
/// `loaded`, then `attached`. No other text is a state.
pub open spec fn program_state_rank(s: Seq<char>) -> Option<nat> {
    if s == "pre_load"@ {
        Some(0)
    } else if s == "loaded"@ {
        Some(1)
    } else if s == "attached"@ {
        Some(2)
    } else {
        None
    }
}

/// How far along its lifecycle a link in state `s` is: `pre_attach`, then
/// `attached`.
pub open spec fn link_state_rank(s: Seq<char>) -> Option<nat> {
    if s == "pre_attach"@ {
        Some(0)
    } else if s == "attached"@ {
        Some(1)
    } else {
        None
    }
}

/// The state a program is in once the kernel has accepted it: a program in
/// state `pre_load` is `loaded`, and any other program is where it was.
pub open spec fn after_load(s: Seq<char>) -> Seq<char> {
    if s == "pre_load"@ {
        "loaded"@
    } else {
        s
    }
}

/// The state a program or a link is in once it is attached.
pub open spec fn after_attach() -> Seq<char> {
    "attached"@
}

/// Whether the location of a program is complete: a file location names its
/// path, an image location names its image.
pub open spec fn location_complete(p: BpfProgramView) -> bool {
    ||| p.location_type == "file"@ && p.file_path is Some
    ||| p.location_type == "image"@ && p.image_url is Some
}

/// The first constraint that a program row breaks, if any.
pub open spec fn program_violation(p: BpfProgramView) -> Option<Constraint> {
    if !is_program_kind(p.kind) {
        Some(Constraint::ProgramKind)
    } else if program_state_rank(p.state) is None {
        Some(Constraint::ProgramState)
    } else if !location_complete(p) {
        Some(Constraint::ProgramLocation)
    } else {
        None
    }
}

/// The constraint that a link row breaks, if any.
pub open spec fn link_violation(l: BpfLinkView) -> Option<Constraint> {
    if link_state_rank(l.state) is None {
        Some(Constraint::LinkState)
    } else {
        None
    }
}

/// The distinct state names differ as texts.
pub proof fn lemma_state_names_differ()
    ensures
        "pre_load"@ != "loaded"@,
        "pre_load"@ != "attached"@,
        "loaded"@ != "attached"@,
        "pre_attach"@ != "attached"@,
{
    reveal_strlit("pre_load");
    reveal_strlit("loaded");
    reveal_strlit("attached");
    reveal_strlit("pre_attach");
    assert("pre_load"@.len() == 8);
    assert("loaded"@.len() == 6);
    assert("attached"@.len() == 8);
    assert("pre_attach"@.len() == 10);
    assert("pre_load"@[0] == 'p');
    assert("attached"@[0] == 'a');
}

/// Whether `s` names a program kind.
pub fn check_program_kind(s: &String) -> (r: bool)
    ensures
        r == is_program_kind(s@),
{
    text_is(s, "xdp") || text_is(s, "tc") || text_is(s, "tcx") || text_is(s, "tracepoint")
        || text_is(s, "kprobe") || text_is(s, "uprobe") || text_is(s, "fentry") || text_is(
        s,
        "fexit",
    )
}

/// Whether `s` names a program state.
pub fn check_program_state(s: &String) -> (r: bool)
    ensures
        r == program_state_rank(s@) is Some,
{
    text_is(s, "pre_load") || text_is(s, "loaded") || text_is(s, "attached")
}

/// Whether `s` names a link state.
pub fn check_link_state(s: &String) -> (r: bool)
    ensures
        r == link_state_rank(s@) is Some,
{
    text_is(s, "pre_attach") || text_is(s, "attached")
}

impl BpfProgram {
    /// The first constraint this row breaks, if any.
    pub fn violation(&self) -> (r: Option<Constraint>)
        ensures
            r == program_violation(self@),
    {
        if !check_program_kind(&self.kind) {
            Some(Constraint::ProgramKind)
        } else if !check_program_state(&self.state) {
            Some(Constraint::ProgramState)
        } else if text_is(&self.location_type, "file") && self.file_path.is_some() {
            None
        } else if text_is(&self.location_type, "image") && self.image_url.is_some() {
            None
        } else {
            Some(Constraint::ProgramLocation)
        }
    }

    /// Records that the kernel accepted the program: a program in state
    /// `pre_load` moves to `loaded`. In any other state nothing changes, so a
    /// program never moves backwards. Returns whether the state changed.
    pub fn mark_loaded(&mut self) -> (moved: bool)
        ensures
            moved == (old(self)@.state == "pre_load"@),
            final(self)@ == (BpfProgramView { state: after_load(old(self)@.state), ..old(self)@ }),
    {
        if text_is(&self.state, "pre_load") {
            self.state = String::from_str("loaded");
            true
        } else {
            false
        }
    }

    /// Records that a link exists for the program: the state becomes `attached`.
    pub fn mark_attached(&mut self)
        ensures
            final(self)@ == (BpfProgramView { state: after_attach(), ..old(self)@ }),
    {
        self.state = String::from_str("attached");
    }
}

impl BpfLink {
    /// The constraint this row breaks, if any.
    pub fn violation(&self) -> (r: Option<Constraint>)
        ensures
            r == link_violation(self@),
    {
        if check_link_state(&self.state) {
            None
        } else {
            Some(Constraint::LinkState)
        }
    }

    /// Records that the attachment is complete: the state becomes `attached`.
    pub fn mark_attached(&mut self)
        ensures
            final(self)@ == (BpfLinkView { state: after_attach(), ..old(self)@ }),
    {
        self.state = String::from_str("attached");
    }
}

/// No transition moves backwards: from a known state, loading and
/// attaching lead to a known state that is at least as far along the
/// lifecycle, and attaching leads to the last state of all.
pub proof fn lemma_states_move_forward(s: Seq<char>)
    ensures
        program_state_rank(s) is Some ==> {
            &&& program_state_rank(after_load(s)) is Some
            &&& program_state_rank(after_load(s))->0 >= program_state_rank(s)->0
            &&& program_state_rank(after_attach()) == Some(2nat)
            &&& program_state_rank(after_attach())->0 >= program_state_rank(s)->0
        },
        link_state_rank(s) is Some ==> {
            &&& link_state_rank(after_attach()) == Some(1nat)
            &&& link_state_rank(after_attach())->0 >= link_state_rank(s)->0
        },
{
    lemma_state_names_differ();
}

} // verus!
