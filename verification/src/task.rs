use crate::digits::{dec_rep, push_decimal};
use vstd::prelude::*;

verus! {

/// Mathematical model of a single task: what every contract in this crate
/// speaks of. The description is UTF-8 text kept as its byte sequence.
pub ghost struct TaskView {
    pub id: u32,
    pub description: Seq<u8>,
    pub completed: bool,
}

/// A single to-do entry: a unique positive id, a description held as UTF-8
/// bytes, and a completion flag.
#[derive(Debug, Clone, PartialEq, Eq)]
pub struct Task {
    pub id: u32,
    pub description: Vec<u8>,
    pub completed: bool,
}

impl View for Task {
    type V = TaskView;

    open spec fn view(&self) -> TaskView {
        TaskView { id: self.id, description: self.description@, completed: self.completed }
    }
}

impl DeepView for Task {
    type V = TaskView;

    open spec fn deep_view(&self) -> TaskView {
        self@
    }
}

impl Task {
    /// A fresh task starts incomplete.
    pub fn new(id: u32, description: Vec<u8>) -> (t: Task)
        ensures
            t@ == (TaskView { id, description: description@, completed: false }),
    {
        Task { id, description, completed: false }
    }
}

/// A task id as the interface prints it: decimal, zero-padded to two digits.
pub open spec fn format_id_spec(id: u32) -> Seq<u8> {
    if id < 10 {
        seq![48u8] + dec_rep(id as nat)
    } else {
        dec_rep(id as nat)
    }
}

pub fn format_id(id: u32) -> (out: Vec<u8>)
    ensures
        out@ == format_id_spec(id),
{
    let mut out: Vec<u8> = Vec::new();
    if id < 10 {
        out.push(48u8);
        push_decimal(&mut out, id);
        assert(out@ =~= seq![48u8] + dec_rep(id as nat));
    } else {
        push_decimal(&mut out, id);
        assert(out@ =~= dec_rep(id as nat));
    }
    out
}

} // verus!
