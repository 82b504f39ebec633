use crate::codec::is_ws;
use crate::digits::{parse_u32_range, slice_range_to_vec, u32_of_digits};
use crate::task::{Task, TaskView};
use vstd::prelude::*;

verus! {

// ---------------------------------------------------------------------------
// The command grammar. A line of input is trimmed of surrounding
// whitespace and split at its first space into a command word and one
// argument, which keeps every byte after that space as typed. `quit` is
// recognized only as the whole trimmed line.
// ---------------------------------------------------------------------------
pub open spec fn trim_start_spec(s: Seq<u8>) -> Seq<u8>
    decreases s.len(),
{
    if s.len() > 0 && is_ws(s[0]) {
        trim_start_spec(s.skip(1))
    } else {
        s
    }
}

pub open spec fn trim_end_spec(s: Seq<u8>) -> Seq<u8>
    decreases s.len(),
{
    if s.len() > 0 && is_ws(s.last()) {
        trim_end_spec(s.drop_last())
    } else {
        s
    }
}

/// `s` without leading and trailing whitespace.
pub open spec fn trim_spec(s: Seq<u8>) -> Seq<u8> {
    trim_end_spec(trim_start_spec(s))
}

/// Where the first space of `t` sits; `t.len()` when it has none.
pub open spec fn first_space(t: Seq<u8>) -> int
    decreases t.len(),
{
    if t.len() == 0 {
        0
    } else if t[0] == 32 {
        0
    } else {
        1 + first_space(t.skip(1))
    }
}

/// The command word: everything before the first space.
pub open spec fn head_of(t: Seq<u8>) -> Seq<u8> {
    t.take(first_space(t))
}

/// The argument: everything after the first space, exactly as typed;
/// empty when there is no space.
pub open spec fn arg_of(t: Seq<u8>) -> Seq<u8> {
    if first_space(t) < t.len() {
        t.skip(first_space(t) + 1)
    } else {
        Seq::empty()
    }
}

pub open spec fn cmd_quit() -> Seq<u8> {
    seq![113u8, 117u8, 105u8, 116u8]
}

pub open spec fn cmd_help() -> Seq<u8> {
    seq![104u8, 101u8, 108u8, 112u8]
}

pub open spec fn cmd_list() -> Seq<u8> {
    seq![108u8, 105u8, 115u8, 116u8]
}

pub open spec fn cmd_add() -> Seq<u8> {
    seq![97u8, 100u8, 100u8]
}

pub open spec fn cmd_x() -> Seq<u8> {
    seq![120u8]
}

pub open spec fn cmd_rm() -> Seq<u8> {
    seq![114u8, 109u8]
}

pub open spec fn cmd_rm_all() -> Seq<u8> {
    seq![114u8, 109u8, 45u8, 97u8, 108u8, 108u8]
}

pub open spec fn cmd_pom() -> Seq<u8> {
    seq![112u8, 111u8, 109u8]
}

/// One line of input, understood. The usage variants stand where the
/// interface answers with a hint and touches nothing: a missing
/// description, a missing or non-numeric id. `Unknown` carries the
/// unrecognized command word.
pub enum Command {
    List,
    Help,
    Quit,
    Pomodoro,
    RemoveAll,
    Add(Vec<u8>),
    Toggle(u32),
    Remove(u32),
    MissingDescription,
    MissingToggleId,
    MissingRemoveId,
    InvalidToggleId,
    InvalidRemoveId,
    Unknown(Vec<u8>),
}

/// The model of a `Command`, its byte payloads as sequences.
pub ghost enum CommandView {
    List,
    Help,
    Quit,
    Pomodoro,
    RemoveAll,
    Add(Seq<u8>),
    Toggle(u32),
    Remove(u32),
    MissingDescription,
    MissingToggleId,
    MissingRemoveId,
    InvalidToggleId,
    InvalidRemoveId,
    Unknown(Seq<u8>),
}

impl View for Command {
    type V = CommandView;

    open spec fn view(&self) -> CommandView {
        match self {
            Command::List => CommandView::List,
            Command::Help => CommandView::Help,
            Command::Quit => CommandView::Quit,
            Command::Pomodoro => CommandView::Pomodoro,
            Command::RemoveAll => CommandView::RemoveAll,
            Command::Add(d) => CommandView::Add(d@),
            Command::Toggle(id) => CommandView::Toggle(*id),
            Command::Remove(id) => CommandView::Remove(*id),
            Command::MissingDescription => CommandView::MissingDescription,
            Command::MissingToggleId => CommandView::MissingToggleId,
            Command::MissingRemoveId => CommandView::MissingRemoveId,
            Command::InvalidToggleId => CommandView::InvalidToggleId,
            Command::InvalidRemoveId => CommandView::InvalidRemoveId,
            Command::Unknown(w) => CommandView::Unknown(w@),
        }
    }
}

/// What each input line means: `quit` as the whole trimmed line; otherwise
/// the command word decides, an empty line standing for `list`; `add`, `x`
/// and `rm` demand an argument, and `x` and `rm` a decimal id that fits in
/// a `u32`.
pub open spec fn parse_line_spec(line: Seq<u8>) -> CommandView {
    let t = trim_spec(line);
    if t == cmd_quit() {
        CommandView::Quit
    } else {
        let h = head_of(t);
        let a = arg_of(t);
        if h == cmd_help() {
            CommandView::Help
        } else if h == cmd_list() || h.len() == 0 {
            CommandView::List
        } else if h == cmd_add() {
            if a.len() == 0 {
                CommandView::MissingDescription
            } else {
                CommandView::Add(a)
            }
        } else if h == cmd_x() {
            if a.len() == 0 {
                CommandView::MissingToggleId
            } else {
                match u32_of_digits(a) {
                    Some(id) => CommandView::Toggle(id),
                    None => CommandView::InvalidToggleId,
                }
            }
        } else if h == cmd_rm() {
            if a.len() == 0 {
                CommandView::MissingRemoveId
            } else {
                match u32_of_digits(a) {
                    Some(id) => CommandView::Remove(id),
                    None => CommandView::InvalidRemoveId,
                }
            }
        } else if h == cmd_rm_all() {
            CommandView::RemoveAll
        } else if h == cmd_pom() {
            CommandView::Pomodoro
        } else {
            CommandView::Unknown(h)
        }
    }
}

// ---------------------------------------------------------------------------
// Executable trimming and line parsing.
// ---------------------------------------------------------------------------
/// The bounds of `s` without its leading and trailing whitespace.
fn trim_bounds(s: &[u8]) -> (r: (usize, usize))
    ensures
        r.0 <= r.1 <= s@.len(),
        s@.subrange(r.0 as int, r.1 as int) == trim_spec(s@),
{
    let n = s.len();
    let mut lo: usize = 0;
    assert(s@.skip(0) =~= s@);
    while lo < n && (s[lo] == 32 || s[lo] == 9 || s[lo] == 10 || s[lo] == 13)
        invariant
            lo <= n == s@.len(),
            trim_start_spec(s@) == trim_start_spec(s@.skip(lo as int)),
        decreases n - lo,
    {
        assert(s@.skip(lo as int)[0] == s@[lo as int]);
        assert(s@.skip(lo as int).skip(1) =~= s@.skip(lo as int + 1));
        lo += 1;
    }
    assert(trim_start_spec(s@) == s@.skip(lo as int)) by {
        if lo < n {
            assert(s@.skip(lo as int)[0] == s@[lo as int]);
        }
    }
    let mut hi: usize = n;
    assert(s@.skip(lo as int) =~= s@.subrange(lo as int, n as int));
    while hi > lo && (s[hi - 1] == 32 || s[hi - 1] == 9 || s[hi - 1] == 10 || s[hi - 1] == 13)
        invariant
            lo <= hi <= n == s@.len(),
            trim_end_spec(s@.skip(lo as int)) == trim_end_spec(s@.subrange(lo as int, hi as int)),
        decreases hi,
    {
        assert(s@.subrange(lo as int, hi as int).last() == s@[hi as int - 1]);
        assert(s@.subrange(lo as int, hi as int).drop_last() =~= s@.subrange(
            lo as int,
            hi as int - 1,
        ));
        hi -= 1;
    }
    assert(trim_end_spec(s@.subrange(lo as int, hi as int)) == s@.subrange(lo as int, hi as int))
        by {
        if hi > lo {
            assert(s@.subrange(lo as int, hi as int).last() == s@[hi as int - 1]);
        }
    }
    (lo, hi)
}

/// A trimmed line is empty or ends in something other than whitespace.
proof fn lemma_trim_end_last(s: Seq<u8>)
    ensures
        trim_end_spec(s).len() > 0 ==> !is_ws(trim_end_spec(s).last()),
    decreases s.len(),
{
    if s.len() > 0 && is_ws(s.last()) {
        lemma_trim_end_last(s.drop_last());
    }
}

proof fn lemma_first_space_at(t: Seq<u8>, k: int)
    requires
        0 <= k <= t.len(),
        forall|q: int| 0 <= q < k ==> t[q] != 32,
        k < t.len() ==> t[k] == 32,
    ensures
        first_space(t) == k,
    decreases t.len(),
{
    if k == 0 {
    } else {
        assert(t[0] != 32);
        assert(forall|q: int| 0 <= q < k - 1 ==> #[trigger] t.skip(1)[q] == t[q + 1]);
        assert(k - 1 < t.skip(1).len() ==> t.skip(1)[k - 1] == t[k]);
        lemma_first_space_at(t.skip(1), k - 1);
    }
}

/// Whether `s[lo..hi]` is exactly `lit`.
fn range_is(s: &[u8], lo: usize, hi: usize, lit: &Vec<u8>) -> (r: bool)
    requires
        lo <= hi <= s@.len(),
    ensures
        r == (s@.subrange(lo as int, hi as int) == lit@),
{
    if hi - lo != lit.len() {
        return false;
    }
    let mut k: usize = 0;
    while k < lit.len()
        invariant
            lo <= hi <= s@.len(),
            hi - lo == lit@.len(),
            k <= lit@.len(),
            forall|q: int| 0 <= q < k ==> s@[lo + q] == lit@[q],
        decreases lit@.len() - k,
    {
        if s[lo + k] != lit[k] {
            assert(s@.subrange(lo as int, hi as int)[k as int] == s@[lo + k]);
            return false;
        }
        k += 1;
    }
    assert(s@.subrange(lo as int, hi as int) =~= lit@);
    true
}

fn cmd_quit_vec() -> (v: Vec<u8>)
    ensures
        v@ == cmd_quit(),
{
    let mut v: Vec<u8> = Vec::new();
    v.push(113u8);
    v.push(117u8);
    v.push(105u8);
    v.push(116u8);
    assert(v@ =~= cmd_quit());
    v
}

fn cmd_help_vec() -> (v: Vec<u8>)
    ensures
        v@ == cmd_help(),
{
    let mut v: Vec<u8> = Vec::new();
    v.push(104u8);
    v.push(101u8);
    v.push(108u8);
    v.push(112u8);
    assert(v@ =~= cmd_help());
    v
}

fn cmd_list_vec() -> (v: Vec<u8>)
    ensures
        v@ == cmd_list(),
{
    let mut v: Vec<u8> = Vec::new();
    v.push(108u8);
    v.push(105u8);
    v.push(115u8);
    v.push(116u8);
    assert(v@ =~= cmd_list());
    v
}

fn cmd_add_vec() -> (v: Vec<u8>)
    ensures
        v@ == cmd_add(),
{
    let mut v: Vec<u8> = Vec::new();
    v.push(97u8);
    v.push(100u8);
    v.push(100u8);
    assert(v@ =~= cmd_add());
    v
}

fn cmd_x_vec() -> (v: Vec<u8>)
    ensures
        v@ == cmd_x(),
{
    let mut v: Vec<u8> = Vec::new();
    v.push(120u8);
    assert(v@ =~= cmd_x());
    v
}

fn cmd_rm_vec() -> (v: Vec<u8>)
    ensures
        v@ == cmd_rm(),
{
    let mut v: Vec<u8> = Vec::new();
    v.push(114u8);
    v.push(109u8);
    assert(v@ =~= cmd_rm());
    v
}

fn cmd_rm_all_vec() -> (v: Vec<u8>)
    ensures
        v@ == cmd_rm_all(),
{
    let mut v: Vec<u8> = Vec::new();
    v.push(114u8);
    v.push(109u8);
    v.push(45u8);
    v.push(97u8);
    v.push(108u8);
    v.push(108u8);
    assert(v@ =~= cmd_rm_all());
    v
}

fn cmd_pom_vec() -> (v: Vec<u8>)
    ensures
        v@ == cmd_pom(),
{
    let mut v: Vec<u8> = Vec::new();
    v.push(112u8);
    v.push(111u8);
    v.push(109u8);
    assert(v@ =~= cmd_pom());
    v
}

/// Reads one line of input as a command, exactly as `parse_line_spec`
/// describes it.
pub fn parse_line(line: &[u8]) -> (c: Command)
    ensures
        c@ == parse_line_spec(line@),
{
    let (lo, hi) = trim_bounds(line);
    let ghost t = trim_spec(line@);
    assert(t == line@.subrange(lo as int, hi as int));
    if range_is(line, lo, hi, &cmd_quit_vec()) {
        return Command::Quit;
    }
    let mut sp: usize = lo;
    while sp < hi && line[sp] != 32
        invariant
            lo <= sp <= hi <= line@.len(),
            t == line@.subrange(lo as int, hi as int),
            forall|q: int| 0 <= q < sp - lo ==> t[q] != 32,
        decreases hi - sp,
    {
        assert(t[sp - lo] == line@[sp as int]);
        sp += 1;
    }
    proof {
        if sp < hi {
            assert(t[sp - lo] == line@[sp as int]);
        }
        lemma_first_space_at(t, sp - lo);
        assert(head_of(t) =~= line@.subrange(lo as int, sp as int));
    }
    let has_arg = sp < hi;
    proof {
        lemma_trim_end_last(trim_start_spec(line@));
        if has_arg {
            assert(t[sp - lo] == 32);
            assert(t.len() > 0);
            if sp - lo == t.len() - 1 {
                assert(is_ws(t.last()));
                assert(false);
            }
            assert(arg_of(t) =~= line@.subrange(sp as int + 1, hi as int));
            assert(arg_of(t).len() == hi - sp - 1);
            assert(arg_of(t).len() > 0);
        } else {
            assert(arg_of(t) =~= Seq::<u8>::empty());
        }
    }
    if range_is(line, lo, sp, &cmd_help_vec()) {
        Command::Help
    } else if range_is(line, lo, sp, &cmd_list_vec()) || sp == lo {
        Command::List
    } else if range_is(line, lo, sp, &cmd_add_vec()) {
        if !has_arg {
            Command::MissingDescription
        } else {
            let d = slice_range_to_vec(line, sp + 1, hi);
            Command::Add(d)
        }
    } else if range_is(line, lo, sp, &cmd_x_vec()) {
        if !has_arg {
            Command::MissingToggleId
        } else {
            match parse_u32_range(line, sp + 1, hi) {
                Some(id) => Command::Toggle(id),
                None => Command::InvalidToggleId,
            }
        }
    } else if range_is(line, lo, sp, &cmd_rm_vec()) {
        if !has_arg {
            Command::MissingRemoveId
        } else {
            match parse_u32_range(line, sp + 1, hi) {
                Some(id) => Command::Remove(id),
                None => Command::InvalidRemoveId,
            }
        }
    } else if range_is(line, lo, sp, &cmd_rm_all_vec()) {
        Command::RemoveAll
    } else if range_is(line, lo, sp, &cmd_pom_vec()) {
        Command::Pomodoro
    } else {
        let w = slice_range_to_vec(line, lo, sp);
        Command::Unknown(w)
    }
}

// ---------------------------------------------------------------------------
// The destructive clear and its confirmation.
// ---------------------------------------------------------------------------
/// The exact confirmation the destructive clear demands: the input without
/// surrounding whitespace is a single `y`, of either case.
pub open spec fn confirms_clear(input: Seq<u8>) -> bool {
    trim_spec(input) == seq![121u8] || trim_spec(input) == seq![89u8]
}

pub fn confirm_clear(input: &[u8]) -> (r: bool)
    ensures
        r == confirms_clear(input@),
{
    let (lo, hi) = trim_bounds(input);
    let ghost t = trim_spec(input@);
    if hi - lo != 1 {
        assert(t.len() != 1);
        return false;
    }
    let b = input[lo];
    assert(t[0] == b);
    if b == 121 {
        assert(t =~= seq![121u8]);
        true
    } else if b == 89 {
        assert(t =~= seq![89u8]);
        true
    } else {
        false
    }
}

/// Law: the list is cleared exactly when the confirmation input is `y` or
/// `Y` once trimmed; any other input leaves it untouched.
pub fn clear_if_confirmed(tasks: &mut Vec<Task>, confirmation: &[u8]) -> (cleared: bool)
    ensures
        cleared == confirms_clear(confirmation@),
        cleared ==> final(tasks).deep_view() == Seq::<TaskView>::empty(),
        !cleared ==> *final(tasks) == *old(tasks),
{
    if confirm_clear(confirmation) {
        crate::store::clear_all_tasks(tasks);
        true
    } else {
        false
    }
}

// ---------------------------------------------------------------------------
// The loop's state machine.
// ---------------------------------------------------------------------------
/// The command loop's two states.
pub enum LoopState {
    Running,
    Terminated,
}

/// Law: the only transition out of `Running` is the `quit` command; every
/// other command loops back to `Running`.
pub fn next_state(c: &Command) -> (s: LoopState)
    ensures
        (s matches LoopState::Terminated) <==> (c matches Command::Quit),
{
    match c {
        Command::Quit => LoopState::Terminated,
        _ => LoopState::Running,
    }
}

} // verus!
