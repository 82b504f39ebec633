use crate::digits::{dec_rep, parse_num, push_decimal};
use crate::task::TaskView;
use vstd::prelude::*;

verus! {

// ---------------------------------------------------------------------------
// The persisted document: a pretty-printed JSON array of task objects,
//
//     [
//       {
//         "id": 1,
//         "description": "buy milk",
//         "completed": false
//       }
//     ]
//
// an empty list being the two bytes `[]`. Descriptions are JSON strings:
// quote, backslash and control bytes are escaped on the way out, and the
// usual JSON escapes are accepted on the way back in.
// ---------------------------------------------------------------------------
/// JSON whitespace.
pub open spec fn is_ws(b: u8) -> bool {
    b == 32 || b == 9 || b == 10 || b == 13
}

pub open spec fn all_ws(s: Seq<u8>) -> bool {
    forall|k: int| 0 <= k < s.len() ==> is_ws(#[trigger] s[k])
}

/// From the object's opening brace to the colon after the id key.
pub open spec fn lit_obj_open() -> Seq<u8> {
    seq![32u8, 32u8, 123u8, 10u8, 32u8, 32u8, 32u8, 32u8, 34u8, 105u8, 100u8, 34u8, 58u8, 32u8]
}

/// From the comma after the id to the opening quote of the description.
pub open spec fn lit_desc() -> Seq<u8> {
    seq![
        44u8, 10u8, 32u8, 32u8, 32u8, 32u8, 34u8, 100u8, 101u8, 115u8, 99u8, 114u8, 105u8, 112u8,
        116u8, 105u8, 111u8, 110u8, 34u8, 58u8, 32u8, 34u8,
    ]
}

/// From the comma after the description to the colon after the completed key.
pub open spec fn lit_comp() -> Seq<u8> {
    seq![
        44u8, 10u8, 32u8, 32u8, 32u8, 32u8, 34u8, 99u8, 111u8, 109u8, 112u8, 108u8, 101u8, 116u8,
        101u8, 100u8, 34u8, 58u8, 32u8,
    ]
}

/// From the end of the completed value to the object's closing brace.
pub open spec fn lit_obj_close() -> Seq<u8> {
    seq![10u8, 32u8, 32u8, 125u8]
}

pub open spec fn lit_true() -> Seq<u8> {
    seq![116u8, 114u8, 117u8, 101u8]
}

pub open spec fn lit_false() -> Seq<u8> {
    seq![102u8, 97u8, 108u8, 115u8, 101u8]
}

/// Between two task objects.
pub open spec fn lit_sep() -> Seq<u8> {
    seq![44u8, 10u8]
}

pub open spec fn lit_arr_open() -> Seq<u8> {
    seq![91u8, 10u8]
}

pub open spec fn lit_arr_close() -> Seq<u8> {
    seq![10u8, 93u8]
}

/// The whole document for an empty list.
pub open spec fn lit_empty_doc() -> Seq<u8> {
    seq![91u8, 93u8]
}

/// The ASCII byte of one hexadecimal digit, lower case.
pub open spec fn hex_digit(d: nat) -> u8
    recommends
        d < 16,
{
    if d < 10 {
        (48 + d) as u8
    } else {
        (87 + d) as u8
    }
}

/// How one description byte appears inside the JSON string: quote and
/// backslash get a backslash escape, control bytes a `\u00..` escape, and
/// everything else stands for itself.
pub open spec fn esc_byte(b: u8) -> Seq<u8> {
    if b == 34u8 {
        seq![92u8, 34u8]
    } else if b == 92u8 {
        seq![92u8, 92u8]
    } else if b < 32 {
        seq![92u8, 117u8, 48u8, 48u8, hex_digit((b / 16) as nat), hex_digit((b % 16) as nat)]
    } else {
        seq![b]
    }
}

/// A whole description, escaped.
pub open spec fn esc_all(s: Seq<u8>) -> Seq<u8>
    decreases s.len(),
{
    if s.len() == 0 {
        Seq::empty()
    } else {
        esc_byte(s[0]) + esc_all(s.skip(1))
    }
}

proof fn lemma_esc_all_snoc(s: Seq<u8>, b: u8)
    ensures
        esc_all(s.push(b)) == esc_all(s) + esc_byte(b),
    decreases s.len(),
{
    if s.len() == 0 {
        assert(s.push(b)[0] == b);
        assert(s.push(b).skip(1) =~= Seq::<u8>::empty());
        assert(esc_all(s.push(b)) == esc_byte(b) + esc_all(Seq::<u8>::empty()));
        assert(esc_byte(b) + Seq::<u8>::empty() =~= esc_byte(b));
        assert(esc_all(s) + esc_byte(b) =~= esc_byte(b));
    } else {
        assert(s.push(b)[0] == s[0]);
        assert(s.push(b).skip(1) =~= s.skip(1).push(b));
        lemma_esc_all_snoc(s.skip(1), b);
        assert(esc_byte(s[0]) + (esc_all(s.skip(1)) + esc_byte(b)) =~= (esc_byte(s[0]) + esc_all(
            s.skip(1),
        )) + esc_byte(b));
    }
}

/// One task as bytes of the document.
pub open spec fn render_task(t: TaskView) -> Seq<u8> {
    lit_obj_open() + dec_rep(t.id as nat) + lit_desc() + (esc_all(t.description) + seq![34u8])
        + lit_comp() + (if t.completed {
        lit_true()
    } else {
        lit_false()
    }) + lit_obj_close()
}

/// The task objects, separated by commas.
pub open spec fn render_items(ts: Seq<TaskView>) -> Seq<u8>
    decreases ts.len(),
{
    if ts.len() == 0 {
        Seq::empty()
    } else if ts.len() == 1 {
        render_task(ts[0])
    } else {
        render_task(ts[0]) + lit_sep() + render_items(ts.skip(1))
    }
}

/// The whole persisted document for a task list.
pub open spec fn render_doc(ts: Seq<TaskView>) -> Seq<u8> {
    if ts.len() == 0 {
        lit_empty_doc()
    } else {
        lit_arr_open() + render_items(ts) + lit_arr_close()
    }
}

// ---------------------------------------------------------------------------
// Executable rendering.
// ---------------------------------------------------------------------------
/// Appends a copy of `lit` to `out`.
fn push_bytes(out: &mut Vec<u8>, lit: &Vec<u8>)
    ensures
        final(out)@ == old(out)@ + lit@,
{
    let mut k: usize = 0;
    assert(out@ =~= old(out)@ + lit@.take(0));
    while k < lit.len()
        invariant
            k <= lit@.len(),
            out@ == old(out)@ + lit@.take(k as int),
        decreases lit@.len() - k,
    {
        out.push(lit[k]);
        assert(out@ =~= old(out)@ + lit@.take(k as int + 1));
        k += 1;
    }
    assert(out@ =~= old(out)@ + lit@);
}

fn lit_obj_open_vec() -> (v: Vec<u8>)
    ensures
        v@ == lit_obj_open(),
{
    let mut v: Vec<u8> = Vec::new();
    v.push(32u8);
    v.push(32u8);
    v.push(123u8);
    v.push(10u8);
    v.push(32u8);
    v.push(32u8);
    v.push(32u8);
    v.push(32u8);
    v.push(34u8);
    v.push(105u8);
    v.push(100u8);
    v.push(34u8);
    v.push(58u8);
    v.push(32u8);
    assert(v@ =~= lit_obj_open());
    v
}

fn lit_desc_vec() -> (v: Vec<u8>)
    ensures
        v@ == lit_desc(),
{
    let mut v: Vec<u8> = Vec::new();
    v.push(44u8);
    v.push(10u8);
    v.push(32u8);
    v.push(32u8);
    v.push(32u8);
    v.push(32u8);
    v.push(34u8);
    v.push(100u8);
    v.push(101u8);
    v.push(115u8);
    v.push(99u8);
    v.push(114u8);
    v.push(105u8);
    v.push(112u8);
    v.push(116u8);
    v.push(105u8);
    v.push(111u8);
    v.push(110u8);
    v.push(34u8);
    v.push(58u8);
    v.push(32u8);
    v.push(34u8);
    assert(v@ =~= lit_desc());
    v
}

fn lit_comp_vec() -> (v: Vec<u8>)
    ensures
        v@ == lit_comp(),
{
    let mut v: Vec<u8> = Vec::new();
    v.push(44u8);
    v.push(10u8);
    v.push(32u8);
    v.push(32u8);
    v.push(32u8);
    v.push(32u8);
    v.push(34u8);
    v.push(99u8);
    v.push(111u8);
    v.push(109u8);
    v.push(112u8);
    v.push(108u8);
    v.push(101u8);
    v.push(116u8);
    v.push(101u8);
    v.push(100u8);
    v.push(34u8);
    v.push(58u8);
    v.push(32u8);
    assert(v@ =~= lit_comp());
    v
}

fn lit_obj_close_vec() -> (v: Vec<u8>)
    ensures
        v@ == lit_obj_close(),
{
    let mut v: Vec<u8> = Vec::new();
    v.push(10u8);
    v.push(32u8);
    v.push(32u8);
    v.push(125u8);
    assert(v@ =~= lit_obj_close());
    v
}

fn lit_true_vec() -> (v: Vec<u8>)
    ensures
        v@ == lit_true(),
{
    let mut v: Vec<u8> = Vec::new();
    v.push(116u8);
    v.push(114u8);
    v.push(117u8);
    v.push(101u8);
    assert(v@ =~= lit_true());
    v
}

fn lit_false_vec() -> (v: Vec<u8>)
    ensures
        v@ == lit_false(),
{
    let mut v: Vec<u8> = Vec::new();
    v.push(102u8);
    v.push(97u8);
    v.push(108u8);
    v.push(115u8);
    v.push(101u8);
    assert(v@ =~= lit_false());
    v
}

fn lit_sep_vec() -> (v: Vec<u8>)
    ensures
        v@ == lit_sep(),
{
    let mut v: Vec<u8> = Vec::new();
    v.push(44u8);
    v.push(10u8);
    assert(v@ =~= lit_sep());
    v
}

fn lit_arr_open_vec() -> (v: Vec<u8>)
    ensures
        v@ == lit_arr_open(),
{
    let mut v: Vec<u8> = Vec::new();
    v.push(91u8);
    v.push(10u8);
    assert(v@ =~= lit_arr_open());
    v
}

fn lit_arr_close_vec() -> (v: Vec<u8>)
    ensures
        v@ == lit_arr_close(),
{
    let mut v: Vec<u8> = Vec::new();
    v.push(10u8);
    v.push(93u8);
    assert(v@ =~= lit_arr_close());
    v
}

fn lit_empty_doc_vec() -> (v: Vec<u8>)
    ensures
        v@ == lit_empty_doc(),
{
    let mut v: Vec<u8> = Vec::new();
    v.push(91u8);
    v.push(93u8);
    assert(v@ =~= lit_empty_doc());
    v
}

/// Appends a description, escaped as the document's string syntax asks.
fn push_escaped(out: &mut Vec<u8>, d: &Vec<u8>)
    ensures
        final(out)@ == old(out)@ + esc_all(d@),
{
    let mut k: usize = 0;
    assert(d@.take(0) =~= Seq::<u8>::empty());
    assert(out@ =~= old(out)@ + esc_all(d@.take(0)));
    while k < d.len()
        invariant
            k <= d@.len(),
            out@ == old(out)@ + esc_all(d@.take(k as int)),
        decreases d@.len() - k,
    {
        let b = d[k];
        proof {
            lemma_esc_all_snoc(d@.take(k as int), b);
            assert(d@.take(k as int).push(b) =~= d@.take(k as int + 1));
        }
        if b == 34u8 {
            out.push(92u8);
            out.push(34u8);
        } else if b == 92u8 {
            out.push(92u8);
            out.push(92u8);
        } else if b < 32 {
            out.push(92u8);
            out.push(117u8);
            out.push(48u8);
            out.push(48u8);
            let h1 = b / 16;
            let h2 = b % 16;
            out.push(if h1 < 10 { 48 + h1 } else { 87 + h1 });
            out.push(if h2 < 10 { 48 + h2 } else { 87 + h2 });
        } else {
            out.push(b);
        }
        assert(out@ =~= old(out)@ + esc_all(d@.take(k as int + 1)));
        k += 1;
    }
    assert(d@.take(d@.len() as int) =~= d@);
}

/// Appends one task object.
fn render_task_into(t: &crate::task::Task, out: &mut Vec<u8>)
    ensures
        final(out)@ == old(out)@ + render_task(t@),
{
    push_bytes(out, &lit_obj_open_vec());
    push_decimal(out, t.id);
    push_bytes(out, &lit_desc_vec());
    push_escaped(out, &t.description);
    out.push(34u8);
    push_bytes(out, &lit_comp_vec());
    if t.completed {
        push_bytes(out, &lit_true_vec());
    } else {
        push_bytes(out, &lit_false_vec());
    }
    push_bytes(out, &lit_obj_close_vec());
    assert(out@ =~= old(out)@ + render_task(t@));
}

/// Appends the task objects from position `i` on, comma-separated.
fn render_items_from(tasks: &Vec<crate::task::Task>, i: usize, out: &mut Vec<u8>)
    requires
        i < tasks@.len(),
    ensures
        final(out)@ == old(out)@ + render_items(tasks.deep_view().skip(i as int)),
    decreases tasks@.len() - i,
{
    let ghost dv = tasks.deep_view();
    let n = tasks.len();
    render_task_into(&tasks[i], out);
    assert(dv.skip(i as int)[0] == dv[i as int]);
    if i + 1 < n {
        push_bytes(out, &lit_sep_vec());
        render_items_from(tasks, i + 1, out);
        proof {
            assert(dv.skip(i as int).skip(1) =~= dv.skip(i as int + 1));
            assert(dv.skip(i as int).len() > 1);
            assert(out@ =~= old(out)@ + render_items(dv.skip(i as int)));
        }
    } else {
        proof {
            assert(dv.skip(i as int).len() == 1);
            assert(out@ =~= old(out)@ + render_items(dv.skip(i as int)));
        }
    }
}

/// The whole persisted document for the list, pretty-printed.
pub fn render_tasks(tasks: &Vec<crate::task::Task>) -> (out: Vec<u8>)
    ensures
        out@ == render_doc(tasks.deep_view()),
{
    let mut out: Vec<u8> = Vec::new();
    if tasks.len() == 0 {
        push_bytes(&mut out, &lit_empty_doc_vec());
        assert(out@ =~= lit_empty_doc());
        return out;
    }
    push_bytes(&mut out, &lit_arr_open_vec());
    render_items_from(tasks, 0, &mut out);
    push_bytes(&mut out, &lit_arr_close_vec());
    proof {
        let dv = tasks.deep_view();
        assert(dv.skip(0) =~= dv);
        assert(out@ =~= render_doc(dv));
    }
    out
}

// ---------------------------------------------------------------------------
// Parsing. Each spec reads from the front of the byte sequence and yields
// the parsed value together with what follows it; `None` refuses the input.
// ---------------------------------------------------------------------------
/// The literal at the front of `s`, consumed.
pub open spec fn expect(s: Seq<u8>, lit: Seq<u8>) -> Option<Seq<u8>> {
    if lit.len() <= s.len() && s.take(lit.len() as int) == lit {
        Some(s.skip(lit.len() as int))
    } else {
        None
    }
}

pub open spec fn is_hex(b: u8) -> bool {
    (48 <= b && b <= 57) || (97 <= b && b <= 102) || (65 <= b && b <= 70)
}

pub open spec fn hex_val(b: u8) -> nat
    recommends
        is_hex(b),
{
    if 48 <= b && b <= 57 {
        (b - 48) as nat
    } else if 97 <= b && b <= 102 {
        (b - 87) as nat
    } else {
        (b - 55) as nat
    }
}

/// One escape, after its backslash: the byte it stands for and what follows.
/// The short escapes and `\u` are accepted; a `\u` escape must name a code
/// point below 128, since a description is carried as raw bytes.
pub open spec fn parse_escape(s: Seq<u8>) -> Option<(u8, Seq<u8>)> {
    if s.len() == 0 {
        None
    } else if s[0] == 34 {
        Some((34u8, s.skip(1)))
    } else if s[0] == 92 {
        Some((92u8, s.skip(1)))
    } else if s[0] == 47 {
        Some((47u8, s.skip(1)))
    } else if s[0] == 98 {
        Some((8u8, s.skip(1)))
    } else if s[0] == 102 {
        Some((12u8, s.skip(1)))
    } else if s[0] == 110 {
        Some((10u8, s.skip(1)))
    } else if s[0] == 114 {
        Some((13u8, s.skip(1)))
    } else if s[0] == 116 {
        Some((9u8, s.skip(1)))
    } else if s[0] == 117 {
        if s.len() >= 5 && is_hex(s[1]) && is_hex(s[2]) && is_hex(s[3]) && is_hex(s[4]) {
            let v = hex_val(s[1]) * 4096 + hex_val(s[2]) * 256 + hex_val(s[3]) * 16 + hex_val(
                s[4],
            );
            if v < 128 {
                Some((v as u8, s.skip(5)))
            } else {
                None
            }
        } else {
            None
        }
    } else {
        None
    }
}

/// A string body up to and including its closing quote: the bytes it
/// denotes and what follows the quote. Raw control bytes are refused.
pub open spec fn parse_string(s: Seq<u8>) -> Option<(Seq<u8>, Seq<u8>)>
    decreases s.len(),
{
    if s.len() == 0 {
        None
    } else if s[0] == 34 {
        Some((Seq::empty(), s.skip(1)))
    } else if s[0] == 92 {
        match parse_escape(s.skip(1)) {
            Some(p) => if p.1.len() < s.len() {
                match parse_string(p.1) {
                    Some(q) => Some((seq![p.0] + q.0, q.1)),
                    None => None,
                }
            } else {
                None
            },
            None => None,
        }
    } else if s[0] >= 32 {
        match parse_string(s.skip(1)) {
            Some(q) => Some((seq![s[0]] + q.0, q.1)),
            None => None,
        }
    } else {
        None
    }
}

pub open spec fn parse_bool(s: Seq<u8>) -> Option<(bool, Seq<u8>)> {
    match expect(s, lit_true()) {
        Some(r) => Some((true, r)),
        None => match expect(s, lit_false()) {
            Some(r) => Some((false, r)),
            None => None,
        },
    }
}

/// One task object of the document.
pub open spec fn parse_task(s: Seq<u8>) -> Option<(TaskView, Seq<u8>)> {
    match expect(s, lit_obj_open()) {
        None => None,
        Some(s1) => match parse_num(s1) {
            None => None,
            Some(p) => match expect(p.1, lit_desc()) {
                None => None,
                Some(s3) => match parse_string(s3) {
                    None => None,
                    Some(q) => match expect(q.1, lit_comp()) {
                        None => None,
                        Some(s5) => match parse_bool(s5) {
                            None => None,
                            Some(r) => match expect(r.1, lit_obj_close()) {
                                None => None,
                                Some(s7) => Some(
                                    (
                                        TaskView {
                                            id: p.0,
                                            description: q.0,
                                            completed: r.0,
                                        },
                                        s7,
                                    ),
                                ),
                            },
                        },
                    },
                },
            },
        },
    }
}

/// One or more task objects, comma-separated.
pub open spec fn parse_items(s: Seq<u8>) -> Option<(Seq<TaskView>, Seq<u8>)>
    decreases s.len(),
{
    match parse_task(s) {
        None => None,
        Some(p) => if p.1.len() < s.len() {
            match expect(p.1, lit_sep()) {
                Some(rest2) => if rest2.len() < s.len() {
                    match parse_items(rest2) {
                        Some(q) => Some((seq![p.0] + q.0, q.1)),
                        None => None,
                    }
                } else {
                    None
                },
                None => Some((seq![p.0], p.1)),
            }
        } else {
            None
        },
    }
}

/// A whole persisted document, with nothing but whitespace after it.
pub open spec fn parse_doc(s: Seq<u8>) -> Option<Seq<TaskView>> {
    match expect(s, lit_empty_doc()) {
        Some(r) => if all_ws(r) {
            Some(Seq::empty())
        } else {
            None
        },
        None => match expect(s, lit_arr_open()) {
            None => None,
            Some(s1) => match parse_items(s1) {
                None => None,
                Some(p) => match expect(p.1, lit_arr_close()) {
                    None => None,
                    Some(s3) => if all_ws(s3) {
                        Some(p.0)
                    } else {
                        None
                    },
                },
            },
        },
    }
}

// ---------------------------------------------------------------------------
// Round trip: what `render_doc` writes, `parse_doc` reads back unchanged.
// ---------------------------------------------------------------------------
proof fn lemma_expect_prefix(lit: Seq<u8>, rest: Seq<u8>)
    ensures
        expect(lit + rest, lit) == Some(rest),
{
    assert((lit + rest).take(lit.len() as int) =~= lit);
    assert((lit + rest).skip(lit.len() as int) =~= rest);
}

proof fn lemma_expect_differs(s: Seq<u8>, lit: Seq<u8>, k: int)
    requires
        0 <= k < lit.len(),
        k < s.len(),
        s[k] != lit[k],
    ensures
        expect(s, lit) == None::<Seq<u8>>,
{
    if lit.len() <= s.len() {
        assert(s.take(lit.len() as int)[k] == s[k]);
        assert(s.take(lit.len() as int) != lit);
    }
}

proof fn lemma_hex_digit_val(d: nat)
    requires
        d < 16,
    ensures
        is_hex(hex_digit(d)),
        hex_val(hex_digit(d)) == d,
{
}

proof fn lemma_parse_string_esc(d: Seq<u8>, rest: Seq<u8>)
    ensures
        parse_string(esc_all(d) + (seq![34u8] + rest)) == Some((d, rest)),
    decreases d.len(),
{
    if d.len() == 0 {
        let s = seq![34u8] + rest;
        assert(esc_all(d) + s =~= s);
        assert(s[0] == 34);
        assert(s.skip(1) =~= rest);
        assert(parse_string(s) == Some((Seq::<u8>::empty(), rest)));
        assert(d =~= Seq::<u8>::empty());
    } else {
        let b = d[0];
        let tail = d.skip(1);
        assert(esc_all(d) == esc_byte(b) + esc_all(tail));
        let s = esc_all(d) + (seq![34u8] + rest);
        let s_rec = esc_all(tail) + (seq![34u8] + rest);
        lemma_parse_string_esc(tail, rest);
        assert(seq![b] + tail =~= d);
        if b == 34 {
            assert(s =~= seq![92u8, 34u8] + s_rec);
            assert(s[0] == 92);
            assert(s.skip(1) =~= seq![34u8] + s_rec);
            assert((seq![34u8] + s_rec)[0] == 34);
            assert((seq![34u8] + s_rec).skip(1) =~= s_rec);
        } else if b == 92 {
            assert(s =~= seq![92u8, 92u8] + s_rec);
            assert(s[0] == 92);
            assert(s.skip(1) =~= seq![92u8] + s_rec);
            assert((seq![92u8] + s_rec)[0] == 92);
            assert((seq![92u8] + s_rec).skip(1) =~= s_rec);
        } else if b < 32 {
            let h1 = hex_digit((b / 16) as nat);
            let h2 = hex_digit((b % 16) as nat);
            lemma_hex_digit_val((b / 16) as nat);
            lemma_hex_digit_val((b % 16) as nat);
            assert(s =~= seq![92u8, 117u8, 48u8, 48u8, h1, h2] + s_rec);
            assert(s[0] == 92);
            let e = s.skip(1);
            assert(e =~= seq![117u8, 48u8, 48u8, h1, h2] + s_rec);
            assert(e[0] == 117 && e[1] == 48 && e[2] == 48 && e[3] == h1 && e[4] == h2);
            assert(is_hex(48u8) && hex_val(48u8) == 0);
            vstd::arithmetic::div_mod::lemma_fundamental_div_mod(b as int, 16);
            assert(hex_val(e[1]) * 4096 + hex_val(e[2]) * 256 + hex_val(e[3]) * 16 + hex_val(e[4])
                == b);
            assert(e.skip(5) =~= s_rec);
        } else {
            assert(s[0] == b);
            assert(s.skip(1) =~= s_rec);
        }
    }
}

proof fn lemma_parse_bool_render(c: bool, rest: Seq<u8>)
    ensures
        parse_bool((if c { lit_true() } else { lit_false() }) + rest) == Some((c, rest)),
{
    if c {
        lemma_expect_prefix(lit_true(), rest);
    } else {
        let s = lit_false() + rest;
        assert(s[0] == 102);
        lemma_expect_differs(s, lit_true(), 0);
        lemma_expect_prefix(lit_false(), rest);
    }
}

proof fn lemma_render_task_len(t: TaskView)
    ensures
        render_task(t).len() >= 1,
{
}

proof fn lemma_parse_render_task(t: TaskView, rest: Seq<u8>)
    ensures
        parse_task(render_task(t) + rest) == Some((t, rest)),
{
    let bool_lit = if t.completed {
        lit_true()
    } else {
        lit_false()
    };
    let r6 = lit_obj_close() + rest;
    let r5 = bool_lit + r6;
    let r4 = lit_comp() + r5;
    let r3 = (esc_all(t.description) + seq![34u8]) + r4;
    let r2 = lit_desc() + r3;
    let r1 = dec_rep(t.id as nat) + r2;
    let s = lit_obj_open() + r1;
    assert(render_task(t) + rest =~= s);
    lemma_expect_prefix(lit_obj_open(), r1);
    assert(r2[0] == 44);
    crate::digits::lemma_parse_num_dec_rep(t.id, r2);
    lemma_expect_prefix(lit_desc(), r3);
    assert(r3 =~= esc_all(t.description) + (seq![34u8] + r4));
    lemma_parse_string_esc(t.description, r4);
    lemma_expect_prefix(lit_comp(), r5);
    lemma_parse_bool_render(t.completed, r6);
    lemma_expect_prefix(lit_obj_close(), rest);
    assert(TaskView { id: t.id, description: t.description, completed: t.completed } == t);
}

#[verifier::rlimit(50)]
proof fn lemma_parse_items_render(ts: Seq<TaskView>, rest: Seq<u8>)
    requires
        ts.len() >= 1,
        rest.len() == 0 || rest[0] != 44,
    ensures
        parse_items(render_items(ts) + rest) == Some((ts, rest)),
    decreases ts.len(),
{
    let s = render_items(ts) + rest;
    if ts.len() == 1 {
        assert(render_items(ts) == render_task(ts[0]));
        lemma_parse_render_task(ts[0], rest);
        lemma_render_task_len(ts[0]);
        if rest.len() != 0 {
            lemma_expect_differs(rest, lit_sep(), 0);
        }
        assert(seq![ts[0]] =~= ts);
    } else {
        let tail = ts.skip(1);
        assert(render_items(ts) == render_task(ts[0]) + lit_sep() + render_items(tail));
        let r2 = render_items(tail) + rest;
        let r1 = lit_sep() + r2;
        assert(s =~= render_task(ts[0]) + r1);
        lemma_parse_render_task(ts[0], r1);
        lemma_render_task_len(ts[0]);
        lemma_expect_prefix(lit_sep(), r2);
        lemma_parse_items_render(tail, rest);
        assert(seq![ts[0]] + tail =~= ts);
    }
}

/// Law: a saved document always loads back as the same list, in content and
/// in order.
pub proof fn lemma_render_parse_round_trip(ts: Seq<TaskView>)
    ensures
        parse_doc(render_doc(ts)) == Some(ts),
{
    if ts.len() == 0 {
        assert(lit_empty_doc() + Seq::<u8>::empty() =~= lit_empty_doc());
        lemma_expect_prefix(lit_empty_doc(), Seq::<u8>::empty());
        assert(all_ws(Seq::<u8>::empty()));
        assert(ts =~= Seq::<TaskView>::empty());
    } else {
        let s = render_doc(ts);
        let body = render_items(ts);
        assert(s == lit_arr_open() + body + lit_arr_close());
        assert(s[1] == 10);
        lemma_expect_differs(s, lit_empty_doc(), 1);
        let r1 = body + lit_arr_close();
        assert(s =~= lit_arr_open() + r1);
        lemma_expect_prefix(lit_arr_open(), r1);
        assert(lit_arr_close()[0] == 10);
        lemma_parse_items_render(ts, lit_arr_close());
        assert(lit_arr_close() + Seq::<u8>::empty() =~= lit_arr_close());
        lemma_expect_prefix(lit_arr_close(), Seq::<u8>::empty());
        assert(all_ws(Seq::<u8>::empty()));
    }
}


// ---------------------------------------------------------------------------
// Executable parsing: each function reads at a position of the slice and
// agrees exactly with the parsing spec on the bytes from that position on.
// ---------------------------------------------------------------------------
fn expect_bytes(s: &[u8], i: usize, lit: &Vec<u8>) -> (r: Option<usize>)
    requires
        i <= s@.len(),
    ensures
        match r {
            Some(j) => i <= j <= s@.len() && j - i == lit@.len() && expect(s@.skip(i as int), lit@)
                == Some(s@.skip(j as int)),
            None => expect(s@.skip(i as int), lit@) == None::<Seq<u8>>,
        },
{
    let n = s.len();
    if n - i < lit.len() {
        return None;
    }
    let m = lit.len();
    let mut k: usize = 0;
    while k < m
        invariant
            i + m <= n == s@.len(),
            m == lit@.len(),
            k <= m,
            forall|q: int| 0 <= q < k ==> s@[i + q] == lit@[q],
        decreases m - k,
    {
        if s[i + k] != lit[k] {
            proof {
                let sk = s@.skip(i as int);
                assert(sk.take(m as int)[k as int] == s@[i + k]);
                assert(sk.take(m as int) != lit@);
            }
            return None;
        }
        k += 1;
    }
    proof {
        let sk = s@.skip(i as int);
        assert(sk.take(m as int) =~= lit@);
        assert(sk.skip(m as int) =~= s@.skip(i as int + m as int));
    }
    Some(i + m)
}

fn hex_val_exec(b: u8) -> (r: Option<u8>)
    ensures
        match r {
            Some(v) => is_hex(b) && v as nat == hex_val(b),
            None => !is_hex(b),
        },
{
    if 48 <= b && b <= 57 {
        Some(b - 48)
    } else if 97 <= b && b <= 102 {
        Some(b - 87)
    } else if 65 <= b && b <= 70 {
        Some(b - 55)
    } else {
        None
    }
}

fn parse_escape_at(s: &[u8], i: usize) -> (r: Option<(u8, usize)>)
    requires
        i <= s@.len(),
    ensures
        match r {
            Some(p) => i < p.1 <= s@.len() && parse_escape(s@.skip(i as int)) == Some(
                (p.0, s@.skip(p.1 as int)),
            ),
            None => parse_escape(s@.skip(i as int)) == None::<(u8, Seq<u8>)>,
        },
{
    let n = s.len();
    if i == n {
        return None;
    }
    let e = s[i];
    assert(s@.skip(i as int)[0] == e);
    assert(s@.skip(i as int).skip(1) =~= s@.skip(i as int + 1));
    if e == 34 {
        Some((34, i + 1))
    } else if e == 92 {
        Some((92, i + 1))
    } else if e == 47 {
        Some((47, i + 1))
    } else if e == 98 {
        Some((8, i + 1))
    } else if e == 102 {
        Some((12, i + 1))
    } else if e == 110 {
        Some((10, i + 1))
    } else if e == 114 {
        Some((13, i + 1))
    } else if e == 116 {
        Some((9, i + 1))
    } else if e == 117 {
        if n - i < 5 {
            assert(s@.skip(i as int).len() < 5);
            return None;
        }
        assert(s@.skip(i as int)[1] == s@[i + 1]);
        assert(s@.skip(i as int)[2] == s@[i + 2]);
        assert(s@.skip(i as int)[3] == s@[i + 3]);
        assert(s@.skip(i as int)[4] == s@[i + 4]);
        let o1 = hex_val_exec(s[i + 1]);
        let o2 = hex_val_exec(s[i + 2]);
        let o3 = hex_val_exec(s[i + 3]);
        let o4 = hex_val_exec(s[i + 4]);
        match o1 {
            None => None,
            Some(v1) => match o2 {
                None => None,
                Some(v2) => match o3 {
                    None => None,
                    Some(v3) => match o4 {
                        None => None,
                        Some(v4) => {
                            let v: u32 = v1 as u32 * 4096 + v2 as u32 * 256 + v3 as u32 * 16
                                + v4 as u32;
                            if v < 128 {
                                assert(s@.skip(i as int).skip(5) =~= s@.skip(i as int + 5));
                                Some((v as u8, i + 5))
                            } else {
                                None
                            }
                        },
                    },
                },
            },
        }
    } else {
        None
    }
}

/// `r` with `pre` prepended to the parsed bytes, when it parsed at all.
spec fn ps_prepend(pre: Seq<u8>, r: Option<(Seq<u8>, Seq<u8>)>) -> Option<(Seq<u8>, Seq<u8>)> {
    match r {
        Some(p) => Some((pre + p.0, p.1)),
        None => None,
    }
}

fn parse_string_at(s: &[u8], i: usize) -> (r: Option<(Vec<u8>, usize)>)
    requires
        i <= s@.len(),
    ensures
        match r {
            Some(p) => i < p.1 <= s@.len() && parse_string(s@.skip(i as int)) == Some(
                (p.0@, s@.skip(p.1 as int)),
            ),
            None => parse_string(s@.skip(i as int)) == None::<(Seq<u8>, Seq<u8>)>,
        },
{
    let n = s.len();
    let mut acc: Vec<u8> = Vec::new();
    let mut cur: usize = i;
    loop
        invariant
            i <= cur <= n == s@.len(),
            parse_string(s@.skip(i as int)) == ps_prepend(
                acc@,
                parse_string(s@.skip(cur as int)),
            ),
        decreases n - cur,
    {
        if cur == n {
            return None;
        }
        let b = s[cur];
        assert(s@.skip(cur as int)[0] == b);
        assert(s@.skip(cur as int).skip(1) =~= s@.skip(cur as int + 1));
        if b == 34 {
            assert(acc@ + Seq::<u8>::empty() =~= acc@);
            return Some((acc, cur + 1));
        } else if b == 92 {
            match parse_escape_at(s, cur + 1) {
                None => {
                    return None;
                },
                Some(p) => {
                    let v = p.0;
                    let j = p.1;
                    proof {
                        let ps_j = parse_string(s@.skip(j as int));
                        if ps_j is Some {
                            let pair = ps_j.unwrap();
                            assert(acc@ + (seq![v] + pair.0) =~= (acc@ + seq![v]) + pair.0);
                        }
                        assert(acc@ + seq![v] =~= acc@.push(v));
                    }
                    acc.push(v);
                    cur = j;
                },
            }
        } else if b >= 32 {
            proof {
                let ps_j = parse_string(s@.skip(cur as int + 1));
                if ps_j is Some {
                    let pair = ps_j.unwrap();
                    assert(acc@ + (seq![b] + pair.0) =~= (acc@ + seq![b]) + pair.0);
                }
                assert(acc@ + seq![b] =~= acc@.push(b));
            }
            acc.push(b);
            cur += 1;
        } else {
            return None;
        }
    }
}

fn parse_task_at(s: &[u8], i: usize) -> (r: Option<(crate::task::Task, usize)>)
    requires
        i <= s@.len(),
    ensures
        match r {
            Some(p) => i < p.1 <= s@.len() && parse_task(s@.skip(i as int)) == Some(
                (p.0@, s@.skip(p.1 as int)),
            ),
            None => parse_task(s@.skip(i as int)) == None::<(TaskView, Seq<u8>)>,
        },
{
    let j1 = match expect_bytes(s, i, &lit_obj_open_vec()) {
        Some(j) => j,
        None => {
            return None;
        },
    };
    let (id, j2) = match crate::digits::parse_num_at(s, j1) {
        Some(p) => p,
        None => {
            return None;
        },
    };
    let j3 = match expect_bytes(s, j2, &lit_desc_vec()) {
        Some(j) => j,
        None => {
            return None;
        },
    };
    let (desc, j4) = match parse_string_at(s, j3) {
        Some(p) => p,
        None => {
            return None;
        },
    };
    let j5 = match expect_bytes(s, j4, &lit_comp_vec()) {
        Some(j) => j,
        None => {
            return None;
        },
    };
    let (completed, j6) = match expect_bytes(s, j5, &lit_true_vec()) {
        Some(j) => (true, j),
        None => match expect_bytes(s, j5, &lit_false_vec()) {
            Some(j) => (false, j),
            None => {
                return None;
            },
        },
    };
    let j7 = match expect_bytes(s, j6, &lit_obj_close_vec()) {
        Some(j) => j,
        None => {
            return None;
        },
    };
    let t = crate::task::Task { id, description: desc, completed };
    Some((t, j7))
}

fn parse_items_at(s: &[u8], i: usize) -> (r: Option<(Vec<crate::task::Task>, usize)>)
    requires
        i <= s@.len(),
    ensures
        match r {
            Some(p) => i < p.1 <= s@.len() && parse_items(s@.skip(i as int)) == Some(
                (p.0.deep_view(), s@.skip(p.1 as int)),
            ),
            None => parse_items(s@.skip(i as int)) == None::<(Seq<TaskView>, Seq<u8>)>,
        },
    decreases s@.len() - i,
{
    let (t, j) = match parse_task_at(s, i) {
        Some(p) => p,
        None => {
            return None;
        },
    };
    match expect_bytes(s, j, &lit_sep_vec()) {
        Some(j2) => {
            match parse_items_at(s, j2) {
                Some(p) => {
                    let (mut rest_vec, k) = p;
                    let ghost dv0 = rest_vec.deep_view();
                    let ghost tv = t@;
                    rest_vec.insert(0, t);
                    proof {
                        assert(rest_vec.deep_view() =~= seq![tv] + dv0);
                    }
                    Some((rest_vec, k))
                },
                None => None,
            }
        },
        None => {
            let ghost tv = t@;
            let mut v: Vec<crate::task::Task> = Vec::new();
            v.push(t);
            proof {
                assert(v.deep_view() =~= seq![tv]);
            }
            Some((v, j))
        },
    }
}

fn ws_to_end(s: &[u8], i: usize) -> (r: bool)
    requires
        i <= s@.len(),
    ensures
        r == all_ws(s@.skip(i as int)),
{
    let n = s.len();
    let mut k: usize = i;
    while k < n
        invariant
            i <= k <= n == s@.len(),
            forall|q: int| 0 <= q < k - i ==> is_ws(#[trigger] s@.skip(i as int)[q]),
        decreases n - k,
    {
        let b = s[k];
        assert(s@.skip(i as int)[k - i] == b);
        if !(b == 32 || b == 9 || b == 10 || b == 13) {
            return false;
        }
        k += 1;
    }
    true
}

/// Reads a persisted document. `Ok` carries exactly the tasks the document
/// denotes; any input the document grammar refuses is a `ParseFailure`.
pub fn parse_tasks(s: &[u8]) -> (r: Result<Vec<crate::task::Task>, crate::errors::TodoError>)
    ensures
        match r {
            Ok(v) => parse_doc(s@) == Some(v.deep_view()),
            Err(e) => parse_doc(s@) == None::<Seq<TaskView>> && e
                == crate::errors::TodoError::ParseFailure,
        },
{
    proof {
        assert(s@.skip(0) =~= s@);
    }
    match expect_bytes(s, 0, &lit_empty_doc_vec()) {
        Some(j) => {
            if ws_to_end(s, j) {
                let v: Vec<crate::task::Task> = Vec::new();
                proof {
                    assert(v.deep_view() =~= Seq::<TaskView>::empty());
                }
                Ok(v)
            } else {
                Err(crate::errors::TodoError::ParseFailure)
            }
        },
        None => {
            match expect_bytes(s, 0, &lit_arr_open_vec()) {
                None => Err(crate::errors::TodoError::ParseFailure),
                Some(j1) => match parse_items_at(s, j1) {
                    None => Err(crate::errors::TodoError::ParseFailure),
                    Some(p) => {
                        let (v, j2) = p;
                        match expect_bytes(s, j2, &lit_arr_close_vec()) {
                            None => Err(crate::errors::TodoError::ParseFailure),
                            Some(j3) => {
                                if ws_to_end(s, j3) {
                                    Ok(v)
                                } else {
                                    Err(crate::errors::TodoError::ParseFailure)
                                }
                            },
                        }
                    },
                },
            }
        },
    }
}


} // verus!
