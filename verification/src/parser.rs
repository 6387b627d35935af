//! The tool-call parser: a pure function from model output text to the
//! tool invocations it requests. Four textual formats are tried in a fixed
//! priority order, and the first format that yields at least one
//! well-formed call wins:
//!
//! 1. a labelled bracket form, `行动：name[{...}]` or `Action：name[{...}]`
//!    (with either the fullwidth or the ASCII colon);
//! 2. a line pair, `Action:<name>` directly above `Action Input:<json>`
//!    (also the `Tool:`/`Tool Input:` and `✿FUNCTION✿:`/`✿ARGS✿:` variants);
//! 3. a tagged form, `<tool_call>{"name":...,"arguments":...}</tool_call>`;
//! 4. a bare JSON object with `name` and `arguments` fields anywhere in the
//!    text.
//!
//! A matched call whose argument text is not valid JSON is dropped
//! silently; a format none of whose matches survive counts as no match.

use vstd::prelude::*;

use crate::json::{json_check, json_field, json_get_raw, json_get_str, json_ok, json_str_field};
use crate::text::{
    chars_to_string, contains_pat, find_from, find_pat, lemma_find_from_props, lines_of,
    match_at, matches_at, split_lines, starts_with, str_to_chars, subvec, trim_spec,
    trimmed_range,
};
use crate::tool::ToolCall;

verus! {

/// The (name, argument text) pairs denoted by a list of calls.
pub open spec fn calls_view(v: Seq<ToolCall>) -> Seq<(Seq<char>, Seq<char>)> {
    v.map_values(|c: ToolCall| (c.name@, c.arguments@))
}

// ---------------------------------------------------------------------
// strategy 1: labelled bracket form
// ---------------------------------------------------------------------

/// The earliest bracket-form label at or after `from`, with its length.
pub open spec fn bracket_label_at(s: Seq<char>, from: int) -> Option<(int, int)> {
    let f1 = find_from(s, "行动"@, from);
    let f2 = find_from(s, "Action"@, from);
    match (f1, f2) {
        (Some(i1), Some(i2)) => if i1 <= i2 {
            Some((i1, "行动"@.len() as int))
        } else {
            Some((i2, "Action"@.len() as int))
        },
        (Some(i1), None) => Some((i1, "行动"@.len() as int)),
        (None, Some(i2)) => Some((i2, "Action"@.len() as int)),
        (None, None) => None,
    }
}

/// One attempt to read a bracket-form call at or after `from`: the call, if
/// one is complete and well-formed there, and the position where the scan
/// goes on (`None` when nothing later can match).
pub open spec fn bracket_step(s: Seq<char>, from: int) -> (Option<(Seq<char>, Seq<char>)>, Option<
    int,
>) {
    match bracket_label_at(s, from) {
        None => (None, None),
        Some((i, lablen)) => {
            let k = i + lablen;
            if k >= s.len() || !(s[k] == '：' || s[k] == ':') {
                (None, Some(i + 1))
            } else {
                match find_from(s, seq!['['], k + 1) {
                    None => (None, None),
                    Some(b) => {
                        let n = trim_spec(s.subrange(k + 1, b));
                        match find_from(s, seq![']'], b + 1) {
                            None => (None, None),
                            Some(c) => {
                                let a = trim_spec(s.subrange(b + 1, c));
                                if n.len() > 0 && !contains_pat(n, seq!['\n']) && json_ok(a) {
                                    (Some((n, a)), Some(c + 1))
                                } else {
                                    (None, Some(i + 1))
                                }
                            },
                        }
                    },
                }
            }
        },
    }
}

/// All bracket-form calls at or after `from`, in text order.
pub open spec fn bracket_from(s: Seq<char>, from: int) -> Seq<(Seq<char>, Seq<char>)>
    decreases s.len() - from,
{
    if from < 0 {
        Seq::empty()
    } else {
        let (call, next) = bracket_step(s, from);
        let head = match call {
            Some(c) => seq![c],
            None => Seq::<(Seq<char>, Seq<char>)>::empty(),
        };
        match next {
            None => head,
            Some(nf) => if nf <= from || nf > s.len() {
                head
            } else {
                head + bracket_from(s, nf)
            },
        }
    }
}

/// Reads one bracket-form call at or after `from`.
fn bracket_step_exec(v: &Vec<char>, from: usize) -> (r: (Option<ToolCall>, Option<usize>))
    ensures
        ({
            let (sc, sn) = bracket_step(v@, from as int);
            &&& (match r.0 {
                Some(c) => sc == Some((c.name@, c.arguments@)) && json_ok(c.arguments@),
                None => sc is None,
            })
            &&& (match r.1 {
                Some(nf) => sn == Some(nf as int) && from < nf <= v@.len(),
                None => sn is None,
            })
        }),
{
    let vlen = v.len();
    let lab1 = str_to_chars("行动");
    let lab2 = str_to_chars("Action");
    proof {
        lemma_find_from_props(v@, lab1@, from as int);
        lemma_find_from_props(v@, lab2@, from as int);
        reveal_strlit("行动");
        reveal_strlit("Action");
        assert(lab1@.len() == 2);
        assert(lab2@.len() == 6);
    }
    let f1 = find_pat(v, &lab1, from);
    let f2 = find_pat(v, &lab2, from);
    let (i, lablen): (usize, usize) = match (f1, f2) {
        (Some(i1), Some(i2)) => if i1 <= i2 {
            (i1, lab1.len())
        } else {
            (i2, lab2.len())
        },
        (Some(i1), None) => (i1, lab1.len()),
        (None, Some(i2)) => (i2, lab2.len()),
        (None, None) => {
            return (None, None);
        },
    };
    let k = i + lablen;
    if k >= v.len() || !(v[k] == '：' || v[k] == ':') {
        return (None, Some(i + 1));
    }
    let mut lb: Vec<char> = Vec::new();
    lb.push('[');
    proof {
        assert(lb@ =~= seq!['[']);
    }
    let fb = find_pat(v, &lb, k + 1);
    let b = match fb {
        None => {
            return (None, None);
        },
        Some(b) => b,
    };
    proof {
        lemma_find_from_props(v@, lb@, k + 1 as int);
    }
    let n = trimmed_range(v, k + 1, b);
    let mut rb: Vec<char> = Vec::new();
    rb.push(']');
    proof {
        assert(rb@ =~= seq![']']);
    }
    let fc = find_pat(v, &rb, b + 1);
    let c = match fc {
        None => {
            return (None, None);
        },
        Some(c) => c,
    };
    proof {
        lemma_find_from_props(v@, rb@, b + 1 as int);
    }
    let a = trimmed_range(v, b + 1, c);
    let mut nl: Vec<char> = Vec::new();
    nl.push('\n');
    proof {
        assert(nl@ =~= seq!['\n']);
    }
    let has_nl = find_pat(&n, &nl, 0).is_some();
    let a_str = chars_to_string(&a);
    if n.len() > 0 && !has_nl && json_check(a_str.as_str()) {
        (Some(ToolCall { name: chars_to_string(&n), arguments: a_str }), Some(c + 1))
    } else {
        (None, Some(i + 1))
    }
}

/// All bracket-form calls in `v`.
fn run_bracket(v: &Vec<char>) -> (r: Vec<ToolCall>)
    ensures
        calls_view(r@) == bracket_from(v@, 0),
        forall|i: int| 0 <= i < r@.len() ==> json_ok(#[trigger] r@[i].arguments@),
{
    let mut out: Vec<ToolCall> = Vec::new();
    let mut from: usize = 0;
    proof {
        assert(calls_view(out@) + bracket_from(v@, 0) =~~= bracket_from(v@, 0));
    }
    loop
        invariant
            from <= v@.len(),
            calls_view(out@) + bracket_from(v@, from as int) == bracket_from(v@, 0),
            forall|i: int| 0 <= i < out@.len() ==> json_ok(#[trigger] out@[i].arguments@),
        decreases v@.len() - from,
    {
        let ghost prev = out@;
        let ghost pos = from as int;
        let (c, nf) = bracket_step_exec(v, from);
        let ghost head = match bracket_step(v@, pos).0 {
            Some(cc) => seq![cc],
            None => Seq::<(Seq<char>, Seq<char>)>::empty(),
        };
        match c {
            Some(tc) => {
                proof {
                    assert(calls_view(prev.push(tc)) =~~= calls_view(prev) + head);
                }
                out.push(tc);
            },
            None => {
                proof {
                    assert(calls_view(prev) =~~= calls_view(prev) + head);
                }
            },
        }
        match nf {
            None => {
                proof {
                    assert(bracket_from(v@, pos) == head);
                    assert(calls_view(out@) =~~= calls_view(prev) + head);
                    assert(calls_view(out@) + bracket_from(v@, v@.len() as int) =~~= calls_view(
                        out@,
                    ));
                }
                proof {
                    assert(calls_view(out@) == bracket_from(v@, 0));
                }
                return out;
            },
            Some(n2) => {
                proof {
                    assert(bracket_from(v@, pos) == head + bracket_from(v@, n2 as int));
                    assert(calls_view(prev) + (head + bracket_from(v@, n2 as int)) =~~= (
                    calls_view(prev) + head) + bracket_from(v@, n2 as int));
                }
                from = n2;
            },
        }
    }
}

// ---------------------------------------------------------------------
// strategy 2: line pairs
// ---------------------------------------------------------------------

/// The call written on lines `i` and `i + 1`, when they carry one of the
/// recognized label pairs: the trimmed name and the trimmed argument text.
pub open spec fn line_pair_step(lines: Seq<Seq<char>>, i: int) -> Option<(Seq<char>, Seq<char>)> {
    let line = lines[i];
    let next = lines[i + 1];
    if starts_with(line, "Action:"@) && starts_with(next, "Action Input:"@) {
        Some(
            (
                trim_spec(line.skip("Action:"@.len() as int)),
                trim_spec(next.skip("Action Input:"@.len() as int)),
            ),
        )
    } else if starts_with(line, "Tool:"@) && starts_with(next, "Tool Input:"@) {
        Some(
            (
                trim_spec(line.skip("Tool:"@.len() as int)),
                trim_spec(next.skip("Tool Input:"@.len() as int)),
            ),
        )
    } else if starts_with(line, "✿FUNCTION✿:"@) && starts_with(next, "✿ARGS✿:"@) {
        Some(
            (
                trim_spec(line.skip("✿FUNCTION✿:"@.len() as int)),
                trim_spec(next.skip("✿ARGS✿:"@.len() as int)),
            ),
        )
    } else {
        None
    }
}

/// All line-pair calls from line `i` on: a matched pair consumes both its
/// lines; a pair whose name is empty or whose arguments are not valid JSON
/// is dropped.
pub open spec fn line_pair_from(lines: Seq<Seq<char>>, i: int) -> Seq<(Seq<char>, Seq<char>)>
    decreases lines.len() - i,
{
    if i < 0 || i + 1 >= lines.len() {
        Seq::empty()
    } else {
        match line_pair_step(lines, i) {
            Some((n, a)) => if n.len() > 0 && json_ok(a) {
                seq![(n, a)] + line_pair_from(lines, i + 2)
            } else {
                line_pair_from(lines, i + 2)
            },
            None => line_pair_from(lines, i + 1),
        }
    }
}

/// All line-pair calls in `v`.
fn run_line_pairs(v: &Vec<char>) -> (r: Vec<ToolCall>)
    ensures
        calls_view(r@) == line_pair_from(split_lines(v@), 0),
        forall|i: int| 0 <= i < r@.len() ==> json_ok(#[trigger] r@[i].arguments@),
{
    let lines = lines_of(v);
    let ghost lspec = split_lines(v@);
    let lab_a1 = str_to_chars("Action:");
    let lab_a2 = str_to_chars("Action Input:");
    let lab_t1 = str_to_chars("Tool:");
    let lab_t2 = str_to_chars("Tool Input:");
    let lab_f1 = str_to_chars("✿FUNCTION✿:");
    let lab_f2 = str_to_chars("✿ARGS✿:");
    let mut out: Vec<ToolCall> = Vec::new();
    let mut i: usize = 0;
    let nlines = lines.len();
    proof {
        assert(calls_view(out@) + line_pair_from(lspec, 0) =~~= line_pair_from(lspec, 0));
    }
    while i < nlines && i + 1 < nlines
        invariant
            i <= nlines,
            nlines == lines@.len(),
            lines.deep_view() == lspec,
            lab_a1@ == "Action:"@,
            lab_a2@ == "Action Input:"@,
            lab_t1@ == "Tool:"@,
            lab_t2@ == "Tool Input:"@,
            lab_f1@ == "✿FUNCTION✿:"@,
            lab_f2@ == "✿ARGS✿:"@,
            calls_view(out@) + line_pair_from(lspec, i as int) == line_pair_from(lspec, 0),
            forall|k: int| 0 <= k < out@.len() ==> json_ok(#[trigger] out@[k].arguments@),
        decreases lines@.len() - i,
    {
        let ghost prev = out@;
        let ghost pos = i as int;
        proof {
            assert(lines.deep_view()[pos] == lines@[pos]@);
            assert(lines.deep_view()[pos + 1] == lines@[pos + 1]@);
        }
        let line = &lines[i];
        let next = &lines[i + 1];
        let hit: Option<(usize, usize)> = if matches_at(line, &lab_a1, 0) && matches_at(
            next,
            &lab_a2,
            0,
        ) {
            Some((lab_a1.len(), lab_a2.len()))
        } else if matches_at(line, &lab_t1, 0) && matches_at(next, &lab_t2, 0) {
            Some((lab_t1.len(), lab_t2.len()))
        } else if matches_at(line, &lab_f1, 0) && matches_at(next, &lab_f2, 0) {
            Some((lab_f1.len(), lab_f2.len()))
        } else {
            None
        };
        match hit {
            Some((l1, l2)) => {
                let n = trimmed_range(line, l1, line.len());
                let a = trimmed_range(next, l2, next.len());
                proof {
                    assert(lspec[pos].skip(l1 as int) =~= line@.subrange(
                        l1 as int,
                        line@.len() as int,
                    ));
                    assert(lspec[pos + 1].skip(l2 as int) =~= next@.subrange(
                        l2 as int,
                        next@.len() as int,
                    ));
                    assert(line_pair_step(lspec, pos) == Some((n@, a@)));
                }
                let a_str = chars_to_string(&a);
                if n.len() > 0 && json_check(a_str.as_str()) {
                    let tc = ToolCall { name: chars_to_string(&n), arguments: a_str };
                    proof {
                        assert(calls_view(prev.push(tc)) =~~= calls_view(prev) + seq![
                            (n@, a@),
                        ]);
                        assert(line_pair_from(lspec, pos) == seq![(n@, a@)] + line_pair_from(
                            lspec,
                            pos + 2,
                        ));
                        assert(calls_view(prev) + (seq![(n@, a@)] + line_pair_from(
                            lspec,
                            pos + 2,
                        )) =~~= (calls_view(prev) + seq![(n@, a@)]) + line_pair_from(
                            lspec,
                            pos + 2,
                        ));
                    }
                    out.push(tc);
                } else {
                    proof {
                        assert(line_pair_from(lspec, pos) == line_pair_from(lspec, pos + 2));
                    }
                }
                i += 2;
            },
            None => {
                proof {
                    assert(line_pair_step(lspec, pos) is None);
                    assert(line_pair_from(lspec, pos) == line_pair_from(lspec, pos + 1));
                }
                i += 1;
            },
        }
    }
    proof {
        assert(line_pair_from(lspec, i as int) =~~= Seq::<(Seq<char>, Seq<char>)>::empty());
        assert(calls_view(out@) + line_pair_from(lspec, i as int) =~~= calls_view(out@));
    }
    out
}

// ---------------------------------------------------------------------
// strategy 3: tagged form
// ---------------------------------------------------------------------

/// One attempt to read a `<tool_call>` span at or after `from`.
pub open spec fn tagged_step(s: Seq<char>, from: int) -> (Option<(Seq<char>, Seq<char>)>, Option<
    int,
>) {
    match find_from(s, "<tool_call>"@, from) {
        None => (None, None),
        Some(i) => {
            match find_from(s, "</tool_call>"@, i + "<tool_call>"@.len()) {
                None => (None, None),
                Some(j) => {
                    let inner = trim_spec(s.subrange(i + "<tool_call>"@.len(), j));
                    let next = Some(j + "</tool_call>"@.len());
                    match (json_str_field(inner, "name"@), json_field(inner, "arguments"@)) {
                        (Some(n), Some(a)) => (Some((n, a)), next),
                        _ => (None, next),
                    }
                },
            }
        },
    }
}

/// All tagged calls at or after `from`, in text order.
pub open spec fn tagged_from(s: Seq<char>, from: int) -> Seq<(Seq<char>, Seq<char>)>
    decreases s.len() - from,
{
    if from < 0 {
        Seq::empty()
    } else {
        let (call, next) = tagged_step(s, from);
        let head = match call {
            Some(c) => seq![c],
            None => Seq::<(Seq<char>, Seq<char>)>::empty(),
        };
        match next {
            None => head,
            Some(nf) => if nf <= from || nf > s.len() {
                head
            } else {
                head + tagged_from(s, nf)
            },
        }
    }
}

/// Reads one tagged call at or after `from`.
fn tagged_step_exec(v: &Vec<char>, from: usize) -> (r: (Option<ToolCall>, Option<usize>))
    ensures
        ({
            let (sc, sn) = tagged_step(v@, from as int);
            &&& (match r.0 {
                Some(c) => sc == Some((c.name@, c.arguments@)) && json_ok(c.arguments@),
                None => sc is None,
            })
            &&& (match r.1 {
                Some(nf) => sn == Some(nf as int) && from < nf <= v@.len(),
                None => sn is None,
            })
        }),
{
    let vlen = v.len();
    let open = str_to_chars("<tool_call>");
    let close = str_to_chars("</tool_call>");
    proof {
        reveal_strlit("<tool_call>");
        reveal_strlit("</tool_call>");
        assert(open@.len() == 11);
        assert(close@.len() == 12);
        lemma_find_from_props(v@, open@, from as int);
    }
    let i = match find_pat(v, &open, from) {
        None => {
            return (None, None);
        },
        Some(i) => i,
    };
    proof {
        lemma_find_from_props(v@, close@, i + open@.len() as int);
    }
    let j = match find_pat(v, &close, i + open.len()) {
        None => {
            return (None, None);
        },
        Some(j) => j,
    };
    let inner = trimmed_range(v, i + open.len(), j);
    let inner_str = chars_to_string(&inner);
    let name = json_get_str(inner_str.as_str(), "name");
    let args = json_get_raw(inner_str.as_str(), "arguments");
    let next = j + close.len();
    match (name, args) {
        (Some(n), Some(a)) => (Some(ToolCall { name: n, arguments: a }), Some(next)),
        _ => (None, Some(next)),
    }
}

/// All tagged calls in `v`.
fn run_tagged(v: &Vec<char>) -> (r: Vec<ToolCall>)
    ensures
        calls_view(r@) == tagged_from(v@, 0),
        forall|i: int| 0 <= i < r@.len() ==> json_ok(#[trigger] r@[i].arguments@),
{
    let mut out: Vec<ToolCall> = Vec::new();
    let mut from: usize = 0;
    proof {
        assert(calls_view(out@) + tagged_from(v@, 0) =~~= tagged_from(v@, 0));
    }
    loop
        invariant
            from <= v@.len(),
            calls_view(out@) + tagged_from(v@, from as int) == tagged_from(v@, 0),
            forall|i: int| 0 <= i < out@.len() ==> json_ok(#[trigger] out@[i].arguments@),
        decreases v@.len() - from,
    {
        let ghost prev = out@;
        let ghost pos = from as int;
        let (c, nf) = tagged_step_exec(v, from);
        let ghost head = match tagged_step(v@, pos).0 {
            Some(cc) => seq![cc],
            None => Seq::<(Seq<char>, Seq<char>)>::empty(),
        };
        match c {
            Some(tc) => {
                proof {
                    assert(calls_view(prev.push(tc)) =~~= calls_view(prev) + head);
                }
                out.push(tc);
            },
            None => {
                proof {
                    assert(calls_view(prev) =~~= calls_view(prev) + head);
                }
            },
        }
        match nf {
            None => {
                proof {
                    assert(tagged_from(v@, pos) == head);
                    assert(calls_view(out@) =~~= calls_view(prev) + head);
                }
                proof {
                    assert(calls_view(out@) == tagged_from(v@, 0));
                }
                return out;
            },
            Some(n2) => {
                proof {
                    assert(tagged_from(v@, pos) == head + tagged_from(v@, n2 as int));
                    assert(calls_view(prev) + (head + tagged_from(v@, n2 as int)) =~~= (
                    calls_view(prev) + head) + tagged_from(v@, n2 as int));
                }
                from = n2;
            },
        }
    }
}

// ---------------------------------------------------------------------
// strategy 4: bare JSON object
// ---------------------------------------------------------------------

/// The position of the `}` closing the object whose `{` stands at `i`,
/// scanned with string literals and escapes respected. `depth` counts the
/// braces already open; `in_str` and `esc` carry the string-literal state.
pub open spec fn scan_object_end(
    s: Seq<char>,
    i: int,
    depth: int,
    in_str: bool,
    esc: bool,
) -> Option<int>
    decreases s.len() - i,
{
    if i < 0 || i >= s.len() {
        None
    } else {
        let c = s[i];
        if in_str {
            if esc {
                scan_object_end(s, i + 1, depth, true, false)
            } else if c == '\\' {
                scan_object_end(s, i + 1, depth, true, true)
            } else if c == '"' {
                scan_object_end(s, i + 1, depth, false, false)
            } else {
                scan_object_end(s, i + 1, depth, true, false)
            }
        } else {
            if c == '"' {
                scan_object_end(s, i + 1, depth, true, false)
            } else if c == '{' {
                scan_object_end(s, i + 1, depth + 1, false, false)
            } else if c == '}' {
                if depth == 1 {
                    Some(i)
                } else {
                    scan_object_end(s, i + 1, depth - 1, false, false)
                }
            } else {
                scan_object_end(s, i + 1, depth, false, false)
            }
        }
    }
}

/// One attempt to read a bare JSON call object at or after `from`.
pub open spec fn bare_step(s: Seq<char>, from: int) -> (Option<(Seq<char>, Seq<char>)>, Option<
    int,
>) {
    match find_from(s, seq!['{'], from) {
        None => (None, None),
        Some(i) => {
            match scan_object_end(s, i, 0, false, false) {
                None => (None, Some(i + 1)),
                Some(j) => {
                    let cand = s.subrange(i, j + 1);
                    match (json_str_field(cand, "name"@), json_field(cand, "arguments"@)) {
                        (Some(n), Some(a)) => (Some((n, a)), Some(j + 1)),
                        _ => (None, Some(i + 1)),
                    }
                },
            }
        },
    }
}

/// All bare JSON call objects at or after `from`, in text order.
pub open spec fn bare_from(s: Seq<char>, from: int) -> Seq<(Seq<char>, Seq<char>)>
    decreases s.len() - from,
{
    if from < 0 {
        Seq::empty()
    } else {
        let (call, next) = bare_step(s, from);
        let head = match call {
            Some(c) => seq![c],
            None => Seq::<(Seq<char>, Seq<char>)>::empty(),
        };
        match next {
            None => head,
            Some(nf) => if nf <= from || nf > s.len() {
                head
            } else {
                head + bare_from(s, nf)
            },
        }
    }
}

/// Finds the `}` closing the object whose `{` stands at `start`.
fn scan_object_end_exec(v: &Vec<char>, start: usize) -> (r: Option<usize>)
    requires
        start < v@.len(),
        v@[start as int] == '{',
    ensures
        match r {
            Some(j) => scan_object_end(v@, start as int, 0, false, false) == Some(j as int)
                && start <= j < v@.len(),
            None => scan_object_end(v@, start as int, 0, false, false) is None,
        },
{
    let n = v.len();
    let mut i: usize = start;
    let mut depth: usize = 0;
    let mut in_str: bool = false;
    let mut esc: bool = false;
    while i < n
        invariant
            start <= i <= n,
            n == v@.len(),
            v@[start as int] == '{',
            depth <= i - start,
            i == start ==> depth == 0 && !in_str && !esc,
            i > start ==> depth >= 1,
            !in_str ==> !esc,
            scan_object_end(v@, start as int, 0, false, false) == scan_object_end(
                v@,
                i as int,
                depth as int,
                in_str,
                esc,
            ),
        decreases n - i,
    {
        let c = v[i];
        if in_str {
            if esc {
                esc = false;
            } else if c == '\\' {
                esc = true;
            } else if c == '"' {
                in_str = false;
            }
        } else {
            if c == '"' {
                in_str = true;
            } else if c == '{' {
                depth = depth + 1;
            } else if c == '}' {
                if depth == 1 {
                    return Some(i);
                }
                depth = depth - 1;
            }
        }
        i += 1;
    }
    None
}

/// Reads one bare JSON call object at or after `from`.
fn bare_step_exec(v: &Vec<char>, from: usize) -> (r: (Option<ToolCall>, Option<usize>))
    ensures
        ({
            let (sc, sn) = bare_step(v@, from as int);
            &&& (match r.0 {
                Some(c) => sc == Some((c.name@, c.arguments@)) && json_ok(c.arguments@),
                None => sc is None,
            })
            &&& (match r.1 {
                Some(nf) => sn == Some(nf as int) && from < nf <= v@.len(),
                None => sn is None,
            })
        }),
{
    let vlen = v.len();
    let mut ob: Vec<char> = Vec::new();
    ob.push('{');
    proof {
        assert(ob@ =~= seq!['{']);
        lemma_find_from_props(v@, ob@, from as int);
    }
    let i = match find_pat(v, &ob, from) {
        None => {
            return (None, None);
        },
        Some(i) => i,
    };
    proof {
        assert(v@.subrange(i as int, i + 1 as int)[0] == '{');
    }
    match scan_object_end_exec(v, i) {
        None => (None, Some(i + 1)),
        Some(j) => {
            let cand = subvec(v, i, j + 1);
            let cand_str = chars_to_string(&cand);
            let name = json_get_str(cand_str.as_str(), "name");
            let args = json_get_raw(cand_str.as_str(), "arguments");
            match (name, args) {
                (Some(n), Some(a)) => (
                    Some(ToolCall { name: n, arguments: a }),
                    Some(j + 1),
                ),
                _ => (None, Some(i + 1)),
            }
        },
    }
}

/// All bare JSON call objects in `v`.
fn run_bare(v: &Vec<char>) -> (r: Vec<ToolCall>)
    ensures
        calls_view(r@) == bare_from(v@, 0),
        forall|i: int| 0 <= i < r@.len() ==> json_ok(#[trigger] r@[i].arguments@),
{
    let mut out: Vec<ToolCall> = Vec::new();
    let mut from: usize = 0;
    proof {
        assert(calls_view(out@) + bare_from(v@, 0) =~~= bare_from(v@, 0));
    }
    loop
        invariant
            from <= v@.len(),
            calls_view(out@) + bare_from(v@, from as int) == bare_from(v@, 0),
            forall|i: int| 0 <= i < out@.len() ==> json_ok(#[trigger] out@[i].arguments@),
        decreases v@.len() - from,
    {
        let ghost prev = out@;
        let ghost pos = from as int;
        let (c, nf) = bare_step_exec(v, from);
        let ghost head = match bare_step(v@, pos).0 {
            Some(cc) => seq![cc],
            None => Seq::<(Seq<char>, Seq<char>)>::empty(),
        };
        match c {
            Some(tc) => {
                proof {
                    assert(calls_view(prev.push(tc)) =~~= calls_view(prev) + head);
                }
                out.push(tc);
            },
            None => {
                proof {
                    assert(calls_view(prev) =~~= calls_view(prev) + head);
                }
            },
        }
        match nf {
            None => {
                proof {
                    assert(bare_from(v@, pos) == head);
                    assert(calls_view(out@) =~~= calls_view(prev) + head);
                }
                proof {
                    assert(calls_view(out@) == bare_from(v@, 0));
                }
                return out;
            },
            Some(n2) => {
                proof {
                    assert(bare_from(v@, pos) == head + bare_from(v@, n2 as int));
                    assert(calls_view(prev) + (head + bare_from(v@, n2 as int)) =~~= (
                    calls_view(prev) + head) + bare_from(v@, n2 as int));
                }
                from = n2;
            },
        }
    }
}

// ---------------------------------------------------------------------
// the parser
// ---------------------------------------------------------------------

/// What `parse` returns: the first format, in priority order, that yields
/// at least one call.
pub open spec fn parse_spec(s: Seq<char>) -> Seq<(Seq<char>, Seq<char>)> {
    let b = bracket_from(s, 0);
    let lp = line_pair_from(split_lines(s), 0);
    let tg = tagged_from(s, 0);
    if b.len() > 0 {
        b
    } else if lp.len() > 0 {
        lp
    } else if tg.len() > 0 {
        tg
    } else {
        bare_from(s, 0)
    }
}

/// Parses the model's response text into the tool calls it requests, in
/// text order, trying the four formats in priority order. An empty result
/// means the text is a final answer. Every returned call carries valid
/// JSON argument text.
pub fn parse(response: &str) -> (r: Vec<ToolCall>)
    ensures
        calls_view(r@) == parse_spec(response@),
        forall|i: int| 0 <= i < r@.len() ==> json_ok(#[trigger] r@[i].arguments@),
{
    let v = str_to_chars(response);
    let b = run_bracket(&v);
    if b.len() > 0 {
        return b;
    }
    let lp = run_line_pairs(&v);
    if lp.len() > 0 {
        return lp;
    }
    let tg = run_tagged(&v);
    if tg.len() > 0 {
        return tg;
    }
    run_bare(&v)
}

/// The first tool call requested by the response, if any: the head of
/// `parse`.
pub fn parse_tool_call(response: &str) -> (r: Option<ToolCall>)
    ensures
        parse_spec(response@).len() == 0 <==> r is None,
        r matches Some(c) ==> parse_spec(response@)[0] == (c.name@, c.arguments@) && json_ok(
            c.arguments@,
        ),
{
    let calls = parse(response);
    if calls.len() > 0 {
        Some(calls[0].duplicate())
    } else {
        None
    }
}

} // verus!
