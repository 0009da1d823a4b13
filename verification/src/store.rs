//! The store format: the whole task collection as one line of structured
//! text, shaped like compact JSON. Titles, descriptions and due-date texts
//! are written between double quotes with `"` and `\` escaped; absent
//! optional fields are written as `null`. [`render_tasks`] writes the format
//! and [`parse_tasks`] reads it back; [`lemma_store_round_trip`] proves that
//! reading what was written reproduces every task exactly.

use vstd::prelude::*;

use crate::manager::task_views;
use crate::task::{due_wf, rfc3339_parse_of, task_wf, DueDate, DueV, Task, TaskV};

verus! {

/// Escapes one character: `"` and `\` get a backslash, the rest stand as
/// themselves.
pub open spec fn esc1(c: char) -> Seq<char> {
    if c == '"' || c == '\\' {
        seq!['\\', c]
    } else {
        seq![c]
    }
}

/// Escapes a text character by character.
pub open spec fn esc(s: Seq<char>) -> Seq<char>
    decreases s.len(),
{
    if s.len() == 0 {
        Seq::empty()
    } else {
        esc1(s[0]) + esc(s.drop_first())
    }
}

/// A text between double quotes, escaped.
pub open spec fn quoted(s: Seq<char>) -> Seq<char> {
    "\""@ + esc(s) + "\""@
}

/// An optional text: `null` when absent, quoted when present.
pub open spec fn opt_json(o: Option<Seq<char>>) -> Seq<char> {
    match o {
        Option::None => "null"@,
        Option::Some(s) => quoted(s),
    }
}

/// The due-date text of a task model, if any.
pub open spec fn due_text(d: Option<DueV>) -> Option<Seq<char>> {
    match d {
        Option::None => Option::None,
        Option::Some(x) => Option::Some(x.text),
    }
}

/// One task in the store format.
pub open spec fn task_json(t: TaskV) -> Seq<char> {
    "{\"title\":"@ + quoted(t.title) + ",\"description\":"@ + opt_json(t.description)
        + ",\"due_date\":"@ + opt_json(due_text(t.due)) + ",\"completed\":"@ + (if t.completed {
        "true"@
    } else {
        "false"@
    }) + "}"@
}

/// The tasks one after the other, separated by commas.
pub open spec fn tasks_items(ts: Seq<TaskV>) -> Seq<char>
    decreases ts.len(),
{
    if ts.len() == 0 {
        Seq::empty()
    } else if ts.len() == 1 {
        task_json(ts[0])
    } else {
        task_json(ts[0]) + ","@ + tasks_items(ts.drop_first())
    }
}

/// The whole collection in the store format.
pub open spec fn store_json(ts: Seq<TaskV>) -> Seq<char> {
    "{\"tasks\":["@ + tasks_items(ts) + "]}"@
}

/// Every task model in the sequence is well formed.
pub open spec fn all_wf(ts: Seq<TaskV>) -> bool {
    forall|k: int| 0 <= k < ts.len() ==> task_wf(#[trigger] ts[k])
}

/// The abstract value of an optional text.
pub open spec fn opt_view(o: Option<String>) -> Option<Seq<char>> {
    match o {
        Option::None => Option::None,
        Option::Some(s) => Option::Some(s@),
    }
}

/// The literal `l` stands in `s` at position `i`.
pub open spec fn lit_at(s: Seq<char>, i: int, l: Seq<char>) -> bool {
    0 <= i && i + l.len() <= s.len() && s.subrange(i, i + l.len()) == l
}

/// Reads quoted-text content from position `i` up to the closing quote,
/// undoing escapes; `None` where the text ends or an escape is broken.
pub open spec fn scan_str(s: Seq<char>, i: int) -> Option<(Seq<char>, int)>
    decreases s.len() - i,
    when 0 <= i <= s.len()
{
    if i >= s.len() {
        Option::None
    } else if s[i] == '"' {
        Option::Some((Seq::empty(), i + 1))
    } else if s[i] == '\\' {
        if i + 1 < s.len() && (s[i + 1] == '"' || s[i + 1] == '\\') {
            match scan_str(s, i + 2) {
                Option::Some(r) => Option::Some((seq![s[i + 1]] + r.0, r.1)),
                Option::None => Option::None,
            }
        } else {
            Option::None
        }
    } else {
        match scan_str(s, i + 1) {
            Option::Some(r) => Option::Some((seq![s[i]] + r.0, r.1)),
            Option::None => Option::None,
        }
    }
}

/// A successful scan moves forward and stays inside the text.
proof fn lemma_scan_str_bounds(s: Seq<char>, i: int)
    requires
        0 <= i <= s.len(),
    ensures
        scan_str(s, i) matches Option::Some(r) ==> i < r.1 <= s.len(),
    decreases s.len() - i,
{
    if i < s.len() && s[i] != '"' {
        if s[i] == '\\' {
            if i + 1 < s.len() && (s[i + 1] == '"' || s[i + 1] == '\\') {
                lemma_scan_str_bounds(s, i + 2);
            }
        } else {
            lemma_scan_str_bounds(s, i + 1);
        }
    }
}

/// An optional text: `null`, or a quoted text.
pub open spec fn parse_opt(s: Seq<char>, i: int) -> Option<(Option<Seq<char>>, int)> {
    if lit_at(s, i, "null"@) {
        Option::Some((Option::None, i + "null"@.len()))
    } else if 0 <= i < s.len() && s[i] == '"' {
        match scan_str(s, i + 1) {
            Option::Some(r) => Option::Some((Option::Some(r.0), r.1)),
            Option::None => Option::None,
        }
    } else {
        Option::None
    }
}

/// A successful optional text does not move backwards.
proof fn lemma_parse_opt_bounds(s: Seq<char>, i: int)
    requires
        0 <= i,
    ensures
        parse_opt(s, i) matches Option::Some(r) ==> i <= r.1 <= s.len(),
{
    if !lit_at(s, i, "null"@) && i < s.len() && s[i] == '"' {
        lemma_scan_str_bounds(s, i + 1);
    }
}

/// An optional due date: absent, or a quoted RFC 3339 text together with the
/// instant it denotes; text that is not RFC 3339 fails the parse.
pub open spec fn parse_due(s: Seq<char>, i: int) -> Option<(Option<DueV>, int)> {
    match parse_opt(s, i) {
        Option::Some((o, j)) => match o {
            Option::None => Option::Some((Option::None, j)),
            Option::Some(txt) => match rfc3339_parse_of(txt) {
                Option::Some(p) => Option::Some(
                    (Option::Some(DueV { secs: p.0, nanos: p.1, text: txt }), j),
                ),
                Option::None => Option::None,
            },
        },
        Option::None => Option::None,
    }
}

/// A completion flag: the literal `true` or `false`.
pub open spec fn parse_bool(s: Seq<char>, i: int) -> Option<(bool, int)> {
    if lit_at(s, i, "true"@) {
        Option::Some((true, i + "true"@.len()))
    } else if lit_at(s, i, "false"@) {
        Option::Some((false, i + "false"@.len()))
    } else {
        Option::None
    }
}

/// One task in the store format, field by field.
pub open spec fn parse_task(s: Seq<char>, i: int) -> Option<(TaskV, int)> {
    if !lit_at(s, i, "{\"title\":\""@) {
        Option::None
    } else {
        match scan_str(s, i + "{\"title\":\""@.len()) {
            Option::None => Option::None,
            Option::Some((title, i2)) => if !lit_at(s, i2, ",\"description\":"@) {
                Option::None
            } else {
                match parse_opt(s, i2 + ",\"description\":"@.len()) {
                    Option::None => Option::None,
                    Option::Some((desc, i4)) => if !lit_at(s, i4, ",\"due_date\":"@) {
                        Option::None
                    } else {
                        match parse_due(s, i4 + ",\"due_date\":"@.len()) {
                            Option::None => Option::None,
                            Option::Some((due, i6)) => if !lit_at(s, i6, ",\"completed\":"@) {
                                Option::None
                            } else {
                                match parse_bool(s, i6 + ",\"completed\":"@.len()) {
                                    Option::None => Option::None,
                                    Option::Some((b, i8)) => if !lit_at(s, i8, "}"@) {
                                        Option::None
                                    } else {
                                        Option::Some(
                                            (
                                                TaskV {
                                                    title,
                                                    description: desc,
                                                    due,
                                                    completed: b,
                                                },
                                                i8 + "}"@.len(),
                                            ),
                                        )
                                    },
                                }
                            },
                        }
                    },
                }
            },
        }
    }
}

/// A successful task moves forward and stays inside the text.
proof fn lemma_parse_task_bounds(s: Seq<char>, i: int)
    requires
        0 <= i,
    ensures
        parse_task(s, i) matches Option::Some(r) ==> i < r.1 <= s.len(),
{
    if lit_at(s, i, "{\"title\":\""@) {
        reveal_strlit("{\"title\":\"");
        lemma_scan_str_bounds(s, i + "{\"title\":\""@.len());
        if let Option::Some((title, i2)) = scan_str(s, i + "{\"title\":\""@.len()) {
            if lit_at(s, i2, ",\"description\":"@) {
                lemma_parse_opt_bounds(s, i2 + ",\"description\":"@.len());
                if let Option::Some((desc, i4)) = parse_opt(s, i2 + ",\"description\":"@.len()) {
                    if lit_at(s, i4, ",\"due_date\":"@) {
                        lemma_parse_opt_bounds(s, i4 + ",\"due_date\":"@.len());
                    }
                }
            }
        }
    }
}

/// The task list after the opening bracket: `]` alone, or tasks separated by
/// commas and closed by `]`.
pub open spec fn parse_items(s: Seq<char>, i: int) -> Option<(Seq<TaskV>, int)>
    decreases s.len() - i,
    when 0 <= i <= s.len()
    via parse_items_dec
{
    if i < s.len() && s[i] == ']' {
        Option::Some((Seq::empty(), i + 1))
    } else {
        match parse_task(s, i) {
            Option::None => Option::None,
            Option::Some((t, j)) => if j < s.len() && s[j] == ',' {
                match parse_items(s, j + 1) {
                    Option::None => Option::None,
                    Option::Some((ts, k)) => Option::Some((seq![t] + ts, k)),
                }
            } else if j < s.len() && s[j] == ']' {
                Option::Some((seq![t], j + 1))
            } else {
                Option::None
            },
        }
    }
}

#[via_fn]
proof fn parse_items_dec(s: Seq<char>, i: int) {
    lemma_parse_task_bounds(s, i);
}

/// The whole store text: the surrounding object, the task list, nothing
/// after it.
pub open spec fn parse_store(s: Seq<char>) -> Option<Seq<TaskV>> {
    if !lit_at(s, 0, "{\"tasks\":["@) {
        Option::None
    } else {
        match parse_items(s, "{\"tasks\":["@.len() as int) {
            Option::None => Option::None,
            Option::Some((ts, j)) => if lit_at(s, j, "}"@) && j + "}"@.len() == s.len() {
                Option::Some(ts)
            } else {
                Option::None
            },
        }
    }
}

/// A literal standing at `i` fixes the characters from `i` on.
proof fn lemma_lit_index(s: Seq<char>, i: int, l: Seq<char>, k: int)
    requires
        lit_at(s, i, l),
        0 <= k < l.len(),
    ensures
        s[i + k] == l[k],
{
    assert(s.subrange(i, i + l.len())[k] == l[k]);
}

/// A concatenated literal splits into its two halves.
proof fn lemma_lit_split(s: Seq<char>, i: int, a: Seq<char>, b: Seq<char>)
    requires
        lit_at(s, i, a + b),
    ensures
        lit_at(s, i, a),
        lit_at(s, i + a.len(), b),
{
    assert(s.subrange(i, i + a.len()) =~= a) by {
        assert forall|k: int| 0 <= k < a.len() implies s.subrange(i, i + a.len())[k] == a[k] by {
            lemma_lit_index(s, i, a + b, k);
        }
    }
    assert(s.subrange(i + a.len(), i + a.len() + b.len()) =~= b) by {
        assert forall|k: int| 0 <= k < b.len() implies s.subrange(
            i + a.len(),
            i + a.len() + b.len(),
        )[k] == b[k] by {
            lemma_lit_index(s, i, a + b, a.len() + k);
        }
    }
}

/// Scanning what escaping wrote, up to its closing quote, undoes the
/// escaping exactly.
proof fn lemma_scan_of_esc(s: Seq<char>, i: int, text: Seq<char>)
    requires
        0 <= i,
        lit_at(s, i, esc(text).push('"')),
    ensures
        scan_str(s, i) == Some((text, i + esc(text).len() + 1)),
    decreases text.len(),
{
    let l = esc(text).push('"');
    if text.len() == 0 {
        lemma_lit_index(s, i, l, 0);
        assert(s[i] == '"');
        assert(scan_str(s, i) == Some((Seq::<char>::empty(), i + 1)));
        assert(text =~= Seq::<char>::empty());
    } else {
        let c = text[0];
        let rest = text.drop_first();
        assert(esc(text) == esc1(c) + esc(rest));
        assert(l =~= esc1(c) + esc(rest).push('"'));
        lemma_lit_split(s, i, esc1(c), esc(rest).push('"'));
        if c == '"' || c == '\\' {
            lemma_lit_index(s, i, l, 0);
            lemma_lit_index(s, i, l, 1);
            assert(s[i] == '\\' && s[i + 1] == c);
            lemma_scan_of_esc(s, i + 2, rest);
            assert(scan_str(s, i + 2) == Some((rest, i + 2 + esc(rest).len() + 1)));
            assert(seq![c] + rest =~= text);
            assert(scan_str(s, i) == Some((text, i + esc(text).len() + 1)));
        } else {
            lemma_lit_index(s, i, l, 0);
            assert(s[i] == c);
            lemma_scan_of_esc(s, i + 1, rest);
            assert(seq![c] + rest =~= text);
            assert(scan_str(s, i) == Some((text, i + esc(text).len() + 1)));
        }
    }
}

/// Reading what [`opt_json`] wrote gives back the optional text.
proof fn lemma_parse_opt_of_json(s: Seq<char>, i: int, o: Option<Seq<char>>)
    requires
        0 <= i,
        lit_at(s, i, opt_json(o)),
    ensures
        parse_opt(s, i) == Some((o, i + opt_json(o).len())),
{
    reveal_strlit("null");
    reveal_strlit("\"");
    match o {
        Option::None => {
            assert(parse_opt(s, i) == Some((o, i + "null"@.len())));
        },
        Option::Some(text) => {
            assert(opt_json(o) =~= seq!['"'] + esc(text).push('"'));
            lemma_lit_split(s, i, seq!['"'], esc(text).push('"'));
            lemma_lit_index(s, i, opt_json(o), 0);
            assert(s[i] == '"');
            assert(!lit_at(s, i, "null"@)) by {
                if lit_at(s, i, "null"@) {
                    lemma_lit_index(s, i, "null"@, 0);
                }
            }
            lemma_scan_of_esc(s, i + 1, text);
            assert(parse_opt(s, i) == Some((o, i + opt_json(o).len())));
        },
    }
}

/// Reading what the store wrote for a due date gives back the same instant
/// and text, given the date is well formed.
proof fn lemma_parse_due_of_json(s: Seq<char>, i: int, d: Option<DueV>)
    requires
        0 <= i,
        d matches Some(x) ==> due_wf(x),
        lit_at(s, i, opt_json(due_text(d))),
    ensures
        parse_due(s, i) == Some((d, i + opt_json(due_text(d)).len())),
{
    lemma_parse_opt_of_json(s, i, due_text(d));
    match d {
        Option::None => {
        },
        Option::Some(x) => {
            assert(rfc3339_parse_of(x.text) == Some((x.secs, x.nanos)));
            let y = DueV { secs: x.secs, nanos: x.nanos, text: x.text };
            assert(y =~= x);
        },
    }
}

/// Reading what the store wrote for the completion flag gives it back.
proof fn lemma_parse_bool_of_json(s: Seq<char>, i: int, b: bool)
    requires
        0 <= i,
        lit_at(s, i, if b {
            "true"@
        } else {
            "false"@
        }),
    ensures
        parse_bool(s, i) == Some((b, i + if b {
            "true"@.len() as int
        } else {
            "false"@.len() as int
        })),
{
    reveal_strlit("true");
    reveal_strlit("false");
    if b {
    } else {
        assert(!lit_at(s, i, "true"@)) by {
            if lit_at(s, i, "true"@) {
                lemma_lit_index(s, i, "true"@, 0);
                lemma_lit_index(s, i, "false"@, 0);
            }
        }
    }
}

/// Reading what the store wrote for one task gives back that task, given it
/// is well formed.
#[verifier::rlimit(100)]
proof fn lemma_parse_task_of_json(s: Seq<char>, i: int, t: TaskV)
    requires
        0 <= i,
        task_wf(t),
        lit_at(s, i, task_json(t)),
    ensures
        parse_task(s, i) == Some((t, i + task_json(t).len())),
{
    reveal_strlit("{\"title\":");
    reveal_strlit("{\"title\":\"");
    reveal_strlit("\"");
    let seg1 = "{\"title\":\""@ + esc(t.title).push('"');
    let seg2 = ",\"description\":"@ + opt_json(t.description);
    let seg3 = ",\"due_date\":"@ + opt_json(due_text(t.due));
    let seg4 = ",\"completed\":"@ + (if t.completed {
        "true"@
    } else {
        "false"@
    });
    let seg5 = "}"@;
    assert(task_json(t) =~= seg1 + seg2 + seg3 + seg4 + seg5);
    assert(lit_at(s, i, seg1 + (seg2 + seg3 + seg4 + seg5))) by {
        assert(seg1 + (seg2 + seg3 + seg4 + seg5) =~= task_json(t));
    }
    lemma_lit_split(s, i, seg1, seg2 + seg3 + seg4 + seg5);
    let p1 = i + seg1.len();
    assert(lit_at(s, p1, seg2 + (seg3 + seg4 + seg5))) by {
        assert(seg2 + (seg3 + seg4 + seg5) =~= seg2 + seg3 + seg4 + seg5);
    }
    lemma_lit_split(s, p1, seg2, seg3 + seg4 + seg5);
    let p2 = p1 + seg2.len();
    assert(lit_at(s, p2, seg3 + (seg4 + seg5))) by {
        assert(seg3 + (seg4 + seg5) =~= seg3 + seg4 + seg5);
    }
    lemma_lit_split(s, p2, seg3, seg4 + seg5);
    let p3 = p2 + seg3.len();
    lemma_lit_split(s, p3, seg4, seg5);
    let p4 = p3 + seg4.len();

    // the title: its opening literal, then the escaped text
    assert(lit_at(s, i, "{\"title\":\""@ + esc(t.title).push('"')));
    lemma_lit_split(s, i, "{\"title\":\""@, esc(t.title).push('"'));
    lemma_scan_of_esc(s, i + "{\"title\":\""@.len(), t.title);
    assert(scan_str(s, i + "{\"title\":\""@.len()) == Some((t.title, p1)));

    // the description
    lemma_lit_split(s, p1, ",\"description\":"@, opt_json(t.description));
    lemma_parse_opt_of_json(s, p1 + ",\"description\":"@.len(), t.description);

    // the due date
    lemma_lit_split(s, p2, ",\"due_date\":"@, opt_json(due_text(t.due)));
    lemma_parse_due_of_json(s, p2 + ",\"due_date\":"@.len(), t.due);

    // the completion flag
    lemma_lit_split(s, p3, ",\"completed\":"@, if t.completed {
        "true"@
    } else {
        "false"@
    });
    lemma_parse_bool_of_json(s, p3 + ",\"completed\":"@.len(), t.completed);

    let u = TaskV { title: t.title, description: t.description, due: t.due, completed: t.completed };
    assert(u =~= t);
    assert(parse_task(s, i) == Some((t, i + task_json(t).len())));
}

/// Reading what the store wrote for the task list, up to its closing
/// bracket, gives back the same tasks.
proof fn lemma_parse_items_of_json(s: Seq<char>, i: int, ts: Seq<TaskV>)
    requires
        0 <= i,
        all_wf(ts),
        lit_at(s, i, tasks_items(ts).push(']')),
    ensures
        parse_items(s, i) == Some((ts, i + tasks_items(ts).len() + 1)),
    decreases ts.len(),
{
    reveal_strlit(",");
    reveal_strlit("]");
    reveal_strlit("{\"title\":");
    if ts.len() > 0 {
        assert(task_json(ts[0])[0] == '{');
    }
    if ts.len() == 0 {
        lemma_lit_index(s, i, tasks_items(ts).push(']'), 0);
        assert(s[i] == ']');
        assert(ts =~= Seq::<TaskV>::empty());
    } else if ts.len() == 1 {
        let l = tasks_items(ts).push(']');
        assert(l =~= task_json(ts[0]) + seq![']']);
        lemma_lit_split(s, i, task_json(ts[0]), seq![']']);
        lemma_lit_index(s, i, task_json(ts[0]), 0);
        assert(s[i] == '{');
        lemma_parse_task_of_json(s, i, ts[0]);
        let j = i + task_json(ts[0]).len();
        lemma_lit_index(s, j, seq![']'], 0);
        assert(s[j] == ']');
        assert(seq![ts[0]] =~= ts);
        assert(parse_items(s, i) == Some((ts, i + tasks_items(ts).len() + 1)));
    } else {
        let rest = ts.drop_first();
        let l = tasks_items(ts).push(']');
        assert(tasks_items(ts) == task_json(ts[0]) + ","@ + tasks_items(rest));
        assert(l =~= task_json(ts[0]) + (seq![','] + tasks_items(rest).push(']')));
        lemma_lit_split(s, i, task_json(ts[0]), seq![','] + tasks_items(rest).push(']'));
        lemma_lit_index(s, i, task_json(ts[0]), 0);
        assert(s[i] == '{');
        lemma_parse_task_of_json(s, i, ts[0]);
        let j = i + task_json(ts[0]).len();
        lemma_lit_split(s, j, seq![','], tasks_items(rest).push(']'));
        lemma_lit_index(s, j, seq![','], 0);
        assert(s[j] == ',');
        assert(all_wf(rest)) by {
            assert(forall|k: int|
                0 <= k < rest.len() ==> #[trigger] rest[k] == ts[k + 1] && task_wf(ts[k + 1]));
        }
        lemma_parse_items_of_json(s, j + 1, rest);
        assert(seq![ts[0]] + rest =~= ts);
        assert(parse_items(s, i) == Some((ts, i + tasks_items(ts).len() + 1)));
    }
}

/// Round trip: reading back what the store wrote for any sequence of well
/// formed tasks reproduces the sequence exactly, every field and every
/// absence included.
pub proof fn lemma_store_round_trip(ts: Seq<TaskV>)
    ensures
        all_wf(ts) ==> parse_store(store_json(ts)) == Some(ts),
{
    if all_wf(ts) {
        let s = store_json(ts);
        reveal_strlit("{\"tasks\":[");
        reveal_strlit("]}");
        reveal_strlit("]");
        reveal_strlit("}");
        assert(s =~= "{\"tasks\":["@ + (tasks_items(ts).push(']') + seq!['}']));
        assert(s.subrange(0, s.len() as int) =~= s);
        assert(lit_at(s, 0, "{\"tasks\":["@ + (tasks_items(ts).push(']') + seq!['}'])));
        lemma_lit_split(s, 0, "{\"tasks\":["@, tasks_items(ts).push(']') + seq!['}']);
        let i0 = "{\"tasks\":["@.len() as int;
        lemma_lit_split(s, i0, tasks_items(ts).push(']'), seq!['}']);
        lemma_parse_items_of_json(s, i0, ts);
        let j = i0 + tasks_items(ts).len() + 1;
        assert(lit_at(s, j, "}"@)) by {
            assert("}"@ =~= seq!['}']);
        }
        assert(j + "}"@.len() == s.len());
        assert(parse_store(s) == Some(ts));
    }
}

/// Relies on `String`'s `FromIterator<char>` impl: collecting characters
/// yields the string of exactly those characters, in order.
#[verifier::external_body]
pub(crate) fn chars_to_string(v: &Vec<char>) -> (r: String)
    ensures
        r@ == v@,
{
    v.iter().collect()
}

/// The characters of a text, as a vector.
fn str_to_chars(s: &str) -> (r: Vec<char>)
    ensures
        r@ == s@,
{
    let n = s.unicode_len();
    let mut r: Vec<char> = Vec::new();
    let mut i: usize = 0;
    while i < n
        invariant
            n == s@.len(),
            i <= n,
            r@ == s@.take(i as int),
        decreases n - i,
    {
        r.push(s.get_char(i));
        proof {
            assert(r@ =~= s@.take(i + 1));
        }
        i = i + 1;
    }
    proof {
        assert(s@.take(n as int) =~= s@);
    }
    r
}

/// Whether the literal stands at position `i`; on success the position just
/// after it.
fn expect_lit(v: &Vec<char>, i: usize, l: &str) -> (r: Option<usize>)
    ensures
        r matches Some(j) ==> lit_at(v@, i as int, l@) && j as int == i + l@.len(),
        r is None ==> !lit_at(v@, i as int, l@),
{
    let n = l.unicode_len();
    if i > v.len() || n > v.len() - i {
        proof {
            assert(!lit_at(v@, i as int, l@));
        }
        return None;
    }
    let mut k: usize = 0;
    while k < n
        invariant
            n == l@.len(),
            k <= n,
            i + n <= v.len(),
            forall|m: int| 0 <= m < k ==> v@[i + m] == l@[m],
        decreases n - k,
    {
        if v[i + k] != l.get_char(k) {
            proof {
                assert(!lit_at(v@, i as int, l@)) by {
                    if lit_at(v@, i as int, l@) {
                        assert(v@.subrange(i as int, i + l@.len())[k as int] == l@[k as int]);
                    }
                }
            }
            return None;
        }
        k = k + 1;
    }
    proof {
        assert(v@.subrange(i as int, i + l@.len()) =~= l@);
    }
    Some(i + n)
}

/// Reads quoted-text content, undoing escapes, as [`scan_str`] describes.
fn scan_str_exec(v: &Vec<char>, i: usize) -> (r: Option<(Vec<char>, usize)>)
    requires
        i <= v.len(),
    ensures
        (r is Some) == (scan_str(v@, i as int) is Some),
        r matches Some(p) ==> scan_str(v@, i as int) == Some((p.0@, p.1 as int)),
    decreases v.len() - i,
{
    if i >= v.len() {
        return None;
    }
    let c = v[i];
    if c == '"' {
        let w: Vec<char> = Vec::new();
        proof {
            assert(w@ =~= Seq::<char>::empty());
        }
        Some((w, i + 1))
    } else if c == '\\' {
        if i + 1 < v.len() {
            let c2 = v[i + 1];
            if c2 == '"' || c2 == '\\' {
                match scan_str_exec(v, i + 2) {
                    Some(p) => {
                        let mut w = p.0;
                        let ghost prev = w@;
                        w.insert(0, c2);
                        proof {
                            assert(w@ =~= seq![c2] + prev);
                        }
                        Some((w, p.1))
                    },
                    None => None,
                }
            } else {
                None
            }
        } else {
            None
        }
    } else {
        match scan_str_exec(v, i + 1) {
            Some(p) => {
                let mut w = p.0;
                let ghost prev = w@;
                w.insert(0, c);
                proof {
                    assert(w@ =~= seq![c] + prev);
                }
                Some((w, p.1))
            },
            None => None,
        }
    }
}

/// Reads an optional text, as [`parse_opt`] describes.
fn parse_opt_exec(v: &Vec<char>, i: usize) -> (r: Option<(Option<String>, usize)>)
    ensures
        (r is Some) == (parse_opt(v@, i as int) is Some),
        r matches Some(p) ==> parse_opt(v@, i as int) == Some((opt_view(p.0), p.1 as int)),
{
    match expect_lit(v, i, "null") {
        Some(j) => Some((None, j)),
        None => {
            if i < v.len() && v[i] == '"' {
                match scan_str_exec(v, i + 1) {
                    Some(p) => Some((Some(chars_to_string(&p.0)), p.1)),
                    None => None,
                }
            } else {
                None
            }
        },
    }
}

/// Reads one task, as [`parse_task`] (with [`parse_due`]) describes.
fn parse_task_exec(v: &Vec<char>, i: usize) -> (r: Option<(Task, usize)>)
    ensures
        (r is Some) == (parse_task(v@, i as int) is Some),
        r matches Some(p) ==> parse_task(v@, i as int) == Some((p.0@, p.1 as int)),
{
    let i1 = match expect_lit(v, i, "{\"title\":\"") {
        Some(j) => j,
        None => {
            return None;
        },
    };
    let (title_chars, i2) = match scan_str_exec(v, i1) {
        Some(p) => p,
        None => {
            return None;
        },
    };
    let i3 = match expect_lit(v, i2, ",\"description\":") {
        Some(j) => j,
        None => {
            return None;
        },
    };
    let (description, i4) = match parse_opt_exec(v, i3) {
        Some(p) => p,
        None => {
            return None;
        },
    };
    let i5 = match expect_lit(v, i4, ",\"due_date\":") {
        Some(j) => j,
        None => {
            return None;
        },
    };
    let (due_text_opt, i6) = match parse_opt_exec(v, i5) {
        Some(p) => p,
        None => {
            return None;
        },
    };
    let due_date = match due_text_opt {
        None => None,
        Some(txt) => match DueDate::parse(txt) {
            Some(d) => Some(d),
            None => {
                return None;
            },
        },
    };
    let i7 = match expect_lit(v, i6, ",\"completed\":") {
        Some(j) => j,
        None => {
            return None;
        },
    };
    let (completed, i8) = match expect_lit(v, i7, "true") {
        Some(j) => (true, j),
        None => match expect_lit(v, i7, "false") {
            Some(j) => (false, j),
            None => {
                return None;
            },
        },
    };
    let end = match expect_lit(v, i8, "}") {
        Some(j) => j,
        None => {
            return None;
        },
    };
    let t = Task {
        title: chars_to_string(&title_chars),
        description,
        due_date,
        completed,
    };
    proof {
        let q = parse_task(v@, i as int);
        assert(q matches Some(p) && p.0 =~= t@ && p.1 == end as int);
    }
    Some((t, end))
}

/// Reads the task list, as [`parse_items`] describes.
fn parse_items_exec(v: &Vec<char>, i: usize) -> (r: Option<(Vec<Task>, usize)>)
    requires
        i <= v.len(),
    ensures
        (r is Some) == (parse_items(v@, i as int) is Some),
        r matches Some(p) ==> parse_items(v@, i as int) == Some((task_views(p.0@), p.1 as int)),
    decreases v.len() - i,
{
    if i < v.len() && v[i] == ']' {
        let w: Vec<Task> = Vec::new();
        proof {
            assert(task_views(w@) =~= Seq::<TaskV>::empty());
        }
        return Some((w, i + 1));
    }
    let (t, j) = match parse_task_exec(v, i) {
        Some(p) => p,
        None => {
            return None;
        },
    };
    let ghost tv = t@;
    proof {
        lemma_parse_task_bounds(v@, i as int);
    }
    if j < v.len() && v[j] == ',' {
        match parse_items_exec(v, j + 1) {
            Some(p) => {
                let mut w = p.0;
                let ghost prev = w@;
                w.insert(0, t);
                proof {
                    assert(w@ =~= seq![w@[0]] + prev);
                    assert(task_views(w@) =~= seq![tv] + task_views(prev));
                }
                Some((w, p.1))
            },
            None => None,
        }
    } else if j < v.len() && v[j] == ']' {
        let mut w: Vec<Task> = Vec::new();
        w.push(t);
        proof {
            assert(task_views(w@) =~= seq![tv]);
        }
        Some((w, j + 1))
    } else {
        None
    }
}

/// Reads the whole store text back into tasks. `None` exactly on text that
/// [`parse_store`] rejects; on success the tasks are exactly what the text
/// spelled.
pub fn parse_tasks(s: &str) -> (r: Option<Vec<Task>>)
    ensures
        (r is Some) == (parse_store(s@) is Some),
        r matches Some(v) ==> parse_store(s@) == Some(task_views(v@)),
{
    let v = str_to_chars(s);
    let j0 = match expect_lit(&v, 0, "{\"tasks\":[") {
        Some(j) => j,
        None => {
            return None;
        },
    };
    let (tasks, j) = match parse_items_exec(&v, j0) {
        Some(p) => p,
        None => {
            return None;
        },
    };
    match expect_lit(&v, j, "}") {
        Some(k) => {
            if k == v.len() {
                Some(tasks)
            } else {
                None
            }
        },
        None => None,
    }
}

/// Appends the characters of a literal.
pub(crate) fn push_lit(out: &mut Vec<char>, l: &str)
    ensures
        final(out)@ == old(out)@ + l@,
{
    let n = l.unicode_len();
    let mut i: usize = 0;
    while i < n
        invariant
            n == l@.len(),
            i <= n,
            out@ == old(out)@ + l@.take(i as int),
        decreases n - i,
    {
        out.push(l.get_char(i));
        proof {
            assert(old(out)@ + l@.take(i as int) + seq![l@[i as int]] =~= old(out)@ + l@.take(
                i + 1,
            ));
        }
        i = i + 1;
    }
    proof {
        assert(old(out)@ + l@.take(n as int) =~= old(out)@ + l@);
    }
}

/// Escaping distributes over appending one character at the end.
proof fn lemma_esc_push(s: Seq<char>, c: char)
    ensures
        esc(s.push(c)) == esc(s) + esc1(c),
    decreases s.len(),
{
    if s.len() == 0 {
        assert(s.push(c)[0] == c);
        assert(s.push(c).drop_first() =~= Seq::<char>::empty());
        assert(esc(s.push(c)) =~= esc1(c) + esc(Seq::<char>::empty()));
        assert(esc(s.push(c)) =~= esc1(c));
        assert(esc(s) + esc1(c) =~= esc1(c));
    } else {
        assert(s.push(c).drop_first() =~= s.drop_first().push(c));
        lemma_esc_push(s.drop_first(), c);
        assert(esc(s.push(c)) =~= esc(s) + esc1(c));
    }
}

/// Appends a text escaped.
fn push_escaped(out: &mut Vec<char>, s: &str)
    ensures
        final(out)@ == old(out)@ + esc(s@),
{
    let n = s.unicode_len();
    let mut i: usize = 0;
    proof {
        assert(s@.take(0) =~= Seq::<char>::empty());
        assert(out@ =~= out@ + esc(s@.take(0)));
    }
    while i < n
        invariant
            n == s@.len(),
            i <= n,
            out@ == old(out)@ + esc(s@.take(i as int)),
        decreases n - i,
    {
        let c = s.get_char(i);
        if c == '"' || c == '\\' {
            out.push('\\');
            out.push(c);
        } else {
            out.push(c);
        }
        proof {
            assert(s@.take(i + 1) =~= s@.take(i as int).push(c));
            lemma_esc_push(s@.take(i as int), c);
            assert(out@ =~= old(out)@ + esc(s@.take(i + 1)));
        }
        i = i + 1;
    }
    proof {
        assert(s@.take(n as int) =~= s@);
    }
}

/// Appends an optional text as the store writes it, `null` or quoted.
fn push_opt(out: &mut Vec<char>, o: &Option<String>)
    ensures
        final(out)@ == old(out)@ + opt_json(match o {
            Option::None => Option::None,
            Option::Some(s) => Option::Some(s@),
        }),
{
    match o {
        Option::None => {
            push_lit(out, "null");
        },
        Option::Some(s) => {
            push_lit(out, "\"");
            push_escaped(out, s.as_str());
            push_lit(out, "\"");
            proof {
                assert(out@ =~= old(out)@ + quoted(s@));
            }
        },
    }
}

/// Appends one task in the store format.
#[verifier::rlimit(60)]
fn push_task(out: &mut Vec<char>, t: &Task)
    ensures
        final(out)@ == old(out)@ + task_json(t@),
        task_wf(t@),
{
    push_lit(out, "{\"title\":");
    push_lit(out, "\"");
    push_escaped(out, t.title.as_str());
    push_lit(out, "\"");
    proof {
        assert(out@ =~= old(out)@ + "{\"title\":"@ + quoted(t@.title));
    }
    push_lit(out, ",\"description\":");
    push_opt(out, &t.description);
    let ghost head = old(out)@ + "{\"title\":"@ + quoted(t@.title) + ",\"description\":"@
        + opt_json(t@.description);
    proof {
        assert(out@ =~= head);
    }
    push_lit(out, ",\"due_date\":");
    match &t.due_date {
        Option::None => {
            push_lit(out, "null");
        },
        Option::Some(d) => {
            push_lit(out, "\"");
            push_escaped(out, d.text());
            push_lit(out, "\"");
            proof {
                assert(due_wf(d@));
                assert(out@ =~= head + ",\"due_date\":"@ + quoted(d@.text));
            }
        },
    }
    push_lit(out, ",\"completed\":");
    let ghost head2 = head + ",\"due_date\":"@ + opt_json(due_text(t@.due)) + ",\"completed\":"@;
    proof {
        assert(out@ =~= head2);
    }
    if t.completed {
        push_lit(out, "true");
    } else {
        push_lit(out, "false");
    }
    push_lit(out, "}");
    proof {
        assert(out@ =~= head2 + (if t@.completed {
            "true"@
        } else {
            "false"@
        }) + "}"@);
        assert(out@ =~= old(out)@ + task_json(t@));
    }
}

/// Appending one task to the item list appends its text, after a comma
/// where the list was not empty.
proof fn lemma_items_push(ts: Seq<TaskV>, t: TaskV)
    ensures
        tasks_items(ts.push(t)) == if ts.len() == 0 {
            task_json(t)
        } else {
            tasks_items(ts) + ","@ + task_json(t)
        },
    decreases ts.len(),
{
    if ts.len() == 0 {
        assert(ts.push(t)[0] == t);
        assert(tasks_items(ts.push(t)) =~= task_json(t));
    } else {
        assert(ts.push(t).drop_first() =~= ts.drop_first().push(t));
        lemma_items_push(ts.drop_first(), t);
        if ts.len() == 1 {
            assert(tasks_items(ts.push(t)) =~= tasks_items(ts) + ","@ + task_json(t));
        } else {
            assert(tasks_items(ts.push(t)) =~= tasks_items(ts) + ","@ + task_json(t));
        }
    }
}

/// Writes the whole collection in the store format. Every task of the
/// collection is well formed, and the text is exactly [`store_json`] of the
/// collection's abstract value.
pub fn render_tasks(tasks: &Vec<Task>) -> (r: String)
    ensures
        r@ == store_json(task_views(tasks@)),
        all_wf(task_views(tasks@)),
{
    let ghost vs = task_views(tasks@);
    let mut out: Vec<char> = Vec::new();
    push_lit(&mut out, "{\"tasks\":[");
    let n = tasks.len();
    let mut i: usize = 0;
    proof {
        assert(vs.take(0) =~= Seq::<TaskV>::empty());
        assert(out@ =~= "{\"tasks\":["@ + tasks_items(vs.take(0)));
    }
    while i < n
        invariant
            n == tasks.len(),
            i <= n,
            vs == task_views(tasks@),
            out@ == "{\"tasks\":["@ + tasks_items(vs.take(i as int)),
            all_wf(vs.take(i as int)),
        decreases n - i,
    {
        if i > 0 {
            push_lit(&mut out, ",");
        }
        push_task(&mut out, &tasks[i]);
        proof {
            assert(vs.take(i + 1) =~= vs.take(i as int).push(vs[i as int]));
            lemma_items_push(vs.take(i as int), vs[i as int]);
            assert(vs[i as int] == tasks@[i as int]@);
            assert(out@ =~= "{\"tasks\":["@ + tasks_items(vs.take(i + 1)));
            assert(all_wf(vs.take(i + 1)));
        }
        i = i + 1;
    }
    push_lit(&mut out, "]}");
    proof {
        assert(vs.take(n as int) =~= vs);
        assert(out@ =~= store_json(vs));
    }
    chars_to_string(&out)
}

} // verus!
