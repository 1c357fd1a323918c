//! The interactive pager: pages filled from a stream of query results,
//! the pager's state machine, the keys it reads and the screen it draws.
//!
//! Results are rendered one at a time and only when the page being filled
//! has room left and no rendered lines are waiting, so a single large
//! result can span several pages without the query being advanced.
use vstd::prelude::*;
use std::collections::VecDeque;
use jaq_json::Val;
use crate::jq::{jq_halts, json_model, json_value_of, shape_of, too_deep_message, JqRun};
use crate::json::{
    escape_free, guard_interactive_value, guard_outcome, json_depth, ValueShape, indentable, is_indentable, json_shape,
    pretty_json_highlighted, render, JsonValue,
};
use crate::text::{decimal, lines, push_decimal, push_str, split_lines, views};

verus! {

/// What a key press asks of the pager.
#[derive(Debug, Clone, Copy, PartialEq, Eq, Structural)]
pub enum PagerAction {
    Next,
    Previous,
    Quit,
}

/// A screenful of rendered lines.
#[derive(Debug)]
pub struct Page {
    pub lines: Vec<String>,
    /// The number of results whose rendering began on this page.
    pub result_count: u64,
}

/// Lines of the last rendered result that did not fit on the page before.
#[derive(Debug)]
pub struct RenderState {
    pub pending_lines: VecDeque<String>,
}

impl RenderState {
    /// No lines waiting.
    pub fn new() -> (s: Self)
        ensures
            s.pending_lines@.len() == 0,
    {
        RenderState { pending_lines: VecDeque::new() }
    }
}

/// The terminal lines of a result: its highlighted pretty text, split at
/// newlines.
pub open spec fn rendered_lines(v: JsonValue) -> Seq<Seq<char>> {
    lines(render(v, 0, true) + "\n"@)
}

proof fn lemma_lines_nonempty(s: Seq<char>)
    requires
        s.len() > 0,
    ensures
        lines(s).len() >= 1,
{
    crate::text::lemma_line_end_bounds(s, 0);
}

/// The terminal lines of `value`.
pub fn render_value_lines(value: &JsonValue) -> (r: VecDeque<String>)
    requires
        indentable(*value),
    ensures
        views(r@) == rendered_lines(*value),
        r@.len() >= 1,
{
    let rendered = pretty_json_highlighted(value);
    proof {
        reveal_strlit("\n");
        lemma_lines_nonempty(rendered@);
    }
    split_lines(rendered.as_str())
}

pub open spec fn execution_error_message(detail: Seq<char>) -> Seq<char> {
    "Query execution error: "@ + detail
}

/// What one output value of a program turns into on the pager: the lines
/// of its value, or the message that refuses it (an array or object too
/// large to show, or a value nested too deeply to indent).
pub open spec fn result_lines(v: Val) -> Result<Seq<Seq<char>>, Seq<char>> {
    let j = json_model(v);
    match guard_outcome(json_shape(j)) {
        Err(m) => Err(m),
        Ok(()) => if indentable(j) {
            Ok(rendered_lines(j))
        } else {
            Err(too_deep_message())
        },
    }
}

/// The lines of one output value, or why it cannot be shown.
pub fn render_result(value: &Val) -> (r: Result<VecDeque<String>, String>)
    ensures
        match (r, result_lines(*value)) {
            (Ok(ls), Ok(m)) => views(ls@) == m && ls@.len() >= 1 && escape_free(
                json_model(*value),
            ),
            (Err(e), Err(m)) => e@ == m,
            _ => false,
        },
{
    let shape = shape_of(value);
    match guard_interactive_value(&shape) {
        Ok(()) => {},
        Err(e) => {
            return Err(e);
        },
    }
    let json = json_value_of(value);
    if !is_indentable(&json) {
        return Err("Value is nested too deeply to be indented.".to_string());
    }
    Ok(render_value_lines(&json))
}

/// Whether the program output `o` is a value the pager can show.
pub open spec fn output_shown(o: Option<Result<Val, String>>) -> bool {
    o matches Some(Ok(v)) && result_lines(v) is Ok
}

/// The lines that the program output `o` puts on the pager.
pub open spec fn output_lines(o: Option<Result<Val, String>>) -> Seq<Seq<char>> {
    match o {
        Some(Ok(v)) => match result_lines(v) {
            Ok(ls) => ls,
            Err(_) => Seq::empty(),
        },
        _ => Seq::empty(),
    }
}

/// The lines of the program outputs `outs`, one after the other.
pub open spec fn stream_lines(outs: Seq<Option<Result<Val, String>>>) -> Seq<Seq<char>>
    decreases outs.len(),
{
    if outs.len() == 0 {
        Seq::empty()
    } else {
        output_lines(outs[0]) + stream_lines(outs.drop_first())
    }
}

/// How many of the program outputs `outs` are values shown on the pager.
pub open spec fn stream_results(outs: Seq<Option<Result<Val, String>>>) -> nat
    decreases outs.len(),
{
    if outs.len() == 0 {
        0
    } else {
        (if output_shown(outs[0]) {
            1nat
        } else {
            0nat
        }) + stream_results(outs.drop_first())
    }
}

/// How a page of `page_size` lines is filled when the lines `acc` are at
/// hand and the program then gives `outs`: more output is asked for only
/// while fewer than `page_size` lines are at hand, and it stops at the end
/// of the output or at the first error.  `Some(Ok((all, n)))`: all lines
/// at hand at the end, `n` of them from new results; `Some(Err(m))`: the
/// page fails with `m`; `None`: `outs` is not what such a filling asks
/// for (more or fewer outputs).
pub open spec fn fill(
    acc: Seq<Seq<char>>,
    outs: Seq<Option<Result<Val, String>>>,
    page_size: nat,
) -> Option<Result<(Seq<Seq<char>>, nat), Seq<char>>>
    decreases outs.len(),
{
    if acc.len() >= page_size {
        if outs.len() == 0 {
            Some(Ok((acc, 0nat)))
        } else {
            None
        }
    } else if outs.len() == 0 {
        None
    } else {
        match outs[0] {
            None => if outs.len() == 1 {
                Some(Ok((acc, 0nat)))
            } else {
                None
            },
            Some(Err(d)) => if outs.len() == 1 {
                Some(Err(execution_error_message(d@)))
            } else {
                None
            },
            Some(Ok(v)) => match result_lines(v) {
                Err(m) => if outs.len() == 1 {
                    Some(Err(m))
                } else {
                    None
                },
                Ok(ls) => match fill(acc + ls, outs.drop_first(), page_size) {
                    Some(Ok((all, n))) => Some(Ok((all, n + 1))),
                    other => other,
                },
            },
        }
    }
}

pub open spec fn min_nat(a: nat, b: nat) -> nat {
    if a < b {
        a
    } else {
        b
    }
}

/// The lines a call of `generate_next_page` shows.
pub open spec fn shown(page: Option<Page>) -> Seq<Seq<char>> {
    match page {
        Some(p) => views(p.lines@),
        None => Seq::empty(),
    }
}

/// What `generate_next_page` answers (`r`) and leaves waiting (`after`)
/// when the lines `before` were waiting and the program then gave `outs`:
/// the first `page_size` of all lines at hand, or none at all; the rest
/// waits.
pub open spec fn page_made(
    before: Seq<Seq<char>>,
    outs: Seq<Option<Result<Val, String>>>,
    page_size: nat,
    r: Result<Option<Page>, String>,
    after: Seq<Seq<char>>,
) -> bool {
    match fill(before, outs, page_size) {
        Some(Ok((all, n))) => {
            let k = min_nat(page_size, all.len());
            &&& r matches Ok(page)
            &&& shown(page) == all.subrange(0, k as int)
            &&& (page is Some <==> k > 0)
            &&& (page matches Some(p) ==> p.result_count == n)
            &&& after == all.subrange(k as int, all.len() as int)
        },
        Some(Err(m)) => r matches Err(e) && e@ == m && after.len() == 0,
        None => false,
    }
}

/// Whether each of `outs` was asked for while fewer than `page_size`
/// lines were at hand (starting from `acc`) and is a value that is shown.
pub open spec fn pulls_ok(
    acc: Seq<Seq<char>>,
    outs: Seq<Option<Result<Val, String>>>,
    page_size: nat,
) -> bool
    decreases outs.len(),
{
    outs.len() == 0 || (acc.len() < page_size && output_shown(outs[0]) && pulls_ok(
        acc + output_lines(outs[0]),
        outs.drop_first(),
        page_size,
    ))
}

pub open spec fn add_results(
    x: Option<Result<(Seq<Seq<char>>, nat), Seq<char>>>,
    k: nat,
) -> Option<Result<(Seq<Seq<char>>, nat), Seq<char>>> {
    match x {
        Some(Ok((all, n))) => Some(Ok((all, n + k))),
        other => other,
    }
}

proof fn lemma_fill_after_pulls(
    acc: Seq<Seq<char>>,
    outs: Seq<Option<Result<Val, String>>>,
    t: Seq<Option<Result<Val, String>>>,
    page_size: nat,
)
    requires
        pulls_ok(acc, outs, page_size),
    ensures
        fill(acc, outs + t, page_size) == add_results(
            fill(acc + stream_lines(outs), t, page_size),
            outs.len(),
        ),
    decreases outs.len(),
{
    if outs.len() == 0 {
        assert(outs + t =~= t);
        assert(acc + stream_lines(outs) =~= acc);
        match fill(acc, t, page_size) {
            Some(Ok((all, n))) => {},
            _ => {},
        }
    } else {
        let o = outs[0];
        let ls = output_lines(o);
        assert((outs + t)[0] == o);
        assert((outs + t).drop_first() =~= outs.drop_first() + t);
        lemma_fill_after_pulls(acc + ls, outs.drop_first(), t, page_size);
        assert(acc + ls + stream_lines(outs.drop_first()) =~= acc + stream_lines(outs));
        match fill(acc + stream_lines(outs), t, page_size) {
            Some(Ok((all, n))) => {},
            _ => {},
        }
    }
}

proof fn lemma_pulls_push(
    acc: Seq<Seq<char>>,
    outs: Seq<Option<Result<Val, String>>>,
    o: Option<Result<Val, String>>,
    page_size: nat,
)
    requires
        pulls_ok(acc, outs, page_size),
        (acc + stream_lines(outs)).len() < page_size,
        output_shown(o),
    ensures
        pulls_ok(acc, outs.push(o), page_size),
        stream_lines(outs.push(o)) == stream_lines(outs) + output_lines(o),
    decreases outs.len(),
{
    if outs.len() == 0 {
        assert(outs.push(o)[0] == o);
        assert(outs.push(o).drop_first() =~= outs);
        assert(stream_lines(outs) =~= Seq::<Seq<char>>::empty());
        assert(acc + stream_lines(outs) =~= acc);
        assert(pulls_ok(acc + output_lines(o), outs, page_size));
        assert(stream_lines(outs.push(o)) =~= output_lines(o) + stream_lines(outs));
        assert(stream_lines(outs.push(o)) =~= stream_lines(outs) + output_lines(o));
    } else {
        let ls = output_lines(outs[0]);
        assert(outs.push(o).drop_first() =~= outs.drop_first().push(o));
        assert(acc + ls + stream_lines(outs.drop_first()) =~= acc + stream_lines(outs));
        lemma_pulls_push(acc + ls, outs.drop_first(), o, page_size);
        assert(stream_lines(outs.push(o)) =~= stream_lines(outs) + output_lines(o));
    }
}

proof fn lemma_fill_lines(
    acc: Seq<Seq<char>>,
    outs: Seq<Option<Result<Val, String>>>,
    page_size: nat,
)
    requires
        fill(acc, outs, page_size) is Some,
        fill(acc, outs, page_size)->0 is Ok,
    ensures
        fill(acc, outs, page_size)->0->Ok_0.0 == acc + stream_lines(outs),
        fill(acc, outs, page_size)->0->Ok_0.1 == stream_results(outs),
        outs.len() > 0 ==> outs.last() is None || output_shown(outs.last()),
        fill(acc, outs, page_size)->0->Ok_0.0.len() < page_size ==> (outs.len() > 0
            && outs.last() is None),
    decreases outs.len(),
{
    if acc.len() >= page_size {
        assert(acc + stream_lines(outs) =~= acc);
    } else {
        match outs[0] {
            None => {
                assert(outs.drop_first().len() == 0);
                assert(stream_lines(outs.drop_first()) =~= Seq::<Seq<char>>::empty());
                assert(stream_lines(outs) =~= Seq::<Seq<char>>::empty());
                assert(acc + stream_lines(outs) =~= acc);
                assert(!output_shown(outs[0]));
                assert(stream_results(outs.drop_first()) == 0);
                assert(stream_results(outs) == 0);
            },
            Some(Err(d)) => {},
            Some(Ok(v)) => {
                match result_lines(v) {
                    Err(m) => {},
                    Ok(ls) => {
                        assert(output_shown(outs[0]));
                        lemma_fill_lines(acc + ls, outs.drop_first(), page_size);
                        assert(acc + ls + stream_lines(outs.drop_first()) =~= acc + stream_lines(
                            outs,
                        ));
                        if outs.drop_first().len() > 0 {
                            assert(outs.drop_first().last() == outs.last());
                        } else {
                            lemma_fill_too_short(acc + ls, page_size);
                        }
                    },
                }
            },
        }
    }
}

proof fn lemma_fill_too_short(acc: Seq<Seq<char>>, page_size: nat)
    requires
        fill(acc, Seq::empty(), page_size) is Some,
    ensures
        acc.len() >= page_size,
{
}

/// Fills the next page with at most `page_size` lines: first the lines
/// still waiting in `render_state`, then the lines of further outputs of
/// `results`, each asked for only once the waiting lines are used up and
/// the page still has room.  Lines of a result that do not fit wait for
/// the next page.  `Ok(None)` when no line was left to show; an error of
/// the program, or a result that cannot be shown, fails the page.
pub fn generate_next_page(
    results: &mut JqRun,
    render_state: &mut RenderState,
    page_size: usize,
) -> (r: Result<Option<Page>, String>)
    requires
        forall|n: nat|
            old(results).yielded().len() < n <= old(results).yielded().len() + page_size
                ==> #[trigger] jq_halts(old(results).program(), old(results).input(), n),
    ensures
        final(results).program() == old(results).program(),
        final(results).input() == old(results).input(),
        final(results).yielded() == old(results).yielded() + final(results).yielded().skip(
            old(results).yielded().len() as int,
        ),
        page_made(
            views(old(render_state).pending_lines@),
            final(results).yielded().skip(old(results).yielded().len() as int),
            page_size as nat,
            r,
            views(final(render_state).pending_lines@),
        ),
{
    let ghost before = views(render_state.pending_lines@);
    let ghost y0 = results.yielded();
    let mut lines: Vec<String> = Vec::new();
    let mut result_count: u64 = 0;
    let ghost mut pulled: Seq<Option<Result<Val, String>>> = Seq::empty();
    let ghost mut tail: Seq<Option<Result<Val, String>>> = Seq::empty();
    proof {
        assert(before + stream_lines(pulled) =~= views(lines@) + views(
            render_state.pending_lines@,
        ));
        assert(y0 + pulled =~= y0);
    }
    loop
        invariant_except_break
            results.yielded() == y0 + pulled,
            tail.len() == 0,
        invariant
            before == views(old(render_state).pending_lines@),
            y0 == old(results).yielded(),
            results.program() == old(results).program(),
            results.input() == old(results).input(),
            forall|n: nat|
                y0.len() < n <= y0.len() + page_size ==> #[trigger] jq_halts(
                    old(results).program(),
                    old(results).input(),
                    n,
                ),
            pulls_ok(before, pulled, page_size as nat),
            before + stream_lines(pulled) == views(lines@) + views(render_state.pending_lines@),
            lines@.len() <= page_size,
            result_count == pulled.len(),
            result_count <= lines@.len() + (if render_state.pending_lines@.len() > 0 {
                1int
            } else {
                0int
            }),
        ensures
            results.program() == old(results).program(),
            results.input() == old(results).input(),
            results.yielded() == y0 + pulled + tail,
            pulls_ok(before, pulled, page_size as nat),
            before + stream_lines(pulled) == views(lines@) + views(render_state.pending_lines@),
            lines@.len() <= page_size,
            result_count == pulled.len(),
            (tail.len() == 0 && lines@.len() == page_size) || (tail == seq![
                None::<Result<Val, String>>,
            ] && render_state.pending_lines@.len() == 0 && lines@.len() < page_size),
        decreases page_size - lines@.len(), if render_state.pending_lines@.len() == 0 {
            1int
        } else {
            0int
        },
    {
        let ghost old_lines_len = lines@.len();
        let ghost old_pending_len = render_state.pending_lines@.len();
        // The lines already rendered come first.
        while lines.len() < page_size
            invariant
                before + stream_lines(pulled) == views(lines@) + views(
                    render_state.pending_lines@,
                ),
                lines@.len() <= page_size,
                result_count <= lines@.len() + (if render_state.pending_lines@.len() > 0 {
                    1int
                } else {
                    0int
                }),
                lines@.len() + render_state.pending_lines@.len() == old_lines_len
                    + old_pending_len,
                lines@.len() >= old_lines_len,
            ensures
                before + stream_lines(pulled) == views(lines@) + views(
                    render_state.pending_lines@,
                ),
                lines@.len() <= page_size,
                result_count <= lines@.len() + (if render_state.pending_lines@.len() > 0 {
                    1int
                } else {
                    0int
                }),
                lines@.len() == page_size || render_state.pending_lines@.len() == 0,
                lines@.len() >= old_lines_len,
                old_pending_len > 0 && old_lines_len < page_size ==> lines@.len() > old_lines_len,
            decreases page_size - lines@.len(),
        {
            let ghost lines_before = lines@;
            let ghost pending_before = render_state.pending_lines@;
            match render_state.pending_lines.pop_front() {
                None => break,
                Some(line) => {
                    lines.push(line);
                    proof {
                        assert(views(lines@) =~= views(lines_before).push(line@));
                        assert(views(pending_before) =~= seq![line@] + views(
                            render_state.pending_lines@,
                        ));
                        assert(views(lines@) + views(render_state.pending_lines@) =~= views(
                            lines_before,
                        ) + views(pending_before));
                    }
                },
            }
        }
        if lines.len() >= page_size {
            break;
        }
        // Only now is the program asked for another output.
        proof {
            assert(jq_halts(old(results).program(), old(results).input(), y0.len() + pulled.len() + 1));
        }
        let next = results.next_output();
        let ghost o = next;
        match next {
            None => {
                proof {
                    tail = seq![o];
                }
                break;
            },
            Some(Err(detail)) => {
                let mut msg = String::new();
                push_str(&mut msg, "Query execution error: ");
                push_str(&mut msg, detail.as_str());
                proof {
                    let acc = before + stream_lines(pulled);
                    lemma_fill_after_pulls(before, pulled, seq![o], page_size as nat);
                    assert(fill(acc, seq![o], page_size as nat) == Some(
                        Err::<(Seq<Seq<char>>, nat), Seq<char>>(execution_error_message(detail@)),
                    ));
                    assert(results.yielded().skip(y0.len() as int) =~= pulled + seq![o]);
                }
                return Err(msg);
            },
            Some(Ok(value)) => {
                match render_result(&value) {
                    Err(e) => {
                        proof {
                            lemma_fill_after_pulls(before, pulled, seq![o], page_size as nat);
                            assert(results.yielded().skip(y0.len() as int) =~= pulled + seq![o]);
                        }
                        return Err(e);
                    },
                    Ok(rendered) => {
                        proof {
                            assert(render_state.pending_lines@.len() == 0);
                            assert(views(render_state.pending_lines@) =~= Seq::<
                                Seq<char>,
                            >::empty());
                            lemma_pulls_push(before, pulled, o, page_size as nat);
                            assert(before + stream_lines(pulled.push(o)) =~= views(lines@) + views(
                                rendered@,
                            ));
                            pulled = pulled.push(o);
                        }
                        render_state.pending_lines = rendered;
                        result_count += 1;
                    },
                }
            },
        }
    }
    let ghost outs = pulled + tail;
    proof {
        let acc = before + stream_lines(pulled);
        assert(results.yielded().skip(y0.len() as int) =~= outs);
        lemma_fill_after_pulls(before, pulled, tail, page_size as nat);
        assert(fill(acc, tail, page_size as nat) == Some(
            Ok::<(Seq<Seq<char>>, nat), Seq<char>>((acc, 0nat)),
        ));
        let k = min_nat(page_size as nat, acc.len());
        assert(lines@.len() == k);
        assert(views(lines@) =~= acc.subrange(0, k as int));
        assert(views(render_state.pending_lines@) =~= acc.subrange(k as int, acc.len() as int));
    }
    if lines.len() == 0 {
        assert(shown(None::<Page>) =~= (before + stream_lines(pulled)).subrange(0, 0));
        assert(page_made(before, outs, page_size as nat, Ok(None), views(render_state.pending_lines@)));
        Ok(None)
    } else {
        let page = Page { lines, result_count };
        assert(shown(Some(page)) == views(page.lines@));
        assert(page_made(before, outs, page_size as nat, Ok(Some(page)), views(render_state.pending_lines@)));
        Ok(Some(page))
    }
}

/// The status line under a page.
pub open spec fn page_status_text(current: nat, cached: nat, finished: bool) -> Seq<char> {
    if current == 0 {
        if finished && current + 1 == cached {
            "[page "@ + decimal(current + 1) + "/"@ + decimal(cached)
                + " | Enter: close | Backspace: previous | q: quit]"@
        } else {
            "[page 1/1 | Enter: close | Backspace: previous | q: quit]"@
        }
    } else if finished {
        "[page "@ + decimal(current + 1) + "/"@ + decimal(cached)
            + " | Enter: next | Backspace: previous | q: quit]"@
    } else {
        "[page "@ + decimal(current + 1) + " | Enter: next | Backspace: previous | q: stop]"@
    }
}

/// The lines `ls`, each followed by a carriage return and a newline.
pub open spec fn crlf_lines(ls: Seq<Seq<char>>) -> Seq<char>
    decreases ls.len(),
{
    if ls.len() == 0 {
        Seq::empty()
    } else {
        crlf_lines(ls.drop_last()) + ls.last() + "\r\n"@
    }
}

/// What the terminal shows for a page: its lines, a blank line and the
/// status line.
pub open spec fn page_screen_text(
    ls: Seq<Seq<char>>,
    current: nat,
    cached: nat,
    finished: bool,
) -> Seq<char> {
    crlf_lines(ls) + "\r\n"@ + page_status_text(current, cached, finished)
}

/// The status line shown under page `current_page` (counted from 0) of
/// `cached_pages` pages.
pub fn page_status(current_page: usize, cached_pages: usize, query_finished: bool) -> (s: String)
    requires
        current_page < usize::MAX,
    ensures
        s@ == page_status_text(current_page as nat, cached_pages as nat, query_finished),
{
    let mut s = String::new();
    if current_page == 0 {
        if query_finished && current_page + 1 == cached_pages {
            push_str(&mut s, "[page ");
            push_decimal(&mut s, (current_page + 1) as u64);
            push_str(&mut s, "/");
            push_decimal(&mut s, cached_pages as u64);
            push_str(&mut s, " | Enter: close | Backspace: previous | q: quit]");
        } else {
            push_str(&mut s, "[page 1/1 | Enter: close | Backspace: previous | q: quit]");
        }
    } else if query_finished {
        push_str(&mut s, "[page ");
        push_decimal(&mut s, (current_page + 1) as u64);
        push_str(&mut s, "/");
        push_decimal(&mut s, cached_pages as u64);
        push_str(&mut s, " | Enter: next | Backspace: previous | q: quit]");
    } else {
        push_str(&mut s, "[page ");
        push_decimal(&mut s, (current_page + 1) as u64);
        push_str(&mut s, " | Enter: next | Backspace: previous | q: stop]");
    }
    assert(s@ =~= page_status_text(current_page as nat, cached_pages as nat, query_finished));
    s
}

/// The text drawn for `page` after the screen is cleared (raw mode does
/// not turn `\n` into `\r\n`, so every line ends in both).
pub fn page_frame(page: &Page, current_page: usize, cached_pages: usize, query_finished: bool) -> (s: String)
    requires
        current_page < usize::MAX,
    ensures
        s@ == page_screen_text(views(page.lines@), current_page as nat, cached_pages as nat, query_finished),
{
    let mut s = String::new();
    let mut i: usize = 0;
    while i < page.lines.len()
        invariant
            i <= page.lines@.len(),
            s@ == crlf_lines(views(page.lines@).subrange(0, i as int)),
        decreases page.lines@.len() - i,
    {
        push_str(&mut s, page.lines[i].as_str());
        push_str(&mut s, "\r\n");
        proof {
            let ls = views(page.lines@);
            assert(ls.subrange(0, i + 1).drop_last() =~= ls.subrange(0, i as int));
        }
        i += 1;
    }
    assert(views(page.lines@).subrange(0, page.lines@.len() as int) =~= views(page.lines@));
    push_str(&mut s, "\r\n");
    let status = page_status(current_page, cached_pages, query_finished);
    push_str(&mut s, status.as_str());
    s
}

/// What the pager does next.
#[derive(Debug, Clone, Copy, PartialEq, Eq, Structural)]
pub enum PagerStep {
    /// Draw the current page.
    Show,
    /// Generate the next page and hand it to `deliver`.
    Fetch,
    /// Leave the pager.
    Close,
}

/// The pager's position: how many pages are cached, which one is shown,
/// whether the query has no more results, whether the user stopped it.
pub struct PagerModel {
    pub page_count: nat,
    pub current: nat,
    pub finished: bool,
    pub cancelled: bool,
}

/// A position the pager can be in: some page exists and the current
/// one is among them.
pub open spec fn pager_wf(m: PagerModel) -> bool {
    m.page_count > 0 && m.current < m.page_count
}

/// The pager's answer to a key press.
pub open spec fn pager_transition(m: PagerModel, action: PagerAction) -> (PagerModel, PagerStep) {
    match action {
        PagerAction::Previous => (
            PagerModel {
                current: if m.current > 0 {
                    (m.current - 1) as nat
                } else {
                    m.current
                },
                ..m
            },
            PagerStep::Show,
        ),
        PagerAction::Next => if m.current + 1 < m.page_count {
            (PagerModel { current: m.current + 1, ..m }, PagerStep::Show)
        } else if m.finished {
            (m, PagerStep::Close)
        } else {
            (m, PagerStep::Fetch)
        },
        PagerAction::Quit => (PagerModel { cancelled: !m.finished, ..m }, PagerStep::Close),
    }
}

/// The pager's answer to the page that a `Fetch` produced (`got_page`)
/// or to the end of the results.
pub open spec fn pager_delivery(m: PagerModel, got_page: bool) -> (PagerModel, PagerStep) {
    if got_page {
        (PagerModel { page_count: m.page_count + 1, current: m.current + 1, ..m }, PagerStep::Show)
    } else {
        (PagerModel { finished: true, ..m }, PagerStep::Close)
    }
}

/// The pages generated so far and the pager's position among them.
pub struct PagerSession {
    pub pages: Vec<Page>,
    pub current_page: usize,
    pub query_finished: bool,
    pub cancelled: bool,
}

impl View for PagerSession {
    type V = PagerModel;

    open spec fn view(&self) -> PagerModel {
        PagerModel {
            page_count: self.pages@.len(),
            current: self.current_page as nat,
            finished: self.query_finished,
            cancelled: self.cancelled,
        }
    }
}

/// The number of results rendered on the first `n` pages.
pub open spec fn results_on(pages: Seq<Page>, n: nat) -> nat
    decreases n,
{
    if n == 0 || n > pages.len() {
        0
    } else {
        results_on(pages, (n - 1) as nat) + pages[n - 1].result_count as nat
    }
}

pub open spec fn summary_text(outputs: nat, pages: nat, cancelled: bool) -> Seq<char> {
    if cancelled {
        "[stream stopped — "@ + decimal(outputs) + " result(s) generated across "@ + decimal(pages)
            + " page(s)]"@
    } else {
        "[pager closed — "@ + decimal(outputs) + " result(s) across "@ + decimal(pages)
            + " page(s)]"@
    }
}

impl PagerSession {
    pub open spec fn wf(&self) -> bool {
        pager_wf(self@)
    }

    /// A pager showing its first page.
    pub fn new(first: Page) -> (s: Self)
        ensures
            s.wf(),
            s.pages@ == seq![first],
            s@ == (PagerModel { page_count: 1, current: 0, finished: false, cancelled: false }),
    {
        let mut pages: Vec<Page> = Vec::new();
        pages.push(first);
        PagerSession { pages, current_page: 0, query_finished: false, cancelled: false }
    }

    /// The text drawn for the current page.
    pub fn screen(&self) -> (s: String)
        requires
            self.wf(),
        ensures
            s@ == page_screen_text(
                views(self.pages@[self.current_page as int].lines@),
                self.current_page as nat,
                self.pages@.len(),
                self.query_finished,
            ),
    {
        page_frame(
            &self.pages[self.current_page],
            self.current_page,
            self.pages.len(),
            self.query_finished,
        )
    }

    /// Moves as the key press `action` asks.
    pub fn apply(&mut self, action: PagerAction) -> (step: PagerStep)
        requires
            old(self).wf(),
        ensures
            final(self).wf(),
            final(self).pages@ == old(self).pages@,
            (final(self)@, step) == pager_transition(old(self)@, action),
    {
        match action {
            PagerAction::Previous => {
                if self.current_page > 0 {
                    self.current_page -= 1;
                }
                PagerStep::Show
            },
            PagerAction::Next => {
                let n = self.pages.len();
                if self.current_page + 1 < n {
                    self.current_page += 1;
                    PagerStep::Show
                } else if self.query_finished {
                    PagerStep::Close
                } else {
                    PagerStep::Fetch
                }
            },
            PagerAction::Quit => {
                self.cancelled = !self.query_finished;
                PagerStep::Close
            },
        }
    }

    /// Takes the page that a `Fetch` produced, or notes that the query has
    /// no more results.
    pub fn deliver(&mut self, page: Option<Page>) -> (step: PagerStep)
        requires
            old(self).wf(),
        ensures
            final(self).wf(),
            (final(self)@, step) == pager_delivery(old(self)@, page is Some),
            match page {
                Some(p) => final(self).pages@ == old(self).pages@.push(p),
                None => final(self).pages@ == old(self).pages@,
            },
    {
        match page {
            Some(p) => {
                self.pages.push(p);
                let _n = self.pages.len();
                self.current_page += 1;
                PagerStep::Show
            },
            None => {
                self.query_finished = true;
                PagerStep::Close
            },
        }
    }

    /// The number of results rendered on all pages (at most `u64::MAX`).
    pub fn outputs(&self) -> (r: u64)
        ensures
            r == min_nat(results_on(self.pages@, self.pages@.len()), u64::MAX as nat),
    {
        let mut total: u64 = 0;
        let mut i: usize = 0;
        while i < self.pages.len()
            invariant
                i <= self.pages@.len(),
                total == min_nat(results_on(self.pages@, i as nat), u64::MAX as nat),
            decreases self.pages@.len() - i,
        {
            let c = self.pages[i].result_count;
            if total > u64::MAX - c {
                total = u64::MAX;
            } else {
                total = total + c;
            }
            i += 1;
        }
        total
    }

    /// The line printed when the pager closes.
    pub fn summary(&self) -> (s: String)
        ensures
            s@ == summary_text(
                min_nat(results_on(self.pages@, self.pages@.len()), u64::MAX as nat),
                self.pages@.len(),
                self.cancelled,
            ),
    {
        let outputs = self.outputs();
        let mut s = String::new();
        if self.cancelled {
            push_str(&mut s, "[stream stopped — ");
            push_decimal(&mut s, outputs);
            push_str(&mut s, " result(s) generated across ");
            push_decimal(&mut s, self.pages.len() as u64);
            push_str(&mut s, " page(s)]");
        } else {
            push_str(&mut s, "[pager closed — ");
            push_decimal(&mut s, outputs);
            push_str(&mut s, " result(s) across ");
            push_decimal(&mut s, self.pages.len() as u64);
            push_str(&mut s, " page(s)]");
        }
        assert(s@ =~= summary_text(outputs as nat, self.pages@.len(), self.cancelled));
        s
    }
}

/// Every key press keeps the pager at a page that exists.
pub proof fn lemma_pager_stays_on_a_page(m: PagerModel, action: PagerAction)
    requires
        pager_wf(m),
    ensures
        pager_wf(pager_transition(m, action).0),
        pager_wf(pager_delivery(m, true).0),
        pager_wf(pager_delivery(m, false).0),
{
}

/// Going back a page and then forward again returns to the same page
/// without asking the query for anything.
pub proof fn lemma_previous_then_next(m: PagerModel)
    requires
        pager_wf(m),
        m.current > 0,
    ensures
        ({
            let (m1, s1) = pager_transition(m, PagerAction::Previous);
            let (m2, s2) = pager_transition(m1, PagerAction::Next);
            m2 == m && s1 == PagerStep::Show && s2 == PagerStep::Show
        }),
{
}

/// Paging forward through cached pages never asks the query for more:
/// `Fetch` comes only at the last cached page of a query that has not
/// finished.
pub proof fn lemma_fetch_only_at_frontier(m: PagerModel)
    requires
        pager_wf(m),
    ensures
        pager_transition(m, PagerAction::Next).1 == PagerStep::Fetch <==> (m.current + 1
            == m.page_count && !m.finished),
{
}

/// Quitting always closes the pager; the query counts as stopped exactly
/// when it still had results to give.
pub proof fn lemma_quit_closes(m: PagerModel)
    ensures
        pager_transition(m, PagerAction::Quit).1 == PagerStep::Close,
        pager_transition(m, PagerAction::Quit).0.cancelled == !m.finished,
{
}

/// A key of the terminal, as far as the pager tells keys apart.
#[derive(Debug, Clone, Copy, PartialEq, Eq, Structural)]
pub enum PagerKey {
    Enter,
    Backspace,
    Char(char),
    Other,
}

/// A key event: the key, whether Control was held, whether it is a
/// press (rather than a repeat or release).
#[derive(Debug, Clone, Copy, PartialEq, Eq, Structural)]
pub struct KeyPress {
    pub key: PagerKey,
    pub control: bool,
    pub press: bool,
}

/// The pager action a key event asks for, if any.
pub open spec fn action_of_key(k: KeyPress) -> Option<PagerAction> {
    if !k.press {
        None
    } else {
        match k.key {
            PagerKey::Enter => Some(PagerAction::Next),
            PagerKey::Backspace => Some(PagerAction::Previous),
            PagerKey::Char(c) => if c == ' ' {
                Some(PagerAction::Next)
            } else if c == 'b' {
                Some(PagerAction::Previous)
            } else if c == 'q' || c == 'Q' {
                Some(PagerAction::Quit)
            } else if c == 'c' && k.control {
                Some(PagerAction::Quit)
            } else {
                None
            },
            PagerKey::Other => None,
        }
    }
}

/// Enter and Space page forward, Backspace and `b` back; `q`, `Q` and
/// Control-C quit; other keys and key releases are ignored.
pub fn pager_action_for_key(key: KeyPress) -> (r: Option<PagerAction>)
    ensures
        r == action_of_key(key),
{
    if !key.press {
        return None;
    }
    match key.key {
        PagerKey::Enter => Some(PagerAction::Next),
        PagerKey::Backspace => Some(PagerAction::Previous),
        PagerKey::Char(c) => {
            if c == ' ' {
                Some(PagerAction::Next)
            } else if c == 'b' {
                Some(PagerAction::Previous)
            } else if c == 'q' || c == 'Q' {
                Some(PagerAction::Quit)
            } else if c == 'c' && key.control {
                Some(PagerAction::Quit)
            } else {
                None
            }
        },
        PagerKey::Other => None,
    }
}

/// The number of lines on a page for a terminal of `height` rows (three
/// are kept for the status), at least five; 21 when the height is
/// unknown.
pub open spec fn page_size_of(height: Option<u16>) -> nat {
    match height {
        Some(h) => if h >= 8 {
            (h - 3) as nat
        } else {
            5
        },
        None => 21,
    }
}

pub fn page_size_for_height(height: Option<u16>) -> (n: usize)
    ensures
        n == page_size_of(height),
        n >= 5,
{
    match height {
        Some(h) => {
            let lines = (h as usize).saturating_sub(3);
            if lines > 5 {
                lines
            } else {
                5
            }
        },
        None => 21,
    }
}

/// When the lines still waiting fill a page, the program is not asked
/// for anything: the page is the first `page_size` waiting lines, it
/// counts no new result, and the rest keep waiting.  One large result can
/// thus span several pages without the program being advanced.
pub proof fn lemma_waiting_lines_come_first(
    before: Seq<Seq<char>>,
    outs: Seq<Option<Result<Val, String>>>,
    page_size: nat,
    r: Result<Option<Page>, String>,
    after: Seq<Seq<char>>,
)
    requires
        page_made(before, outs, page_size, r, after),
        page_size > 0,
        before.len() >= page_size,
    ensures
        outs.len() == 0,
        r matches Ok(Some(p)) && views(p.lines@) == before.subrange(0, page_size as int)
            && p.result_count == 0,
        after == before.subrange(page_size as int, before.len() as int),
{
}

proof fn lemma_stream_lines_concat(
    a: Seq<Option<Result<Val, String>>>,
    b: Seq<Option<Result<Val, String>>>,
)
    ensures
        stream_lines(a + b) == stream_lines(a) + stream_lines(b),
    decreases a.len(),
{
    if a.len() == 0 {
        assert(a + b =~= b);
        assert(stream_lines(a) + stream_lines(b) =~= stream_lines(b));
    } else {
        assert((a + b)[0] == a[0]);
        assert((a + b).drop_first() =~= a.drop_first() + b);
        lemma_stream_lines_concat(a.drop_first(), b);
        assert(stream_lines(a + b) =~= stream_lines(a) + stream_lines(b));
    }
}

/// A page never holds more than `page_size` lines, and no line is lost,
/// repeated or reordered: the page and the lines left waiting are,
/// together, the lines that waited before and those of the new results,
/// in the order the program gave them; the page counts those results.  A
/// page shorter than `page_size`, or no page at all, comes only once the
/// program has said it has no more output, and then nothing is left
/// waiting.
pub proof fn lemma_page_conserves_lines(
    before: Seq<Seq<char>>,
    outs: Seq<Option<Result<Val, String>>>,
    page_size: nat,
    page: Option<Page>,
    after: Seq<Seq<char>>,
)
    requires
        page_made(before, outs, page_size, Ok(page), after),
    ensures
        shown(page).len() <= page_size,
        shown(page) + after == before + stream_lines(outs),
        page matches Some(p) ==> p.result_count == stream_results(outs),
        shown(page).len() < page_size ==> outs.len() > 0 && outs.last() is None && after.len()
            == 0,
        page_size > 0 && page is None ==> before.len() == 0 && stream_lines(outs).len() == 0,
        before.len() == 0 && outs =~= seq![None::<Result<Val, String>>] ==> page is None,
        page is None ==> stream_results(outs) == 0,
{
    lemma_fill_lines(before, outs, page_size);
    lemma_results_within_lines(outs);
    let all = fill(before, outs, page_size)->0->Ok_0.0;
    let k = min_nat(page_size, all.len());
    assert(all.subrange(0, k as int) + all.subrange(k as int, all.len() as int) =~= all);
    if page is None && page_size == 0 {
        assert(outs.len() == 0);
    }
    if before.len() == 0 && outs =~= seq![None::<Result<Val, String>>] {
        assert(outs.drop_first().len() == 0);
        assert(stream_lines(outs) =~= Seq::<Seq<char>>::empty());
    }
}

proof fn lemma_results_within_lines(outs: Seq<Option<Result<Val, String>>>)
    ensures
        stream_results(outs) <= stream_lines(outs).len(),
    decreases outs.len(),
{
    if outs.len() > 0 {
        lemma_results_within_lines(outs.drop_first());
        if output_shown(outs[0]) {
            let v = outs[0]->0->Ok_0;
            reveal_strlit("\n");
            lemma_lines_nonempty(render(json_model(v), 0, true) + "\n"@);
        }
    }
}

proof fn lemma_stream_results_concat(
    a: Seq<Option<Result<Val, String>>>,
    b: Seq<Option<Result<Val, String>>>,
)
    ensures
        stream_results(a + b) == stream_results(a) + stream_results(b),
    decreases a.len(),
{
    if a.len() == 0 {
        assert(a + b =~= b);
    } else {
        assert((a + b)[0] == a[0]);
        assert((a + b).drop_first() =~= a.drop_first() + b);
        lemma_stream_results_concat(a.drop_first(), b);
    }
}

/// The lines shown by `pages`, one page after another.
pub open spec fn pages_shown(pages: Seq<Option<Page>>) -> Seq<Seq<char>>
    decreases pages.len(),
{
    if pages.len() == 0 {
        Seq::empty()
    } else {
        pages_shown(pages.drop_last()) + shown(pages.last())
    }
}

/// The number of results counted by `pages`.
pub open spec fn pages_results(pages: Seq<Option<Page>>) -> nat
    decreases pages.len(),
{
    if pages.len() == 0 {
        0
    } else {
        pages_results(pages.drop_last()) + match pages.last() {
            Some(p) => p.result_count as nat,
            None => 0nat,
        }
    }
}

/// The outputs of several calls, one call after another.
pub open spec fn all_outputs(outs: Seq<Seq<Option<Result<Val, String>>>>) -> Seq<
    Option<Result<Val, String>>,
>
    decreases outs.len(),
{
    if outs.len() == 0 {
        Seq::empty()
    } else {
        all_outputs(outs.drop_last()) + outs.last()
    }
}

/// Pages follow one another with nothing lost, repeated or reordered:
/// over any number of calls, each starting from the lines the one before
/// left waiting (`waiting[i]` before call `i`), the pages shown one after
/// another, followed by the lines still waiting, are the lines that waited
/// at first and then those of all the new results, in the order the
/// program gave them; and the pages count exactly those results.
pub proof fn lemma_pages_in_order(
    waiting: Seq<Seq<Seq<char>>>,
    outs: Seq<Seq<Option<Result<Val, String>>>>,
    pages: Seq<Option<Page>>,
    page_size: nat,
)
    requires
        waiting.len() == outs.len() + 1,
        pages.len() == outs.len(),
        forall|i: int|
            0 <= i < outs.len() ==> page_made(
                #[trigger] waiting[i],
                outs[i],
                page_size,
                Ok(pages[i]),
                waiting[i + 1],
            ),
    ensures
        pages_shown(pages) + waiting.last() == waiting[0] + stream_lines(all_outputs(outs)),
        pages_results(pages) == stream_results(all_outputs(outs)),
    decreases outs.len(),
{
    let m = outs.len() as int;
    if m == 0 {
        assert(waiting.last() == waiting[0]);
        assert(stream_lines(all_outputs(outs)) =~= Seq::<Seq<char>>::empty());
        assert(pages_shown(pages) + waiting.last() =~= waiting[0] + stream_lines(
            all_outputs(outs),
        ));
    } else {
        let wd = waiting.drop_last();
        let od = outs.drop_last();
        let pd = pages.drop_last();
        assert forall|i: int| 0 <= i < od.len() implies page_made(
            #[trigger] wd[i],
            od[i],
            page_size,
            Ok(pd[i]),
            wd[i + 1],
        ) by {
            assert(page_made(waiting[i], outs[i], page_size, Ok(pages[i]), waiting[i + 1]));
        }
        lemma_pages_in_order(wd, od, pd, page_size);
        assert(page_made(waiting[m - 1], outs[m - 1], page_size, Ok(pages[m - 1]), waiting[m]));
        lemma_page_conserves_lines(waiting[m - 1], outs[m - 1], page_size, pages[m - 1], waiting[m]);
        lemma_stream_lines_concat(all_outputs(od), outs[m - 1]);
        lemma_stream_results_concat(all_outputs(od), outs[m - 1]);
        assert(wd.last() == waiting[m - 1]);
        assert(pages.last() == pages[m - 1]);
        assert(outs.last() == outs[m - 1]);
        assert(pages_shown(pages) + waiting.last() =~= pages_shown(pd) + (shown(pages[m - 1])
            + waiting[m]));
        assert(waiting[0] + stream_lines(all_outputs(outs)) =~= waiting[0] + stream_lines(
            all_outputs(od),
        ) + stream_lines(outs[m - 1]));
    }
}

/// A page uses every row of the terminal but the three kept for the
/// status, and never fewer than five; 21 when the height is unknown.
pub proof fn lemma_page_fills_the_terminal(height: Option<u16>)
    ensures
        height matches Some(h) ==> (h >= 8 ==> page_size_of(height) + 3 == h),
        height matches Some(h) ==> (h < 8 ==> page_size_of(height) == 5),
        height is None ==> page_size_of(height) == 21,
        page_size_of(height) >= 5,
{
}

/// The keys of the pager: Enter and Space page forward, Backspace and
/// `b` page back, `q` and `Q` quit whatever modifier is held, and so does
/// Control-C; `c` alone and every other key do nothing, and only key
/// presses count.
pub proof fn lemma_pager_keys(k: KeyPress)
    ensures
        !k.press ==> action_of_key(k) is None,
        k.press && (k.key == PagerKey::Enter || k.key == PagerKey::Char(' ')) ==> action_of_key(k)
            == Some(PagerAction::Next),
        k.press && (k.key == PagerKey::Backspace || k.key == PagerKey::Char('b'))
            ==> action_of_key(k) == Some(PagerAction::Previous),
        k.press && (k.key == PagerKey::Char('q') || k.key == PagerKey::Char('Q'))
            ==> action_of_key(k) == Some(PagerAction::Quit),
        k.press && k.key == PagerKey::Char('c') ==> (action_of_key(k) == Some(PagerAction::Quit)
            <==> k.control),
        k.press && k.key == PagerKey::Char('c') && !k.control ==> action_of_key(k) is None,
        k.key == PagerKey::Other ==> action_of_key(k) is None,
        k.key matches PagerKey::Char(c) ==> (c != ' ' && c != 'b' && c != 'q' && c != 'Q' && c
            != 'c' ==> action_of_key(k) is None),
{
}

/// A result is refused by the pager's guard exactly when it is an array
/// of more than 1000 elements or an object of more than 1000 members.
pub proof fn lemma_guard_limits(shape: ValueShape)
    ensures
        shape matches ValueShape::Array(n) ==> (guard_outcome(shape) is Ok <==> n <= 1000),
        shape matches ValueShape::Object(n) ==> (guard_outcome(shape) is Ok <==> n <= 1000),
        shape is Scalar ==> guard_outcome(shape) is Ok,
{
}

/// Every result that passes the guard and is nested no more than 1000
/// levels deep is shown on the pager.
pub proof fn lemma_ordinary_results_are_shown(v: Val)
    requires
        guard_outcome(json_shape(json_model(v))) is Ok,
        json_depth(json_model(v)) <= 1000,
    ensures
        result_lines(v) is Ok,
{
}

/// The status line numbers pages from 1: a later page of a query still
/// running shows only its number and that `q` stops the query; once the
/// query has finished it shows the number of pages too and `q` quits;
/// the first page always offers Enter to close.
pub proof fn lemma_status_lines(current: nat, cached: nat, finished: bool)
    ensures
        current > 0 && !finished ==> page_status_text(current, cached, finished) == "[page "@
            + decimal(current + 1) + " | Enter: next | Backspace: previous | q: stop]"@,
        current > 0 && finished ==> page_status_text(current, cached, finished) == "[page "@
            + decimal(current + 1) + "/"@ + decimal(cached)
            + " | Enter: next | Backspace: previous | q: quit]"@,
        current == 0 && finished && cached == 1 ==> page_status_text(current, cached, finished)
            == "[page "@ + decimal(1) + "/"@ + decimal(1)
            + " | Enter: close | Backspace: previous | q: quit]"@,
        current == 0 && !(finished && cached == 1) ==> page_status_text(current, cached, finished)
            == "[page 1/1 | Enter: close | Backspace: previous | q: quit]"@,
{
}

/// The line printed when the pager closes counts the results and pages,
/// and says whether the query was stopped early.
pub proof fn lemma_summary_lines(outputs: nat, pages: nat)
    ensures
        summary_text(outputs, pages, true) == "[stream stopped — "@ + decimal(outputs)
            + " result(s) generated across "@ + decimal(pages) + " page(s)]"@,
        summary_text(outputs, pages, false) == "[pager closed — "@ + decimal(outputs)
            + " result(s) across "@ + decimal(pages) + " page(s)]"@,
{
}

} // verus!
