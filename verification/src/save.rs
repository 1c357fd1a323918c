//! Saving the outputs of a program to a file: the text of each record, in
//! the order the program gives them, and the number of records saved.
use vstd::prelude::*;
use jaq_json::Val;
use crate::jq::{file_record_text, jq_halts, record_text, JqRun};
use crate::pager::execution_error_message;
use crate::text::push_str;

verus! {

pub open spec fn write_error_message(filename: Seq<char>, detail: Seq<char>) -> Seq<char> {
    "Unable to write to '"@ + filename + "': "@ + detail
}

/// The message when more records come than a `u64` can count.
pub open spec fn too_many_records_message() -> Seq<char> {
    "Too many results to count."@
}

/// What saving to `filename` writes and answers when the program gives
/// `outs` and `room` more records can still be counted: the text of the
/// records in order, with the number of records or the message of the
/// first failure (an error of the program, a record that cannot be
/// written, or no room left to count).  Saving asks for outputs until the
/// program has no more or the first failure; `None` when `outs` is not
/// what it asks for.
pub open spec fn save_outcome(
    filename: Seq<char>,
    outs: Seq<Option<Result<Val, String>>>,
    room: nat,
) -> Option<(Seq<char>, Result<nat, Seq<char>>)>
    decreases outs.len(),
{
    if room == 0 {
        if outs.len() == 0 {
            Some((Seq::empty(), Err(too_many_records_message())))
        } else {
            None
        }
    } else if outs.len() == 0 {
        None
    } else {
        match outs[0] {
            None => if outs.len() == 1 {
                Some((Seq::empty(), Ok(0nat)))
            } else {
                None
            },
            Some(Err(d)) => if outs.len() == 1 {
                Some((Seq::empty(), Err(execution_error_message(d@))))
            } else {
                None
            },
            Some(Ok(v)) => match record_text(filename, v) {
                Err(m) => if outs.len() == 1 {
                    Some((Seq::empty(), Err(write_error_message(filename, m))))
                } else {
                    None
                },
                Ok(t) => match save_outcome(filename, outs.drop_first(), (room - 1) as nat) {
                    Some((rest, Ok(n))) => Some((t + rest, Ok(n + 1))),
                    Some((rest, Err(m))) => Some((t + rest, Err(m))),
                    None => None,
                },
            },
        }
    }
}

/// Whether each of `outs` is a value whose record can be written, with
/// room to count it.
pub open spec fn saves_ok(
    filename: Seq<char>,
    outs: Seq<Option<Result<Val, String>>>,
    room: nat,
) -> bool
    decreases outs.len(),
{
    outs.len() == 0 || (room > 0 && (outs[0] matches Some(Ok(v)) && record_text(filename, v) is Ok)
        && saves_ok(filename, outs.drop_first(), (room - 1) as nat))
}

/// The text of the records of `outs`, one after the other.
pub open spec fn saved_text(filename: Seq<char>, outs: Seq<Option<Result<Val, String>>>) -> Seq<
    char,
>
    decreases outs.len(),
{
    if outs.len() == 0 {
        Seq::empty()
    } else {
        (match outs[0] {
            Some(Ok(v)) => match record_text(filename, v) {
                Ok(t) => t,
                Err(_) => Seq::empty(),
            },
            _ => Seq::empty(),
        }) + saved_text(filename, outs.drop_first())
    }
}

pub open spec fn after_records(
    text: Seq<char>,
    k: nat,
    x: Option<(Seq<char>, Result<nat, Seq<char>>)>,
) -> Option<(Seq<char>, Result<nat, Seq<char>>)> {
    match x {
        Some((rest, Ok(n))) => Some((text + rest, Ok(n + k))),
        Some((rest, Err(m))) => Some((text + rest, Err(m))),
        None => None,
    }
}

proof fn lemma_save_after_records(
    filename: Seq<char>,
    outs: Seq<Option<Result<Val, String>>>,
    t: Seq<Option<Result<Val, String>>>,
    room: nat,
)
    requires
        saves_ok(filename, outs, room),
    ensures
        outs.len() <= room,
        save_outcome(filename, outs + t, room) == after_records(
            saved_text(filename, outs),
            outs.len(),
            save_outcome(filename, t, (room - outs.len()) as nat),
        ),
    decreases outs.len(),
{
    if outs.len() == 0 {
        assert(outs + t =~= t);
        match save_outcome(filename, t, room) {
            Some((rest, Ok(n))) => {
                assert(Seq::<char>::empty() + rest =~= rest);
            },
            Some((rest, Err(m))) => {
                assert(Seq::<char>::empty() + rest =~= rest);
            },
            None => {},
        }
    } else {
        assert((outs + t)[0] == outs[0]);
        assert((outs + t).drop_first() =~= outs.drop_first() + t);
        lemma_save_after_records(filename, outs.drop_first(), t, (room - 1) as nat);
        let first = match outs[0] {
            Some(Ok(v)) => match record_text(filename, v) {
                Ok(x) => x,
                Err(_) => Seq::empty(),
            },
            _ => Seq::empty(),
        };
        let later = save_outcome(filename, t, (room - outs.len()) as nat);
        match later {
            Some((rest, Ok(n))) => {
                assert(first + (saved_text(filename, outs.drop_first()) + rest) =~= saved_text(
                    filename,
                    outs,
                ) + rest);
            },
            Some((rest, Err(m))) => {
                assert(first + (saved_text(filename, outs.drop_first()) + rest) =~= saved_text(
                    filename,
                    outs,
                ) + rest);
            },
            None => {},
        }
    }
}

proof fn lemma_saves_push(
    filename: Seq<char>,
    outs: Seq<Option<Result<Val, String>>>,
    v: Val,
    room: nat,
)
    requires
        saves_ok(filename, outs, room),
        outs.len() < room,
        record_text(filename, v) is Ok,
    ensures
        saves_ok(filename, outs.push(Some(Ok(v))), room),
        saved_text(filename, outs.push(Some(Ok(v)))) == saved_text(filename, outs)
            + record_text(filename, v)->Ok_0,
    decreases outs.len(),
{
    let o = Some(Ok::<Val, String>(v));
    if outs.len() == 0 {
        assert(outs.push(o)[0] == o);
        assert(outs.push(o).drop_first() =~= outs);
        assert(saves_ok(filename, outs.push(o).drop_first(), (room - 1) as nat));
        assert(saved_text(filename, outs) =~= Seq::<char>::empty());
        assert(saved_text(filename, outs.push(o)) =~= record_text(filename, v)->Ok_0);
        assert(saved_text(filename, outs.push(o)) =~= saved_text(filename, outs) + record_text(
            filename,
            v,
        )->Ok_0);
    } else {
        assert(outs.push(o)[0] == outs[0]);
        assert(outs.push(o).drop_first() =~= outs.drop_first().push(o));
        lemma_saves_push(filename, outs.drop_first(), v, (room - 1) as nat);
        assert(saved_text(filename, outs.push(o)) =~= saved_text(filename, outs) + record_text(
            filename,
            v,
        )->Ok_0);
    }
}

/// A program whose outputs are values that can all be written, followed
/// by the end of its output, is saved whole: the text is their records in
/// order and the count is their number.
pub proof fn lemma_save_all_values(filename: Seq<char>, values: Seq<Option<Result<Val, String>>>)
    requires
        saves_ok(filename, values, u64::MAX as nat),
        values.len() < u64::MAX,
    ensures
        save_outcome(filename, values.push(None), u64::MAX as nat) == Some(
            (saved_text(filename, values), Ok::<nat, Seq<char>>(values.len())),
        ),
{
    let t = seq![None::<Result<Val, String>>];
    lemma_save_after_records(filename, values, t, u64::MAX as nat);
    assert(values.push(None) =~= values + t);
    assert(t.drop_first().len() == 0);
    assert(t[0] is None);
    assert(save_outcome(filename, t, (u64::MAX - values.len()) as nat) == Some(
        (Seq::<char>::empty(), Ok::<nat, Seq<char>>(0nat)),
    ));
    assert(saved_text(filename, values) + Seq::<char>::empty() =~= saved_text(filename, values));
}

/// Saves the outputs of `results` to the file `filename` by appending
/// their records to `out`, in order, until the program has no more
/// outputs, and answers how many were saved.  The first error of the
/// program gives `Query execution error: ` and its text, a record that
/// cannot be written gives `Unable to write to '<filename>': ` and why;
/// the records before it stay in `out`.
pub fn save_records(results: &mut JqRun, filename: &str, out: &mut String) -> (r: Result<
    u64,
    String,
>)
    requires
        forall|n: nat|
            n > old(results).yielded().len() ==> #[trigger] jq_halts(
                old(results).program(),
                old(results).input(),
                n,
            ),
    ensures
        final(results).program() == old(results).program(),
        final(results).input() == old(results).input(),
        final(results).yielded() == old(results).yielded() + final(results).yielded().skip(
            old(results).yielded().len() as int,
        ),
        match save_outcome(
            filename@,
            final(results).yielded().skip(old(results).yielded().len() as int),
            u64::MAX as nat,
        ) {
            Some((text, res)) => final(out)@ == old(out)@ + text && match (r, res) {
                (Ok(c), Ok(n)) => c == n,
                (Err(e), Err(m)) => e@ == m,
                _ => false,
            },
            None => false,
        },
{
    let ghost y0 = results.yielded();
    let ghost o0 = out@;
    let ghost mut pulled: Seq<Option<Result<Val, String>>> = Seq::empty();
    let mut count: u64 = 0;
    proof {
        assert(y0 + pulled =~= y0);
        assert(o0 + saved_text(filename@, pulled) =~= o0);
    }
    loop
        invariant
            y0 == old(results).yielded(),
            o0 == old(out)@,
            results.program() == old(results).program(),
            results.input() == old(results).input(),
            forall|n: nat|
                n > y0.len() ==> #[trigger] jq_halts(
                    old(results).program(),
                    old(results).input(),
                    n,
                ),
            results.yielded() == y0 + pulled,
            saves_ok(filename@, pulled, u64::MAX as nat),
            out@ == o0 + saved_text(filename@, pulled),
            count == pulled.len(),
        decreases u64::MAX - count,
    {
        proof {
            lemma_save_after_records(filename@, pulled, Seq::empty(), u64::MAX as nat);
        }
        if count == u64::MAX {
            proof {
                assert(results.yielded().skip(y0.len() as int) =~= pulled + Seq::empty());
                assert(o0 + saved_text(filename@, pulled) + Seq::<char>::empty() =~= out@);
            }
            let mut msg = String::new();
            push_str(&mut msg, "Too many results to count.");
            return Err(msg);
        }
        proof {
            assert(jq_halts(old(results).program(), old(results).input(), y0.len() + pulled.len() + 1));
        }
        let next = results.next_output();
        let ghost o = next;
        proof {
            lemma_save_after_records(filename@, pulled, seq![o], u64::MAX as nat);
            assert(results.yielded().skip(y0.len() as int) =~= pulled + seq![o]);
            assert(seq![o].drop_first().len() == 0);
        }
        match next {
            None => {
                proof {
                    assert(o0 + (saved_text(filename@, pulled) + Seq::<char>::empty()) =~= out@);
                }
                return Ok(count);
            },
            Some(Err(detail)) => {
                let mut msg = String::new();
                push_str(&mut msg, "Query execution error: ");
                push_str(&mut msg, detail.as_str());
                proof {
                    assert(o0 + (saved_text(filename@, pulled) + Seq::<char>::empty()) =~= out@);
                }
                return Err(msg);
            },
            Some(Ok(value)) => {
                match file_record_text(filename, &value) {
                    Err(e) => {
                        let mut msg = String::new();
                        push_str(&mut msg, "Unable to write to '");
                        push_str(&mut msg, filename);
                        push_str(&mut msg, "': ");
                        push_str(&mut msg, e.as_str());
                        proof {
                            assert(o0 + (saved_text(filename@, pulled) + Seq::<char>::empty())
                                =~= out@);
                            assert(msg@ =~= write_error_message(filename@, e@));
                        }
                        return Err(msg);
                    },
                    Ok(text) => {
                        push_str(out, text.as_str());
                        proof {
                            lemma_saves_push(filename@, pulled, value, u64::MAX as nat);
                            assert(out@ =~= o0 + saved_text(filename@, pulled.push(o)));
                            pulled = pulled.push(o);
                        }
                        count += 1;
                    },
                }
            },
        }
    }
}

} // verus!
