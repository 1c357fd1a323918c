//! Shell-style output redirection (`query > file`, `query >> file`).
//!
//! A `>` redirects only where it stands at the top level of the jq text:
//! outside string literals and outside any parentheses, brackets or
//! braces.  Everywhere else it is jq's comparison operator.
use vstd::prelude::*;
use crate::query::{validate_query, validation_of, RootType};
use crate::text::{
    chars_of, decimal, ends_with, ends_with_chars, lemma_trim_end_last, lemma_trim_push_space,
    lemma_trim_space_first, lemma_trim_start_suffix, lower, lower_chars, push_decimal, push_str, starts_with,
    starts_with_chars, string_of_range, trim, trim_bounds_from, trim_end, trim_start,
};

verus! {

/// How a redirection opens its file.
#[derive(Debug, Clone, Copy, PartialEq, Eq, Structural)]
pub enum RedirectMode {
    /// `>`: the file is replaced.
    Truncate,
    /// `>>`: results are added to the end of the file.
    Append,
}

/// A query whose results go to a file.
#[derive(Debug, PartialEq, Eq)]
pub struct Redirection {
    pub query: String,
    pub filename: String,
    pub mode: RedirectMode,
}

/// Where the scanner of a query stands after reading some prefix of it.
pub struct ScanState {
    pub in_string: bool,
    pub escaped: bool,
    pub paren: nat,
    pub bracket: nat,
    pub brace: nat,
}

/// The state before the first character.
pub open spec fn scan_start() -> ScanState {
    ScanState { in_string: false, escaped: false, paren: 0, bracket: 0, brace: 0 }
}

/// Outside strings and at nesting depth zero.
pub open spec fn at_top_level(st: ScanState) -> bool {
    !st.in_string && st.paren == 0 && st.bracket == 0 && st.brace == 0
}

pub open spec fn dec(n: nat) -> nat {
    if n == 0 {
        0
    } else {
        (n - 1) as nat
    }
}

/// The scanner's state after reading `c` (a top-level `>` stops the scan
/// before this step is taken).
pub open spec fn scan_step(st: ScanState, c: char) -> ScanState {
    if st.in_string {
        if st.escaped {
            ScanState { escaped: false, ..st }
        } else if c == '\\' {
            ScanState { escaped: true, ..st }
        } else if c == '"' {
            ScanState { in_string: false, ..st }
        } else {
            st
        }
    } else if c == '"' {
        ScanState { in_string: true, ..st }
    } else if c == '(' {
        ScanState { paren: st.paren + 1, ..st }
    } else if c == ')' {
        ScanState { paren: dec(st.paren), ..st }
    } else if c == '[' {
        ScanState { bracket: st.bracket + 1, ..st }
    } else if c == ']' {
        ScanState { bracket: dec(st.bracket), ..st }
    } else if c == '{' {
        ScanState { brace: st.brace + 1, ..st }
    } else if c == '}' {
        ScanState { brace: dec(st.brace), ..st }
    } else {
        st
    }
}

/// The index of the first top-level `>` in `s` at or after `i`, scanning
/// from state `st` at index `i`.
pub open spec fn find_redirect_from(s: Seq<char>, i: nat, st: ScanState) -> Option<nat>
    decreases s.len() - i,
{
    if i >= s.len() {
        None
    } else if s[i as int] == '>' && at_top_level(st) {
        Some(i)
    } else {
        find_redirect_from(s, i + 1, scan_step(st, s[i as int]))
    }
}

/// The index of the first top-level `>` in `s`.
pub open spec fn find_redirect(s: Seq<char>) -> Option<nat> {
    find_redirect_from(s, 0, scan_start())
}

/// The scanner's state after reading all of `s` from index `i` on.
pub open spec fn scan_from(s: Seq<char>, i: nat, st: ScanState) -> ScanState
    decreases s.len() - i,
{
    if i >= s.len() {
        st
    } else {
        scan_from(s, i + 1, scan_step(st, s[i as int]))
    }
}

/// Whether the redirection at index `i` is `>>`.
pub open spec fn is_append_at(s: Seq<char>, i: nat) -> bool {
    i + 1 < s.len() && s[i + 1int] == '>'
}

pub open spec fn mode_at(s: Seq<char>, i: nat) -> RedirectMode {
    if is_append_at(s, i) {
        RedirectMode::Append
    } else {
        RedirectMode::Truncate
    }
}

pub open spec fn operator_len(s: Seq<char>, i: nat) -> nat {
    if is_append_at(s, i) {
        2
    } else {
        1
    }
}

pub open spec fn missing_query_message() -> Seq<char> {
    "Missing jq query before redirection."@
}

pub open spec fn missing_filename_message() -> Seq<char> {
    "Missing filename after redirection."@
}

pub open spec fn invalid_syntax_message() -> Seq<char> {
    "Invalid redirection syntax."@
}

/// What `parse_redirection` gives for `s`: no redirection, a redirection
/// `(query, filename, mode)`, or an error message.
pub open spec fn redirection_of(s: Seq<char>) -> Result<
    Option<(Seq<char>, Seq<char>, RedirectMode)>,
    Seq<char>,
> {
    match find_redirect(s) {
        None => Ok(None),
        Some(i) => {
            let query = trim(s.subrange(0, i as int));
            let filename = trim(s.subrange((i + operator_len(s, i)) as int, s.len() as int));
            if query.len() == 0 {
                Err(missing_query_message())
            } else if filename.len() == 0 {
                Err(missing_filename_message())
            } else if filename.contains('>') {
                Err(invalid_syntax_message())
            } else {
                Ok(Some((query, filename, mode_at(s, i))))
            }
        },
    }
}

/// `r` is what `redirection_of(s)` describes.
pub open spec fn redirection_matches(
    r: Result<Option<Redirection>, String>,
    s: Seq<char>,
) -> bool {
    match (r, redirection_of(s)) {
        (Ok(None), Ok(None)) => true,
        (Ok(Some(x)), Ok(Some(y))) => x.query@ == y.0 && x.filename@ == y.1 && x.mode == y.2,
        (Err(e), Err(m)) => e@ == m,
        _ => false,
    }
}

fn contains_gt(cs: &Vec<char>, from: usize, to: usize) -> (b: bool)
    requires
        from <= to <= cs@.len(),
    ensures
        b == cs@.subrange(from as int, to as int).contains('>'),
{
    let mut i = from;
    while i < to
        invariant
            from <= i <= to <= cs@.len(),
            forall|k: int| from <= k < i ==> cs@[k] != '>',
        decreases to - i,
    {
        if cs[i] == '>' {
            assert(cs@.subrange(from as int, to as int)[i - from] == '>');
            return true;
        }
        i += 1;
    }
    proof {
        let t = cs@.subrange(from as int, to as int);
        assert forall|k: int| 0 <= k < t.len() implies t[k] != '>' by {
            assert(t[k] == cs@[from + k]);
        }
    }
    false
}

proof fn lemma_trim_range(cs: Seq<char>, from: int, to: int, a: int, b: int)
    requires
        0 <= from <= to <= cs.len(),
        from <= a <= b <= to,
        cs.subrange(from, to).subrange(a - from, b - from) == trim(cs.subrange(from, to)),
    ensures
        cs.subrange(a, b) == trim(cs.subrange(from, to)),
{
    assert(cs.subrange(from, to).subrange(a - from, b - from) =~= cs.subrange(a, b));
}

/// Splits `input` at its first top-level `>` or `>>` into the jq query
/// before it and the file name after it, both trimmed.  `Ok(None)` when
/// there is no top-level `>`.
pub fn parse_redirection(input: &str) -> (r: Result<Option<Redirection>, String>)
    ensures
        redirection_matches(r, input@),
{
    let cs = chars_of(input);
    let n = cs.len();
    let mut in_string = false;
    let mut escaped = false;
    let mut paren_depth: usize = 0;
    let mut bracket_depth: usize = 0;
    let mut brace_depth: usize = 0;
    let mut i: usize = 0;
    while i < n
        invariant
            n == cs@.len(),
            cs@ == input@,
            i <= n,
            paren_depth <= i,
            bracket_depth <= i,
            brace_depth <= i,
            find_redirect(cs@) == find_redirect_from(
                cs@,
                i as nat,
                ScanState {
                    in_string,
                    escaped,
                    paren: paren_depth as nat,
                    bracket: bracket_depth as nat,
                    brace: brace_depth as nat,
                },
            ),
        decreases n - i,
    {
        let ch = cs[i];
        let ghost st = ScanState {
            in_string,
            escaped,
            paren: paren_depth as nat,
            bracket: bracket_depth as nat,
            brace: brace_depth as nat,
        };
        if in_string {
            if escaped {
                escaped = false;
            } else if ch == '\\' {
                escaped = true;
            } else if ch == '"' {
                in_string = false;
            }
            i += 1;
            continue;
        }
        if ch == '"' {
            in_string = true;
        } else if ch == '(' {
            paren_depth += 1;
        } else if ch == ')' {
            paren_depth = paren_depth.saturating_sub(1);
        } else if ch == '[' {
            bracket_depth += 1;
        } else if ch == ']' {
            bracket_depth = bracket_depth.saturating_sub(1);
        } else if ch == '{' {
            brace_depth += 1;
        } else if ch == '}' {
            brace_depth = brace_depth.saturating_sub(1);
        } else if ch == '>' {
            if paren_depth == 0 && bracket_depth == 0 && brace_depth == 0 {
                assert(find_redirect(cs@) == Some(i as nat));
                let append = i + 1 < n && cs[i + 1] == '>';
                let op_len: usize = if append {
                    2
                } else {
                    1
                };
                assert(op_len == operator_len(cs@, i as nat));
                let (qa, qb) = trim_bounds_from_to(&cs, 0, i);
                let (fa, fb) = trim_bounds_from(&cs, i + op_len);
                if qa == qb {
                    return Err("Missing jq query before redirection.".to_string());
                }
                if fa == fb {
                    return Err("Missing filename after redirection.".to_string());
                }
                if contains_gt(&cs, fa, fb) {
                    return Err("Invalid redirection syntax.".to_string());
                }
                let query = string_of_range(&cs, qa, qb);
                let filename = string_of_range(&cs, fa, fb);
                let mode = if append {
                    RedirectMode::Append
                } else {
                    RedirectMode::Truncate
                };
                return Ok(Some(Redirection { query, filename, mode }));
            }
        }
        i += 1;
    }
    Ok(None)
}

/// Bounds `(a, b)` with `cs[a..b]` the trimmed text of `cs[from..to]`.
pub fn trim_bounds_from_to(cs: &Vec<char>, from: usize, to: usize) -> (r: (usize, usize))
    requires
        from <= to <= cs@.len(),
    ensures
        from <= r.0 <= r.1 <= to,
        cs@.subrange(r.0 as int, r.1 as int) == trim(cs@.subrange(from as int, to as int)),
{
    let mut part: Vec<char> = Vec::new();
    let mut k = from;
    while k < to
        invariant
            from <= k <= to <= cs@.len(),
            part@ == cs@.subrange(from as int, k as int),
        decreases to - k,
    {
        part.push(cs[k]);
        assert(cs@.subrange(from as int, k + 1) =~= cs@.subrange(from as int, k as int).push(
            cs@[k as int],
        ));
        k += 1;
    }
    let (a, b) = trim_bounds_from(&part, 0);
    assert(part@.subrange(0, part@.len() as int) =~= part@);
    proof {
        lemma_trim_range(cs@, from as int, to as int, from + a, from + b);
    }
    (from + a, from + b)
}

/// Files whose name ends in `.jsonl` or `.ndjson` (in any letter case)
/// receive one compact value per line; all others are pretty-printed.
pub open spec fn pretty_prints_file(filename: Seq<char>) -> bool {
    let l = lower(filename);
    !(ends_with(l, ".jsonl"@) || ends_with(l, ".ndjson"@))
}

/// Whether results saved to `filename` are pretty-printed.
pub fn should_pretty_print_file(filename: &str) -> (b: bool)
    ensures
        b == pretty_prints_file(filename@),
{
    let lower = lower_chars(filename);
    !(ends_with_chars(&lower, ".jsonl") || ends_with_chars(&lower, ".ndjson"))
}

/// What `plan_redirection` answers: the redirection of `input` once its
/// jq part has passed `validate_query`.
pub open spec fn redirection_plan(root: RootType, input: Seq<char>) -> Result<
    Option<(Seq<char>, Seq<char>, RedirectMode)>,
    Seq<char>,
> {
    match redirection_of(input) {
        Err(m) => Err(m),
        Ok(None) => Ok(None),
        Ok(Some(x)) => match validation_of(root, x.0) {
            Err(m) => Err(m),
            Ok(()) => Ok(Some(x)),
        },
    }
}

/// Parses a redirection in `input` and validates its jq part (the part
/// that will run).  `Ok(None)` when `input` has no top-level `>`.
pub fn plan_redirection(root_type: RootType, input: &str) -> (r: Result<Option<Redirection>, String>)
    ensures
        match (r, redirection_plan(root_type, input@)) {
            (Ok(None), Ok(None)) => true,
            (Ok(Some(x)), Ok(Some(y))) => x.query@ == y.0 && x.filename@ == y.1 && x.mode == y.2,
            (Err(e), Err(m)) => e@ == m,
            _ => false,
        },
{
    match parse_redirection(input) {
        Err(e) => Err(e),
        Ok(None) => Ok(None),
        Ok(Some(redirection)) => match validate_query(root_type, redirection.query.as_str()) {
            Err(e) => Err(e),
            Ok(()) => Ok(Some(redirection)),
        },
    }
}

pub open spec fn save_usage_message() -> Seq<char> {
    "Usage: :save <filename>"@
}

pub open spec fn nothing_to_save_message() -> Seq<char> {
    "No successful query is available to save."@
}

/// What `plan_save_command` answers for the command `input` when the
/// last successful query is `last`: the query and the file to save its
/// results to.
pub open spec fn save_plan(last: Option<Seq<char>>, input: Seq<char>) -> Result<
    Option<(Seq<char>, Seq<char>)>,
    Seq<char>,
> {
    if input == ":save"@ {
        Err(save_usage_message())
    } else if !starts_with(input, ":save "@) {
        Ok(None)
    } else {
        let filename = trim(input.subrange(6, input.len() as int));
        if filename.len() == 0 {
            Err(save_usage_message())
        } else {
            match last {
                None => Err(nothing_to_save_message()),
                Some(q) => Ok(Some((q, filename))),
            }
        }
    }
}

pub open spec fn option_view(o: Option<String>) -> Option<Seq<char>> {
    match o {
        Some(s) => Some(s@),
        None => None,
    }
}

/// Reads `:save <filename>`: the last successful query is to be saved,
/// replacing the file.  `Ok(None)` for input that is not such a command.
pub fn plan_save_command(last_query: &Option<String>, input: &str) -> (r: Result<
    Option<Redirection>,
    String,
>)
    ensures
        match (r, save_plan(option_view(*last_query), input@)) {
            (Ok(None), Ok(None)) => true,
            (Ok(Some(x)), Ok(Some(y))) => x.query@ == y.0 && x.filename@ == y.1 && x.mode
                == RedirectMode::Truncate,
            (Err(e), Err(m)) => e@ == m,
            _ => false,
        },
{
    let cs = chars_of(input);
    let is_bare = cs.len() == 5 && starts_with_chars(&cs, ":save");
    proof {
        reveal_strlit(":save");
        if cs@.len() == 5 && starts_with(cs@, ":save"@) {
            assert(cs@ =~= cs@.subrange(0, 5));
        }
        if cs@ == ":save"@ {
            assert(cs@.subrange(0, 5) =~= cs@);
        }
    }
    if is_bare {
        return Err("Usage: :save <filename>".to_string());
    }
    if !starts_with_chars(&cs, ":save ") {
        return Ok(None);
    }
    proof {
        reveal_strlit(":save ");
    }
    let (a, b) = trim_bounds_from(&cs, 6);
    if a == b {
        return Err("Usage: :save <filename>".to_string());
    }
    match last_query {
        None => Err("No successful query is available to save.".to_string()),
        Some(q) => {
            let filename = string_of_range(&cs, a, b);
            Ok(Some(Redirection { query: q.clone(), filename, mode: RedirectMode::Truncate }))
        },
    }
}

/// The file beside `filename` that receives the query text.
pub fn query_record_path(filename: &str) -> (p: String)
    ensures
        p@ == filename@ + ".query"@,
{
    let mut p = String::new();
    push_str(&mut p, filename);
    push_str(&mut p, ".query");
    p
}

/// The text written to the query file: the query and a newline.
pub fn query_record_text(query: &str) -> (t: String)
    ensures
        t@ == query@ + "\n"@,
{
    let mut t = String::new();
    push_str(&mut t, query);
    push_str(&mut t, "\n");
    t
}

pub open spec fn saved_text(count: nat, filename: Seq<char>, mode: RedirectMode) -> Seq<char> {
    match mode {
        RedirectMode::Truncate => "Saved "@ + decimal(count) + " result(s) to "@ + filename,
        RedirectMode::Append => "Appended "@ + decimal(count) + " result(s) to "@ + filename,
    }
}

/// The report after `count` results went to `filename`.
pub fn saved_message(count: u64, filename: &str, mode: RedirectMode) -> (m: String)
    ensures
        m@ == saved_text(count as nat, filename@, mode),
{
    let mut m = String::new();
    match mode {
        RedirectMode::Truncate => push_str(&mut m, "Saved "),
        RedirectMode::Append => push_str(&mut m, "Appended "),
    }
    push_decimal(&mut m, count);
    push_str(&mut m, " result(s) to ");
    push_str(&mut m, filename);
    assert(m@ =~= saved_text(count as nat, filename@, mode));
    m
}

proof fn lemma_find_redirect_concat(q: Seq<char>, r: Seq<char>, i: nat, st: ScanState)
    requires
        i <= q.len(),
        find_redirect_from(q, i, st) is None,
    ensures
        find_redirect_from(q + r, i, st) == find_redirect_from(
            q + r,
            q.len(),
            scan_from(q, i, st),
        ),
    decreases q.len() - i,
{
    if i < q.len() {
        assert((q + r)[i as int] == q[i as int]);
        lemma_find_redirect_concat(q, r, i + 1, scan_step(st, q[i as int]));
    }
}

/// The trimmed form of `x` is a part of `x`.
proof fn lemma_trim_within(x: Seq<char>)
    ensures
        exists|a: int, b: int| 0 <= a <= b <= x.len() && trim(x) == x.subrange(a, b),
{
    lemma_trim_start_suffix(x);
    let y = trim_start(x);
    lemma_trim_end_last(y);
    let a = x.len() - y.len();
    let b = a + trim_end(y).len();
    assert(trim(x) =~= x.subrange(a, b));
}

proof fn lemma_trim_no_gt(x: Seq<char>)
    requires
        !x.contains('>'),
    ensures
        !trim(x).contains('>'),
{
    lemma_trim_within(x);
    let (a, b) = choose|a: int, b: int| 0 <= a <= b <= x.len() && trim(x) == x.subrange(a, b);
    if trim(x).contains('>') {
        let k = choose|k: int| 0 <= k < trim(x).len() && trim(x)[k] == '>';
        assert(x[a + k] == '>');
    }
}

/// Writing `> file` (or `>> file`) after a query that has no top-level
/// `>` and ends outside strings and brackets redirects that query to that
/// file: parsing gives back the trimmed query, the trimmed file name and
/// the mode.
pub proof fn lemma_redirection_round_trip(query: Seq<char>, target: Seq<char>, append: bool)
    requires
        find_redirect(query) is None,
        at_top_level(scan_from(query, 0, scan_start())),
        trim(query).len() > 0,
        trim(target).len() > 0,
        !target.contains('>'),
    ensures
        redirection_of(
            query + (if append {
                ">>"@
            } else {
                ">"@
            }) + target,
        ) == Ok::<Option<(Seq<char>, Seq<char>, RedirectMode)>, Seq<char>>(
            Some(
                (
                    trim(query),
                    trim(target),
                    if append {
                        RedirectMode::Append
                    } else {
                        RedirectMode::Truncate
                    },
                ),
            ),
        ),
{
    reveal_strlit(">>");
    reveal_strlit(">");
    let op: Seq<char> = if append {
        ">>"@
    } else {
        ">"@
    };
    let s = query + op + target;
    let n = query.len();
    assert(s =~= query + (op + target));
    lemma_find_redirect_concat(query, op + target, 0, scan_start());
    assert(s[n as int] == '>');
    assert(find_redirect(s) == Some(n));
    if target.len() == 0 {
        assert(trim(target) =~= target);
    }
    if !append {
        assert(s[n + 1int] == target[0]);
        assert(!target.contains('>') ==> target[0] != '>');
    } else {
        assert(s[n + 1int] == '>');
    }
    assert(operator_len(s, n) == op.len());
    assert(s.subrange(0, n as int) =~= query);
    assert(s.subrange((n + operator_len(s, n)) as int, s.len() as int) =~= target);
    lemma_trim_no_gt(target);
}

proof fn lemma_scan_concat(q: Seq<char>, r: Seq<char>, i: nat, st: ScanState)
    requires
        i <= q.len(),
    ensures
        scan_from(q + r, i, st) == scan_from(q + r, q.len(), scan_from(q, i, st)),
    decreases q.len() - i,
{
    if i < q.len() {
        assert((q + r)[i as int] == q[i as int]);
        lemma_scan_concat(q, r, i + 1, scan_step(st, q[i as int]));
    }
}

/// The usual way of writing a redirection, with a space on each side of
/// `>` or `>>`: after a query that has no top-level `>` and ends outside
/// strings and brackets, and before a trimmed file name without `>`,
/// parsing gives back the trimmed query, the file name and the mode.
pub proof fn lemma_spaced_redirection_round_trip(
    query: Seq<char>,
    target: Seq<char>,
    append: bool,
)
    requires
        find_redirect(query) is None,
        at_top_level(scan_from(query, 0, scan_start())),
        trim(query).len() > 0,
        target.len() > 0,
        trim(target) == target,
        !target.contains('>'),
    ensures
        redirection_of(
            query + (if append {
                " >> "@
            } else {
                " > "@
            }) + target,
        ) == Ok::<Option<(Seq<char>, Seq<char>, RedirectMode)>, Seq<char>>(
            Some(
                (
                    trim(query),
                    target,
                    if append {
                        RedirectMode::Append
                    } else {
                        RedirectMode::Truncate
                    },
                ),
            ),
        ),
{
    reveal_strlit(" >> ");
    reveal_strlit(" > ");
    reveal_strlit(">>");
    reveal_strlit(">");
    let n = query.len();
    let q2 = query.push(' ');
    let t2 = seq![' '] + target;
    // The added space neither redirects nor changes the scanner's state.
    lemma_find_redirect_concat(query, seq![' '], 0, scan_start());
    assert(query + seq![' '] =~= q2);
    assert(q2[n as int] == ' ');
    let st = scan_from(query, 0, scan_start());
    assert(find_redirect_from(q2, n + 1, scan_step(st, ' ')) is None);
    assert(find_redirect(q2) is None);
    lemma_scan_concat(query, seq![' '], 0, scan_start());
    assert(scan_step(st, ' ') == st);
    assert(scan_from(q2, n + 1, scan_step(st, ' ')) == scan_step(st, ' '));
    assert(at_top_level(scan_from(q2, 0, scan_start())));
    lemma_trim_push_space(query);
    lemma_trim_space_first(target);
    assert(!t2.contains('>')) by {
        if t2.contains('>') {
            let k = choose|k: int| 0 <= k < t2.len() && t2[k] == '>';
            assert(k > 0);
            assert(target[k - 1] == '>');
        }
    }
    lemma_redirection_round_trip(q2, t2, append);
    let op: Seq<char> = if append {
        ">>"@
    } else {
        ">"@
    };
    let spaced: Seq<char> = if append {
        " >> "@
    } else {
        " > "@
    };
    assert(q2 + op + t2 =~= query + spaced + target);
}

/// Whether the scanner reads every character of `s` without any effect:
/// no quote, backslash, parenthesis, bracket or brace.
pub open spec fn neutral_text(s: Seq<char>) -> bool {
    forall|k: int|
        0 <= k < s.len() ==> {
            let c = #[trigger] s[k];
            c != '"' && c != '\\' && c != '(' && c != ')' && c != '[' && c != ']' && c != '{'
                && c != '}'
        }
}

proof fn lemma_neutral_inside(s: Seq<char>, i: nat, j: nat, st: ScanState)
    requires
        i <= j <= s.len(),
        neutral_text(s.subrange(i as int, j as int)),
        !at_top_level(st),
        !st.escaped,
    ensures
        find_redirect_from(s, i, st) == find_redirect_from(s, j, st),
    decreases j - i,
{
    if i < j {
        assert(s.subrange(i as int, j as int)[0] == s[i as int]);
        assert(scan_step(st, s[i as int]) == st);
        assert(s.subrange((i + 1) as int, j as int) =~= s.subrange(i as int, j as int).drop_first());
        lemma_neutral_inside(s, i + 1, j, st);
    }
}

/// A `>` inside parentheses, brackets, braces or a string is jq's
/// comparison, never a redirection: for texts `a` and `b` that open and
/// close nothing, `(a > b)`, `[a > b]`, `{a > b}` and `"a > b"` hold no
/// redirection (whatever `>` they contain).
pub proof fn lemma_enclosed_gt_is_not_redirection(a: Seq<char>, b: Seq<char>, which: nat)
    requires
        neutral_text(a),
        neutral_text(b),
        which < 4,
    ensures
        ({
            let (open, close) = if which == 0 {
                ('(', ')')
            } else if which == 1 {
                ('[', ']')
            } else if which == 2 {
                ('{', '}')
            } else {
                ('"', '"')
            };
            redirection_of(seq![open] + a + ">"@ + b + seq![close]) == Ok::<
                Option<(Seq<char>, Seq<char>, RedirectMode)>,
                Seq<char>,
            >(None)
        }),
{
    reveal_strlit(">");
    let (open, close) = if which == 0 {
        ('(', ')')
    } else if which == 1 {
        ('[', ']')
    } else if which == 2 {
        ('{', '}')
    } else {
        ('"', '"')
    };
    let s = seq![open] + a + ">"@ + b + seq![close];
    let n = s.len();
    assert(s[0] == open);
    assert(s[n - 1] == close);
    let st1 = scan_step(scan_start(), open);
    assert(!at_top_level(st1) && !st1.escaped);
    let mid = s.subrange(1, n - 1);
    assert(mid =~= a + ">"@ + b);
    assert forall|k: int| 0 <= k < mid.len() implies {
        let c = #[trigger] mid[k];
        c != '"' && c != '\\' && c != '(' && c != ')' && c != '[' && c != ']' && c != '{' && c
            != '}'
    } by {
        if k < a.len() {
            assert(mid[k] == a[k]);
        } else if k == a.len() {
            assert(mid[k] == '>');
        } else {
            assert(mid[k] == b[k - a.len() - 1]);
        }
    }
    assert(find_redirect_from(s, 0, scan_start()) == find_redirect_from(s, 1, st1));
    lemma_neutral_inside(s, 1, (n - 1) as nat, st1);
    assert(scan_step(st1, close) == scan_start());
    assert(find_redirect_from(s, (n - 1) as nat, st1) == find_redirect_from(
        s,
        n,
        scan_step(st1, close),
    ));
}

/// Only the lower-case form of a file name decides how its results are
/// written: names that differ only in letter case are treated alike.
pub proof fn lemma_pretty_print_ignores_case(filename: Seq<char>)
    ensures
        pretty_prints_file(filename) == pretty_prints_file(lower(filename)),
{
    assert(lower(lower(filename)) =~= lower(filename));
}

/// Which files receive compact records: whatever comes before it, a name
/// ending in `.jsonl` or `.ndjson`, in any letter case, gets one compact
/// value per line, and a name ending in `.json` gets pretty text.
pub proof fn lemma_file_kinds(name: Seq<char>)
    ensures
        !pretty_prints_file(name + ".jsonl"@),
        !pretty_prints_file(name + ".JSONL"@),
        !pretty_prints_file(name + ".ndjson"@),
        !pretty_prints_file(name + ".NDJSON"@),
        pretty_prints_file(name + ".json"@),
        pretty_prints_file(name + ".JSON"@),
{
    reveal_strlit(".jsonl");
    reveal_strlit(".JSONL");
    reveal_strlit(".ndjson");
    reveal_strlit(".NDJSON");
    reveal_strlit(".json");
    reveal_strlit(".JSON");
    let l = lower(name);
    assert(lower(name + ".jsonl"@) =~= l + ".jsonl"@);
    assert(lower(name + ".JSONL"@) =~= l + ".jsonl"@);
    assert(lower(name + ".ndjson"@) =~= l + ".ndjson"@);
    assert(lower(name + ".NDJSON"@) =~= l + ".ndjson"@);
    assert(lower(name + ".json"@) =~= l + ".json"@);
    assert(lower(name + ".JSON"@) =~= l + ".json"@);
    assert((l + ".jsonl"@).subrange(l.len() as int, l.len() + 6int) =~= ".jsonl"@);
    assert((l + ".ndjson"@).subrange(l.len() as int, l.len() + 7int) =~= ".ndjson"@);
    let j = l + ".json"@;
    assert(j.last() == 'n');
    assert(!ends_with(j, ".jsonl"@)) by {
        if ends_with(j, ".jsonl"@) {
            assert(j.subrange(j.len() - 6, j.len() as int)[5] == 'l');
        }
    }
    assert(!ends_with(j, ".ndjson"@)) by {
        if ends_with(j, ".ndjson"@) {
            assert(j.subrange(j.len() - 7, j.len() as int)[2] == j[j.len() - 5]);
            assert(j[j.len() - 5] == '.');
        }
    }
}

/// `:save` alone, or with a blank file name, is answered with its usage;
/// `:save file` saves the last successful query to the trimmed file name,
/// and is refused while there is none; a line not starting with `:save`
/// is no `:save` command.
pub proof fn lemma_save_command(last: Option<Seq<char>>, rest: Seq<char>)
    ensures
        save_plan(last, ":save"@) == Err::<Option<(Seq<char>, Seq<char>)>, Seq<char>>(
            save_usage_message(),
        ),
        trim(rest).len() == 0 ==> save_plan(last, ":save "@ + rest) == Err::<
            Option<(Seq<char>, Seq<char>)>,
            Seq<char>,
        >(save_usage_message()),
        trim(rest).len() > 0 && last is None ==> save_plan(last, ":save "@ + rest) == Err::<
            Option<(Seq<char>, Seq<char>)>,
            Seq<char>,
        >(nothing_to_save_message()),
        trim(rest).len() > 0 && last is Some ==> save_plan(last, ":save "@ + rest) == Ok::<
            Option<(Seq<char>, Seq<char>)>,
            Seq<char>,
        >(Some((last->0, trim(rest)))),
{
    reveal_strlit(":save");
    reveal_strlit(":save ");
    let input = ":save "@ + rest;
    assert(input.subrange(0, 6) =~= ":save "@);
    assert(input.subrange(6, input.len() as int) =~= rest);
    if input == ":save"@ {
        assert(input.len() == 5);
    }
}

/// The report after saving counts the results and names the file:
/// `Saved n result(s) to file` when the file was replaced, `Appended ...`
/// when results were added to its end.
pub proof fn lemma_saved_report(count: nat, filename: Seq<char>)
    ensures
        saved_text(count, filename, RedirectMode::Truncate) == "Saved "@ + decimal(count)
            + " result(s) to "@ + filename,
        saved_text(count, filename, RedirectMode::Append) == "Appended "@ + decimal(count)
            + " result(s) to "@ + filename,
{
}

} // verus!
