//! Checks on a query before it runs, and the root type of the dataset.
use vstd::prelude::*;
use crate::jq::{compile_outcome, validate_compile};
use crate::text::{
    chars_of, is_whitespace, lemma_trim_end_last, lemma_trim_idempotent, lemma_trim_start_suffix, push_char, is_word_char, is_word_char_exec, push_str, starts_with,
    starts_with_chars, string_of_range, trim, trim_bounds_from, trim_end, trim_start,
    trimmed_chars,
};

verus! {

/// The JSON type of the dataset's root.
#[derive(Debug, Clone, Copy, PartialEq, Eq, Structural)]
pub enum RootType {
    Array,
    Object,
    Other,
}

pub open spec fn root_type_text(t: RootType) -> Seq<char> {
    match t {
        RootType::Array => "array"@,
        RootType::Object => "object"@,
        RootType::Other => "other"@,
    }
}

/// The name shown for a root type.
pub fn root_type_name(root_type: RootType) -> (r: &'static str)
    ensures
        r@ == root_type_text(root_type),
{
    match root_type {
        RootType::Array => "array",
        RootType::Object => "object",
        RootType::Other => "other",
    }
}

/// `s` without leading `"` characters.
pub open spec fn trim_quotes_start(s: Seq<char>) -> Seq<char>
    decreases s.len(),
{
    if s.len() > 0 && s[0] == '"' {
        trim_quotes_start(s.drop_first())
    } else {
        s
    }
}

/// `s` without trailing `"` characters.
pub open spec fn trim_quotes_end(s: Seq<char>) -> Seq<char>
    decreases s.len(),
{
    if s.len() > 0 && s.last() == '"' {
        trim_quotes_end(s.drop_last())
    } else {
        s
    }
}

/// The root type that the text `name` of jq's `type` output stands for
/// (quotes around it are ignored).
pub open spec fn root_type_of_name(name: Seq<char>) -> RootType {
    let t = trim_quotes_end(trim_quotes_start(name));
    if t == "array"@ {
        RootType::Array
    } else if t == "object"@ {
        RootType::Object
    } else {
        RootType::Other
    }
}

proof fn lemma_trim_quotes_start_step(s: Seq<char>, i: int)
    requires
        0 <= i < s.len(),
        s[i] == '"',
    ensures
        trim_quotes_start(s.subrange(i, s.len() as int)) == trim_quotes_start(
            s.subrange(i + 1, s.len() as int),
        ),
{
    assert(s.subrange(i, s.len() as int).drop_first() =~= s.subrange(i + 1, s.len() as int));
}

proof fn lemma_trim_quotes_end_step(s: Seq<char>, a: int, j: int)
    requires
        0 <= a < j <= s.len(),
        s[j - 1] == '"',
    ensures
        trim_quotes_end(s.subrange(a, j)) == trim_quotes_end(s.subrange(a, j - 1)),
{
    assert(s.subrange(a, j).drop_last() =~= s.subrange(a, j - 1));
}

fn equals_text(cs: &Vec<char>, a: usize, b: usize, word: &str) -> (r: bool)
    requires
        a <= b <= cs@.len(),
    ensures
        r == (cs@.subrange(a as int, b as int) == word@),
{
    let w = chars_of(word);
    if b - a != w.len() {
        return false;
    }
    let mut k: usize = 0;
    while k < w.len()
        invariant
            a <= b <= cs@.len(),
            b - a == w@.len(),
            w@ == word@,
            k <= w@.len(),
            forall|m: int| 0 <= m < k ==> cs@[a + m] == w@[m],
        decreases w@.len() - k,
    {
        if cs[a + k] != w[k] {
            assert(cs@.subrange(a as int, b as int)[k as int] != w@[k as int]);
            return false;
        }
        k += 1;
    }
    assert(cs@.subrange(a as int, b as int) =~= w@);
    true
}

/// The root type that jq's `type` output, displayed as `display`,
/// stands for.
pub fn root_type_of_display(display: &str) -> (r: RootType)
    ensures
        r == root_type_of_name(display@),
{
    let cs = chars_of(display);
    let n = cs.len();
    let mut i: usize = 0;
    assert(cs@.subrange(0, n as int) =~= cs@);
    while i < n && cs[i] == '"'
        invariant
            i <= n == cs@.len(),
            cs@ == display@,
            trim_quotes_start(cs@) == trim_quotes_start(cs@.subrange(i as int, n as int)),
        decreases n - i,
    {
        proof {
            lemma_trim_quotes_start_step(cs@, i as int);
        }
        i += 1;
    }
    proof {
        assert(cs@.subrange(0, n as int) =~= cs@);
    }
    assert(trim_quotes_start(cs@.subrange(i as int, n as int)) == cs@.subrange(i as int, n as int));
    let mut j = n;
    while j > i && cs[j - 1] == '"'
        invariant
            i <= j <= n == cs@.len(),
            trim_quotes_end(cs@.subrange(i as int, n as int)) == trim_quotes_end(
                cs@.subrange(i as int, j as int),
            ),
        decreases j,
    {
        proof {
            lemma_trim_quotes_end_step(cs@, i as int, j as int);
        }
        j -= 1;
    }
    proof {
        let t = cs@.subrange(i as int, j as int);
        if t.len() > 0 {
            assert(t.last() == cs@[j - 1]);
        }
        assert(trim_quotes_end(t) == t);
    }
    if equals_text(&cs, i, j, "array") {
        RootType::Array
    } else if equals_text(&cs, i, j, "object") {
        RootType::Object
    } else {
        RootType::Other
    }
}

/// A field access on the root and nothing more: `.` followed by one or
/// more ASCII letters, digits or underscores.
pub open spec fn is_field_path(t: Seq<char>) -> bool {
    &&& t.len() >= 2
    &&& t[0] == '.'
    &&& forall|k: int| 1 <= k < t.len() ==> is_word_char(t[k])
}

/// The field that `query` (trimmed) reads from the root, if it is a
/// plain field access such as `.cve_id`.
pub open spec fn direct_field_of(query: Seq<char>) -> Option<Seq<char>> {
    let t = trim(query);
    if is_field_path(t) {
        Some(t.drop_first())
    } else {
        None
    }
}

/// A trimmed text does not end in whitespace.
proof fn lemma_trim_no_trailing_space(s: Seq<char>)
    ensures
        trim(s).len() > 0 ==> !is_whitespace(trim(s).last()),
{
    lemma_trim_end_last(trim_start(s));
}

/// A nonempty text whose trimmed form is empty ends in whitespace.
proof fn lemma_trim_empty_ends_in_space(s: Seq<char>)
    requires
        s.len() > 0,
        trim(s).len() == 0,
    ensures
        is_whitespace(s.last()),
{
    let y = trim_start(s);
    lemma_trim_start_suffix(s);
    if y.len() > 0 {
        assert(!is_whitespace(y.last()) ==> trim_end(y) == y);
        assert(y.last() == s.last());
    } else {
        assert(is_whitespace(s[s.len() - 1]));
    }
}

/// The field of a query that only reads one field of the root, such as
/// `.cve_id`; `None` for anything else.
pub fn direct_root_field(query: &str) -> (r: Option<String>)
    ensures
        match (r, direct_field_of(query@)) {
            (None, None) => true,
            (Some(f), Some(g)) => f@ == g,
            _ => false,
        },
{
    let t = trimmed_chars(query);
    proof {
        lemma_trim_no_trailing_space(query@);
    }
    let n = t.len();
    if n == 0 || t[0] != '.' {
        return None;
    }
    if n == 1 || t[1] == '[' || t[1] == '|' {
        return None;
    }
    let mut end: usize = 1;
    while end < n && is_word_char_exec(t[end])
        invariant
            1 <= end <= n == t@.len(),
            forall|k: int| 1 <= k < end ==> is_word_char(t@[k]),
        decreases n - end,
    {
        end += 1;
    }
    if end == 1 {
        return None;
    }
    let (a, b) = trim_bounds_from(&t, end);
    if a == b {
        proof {
            if end < n {
                lemma_trim_empty_ends_in_space(t@.subrange(end as int, n as int));
                assert(t@.subrange(end as int, n as int).last() == t@.last());
            }
        }
        let field = string_of_range(&t, 1, end);
        assert(field@ =~= t@.drop_first());
        Some(field)
    } else {
        None
    }
}

pub open spec fn array_field_message(query: Seq<char>, field: Seq<char>) -> Seq<char> {
    "Invalid operation for this dataset.\n\nThe JSON root is an array, but `"@ + query
        + "` accesses `"@ + field + "` as though the root were an object.\n\nTo access `"@ + field
        + "` from every record, use:\n\n.[]."@ + field + "\n\nTo access `"@ + field
        + "` from the first record, use:\n\n.[0]."@ + field
}

pub open spec fn empty_query_message() -> Seq<char> {
    "Query cannot be empty."@
}

/// What `validate_query` answers for `query` on a dataset whose root is
/// of type `root`.
pub open spec fn validation_of(root: RootType, query: Seq<char>) -> Result<(), Seq<char>> {
    let t = trim(query);
    if t.len() == 0 {
        Err(empty_query_message())
    } else if root == RootType::Array && direct_field_of(t) is Some {
        Err(array_field_message(t, direct_field_of(t)->0))
    } else {
        compile_outcome(t)
    }
}

fn array_field_error(query: &str, field: &str) -> (m: String)
    ensures
        m@ == array_field_message(query@, field@),
{
    let mut m = String::new();
    push_str(&mut m, "Invalid operation for this dataset.\n\nThe JSON root is an array, but `");
    push_str(&mut m, query);
    push_str(&mut m, "` accesses `");
    push_str(&mut m, field);
    push_str(&mut m, "` as though the root were an object.\n\nTo access `");
    push_str(&mut m, field);
    push_str(&mut m, "` from every record, use:\n\n.[].");
    push_str(&mut m, field);
    push_str(&mut m, "\n\nTo access `");
    push_str(&mut m, field);
    push_str(&mut m, "` from the first record, use:\n\n.[0].");
    push_str(&mut m, field);
    assert(m@ =~= array_field_message(query@, field@));
    m
}

/// Refuses an empty query; on a dataset whose root is an array, refuses a
/// query that reads a field of the root, and says how to read it from the
/// records; refuses a query that jaq cannot parse or compile.
pub fn validate_query(root_type: RootType, query: &str) -> (r: Result<(), String>)
    ensures
        match (r, validation_of(root_type, query@)) {
            (Ok(()), Ok(())) => true,
            (Err(e), Err(m)) => e@ == m,
            _ => false,
        },
{
    let tc = trimmed_chars(query);
    let trimmed = string_of_range(&tc, 0, tc.len());
    assert(tc@.subrange(0, tc@.len() as int) =~= tc@);
    if tc.len() == 0 {
        return Err("Query cannot be empty.".to_string());
    }
    if root_type == RootType::Array {
        match direct_root_field(trimmed.as_str()) {
            Some(field) => {
                return Err(array_field_error(trimmed.as_str(), field.as_str()));
            },
            None => {},
        }
    }
    validate_compile(trimmed.as_str())
}

/// Whether `query`, after leading whitespace, begins an array
/// constructor (`[`) and is not an `:aggregate` command.
pub open spec fn is_array_constructor(query: Seq<char>) -> bool {
    let t = trim_start(query);
    !starts_with(t, ":aggregate"@) && starts_with(t, "["@)
}

/// Whether `query` looks like it builds one array of all its results.
pub fn looks_like_top_level_array_constructor(query: &str) -> (b: bool)
    ensures
        b == is_array_constructor(query@),
{
    let cs = chars_of(query);
    let (a, _b) = trim_bounds_from(&cs, 0);
    assert(cs@.subrange(0, cs@.len() as int) =~= cs@);
    let mut rest: Vec<char> = Vec::new();
    let mut i = a;
    while i < cs.len()
        invariant
            a <= i <= cs@.len(),
            rest@ == cs@.subrange(a as int, i as int),
        decreases cs@.len() - i,
    {
        rest.push(cs[i]);
        assert(cs@.subrange(a as int, i + 1) =~= cs@.subrange(a as int, i as int).push(cs@[i as int]));
        i += 1;
    }
    !starts_with_chars(&rest, ":aggregate") && starts_with_chars(&rest, "[")
}

/// `s` with every occurrence of `m` removed, scanning from the left
/// (`str::replace(m, "")` for a nonempty `m`).
pub open spec fn remove_all(s: Seq<char>, m: Seq<char>) -> Seq<char>
    decreases s.len(),
{
    if s.len() == 0 {
        Seq::empty()
    } else if m.len() > 0 && starts_with(s, m) {
        remove_all(s.subrange(m.len() as int, s.len() as int), m)
    } else {
        seq![s[0]] + remove_all(s.drop_first(), m)
    }
}

/// Whether `cs[i..]` starts with `pat`.
fn matches_at(cs: &Vec<char>, i: usize, pat: &Vec<char>) -> (b: bool)
    requires
        i <= cs@.len(),
    ensures
        b == starts_with(cs@.subrange(i as int, cs@.len() as int), pat@),
{
    if pat.len() > cs.len() - i {
        return false;
    }
    let mut k: usize = 0;
    while k < pat.len()
        invariant
            i <= cs@.len(),
            pat@.len() <= cs@.len() - i,
            cs@.len() <= usize::MAX,
            k <= pat@.len(),
            forall|m: int| 0 <= m < k ==> cs@[i + m] == pat@[m],
        decreases pat@.len() - k,
    {
        if cs[i + k] != pat[k] {
            assert(cs@.subrange(i as int, cs@.len() as int).subrange(0, pat@.len() as int)[k as int]
                != pat@[k as int]);
            return false;
        }
        k += 1;
    }
    assert(cs@.subrange(i as int, cs@.len() as int).subrange(0, pat@.len() as int) =~= pat@);
    true
}

/// The jq text of an interactive query: the query with every
/// `:aggregate` removed.
pub fn strip_aggregate_marker(query: &str) -> (r: String)
    ensures
        r@ == remove_all(query@, ":aggregate"@),
{
    let cs = chars_of(query);
    let marker = chars_of(":aggregate");
    proof {
        reveal_strlit(":aggregate");
    }
    let n = cs.len();
    let mut out = String::new();
    let mut i: usize = 0;
    assert(cs@.subrange(0, n as int) =~= cs@);
    assert(out@ + remove_all(cs@, marker@) =~= remove_all(cs@, marker@));
    while i < n
        invariant
            n == cs@.len(),
            cs@ == query@,
            marker@ == ":aggregate"@,
            marker@.len() == 10,
            i <= n,
            remove_all(cs@, marker@) == out@ + remove_all(cs@.subrange(i as int, n as int), marker@),
        decreases n - i,
    {
        if matches_at(&cs, i, &marker) {
            assert(cs@.subrange(i as int, n as int).subrange(10, n - i) =~= cs@.subrange(
                i + 10,
                n as int,
            ));
            i += 10;
        } else {
            let ghost prev = out@;
            push_char(&mut out, cs[i]);
            proof {
                let t = cs@.subrange(i as int, n as int);
                assert(t.drop_first() =~= cs@.subrange(i + 1, n as int));
                assert(t[0] == cs@[i as int]);
                assert(remove_all(t, marker@) == seq![cs@[i as int]] + remove_all(t.drop_first(), marker@));
                assert(prev + remove_all(t, marker@) =~= out@ + remove_all(cs@.subrange(i + 1, n as int), marker@));
            }
            i += 1;
        }
    }
    assert(cs@.subrange(n as int, n as int) =~= Seq::<char>::empty());
    out
}

/// A text that neither begins nor ends in whitespace is its own trimmed
/// form.
proof fn lemma_trim_unchanged(s: Seq<char>)
    requires
        s.len() > 0,
        !is_whitespace(s[0]),
        !is_whitespace(s.last()),
    ensures
        trim(s) == s,
{
}

/// On a dataset whose root is an array, a query that only reads a field
/// of the root is refused, with the message that shows how to read the
/// field from every record and from the first one.
pub proof fn lemma_array_root_refuses_field_access(field: Seq<char>)
    requires
        field.len() > 0,
        forall|k: int| 0 <= k < field.len() ==> is_word_char(#[trigger] field[k]),
    ensures
        validation_of(RootType::Array, "."@ + field) == Err::<(), Seq<char>>(
            array_field_message("."@ + field, field),
        ),
{
    reveal_strlit(".");
    let q = "."@ + field;
    assert(q[0] == '.');
    assert(q.last() == field.last());
    assert(is_word_char(field[field.len() - 1]));
    lemma_trim_unchanged(q);
    assert forall|k: int| 1 <= k < q.len() implies is_word_char(q[k]) by {
        assert(q[k] == field[k - 1]);
    }
    assert(q.drop_first() =~= field);
}

/// On a dataset whose root is an object (or neither an array nor an
/// object), a query is accepted exactly when it is not blank and jaq
/// compiles it.
pub proof fn lemma_other_roots_only_compile(root: RootType, query: Seq<char>)
    requires
        root != RootType::Array,
    ensures
        (validation_of(root, query) is Ok) <==> (trim(query).len() > 0 && compile_outcome(
            trim(query),
        ) is Ok),
{
}

/// A blank query is never accepted.
pub proof fn lemma_blank_query_refused(root: RootType, query: Seq<char>)
    requires
        trim(query).len() == 0,
    ensures
        validation_of(root, query) == Err::<(), Seq<char>>(empty_query_message()),
{
}

/// The rule for a query, read on the query as typed: a blank query is
/// refused; on an array root, a query that only reads one field of the
/// root is refused with a message naming the trimmed query and the field
/// and suggesting `.[].field` and `.[0].field`; anything else must
/// compile, trimmed.
pub proof fn lemma_validation_rule(root: RootType, query: Seq<char>)
    ensures
        validation_of(root, query) == (if trim(query).len() == 0 {
            Err(empty_query_message())
        } else if root == RootType::Array && direct_field_of(query) is Some {
            Err(array_field_message(trim(query), direct_field_of(query)->0))
        } else {
            compile_outcome(trim(query))
        }),
{
    lemma_trim_idempotent(query);
    assert(direct_field_of(trim(query)) == direct_field_of(query));
}

/// jq's `type` names the root's type in quotes: `"array"` is an array
/// root, `"object"` an object root, and every other name (such as
/// `"string"` or `"number"`) is neither.
pub proof fn lemma_root_type_names(name: Seq<char>)
    ensures
        root_type_of_name("\"array\""@) == RootType::Array,
        root_type_of_name("\"object\""@) == RootType::Object,
        root_type_of_name("array"@) == RootType::Array,
        trim_quotes_end(trim_quotes_start(name)) != "array"@ && trim_quotes_end(
            trim_quotes_start(name),
        ) != "object"@ ==> root_type_of_name(name) == RootType::Other,
{
    reveal_strlit("\"array\"");
    reveal_strlit("\"object\"");
    reveal_strlit("array");
    reveal_strlit("object");
    let a = "\"array\""@;
    assert(a.drop_first() =~= "array\""@) by {
        reveal_strlit("array\"");
    }
    reveal_strlit("array\"");
    assert(trim_quotes_start("array\""@) == "array\""@);
    assert("array\""@.drop_last() =~= "array"@);
    assert(trim_quotes_end("array"@) == "array"@);
    let o = "\"object\""@;
    reveal_strlit("object\"");
    assert(o.drop_first() =~= "object\""@);
    assert(trim_quotes_start("object\""@) == "object\""@);
    assert("object\""@.drop_last() =~= "object"@);
    assert(trim_quotes_end("object"@) == "object"@);
    assert(trim_quotes_start("array"@) == "array"@);
}

/// Text without a `:` holds no `:aggregate` marker, so removing the
/// marker leaves it as it is.
pub proof fn lemma_marker_free_query_unchanged(query: Seq<char>)
    requires
        !query.contains(':'),
    ensures
        remove_all(query, ":aggregate"@) == query,
    decreases query.len(),
{
    reveal_strlit(":aggregate");
    if query.len() > 0 {
        assert(!starts_with(query, ":aggregate"@)) by {
            if starts_with(query, ":aggregate"@) {
                assert(query.subrange(0, 10)[0] == ':');
                assert(query[0] == ':');
            }
        }
        assert(!query.drop_first().contains(':')) by {
            if query.drop_first().contains(':') {
                let k = choose|k: int| 0 <= k < query.drop_first().len() && query.drop_first()[k] == ':';
                assert(query[k + 1] == ':');
            }
        }
        lemma_marker_free_query_unchanged(query.drop_first());
        assert(seq![query[0]] + query.drop_first() =~= query);
    }
}

} // verus!
