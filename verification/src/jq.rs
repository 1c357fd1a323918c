//! The calls into jaq: compiling a jq program and running it on a value,
//! and reading a jaq value into the library's `JsonValue`.
use vstd::prelude::*;
use jaq_core::data::JustLut;
use jaq_core::load::{Arena, File, Loader};
use jaq_core::{Compiler, Ctx, Vars};
use jaq_json::Val;
use crate::json::{
    escape_free, indentable, json_depth, is_indentable, json_shape, render, write_pretty_json_value, JsonMember, JsonValue,
    ValueShape,
};
use crate::query::{root_type_of_name, RootType};
use crate::redirect::{pretty_prints_file, should_pretty_print_file};
use crate::text::push_str;

verus! {

/// A value of jaq's JSON superset.
#[verifier::external_type_specification]
#[verifier::external_body]
pub struct ExVal(jaq_json::Val);

/// An error raised while jaq runs a filter.  Declared because jaq's
/// arithmetic on `Val` returns it, and Verus reads those impls along with
/// `Val` itself.
#[verifier::external_type_specification]
#[verifier::external_body]
#[verifier::reject_recursive_types(V)]
pub struct ExJqRunError<V>(jaq_core::Error<V>);

/// The step of preparing a jq program that failed.
#[derive(Debug, Clone, Copy, PartialEq, Eq, Structural)]
pub enum CompileStage {
    /// jaq's loader could not parse the program.
    Parse,
    /// jaq's compiler rejected the parsed program.
    Compile,
}

/// Why a jq program could not be prepared: the stage and jaq's report of
/// the errors, as debug text.
#[derive(Debug)]
pub struct JqError {
    pub stage: CompileStage,
    pub detail: String,
}

/// The stage and report of the error that jaq's loader and compiler,
/// with the core, std and json definitions, give for the program
/// `query`; `None` when the program compiles.
pub uninterp spec fn jq_compile_error(query: Seq<char>) -> Option<(CompileStage, Seq<char>)>;

/// jaq's `Filter` over `JustLut<Val>`, built with the core, std and json
/// definitions.  Verus takes no declaration of jaq's filter type (its
/// function table is bounded by jaq's `DataT` trait), so the filter is
/// held here whole and unseen; the library only hands it back to jaq.
#[verifier::external_body]
struct JaqFilter {
    filter: jaq_core::Filter<JustLut<Val>>,
}

/// A compiled jq program, with the text it was compiled from.
pub struct JqFilter {
    compiled: JaqFilter,
    program: Ghost<Seq<char>>,
}

impl JqFilter {
    /// The program text this filter was compiled from.
    pub closed spec fn program(&self) -> Seq<char> {
        self.program@
    }
}

/// Parses and compiles `query` with jaq's `Loader::load` and
/// `Compiler::compile`.  Claimed: it succeeds exactly when
/// `jq_compile_error` of the program text is `None`, and otherwise the
/// error is that stage and report.
#[verifier::external_body]
fn jq_compile(query: &str) -> (r: Result<JaqFilter, JqError>)
    ensures
        r is Ok <==> jq_compile_error(query@) is None,
        r matches Err(e) ==> jq_compile_error(query@) == Some((e.stage, e.detail@)),
{
    let defs = jaq_core::defs().chain(jaq_std::defs()).chain(jaq_json::defs());
    let funs = jaq_core::funs::<JustLut<Val>>().chain(jaq_std::funs()).chain(jaq_json::funs());
    let arena = Arena::default();
    let modules = Loader::new(defs).load(&arena, File { code: query, path: () }).map_err(
        |e| JqError { stage: CompileStage::Parse, detail: format!("{e:?}") },
    )?;
    let compiled = Compiler::default().with_funs(funs).compile(modules);
    compiled.map(|filter| JaqFilter { filter }).map_err(
        |e| JqError { stage: CompileStage::Compile, detail: format!("{e:?}") },
    )
}

/// Whether jaq, running `program` on `input`, returns from starting the
/// run and from each of its first `n` requests for an output, on every
/// run.  It does not for some programs: `[repeat(1)]` is collected when
/// the run starts, `last(repeat(1))` never yields.
pub uninterp spec fn jq_halts(program: Seq<char>, input: Val, n: nat) -> bool;

/// Whether `program` reads nothing but its input: not the clock, the
/// environment or the machine's time zone (`now`, `$ENV`, `env`,
/// `localtime`, ...).  Only then are its outputs a function of the
/// program and the input.
pub uninterp spec fn jq_reads_input_only(program: Seq<char>) -> bool;

/// Output number `i` (from 0) that jaq gives when running `program` on
/// `input`, for a program that reads nothing but its input: a value, an
/// exception as debug text, or `None` once it has no more outputs.
pub uninterp spec fn jq_output(program: Seq<char>, input: Val, i: nat) -> Option<
    Result<Val, Seq<char>>,
>;

/// An output with its error text taken as characters.
pub open spec fn output_view(o: Option<Result<Val, String>>) -> Option<Result<Val, Seq<char>>> {
    match o {
        None => None,
        Some(Ok(v)) => Some(Ok(v)),
        Some(Err(e)) => Some(Err(e@)),
    }
}

/// The outputs of a compiled program running on one input: jaq's lazy
/// stream of values and exceptions.  Verus takes no declaration of that
/// stream (a boxed `dyn Iterator` with a lifetime bound), so it is held
/// here whole and unseen.
#[verifier::external_body]
struct JaqOutputs<'a> {
    outputs: jaq_core::ValXs<'a, Val>,
}

/// Starts `filter` on a copy of `input` with `Filter::run`.  jaq computes
/// some of the outputs already here (an array constructor at the top is
/// collected whole), so this returns only where the run's start halts.
#[verifier::external_body]
fn jaq_start<'a>(filter: &'a JqFilter, input: &Val) -> JaqOutputs<'a>
    requires
        jq_halts(filter.program(), *input, 0),
{
    let ctx = Ctx::<JustLut<Val>>::new(&filter.compiled.filter.lut, Vars::new([]));
    JaqOutputs { outputs: filter.compiled.filter.id.run((ctx, input.clone())) }
}

/// A program running on an input, pulled one output at a time; it
/// remembers, as ghost state, the program, the input and every output it
/// has handed out.
pub struct JqRun<'a> {
    outputs: JaqOutputs<'a>,
    program: Ghost<Seq<char>>,
    input: Ghost<Val>,
    log: Ghost<Seq<Option<Result<Val, String>>>>,
}

impl<'a> JqRun<'a> {
    /// The program that runs.
    pub closed spec fn program(&self) -> Seq<char> {
        self.program@
    }

    /// The input it runs on.
    pub closed spec fn input(&self) -> Val {
        self.input@
    }

    /// The outputs handed out so far, in order; `None` each time the
    /// program had no more.
    pub closed spec fn yielded(&self) -> Seq<Option<Result<Val, String>>> {
        self.log@
    }

    /// The next output of the program, an exception it raised (as text),
    /// or `None` when it has no more outputs.
    pub fn next_output(&mut self) -> (r: Option<Result<Val, String>>)
        requires
            jq_halts(old(self).program(), old(self).input(), old(self).yielded().len() + 1),
        ensures
            final(self).program() == old(self).program(),
            final(self).input() == old(self).input(),
            final(self).yielded() == old(self).yielded().push(r),
            jq_reads_input_only(old(self).program()) ==> output_view(r) == jq_output(
                old(self).program(),
                old(self).input(),
                old(self).yielded().len(),
            ),
    {
        let r = jaq_next(self);
        proof {
            self.log@ = self.log@.push(r);
        }
        r
    }
}

/// The next output of a running program (`Iterator::next` on jaq's
/// stream): a value, an exception as debug text (an error, or a `halt`,
/// which is reported here rather than ending the process), or `None` when
/// the program has no more outputs.  Claimed: for a program that reads
/// nothing but its input it is `jq_output` at the run's position; the
/// run's ghost record is left as it was.  Nothing is claimed of the
/// outputs of other programs: they may read the clock or the environment.
#[verifier::external_body]
fn jaq_next(run: &mut JqRun<'_>) -> (r: Option<Result<Val, String>>)
    requires
        jq_halts(old(run).program(), old(run).input(), old(run).yielded().len() + 1),
    ensures
        final(run).program() == old(run).program(),
        final(run).input() == old(run).input(),
        final(run).yielded() == old(run).yielded(),
        jq_halts(final(run).program(), final(run).input(), final(run).yielded().len() + 1),
        jq_reads_input_only(old(run).program()) ==> output_view(r) == jq_output(
            old(run).program(),
            old(run).input(),
            old(run).yielded().len(),
        ),
{
    match run.outputs.outputs.next() {
        None => None,
        Some(Ok(v)) => Some(Ok(v)),
        Some(Err(e)) => match e.get_err() {
            Ok(err) => Some(Err(format!("{err:?}"))),
            Err(exn) => Some(Err(format!("{exn:?}"))),
        },
    }
}

/// Starts `filter` on `input`; no output has been asked for yet.
pub fn start_query<'a>(filter: &'a JqFilter, input: &Val) -> (r: JqRun<'a>)
    requires
        jq_halts(filter.program(), *input, 0),
    ensures
        r.program() == filter.program(),
        r.input() == *input,
        r.yielded() == Seq::<Option<Result<Val, String>>>::empty(),
{
    JqRun {
        outputs: jaq_start(filter, input),
        program: Ghost(filter.program()),
        input: Ghost(*input),
        log: Ghost(Seq::empty()),
    }
}

/// The JSON value jaq's value `v` reads as (see `json_value_of`).
pub uninterp spec fn json_model(v: Val) -> JsonValue;

/// Reads a jaq value into a `JsonValue`: scalars become the text of
/// jaq's `Display`, keys likewise, arrays and objects keep their order.
/// Claimed: the result is `json_model` of the value (the conversion reads
/// the value alone), and no text in it holds an escape character (jaq's
/// `Display` writes control characters in strings as `\u001b`-style
/// escapes and in byte strings as `\x1b`-style escapes).
#[verifier::external_body]
pub(crate) fn json_value_of(v: &Val) -> (r: JsonValue)
    ensures
        r == json_model(*v),
        escape_free(r),
{
    match v {
        Val::Null => JsonValue::Null,
        Val::Bool(_) => JsonValue::Bool(v.to_string()),
        Val::Num(_) => JsonValue::Num(v.to_string()),
        Val::TStr(_) => JsonValue::Str(v.to_string()),
        Val::BStr(_) => JsonValue::Bytes(v.to_string()),
        Val::Arr(a) => JsonValue::Arr(a.iter().map(json_value_of).collect()),
        Val::Obj(o) => JsonValue::Obj(
            o.iter().map(|(k, x)| JsonMember { key: k.to_string(), value: json_value_of(x) }).collect(),
        ),
    }
}

/// What jaq's JSON reader makes of the text `bytes`: the JSON value of
/// the one value it holds, or the reader's error as debug text.
pub uninterp spec fn json_text_model(bytes: Seq<u8>) -> Result<JsonValue, Seq<char>>;

/// Reads one JSON value from `bytes` with jaq's `read::parse_single`.
/// Claimed: it succeeds exactly when `json_text_model` of the text is a
/// value, which is then `json_model` of the result; otherwise the error
/// is the one named there.
#[verifier::external_body]
fn jaq_parse(bytes: &[u8]) -> (r: Result<Val, String>)
    ensures
        match (r, json_text_model(bytes@)) {
            (Ok(v), Ok(j)) => json_model(v) == j,
            (Err(e), Err(d)) => e@ == d,
            _ => false,
        },
{
    jaq_json::read::parse_single(bytes).map_err(|e| format!("{e:?}"))
}

/// Parses the dataset once, from the bytes of the JSON file; a text that
/// is not one JSON value gives `JSON parse error: ` and the reader's
/// report.
pub fn parse_dataset(bytes: &[u8]) -> (r: Result<Val, String>)
    ensures
        r is Ok <==> json_text_model(bytes@) is Ok,
        r matches Ok(v) ==> json_text_model(bytes@) == Ok::<JsonValue, Seq<char>>(json_model(v)),
        r matches Err(e) ==> e@ == "JSON parse error: "@ + json_text_model(bytes@)->Err_0,
{
    match jaq_parse(bytes) {
        Ok(v) => Ok(v),
        Err(d) => {
            let mut msg = String::new();
            push_str(&mut msg, "JSON parse error: ");
            push_str(&mut msg, d.as_str());
            Err(msg)
        },
    }
}

/// The text of jaq's `Display` for `v` (its compact JSON form).
pub uninterp spec fn val_display(v: Val) -> Seq<char>;

/// Formats `v` with jaq's `Display` (`ToString::to_string`).  Claimed: the
/// text is `val_display` of the value, which it reads alone.
#[verifier::external_body]
pub(crate) fn display_of(v: &Val) -> (r: String)
    ensures
        r@ == val_display(*v),
{
    v.to_string()
}

/// The number of elements of an array or members of an object
/// (`Vec::len`, `IndexMap::len`).  Claimed: it is the shape of the value
/// that `json_value_of` reads, which keeps every element and member.
#[verifier::external_body]
pub(crate) fn shape_of(v: &Val) -> (r: ValueShape)
    ensures
        r == json_shape(json_model(*v)),
{
    match v {
        Val::Arr(a) => ValueShape::Array(a.len()),
        Val::Obj(o) => ValueShape::Object(o.len()),
        _ => ValueShape::Scalar,
    }
}

pub open spec fn invalid_syntax_message(stage: CompileStage, detail: Seq<char>) -> Seq<char> {
    match stage {
        CompileStage::Parse => "Invalid jq syntax:\n"@ + detail,
        CompileStage::Compile => "Unable to compile query:\n"@ + detail,
    }
}

/// What `validate_compile` answers for the program `query`.
pub open spec fn compile_outcome(query: Seq<char>) -> Result<(), Seq<char>> {
    match jq_compile_error(query) {
        None => Ok(()),
        Some(e) => Err(invalid_syntax_message(e.0, e.1)),
    }
}

/// Checks that jaq parses and compiles `query`.
pub fn validate_compile(query: &str) -> (r: Result<(), String>)
    ensures
        match (r, compile_outcome(query@)) {
            (Ok(()), Ok(())) => true,
            (Err(e), Err(m)) => e@ == m,
            _ => false,
        },
{
    match jq_compile(query) {
        Ok(_) => Ok(()),
        Err(e) => {
            let mut msg = String::new();
            match e.stage {
                CompileStage::Parse => push_str(&mut msg, "Invalid jq syntax:\n"),
                CompileStage::Compile => push_str(&mut msg, "Unable to compile query:\n"),
            }
            push_str(&mut msg, e.detail.as_str());
            Err(msg)
        },
    }
}

pub open spec fn setup_message(stage: CompileStage, detail: Seq<char>) -> Seq<char> {
    match stage {
        CompileStage::Parse => "Unable to parse query:\n"@ + detail,
        CompileStage::Compile => "Unable to compile query:\n"@ + detail,
    }
}

/// The message for a program that could not be prepared before its
/// results are paged or saved.
pub fn setup_error_message(e: &JqError) -> (m: String)
    ensures
        m@ == setup_message(e.stage, e.detail@),
{
    let mut msg = String::new();
    match e.stage {
        CompileStage::Parse => push_str(&mut msg, "Unable to parse query:\n"),
        CompileStage::Compile => push_str(&mut msg, "Unable to compile query:\n"),
    }
    push_str(&mut msg, e.detail.as_str());
    msg
}

/// Compiles `query` before its results are paged or saved; a program
/// that jaq refuses gives `Unable to parse query:` or `Unable to compile
/// query:` and jaq's report.
pub fn prepare_query(query: &str) -> (r: Result<JqFilter, String>)
    ensures
        r is Ok <==> jq_compile_error(query@) is None,
        r matches Ok(f) ==> f.program() == query@,
        r matches Err(m) ==> jq_compile_error(query@) matches Some(e) && m@ == setup_message(
            e.0,
            e.1,
        ),
{
    match jq_compile(query) {
        Ok(compiled) => Ok(JqFilter { compiled, program: Ghost(query@) }),
        Err(e) => Err(setup_error_message(&e)),
    }
}

pub open spec fn single_setup_message(stage: CompileStage, detail: Seq<char>) -> Seq<char> {
    match stage {
        CompileStage::Parse => "Query parse error: "@ + detail,
        CompileStage::Compile => "Query compile error: "@ + detail,
    }
}

/// What `execute_single` answers when the program's first output is
/// `first`.
pub open spec fn single_outcome(first: Option<Result<Val, Seq<char>>>) -> Result<
    Option<Val>,
    Seq<char>,
> {
    match first {
        None => Ok(None),
        Some(Ok(v)) => Ok(Some(v)),
        Some(Err(d)) => Err("Query runtime error: "@ + d),
    }
}

/// `r` is the answer `o`, its error text taken as characters.
pub open spec fn answers(r: Result<Option<Val>, String>, o: Result<Option<Val>, Seq<char>>) -> bool {
    match (r, o) {
        (Ok(a), Ok(b)) => a == b,
        (Err(e), Err(m)) => e@ == m,
        _ => false,
    }
}

/// The answer for a program whose first output is `first`: the value,
/// none, or the runtime error after `Query runtime error: `.
pub fn first_output_result(first: Option<Result<Val, String>>) -> (r: Result<Option<Val>, String>)
    ensures
        answers(r, single_outcome(output_view(first))),
{
    match first {
        None => Ok(None),
        Some(Ok(v)) => Ok(Some(v)),
        Some(Err(d)) => {
            let mut msg = String::new();
            push_str(&mut msg, "Query runtime error: ");
            push_str(&mut msg, d.as_str());
            Err(msg)
        },
    }
}

/// Runs `query` on `dataset` and returns its first output, if any.
/// A program that does not compile gives jaq's report after
/// `Query parse error: ` or `Query compile error: `; one that compiles
/// gives what `first_output_result` makes of the first output of its run
/// on `dataset`.
pub fn execute_single(dataset: &Val, query: &str) -> (r: Result<Option<Val>, String>)
    requires
        jq_halts(query@, *dataset, 0),
        jq_halts(query@, *dataset, 1),
    ensures
        match jq_compile_error(query@) {
            Some(e) => r matches Err(m) && m@ == single_setup_message(e.0, e.1),
            None => exists|first: Option<Result<Val, Seq<char>>>|
                answers(r, #[trigger] single_outcome(first)),
        },
        jq_compile_error(query@) is None && jq_reads_input_only(query@) ==> answers(
            r,
            single_outcome(jq_output(query@, *dataset, 0)),
        ),
{
    match jq_compile(query) {
        Err(e) => {
            let mut msg = String::new();
            match e.stage {
                CompileStage::Parse => push_str(&mut msg, "Query parse error: "),
                CompileStage::Compile => push_str(&mut msg, "Query compile error: "),
            }
            push_str(&mut msg, e.detail.as_str());
            Err(msg)
        },
        Ok(compiled) => {
            let filter = JqFilter { compiled, program: Ghost(query@) };
            let mut run = start_query(&filter, dataset);
            let first = run.next_output();
            let ghost g = output_view(first);
            let r = first_output_result(first);
            assert(answers(r, single_outcome(g)));
            r
        },
    }
}

pub open spec fn no_root_type_message() -> Seq<char> {
    "Unable to determine JSON root type."@
}

/// What `detect_root_type` answers when the first output of `type` on the
/// dataset is `first`.
pub open spec fn root_type_outcome(first: Option<Result<Val, Seq<char>>>) -> Result<
    RootType,
    Seq<char>,
> {
    match first {
        None => Err(no_root_type_message()),
        Some(Ok(v)) => Ok(root_type_of_name(val_display(v))),
        Some(Err(d)) => Err("Query runtime error: "@ + d),
    }
}

/// Whether the root of `dataset` is an array, an object or something
/// else, as the jq program `type` names it.
pub fn detect_root_type(dataset: &Val) -> (r: Result<RootType, String>)
    requires
        jq_halts("type"@, *dataset, 0),
        jq_halts("type"@, *dataset, 1),
    ensures
        jq_compile_error("type"@) matches Some(e) ==> r matches Err(m) && m@
            == single_setup_message(e.0, e.1),
        jq_compile_error("type"@) is None ==> exists|first: Option<Result<Val, Seq<char>>>|
            match (r, #[trigger] root_type_outcome(first)) {
                (Ok(a), Ok(b)) => a == b,
                (Err(e), Err(m)) => e@ == m,
                _ => false,
            },
        jq_compile_error("type"@) is None && jq_reads_input_only("type"@) ==> match (
            r,
            root_type_outcome(jq_output("type"@, *dataset, 0)),
        ) {
            (Ok(a), Ok(b)) => a == b,
            (Err(e), Err(m)) => e@ == m,
            _ => false,
        },
{
    let r = execute_single(dataset, "type");
    match r {
        Err(e) => {
            proof {
                if jq_compile_error("type"@) is None {
                    let first = choose|first: Option<Result<Val, Seq<char>>>|
                        answers(r, #[trigger] single_outcome(first));
                    assert(root_type_outcome(first) == Err::<RootType, Seq<char>>(single_outcome(first)->Err_0));
                }
            }
            Err(e)
        },
        Ok(None) => {
            let m = "Unable to determine JSON root type.".to_string();
            assert(root_type_outcome(None) == Err::<RootType, Seq<char>>(m@));
            Err(m)
        },
        Ok(Some(value)) => {
            let display = display_of(&value);
            let t = crate::query::root_type_of_display(display.as_str());
            assert(root_type_outcome(Some(Ok(value))) == Ok::<RootType, Seq<char>>(t));
            Ok(t)
        },
    }
}

/// The message for a value nested too deeply to be indented.
pub open spec fn too_deep_message() -> Seq<char> {
    "Value is nested too deeply to be indented."@
}

/// Appends the plain pretty text of `value` and a newline (the form in
/// which results are saved to `.json` files); refuses a value nested too
/// deeply to be indented, leaving `writer` as it was.
pub fn write_pretty_json(writer: &mut String, value: &Val) -> (r: Result<(), String>)
    ensures
        r is Ok <==> indentable(json_model(*value)),
        escape_free(json_model(*value)),
        r is Ok ==> final(writer)@ == old(writer)@ + render(json_model(*value), 0, false) + "\n"@,
        r matches Err(e) ==> e@ == too_deep_message() && final(writer)@ == old(writer)@,
{
    let json = json_value_of(value);
    if !is_indentable(&json) {
        return Err("Value is nested too deeply to be indented.".to_string());
    }
    write_pretty_json_value(writer, &json);
    Ok(())
}

/// The text with which the value `v` is saved to the file `filename`:
/// the plain pretty text for files that are pretty-printed (refused when
/// nested too deeply to indent), else jaq's compact display of the value;
/// a newline after either.
pub open spec fn record_text(filename: Seq<char>, v: Val) -> Result<Seq<char>, Seq<char>> {
    if pretty_prints_file(filename) {
        let j = json_model(v);
        if indentable(j) {
            Ok(render(j, 0, false) + "\n"@)
        } else {
            Err(too_deep_message())
        }
    } else {
        Ok(val_display(v) + "\n"@)
    }
}

/// The text with which a result is saved to the file `filename`.
pub fn file_record_text(filename: &str, value: &Val) -> (r: Result<String, String>)
    ensures
        match (r, record_text(filename@, *value)) {
            (Ok(t), Ok(m)) => t@ == m,
            (Err(e), Err(m)) => e@ == m,
            _ => false,
        },
{
    if should_pretty_print_file(filename) {
        let mut out = String::new();
        match write_pretty_json(&mut out, value) {
            Ok(()) => {
                assert(out@ =~= Seq::<char>::empty() + out@);
                Ok(out)
            },
            Err(e) => Err(e),
        }
    } else {
        let mut out = display_of(value);
        push_str(&mut out, "\n");
        Ok(out)
    }
}

/// Every value nested no more than 1000 levels deep is saved, to any file:
/// pretty-printed where the file name asks for it, else compact.
pub proof fn lemma_ordinary_values_are_saved(filename: Seq<char>, v: Val)
    requires
        json_depth(json_model(v)) <= 1000,
    ensures
        record_text(filename, v) is Ok,
        pretty_prints_file(filename) ==> record_text(filename, v) == Ok::<Seq<char>, Seq<char>>(
            render(json_model(v), 0, false) + "\n"@,
        ),
{
}

} // verus!
