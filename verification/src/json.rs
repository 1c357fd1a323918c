//! A JSON value as the renderers read it, and the two pretty printers:
//! the highlighted one used on the terminal and the plain one used for
//! files.  Both indent nested values by two spaces per level and put
//! each array element and object member on a line of its own.
use vstd::prelude::*;
use crate::text::{decimal, push_decimal, push_str, spaces};

verus! {

/// A member of an object: the key's JSON text and the value.
pub struct JsonMember {
    pub key: String,
    pub value: JsonValue,
}

/// A JSON value.  Scalars carry the JSON text that jaq displays for them
/// (numbers as written, strings quoted and escaped).
pub enum JsonValue {
    Null,
    Bool(String),
    Num(String),
    /// A text string.
    Str(String),
    /// A byte string.
    Bytes(String),
    Arr(Vec<JsonValue>),
    Obj(Vec<JsonMember>),
}

/// The terminal colours the highlighter uses.
#[derive(Debug, Clone, Copy, PartialEq, Eq, Structural)]
pub enum TermColor {
    Blue,
    Green,
    Yellow,
    Magenta,
    Cyan,
    DarkGrey,
    /// Any other colour: rendered as a reset.
    Other,
}

pub open spec fn ansi_code(color: TermColor) -> Seq<char> {
    match color {
        TermColor::Blue => "\x1b[34m"@,
        TermColor::Green => "\x1b[32m"@,
        TermColor::Yellow => "\x1b[33m"@,
        TermColor::Magenta => "\x1b[35m"@,
        TermColor::Cyan => "\x1b[36m"@,
        TermColor::DarkGrey => "\x1b[90m"@,
        TermColor::Other => "\x1b[0m"@,
    }
}

pub open spec fn ansi_reset() -> Seq<char> {
    "\x1b[0m"@
}

/// The ANSI escape sequence that selects `color`.
pub fn ansi_color(color: TermColor) -> (r: &'static str)
    ensures
        r@ == ansi_code(color),
{
    match color {
        TermColor::Blue => "\x1b[34m",
        TermColor::Green => "\x1b[32m",
        TermColor::Yellow => "\x1b[33m",
        TermColor::Magenta => "\x1b[35m",
        TermColor::Cyan => "\x1b[36m",
        TermColor::DarkGrey => "\x1b[90m",
        TermColor::Other => "\x1b[0m",
    }
}

/// The escape sequence that resets the terminal colour.
pub fn ansi_reset_str() -> (r: &'static str)
    ensures
        r@ == ansi_reset(),
{
    "\x1b[0m"
}

/// Nesting depth: scalars and empty containers count for nothing.
pub open spec fn json_depth(v: JsonValue) -> nat
    decreases v, 0nat,
{
    match v {
        JsonValue::Arr(items) => 1 + items_depth(items@, items@.len()),
        JsonValue::Obj(members) => 1 + members_depth(members@, members@.len()),
        _ => 0,
    }
}

pub open spec fn items_depth(items: Seq<JsonValue>, n: nat) -> nat
    decreases items, n,
{
    if n == 0 || n > items.len() {
        0
    } else {
        let d = json_depth(items[n - 1]);
        let rest = items_depth(items, (n - 1) as nat);
        if d > rest {
            d
        } else {
            rest
        }
    }
}

pub open spec fn members_depth(members: Seq<JsonMember>, n: nat) -> nat
    decreases members, n,
{
    if n == 0 || n > members.len() {
        0
    } else {
        let d = json_depth(members[n - 1].value);
        let rest = members_depth(members, (n - 1) as nat);
        if d > rest {
            d
        } else {
            rest
        }
    }
}

/// `text` in `color` when `colored`, else `text` alone.
pub open spec fn paint(color: TermColor, text: Seq<char>, colored: bool) -> Seq<char> {
    if colored {
        ansi_code(color) + text + ansi_reset()
    } else {
        text
    }
}

pub open spec fn comma_if(b: bool) -> Seq<char> {
    if b {
        ","@
    } else {
        ""@
    }
}

/// The pretty text of `v` at indentation `indent`: highlighted when
/// `colored`, plain otherwise.
pub open spec fn render(v: JsonValue, indent: nat, colored: bool) -> Seq<char>
    decreases v, 0nat,
{
    match v {
        JsonValue::Arr(items) => if items@.len() == 0 {
            "[]"@
        } else {
            "[\n"@ + render_items(items@, indent, colored, items@.len()) + spaces(indent) + "]"@
        },
        JsonValue::Obj(members) => if members@.len() == 0 {
            "{}"@
        } else {
            "{\n"@ + render_members(members@, indent, colored, members@.len()) + spaces(indent)
                + "}"@
        },
        JsonValue::Null => paint(TermColor::DarkGrey, "null"@, colored),
        JsonValue::Bool(t) => paint(TermColor::Yellow, t@, colored),
        JsonValue::Bytes(t) => paint(TermColor::Green, t@, colored),
        JsonValue::Num(t) => paint(TermColor::Magenta, t@, colored),
        JsonValue::Str(t) => paint(TermColor::Magenta, t@, colored),
    }
}

/// The lines of the first `n` elements of an array whose elements are
/// `items`.
pub open spec fn render_items(items: Seq<JsonValue>, indent: nat, colored: bool, n: nat) -> Seq<
    char,
>
    decreases items, n,
{
    if n == 0 || n > items.len() {
        Seq::empty()
    } else {
        render_items(items, indent, colored, (n - 1) as nat) + spaces(indent + 2) + render(
            items[n - 1],
            indent + 2,
            colored,
        ) + comma_if(n < items.len()) + "\n"@
    }
}

/// The lines of the first `n` members of an object whose members are
/// `members`.
pub open spec fn render_members(
    members: Seq<JsonMember>,
    indent: nat,
    colored: bool,
    n: nat,
) -> Seq<char>
    decreases members, n,
{
    if n == 0 || n > members.len() {
        Seq::empty()
    } else {
        render_members(members, indent, colored, (n - 1) as nat) + spaces(indent + 2) + paint(
            TermColor::Cyan,
            members[n - 1].key@,
            colored,
        ) + ": "@ + render(members[n - 1].value, indent + 2, colored) + comma_if(
            n < members.len(),
        ) + "\n"@
    }
}

/// Appends `indent` spaces.
pub fn write_indent_string(output: &mut String, indent: usize)
    ensures
        final(output)@ == old(output)@ + spaces(indent as nat),
{
    let mut i: usize = 0;
    while i < indent
        invariant
            i <= indent,
            output@ == old(output)@ + spaces(i as nat),
        decreases indent - i,
    {
        push_str(output, " ");
        proof {
            reveal_strlit(" ");
            assert(spaces((i + 1) as nat) =~= spaces(i as nat) + " "@);
        }
        i += 1;
    }
}

proof fn lemma_items_depth(items: Seq<JsonValue>, n: nat, k: int)
    requires
        0 <= k < n <= items.len(),
    ensures
        json_depth(items[k]) <= items_depth(items, n),
    decreases n,
{
    if k < n - 1 {
        lemma_items_depth(items, (n - 1) as nat, k);
    }
}

proof fn lemma_members_depth(members: Seq<JsonMember>, n: nat, k: int)
    requires
        0 <= k < n <= members.len(),
    ensures
        json_depth(members[k].value) <= members_depth(members, n),
    decreases n,
{
    if k < n - 1 {
        lemma_members_depth(members, (n - 1) as nat, k);
    }
}

fn write_painted(output: &mut String, color: TermColor, text: &str, colored: bool)
    ensures
        final(output)@ == old(output)@ + paint(color, text@, colored),
{
    if colored {
        push_str(output, ansi_color(color));
        push_str(output, text);
        push_str(output, ansi_reset_str());
        assert(output@ =~= old(output)@ + paint(color, text@, colored));
    } else {
        push_str(output, text);
    }
}

/// Appends `,` when `more`, then a newline.
fn write_separator(output: &mut String, more: bool)
    ensures
        final(output)@ == old(output)@ + (comma_if(more) + "\n"@),
{
    if more {
        push_str(output, ",");
    }
    push_str(output, "\n");
    proof {
        reveal_strlit(",");
        reveal_strlit("");
        assert(output@ =~= old(output)@ + (comma_if(more) + "\n"@));
    }
}

/// Appends the indentation and the key of an object member.
fn write_member_key(output: &mut String, indent: usize, key: &str, colored: bool)
    ensures
        final(output)@ == old(output)@ + (spaces(indent as nat) + paint(TermColor::Cyan, key@, colored)
            + ": "@),
{
    write_indent_string(output, indent);
    write_painted(output, TermColor::Cyan, key, colored);
    push_str(output, ": ");
    assert(output@ =~= old(output)@ + (spaces(indent as nat) + paint(TermColor::Cyan, key@, colored)
        + ": "@));
}

proof fn lemma_render_members_step(members: Seq<JsonMember>, indent: nat, colored: bool, n: nat)
    requires
        n < members.len(),
    ensures
        render_members(members, indent, colored, n + 1) == render_members(
            members,
            indent,
            colored,
            n,
        ) + (spaces(indent + 2) + paint(TermColor::Cyan, members[n as int].key@, colored) + ": "@)
            + render(members[n as int].value, indent + 2, colored) + (comma_if(n + 1 < members.len())
            + "\n"@),
{
    assert(render_members(members, indent, colored, n + 1) =~= render_members(
        members,
        indent,
        colored,
        n,
    ) + (spaces(indent + 2) + paint(TermColor::Cyan, members[n as int].key@, colored) + ": "@)
        + render(members[n as int].value, indent + 2, colored) + (comma_if(n + 1 < members.len())
        + "\n"@));
}

proof fn lemma_concat4(start: Seq<char>, a: Seq<char>, p1: Seq<char>, p2: Seq<char>, p3: Seq<char>, total: Seq<char>)
    requires
        total == (start + a) + p1 + p2 + p3,
    ensures
        total == start + (a + p1 + p2 + p3),
{
    assert(total =~= start + (a + p1 + p2 + p3));
}

proof fn lemma_render_items_step(items: Seq<JsonValue>, indent: nat, colored: bool, n: nat)
    requires
        n < items.len(),
    ensures
        render_items(items, indent, colored, n + 1) == render_items(items, indent, colored, n)
            + spaces(indent + 2) + render(items[n as int], indent + 2, colored) + (comma_if(
            n + 1 < items.len(),
        ) + "\n"@),
{
    assert(render_items(items, indent, colored, n + 1) =~= render_items(items, indent, colored, n)
        + spaces(indent + 2) + render(items[n as int], indent + 2, colored) + (comma_if(
        n + 1 < items.len(),
    ) + "\n"@));
}

/// Appends the pretty text of `value` at indentation `indent`,
/// highlighted when `colored`.
fn render_into(value: &JsonValue, indent: usize, colored: bool, output: &mut String)
    requires
        indent + 2 * json_depth(*value) <= usize::MAX,
    ensures
        final(output)@ == old(output)@ + render(*value, indent as nat, colored),
    decreases *value,
{
    match value {
        JsonValue::Arr(items) => {
            if items.len() == 0 {
                push_str(output, "[]");
                return;
            }
            push_str(output, "[\n");
            let ghost start = output@;
            let mut index: usize = 0;
            while index < items.len()
                invariant
                    index <= items@.len(),
                    indent + 2 * json_depth(*value) <= usize::MAX,
                    *value == JsonValue::Arr(*items),
                    output@ == start + render_items(items@, indent as nat, colored, index as nat),
                decreases items@.len() - index,
            {
                proof {
                    lemma_items_depth(items@, items@.len(), index as int);
                    lemma_item_decreases(*value, *items, index as int);
                }
                let ghost before = output@;
                write_indent_string(output, indent + 2);
                render_into(&items[index], indent + 2, colored, output);
                write_separator(output, index + 1 < items.len());
                proof {
                    lemma_render_items_step(items@, indent as nat, colored, index as nat);
                    lemma_concat4(
                        start,
                        render_items(items@, indent as nat, colored, index as nat),
                        spaces((indent + 2) as nat),
                        render(items@[index as int], (indent + 2) as nat, colored),
                        comma_if(index + 1 < items@.len()) + "\n"@,
                        output@,
                    );
                }
                index += 1;
            }
            write_indent_string(output, indent);
            push_str(output, "]");
            assert(output@ =~= old(output)@ + render(*value, indent as nat, colored));
        },
        JsonValue::Obj(members) => {
            if members.len() == 0 {
                push_str(output, "{}");
                return;
            }
            push_str(output, "{\n");
            let ghost start = output@;
            let mut index: usize = 0;
            while index < members.len()
                invariant
                    index <= members@.len(),
                    indent + 2 * json_depth(*value) <= usize::MAX,
                    *value == JsonValue::Obj(*members),
                    output@ == start + render_members(
                        members@,
                        indent as nat,
                        colored,
                        index as nat,
                    ),
                decreases members@.len() - index,
            {
                proof {
                    lemma_members_depth(members@, members@.len(), index as int);
                    lemma_member_decreases(*value, *members, index as int);
                }
                let member = &members[index];
                write_member_key(output, indent + 2, member.key.as_str(), colored);
                render_into(&member.value, indent + 2, colored, output);
                write_separator(output, index + 1 < members.len());
                proof {
                    lemma_render_members_step(members@, indent as nat, colored, index as nat);
                    lemma_concat4(
                        start,
                        render_members(members@, indent as nat, colored, index as nat),
                        spaces((indent + 2) as nat) + paint(TermColor::Cyan, members@[index as int].key@, colored)
                            + ": "@,
                        render(members@[index as int].value, (indent + 2) as nat, colored),
                        comma_if(index + 1 < members@.len()) + "\n"@,
                        output@,
                    );
                }
                index += 1;
            }
            write_indent_string(output, indent);
            push_str(output, "}");
            assert(output@ =~= old(output)@ + render(*value, indent as nat, colored));
        },
        JsonValue::Null => {
            write_painted(output, TermColor::DarkGrey, "null", colored);
        },
        JsonValue::Bool(t) => {
            write_painted(output, TermColor::Yellow, t.as_str(), colored);
        },
        JsonValue::Bytes(t) => {
            write_painted(output, TermColor::Green, t.as_str(), colored);
        },
        JsonValue::Num(t) => {
            write_painted(output, TermColor::Magenta, t.as_str(), colored);
        },
        JsonValue::Str(t) => {
            write_painted(output, TermColor::Magenta, t.as_str(), colored);
        },
    }
}

/// Appends the highlighted pretty text of `value` at indentation `indent`.
pub fn pretty_json_highlighted_inner(value: &JsonValue, indent: usize, output: &mut String)
    requires
        indent + 2 * json_depth(*value) <= usize::MAX,
    ensures
        final(output)@ == old(output)@ + render(*value, indent as nat, true),
{
    render_into(value, indent, true, output);
}

/// The highlighted pretty text of `value`, ending in a newline.
pub fn pretty_json_highlighted(value: &JsonValue) -> (s: String)
    requires
        2 * json_depth(*value) <= usize::MAX,
    ensures
        s@ == render(*value, 0, true) + "\n"@,
{
    let mut output = String::new();
    pretty_json_highlighted_inner(value, 0, &mut output);
    push_str(&mut output, "\n");
    assert(output@ =~= render(*value, 0, true) + "\n"@);
    output
}

/// Appends `count` spaces.
pub fn write_indent(writer: &mut String, count: usize)
    ensures
        final(writer)@ == old(writer)@ + spaces(count as nat),
{
    write_indent_string(writer, count);
}

/// Appends the plain pretty text of `value` at indentation `indent`.
pub fn write_pretty_json_inner(writer: &mut String, value: &JsonValue, indent: usize)
    requires
        indent + 2 * json_depth(*value) <= usize::MAX,
    ensures
        final(writer)@ == old(writer)@ + render(*value, indent as nat, false),
{
    render_into(value, indent, false, writer);
}

/// Appends the plain pretty text of `value` and a newline.
pub fn write_pretty_json_value(writer: &mut String, value: &JsonValue)
    requires
        2 * json_depth(*value) <= usize::MAX,
    ensures
        final(writer)@ == old(writer)@ + render(*value, 0, false) + "\n"@,
{
    write_pretty_json_inner(writer, value, 0);
    push_str(writer, "\n");
    assert(writer@ =~= old(writer)@ + render(*value, 0, false) + "\n"@);
}

proof fn lemma_item_decreases(v: JsonValue, items: Vec<JsonValue>, i: int)
    requires
        v == JsonValue::Arr(items),
        0 <= i < items@.len(),
    ensures
        decreases_to!(v => items@[i]),
{
    assert(decreases_to!(v => v->Arr_0));
    assert(decreases_to!(items => items@));
    assert(decreases_to!(items@ => items@[i]));
}

proof fn lemma_member_decreases(v: JsonValue, members: Vec<JsonMember>, i: int)
    requires
        v == JsonValue::Obj(members),
        0 <= i < members@.len(),
    ensures
        decreases_to!(v => members@[i].value),
{
    assert(decreases_to!(v => v->Obj_0));
    assert(decreases_to!(members => members@));
    assert(decreases_to!(members@ => members@[i]));
    assert(decreases_to!(members@[i] => members@[i].value));
}

/// Whether `json_depth(value) <= limit`.
pub fn depth_at_most(value: &JsonValue, limit: usize) -> (b: bool)
    ensures
        b == (json_depth(*value) <= limit),
    decreases *value,
{
    match value {
        JsonValue::Arr(items) => {
            if limit == 0 {
                return false;
            }
            let mut index: usize = 0;
            while index < items.len()
                invariant
                    index <= items@.len(),
                    limit > 0,
                    *value == JsonValue::Arr(*items),
                    items_depth(items@, index as nat) <= limit - 1,
                decreases items@.len() - index,
            {
                proof {
                    lemma_item_decreases(*value, *items, index as int);
                }
                if !depth_at_most(&items[index], limit - 1) {
                    proof {
                        lemma_items_depth(items@, items@.len(), index as int);
                    }
                    return false;
                }
                index += 1;
            }
            true
        },
        JsonValue::Obj(members) => {
            if limit == 0 {
                return false;
            }
            let mut index: usize = 0;
            while index < members.len()
                invariant
                    index <= members@.len(),
                    limit > 0,
                    *value == JsonValue::Obj(*members),
                    members_depth(members@, index as nat) <= limit - 1,
                decreases members@.len() - index,
            {
                proof {
                    lemma_member_decreases(*value, *members, index as int);
                }
                if !depth_at_most(&members[index].value, limit - 1) {
                    proof {
                        lemma_members_depth(members@, members@.len(), index as int);
                    }
                    return false;
                }
                index += 1;
            }
            true
        },
        _ => true,
    }
}

/// Whether `value` can be indented without the indentation width
/// overflowing `usize`.
pub open spec fn indentable(value: JsonValue) -> bool {
    2 * json_depth(value) <= usize::MAX
}

pub fn is_indentable(value: &JsonValue) -> (b: bool)
    ensures
        b == indentable(*value),
{
    depth_at_most(value, usize::MAX / 2)
}

/// The part of a query result that the interactive guard reads: the
/// number of elements of an array or of members of an object.
#[derive(Debug, Clone, Copy, PartialEq, Eq, Structural)]
pub enum ValueShape {
    Array(usize),
    Object(usize),
    Scalar,
}

/// The shape of `v`: its number of elements or members, if it has any.
pub open spec fn json_shape(v: JsonValue) -> ValueShape {
    match v {
        JsonValue::Arr(items) => ValueShape::Array(items@.len() as usize),
        JsonValue::Obj(members) => ValueShape::Object(members@.len() as usize),
        _ => ValueShape::Scalar,
    }
}

pub const MAX_INTERACTIVE_ARRAY_ITEMS: usize = 1000;

pub const MAX_INTERACTIVE_OBJECT_FIELDS: usize = 1000;

pub open spec fn large_array_message(n: nat) -> Seq<char> {
    "Interactive result blocked: query produced an array containing "@ + decimal(n)
        + " items.\n\nLarge arrays cannot be displayed interactively.\nStream the elements instead:\n\n.[] | ...\n\ninstead of:\n\n[.[] | ...]\n\nOr explicitly limit the result:\n\n[limit(100; .[] | ...)]"@
}

pub open spec fn large_object_message(n: nat) -> Seq<char> {
    "Interactive result blocked: query produced an object containing "@ + decimal(n)
        + " fields."@
}

/// What the interactive guard answers for a result of shape `shape`.
pub open spec fn guard_outcome(shape: ValueShape) -> Result<(), Seq<char>> {
    match shape {
        ValueShape::Array(n) => if n > MAX_INTERACTIVE_ARRAY_ITEMS {
            Err(large_array_message(n as nat))
        } else {
            Ok(())
        },
        ValueShape::Object(n) => if n > MAX_INTERACTIVE_OBJECT_FIELDS {
            Err(large_object_message(n as nat))
        } else {
            Ok(())
        },
        ValueShape::Scalar => Ok(()),
    }
}

/// Refuses to display arrays of more than 1000 elements and objects of
/// more than 1000 members in the interactive pager.
pub fn guard_interactive_value(shape: &ValueShape) -> (r: Result<(), String>)
    ensures
        match (r, guard_outcome(*shape)) {
            (Ok(()), Ok(())) => true,
            (Err(e), Err(m)) => e@ == m,
            _ => false,
        },
{
    match shape {
        ValueShape::Array(n) => {
            if *n > MAX_INTERACTIVE_ARRAY_ITEMS {
                let mut msg = String::new();
                push_str(&mut msg, "Interactive result blocked: query produced an array containing ");
                push_decimal(&mut msg, *n as u64);
                push_str(&mut msg, " items.\n\nLarge arrays cannot be displayed interactively.\nStream the elements instead:\n\n.[] | ...\n\ninstead of:\n\n[.[] | ...]\n\nOr explicitly limit the result:\n\n[limit(100; .[] | ...)]");
                assert(msg@ =~= large_array_message(*n as nat));
                return Err(msg);
            }
        },
        ValueShape::Object(n) => {
            if *n > MAX_INTERACTIVE_OBJECT_FIELDS {
                let mut msg = String::new();
                push_str(&mut msg, "Interactive result blocked: query produced an object containing ");
                push_decimal(&mut msg, *n as u64);
                push_str(&mut msg, " fields.");
                assert(msg@ =~= large_object_message(*n as nat));
                return Err(msg);
            }
        },
        ValueShape::Scalar => {},
    }
    Ok(())
}

/// The index of the first `m` in `s` at or after `i`, or `s.len()`.
pub open spec fn escape_end(s: Seq<char>, i: nat) -> nat
    decreases s.len() - i,
{
    if i >= s.len() {
        s.len()
    } else if s[i as int] == 'm' {
        i
    } else {
        escape_end(s, i + 1)
    }
}

pub proof fn lemma_escape_end_bounds(s: Seq<char>, i: nat)
    requires
        i <= s.len(),
    ensures
        i <= escape_end(s, i) <= s.len(),
        escape_end(s, i) < s.len() ==> s[escape_end(s, i) as int] == 'm',
    decreases s.len() - i,
{
    if i < s.len() && s[i as int] != 'm' {
        lemma_escape_end_bounds(s, i + 1);
    }
}

/// `s` with its terminal escape sequences (an escape character up to and
/// including the next `m`) removed.
pub open spec fn strip_ansi(s: Seq<char>) -> Seq<char>
    decreases s.len(),
{
    if s.len() == 0 {
        Seq::empty()
    } else if s[0] == '\x1b' {
        proof {
            lemma_escape_end_bounds(s, 1);
        }
        if escape_end(s, 1) < s.len() {
            strip_ansi(s.subrange((escape_end(s, 1) + 1) as int, s.len() as int))
        } else {
            Seq::empty()
        }
    } else {
        seq![s[0]] + strip_ansi(s.drop_first())
    }
}

/// `s` holds no escape character.
pub open spec fn no_escape(s: Seq<char>) -> bool {
    !s.contains('\x1b')
}

/// No text inside `v` (scalar texts and keys) holds an escape character.
pub open spec fn escape_free(v: JsonValue) -> bool
    decreases v, 0nat,
{
    match v {
        JsonValue::Arr(items) => items_escape_free(items@, items@.len()),
        JsonValue::Obj(members) => members_escape_free(members@, members@.len()),
        JsonValue::Null => true,
        JsonValue::Bool(t) => no_escape(t@),
        JsonValue::Num(t) => no_escape(t@),
        JsonValue::Str(t) => no_escape(t@),
        JsonValue::Bytes(t) => no_escape(t@),
    }
}

pub open spec fn items_escape_free(items: Seq<JsonValue>, n: nat) -> bool
    decreases items, n,
{
    if n == 0 || n > items.len() {
        true
    } else {
        items_escape_free(items, (n - 1) as nat) && escape_free(items[n - 1])
    }
}

pub open spec fn members_escape_free(members: Seq<JsonMember>, n: nat) -> bool
    decreases members, n,
{
    if n == 0 || n > members.len() {
        true
    } else {
        members_escape_free(members, (n - 1) as nat) && no_escape(members[n - 1].key@)
            && escape_free(members[n - 1].value)
    }
}

proof fn lemma_strip_clean_prefix(c: Seq<char>, x: Seq<char>)
    requires
        no_escape(c),
    ensures
        strip_ansi(c + x) == c + strip_ansi(x),
    decreases c.len(),
{
    if c.len() > 0 {
        assert(c[0] != '\x1b') by {
            if c[0] == '\x1b' {
                assert(c.contains('\x1b'));
            }
        }
        assert((c + x)[0] == c[0]);
        assert((c + x).drop_first() =~= c.drop_first() + x);
        assert(no_escape(c.drop_first())) by {
            if c.drop_first().contains('\x1b') {
                let k = choose|k: int| 0 <= k < c.drop_first().len() && c.drop_first()[k] == '\x1b';
                assert(c[k + 1] == '\x1b');
            }
        }
        lemma_strip_clean_prefix(c.drop_first(), x);
        assert(c + strip_ansi(x) =~= seq![c[0]] + (c.drop_first() + strip_ansi(x)));
    } else {
        assert(c + x =~= x);
        assert(c + strip_ansi(x) =~= strip_ansi(x));
    }
}

proof fn lemma_strip_code_prefix(code: Seq<char>, x: Seq<char>)
    requires
        code.len() >= 2,
        code[0] == '\x1b',
        code.last() == 'm',
        forall|k: int| 1 <= k < code.len() - 1 ==> code[k] != 'm',
    ensures
        strip_ansi(code + x) == strip_ansi(x),
{
    let s = code + x;
    assert(s[0] == '\x1b');
    assert forall|k: int| 1 <= k < code.len() - 1 implies s[k] != 'm' by {
        assert(s[k] == code[k]);
    }
    assert(s[code.len() - 1] == 'm');
    lemma_escape_end_is(s, 1, (code.len() - 1) as nat);
    assert(s.subrange(code.len() as int, s.len() as int) =~= x);
}

proof fn lemma_escape_end_is(s: Seq<char>, i: nat, e: nat)
    requires
        i <= e < s.len(),
        s[e as int] == 'm',
        forall|k: int| i <= k < e ==> s[k] != 'm',
    ensures
        escape_end(s, i) == e,
    decreases e - i,
{
    if i < e {
        lemma_escape_end_is(s, i + 1, e);
    }
}

proof fn lemma_codes_well_formed(color: TermColor)
    ensures
        ansi_code(color).len() >= 2,
        ansi_code(color)[0] == '\x1b',
        ansi_code(color).last() == 'm',
        forall|k: int| 1 <= k < ansi_code(color).len() - 1 ==> ansi_code(color)[k] != 'm',
        ansi_reset().len() >= 2,
        ansi_reset()[0] == '\x1b',
        ansi_reset().last() == 'm',
        forall|k: int| 1 <= k < ansi_reset().len() - 1 ==> ansi_reset()[k] != 'm',
{
    reveal_strlit("\x1b[34m");
    reveal_strlit("\x1b[32m");
    reveal_strlit("\x1b[33m");
    reveal_strlit("\x1b[35m");
    reveal_strlit("\x1b[36m");
    reveal_strlit("\x1b[90m");
    reveal_strlit("\x1b[0m");
}

proof fn lemma_strip_paint(color: TermColor, t: Seq<char>, b: Seq<char>)
    requires
        no_escape(t),
    ensures
        strip_ansi(paint(color, t, true) + b) == paint(color, t, false) + strip_ansi(b),
{
    lemma_codes_well_formed(color);
    let code = ansi_code(color);
    let reset = ansi_reset();
    assert(paint(color, t, true) + b =~= code + (t + (reset + b)));
    lemma_strip_code_prefix(code, t + (reset + b));
    lemma_strip_clean_prefix(t, reset + b);
    lemma_strip_code_prefix(reset, b);
}

proof fn lemma_literal_clean(s: Seq<char>)
    requires
        forall|k: int| 0 <= k < s.len() ==> s[k] != '\x1b',
    ensures
        no_escape(s),
{
}

proof fn lemma_spaces_clean(n: nat, tail: Seq<char>)
    requires
        no_escape(tail),
    ensures
        no_escape(spaces(n) + tail),
{
    let s = spaces(n) + tail;
    assert forall|k: int| 0 <= k < s.len() implies s[k] != '\x1b' by {
        if k >= n {
            assert(s[k] == tail[k - n]);
            if tail[k - n] == '\x1b' {
                assert(tail.contains('\x1b'));
            }
        }
    }
}

/// With the colour codes stripped, the highlighted rendering of `v`
/// followed by any text `b` is the plain rendering followed by `b`
/// stripped.
proof fn lemma_strip_render(v: JsonValue, indent: nat, b: Seq<char>)
    requires
        escape_free(v),
    ensures
        strip_ansi(render(v, indent, true) + b) == render(v, indent, false) + strip_ansi(b),
    decreases v, 0nat,
{
    reveal_strlit("[]");
    reveal_strlit("{}");
    reveal_strlit("[\n");
    reveal_strlit("{\n");
    reveal_strlit("]");
    reveal_strlit("}");
    reveal_strlit("null");
    match v {
        JsonValue::Arr(items) => {
            if items@.len() == 0 {
                lemma_literal_clean("[]"@);
                lemma_strip_clean_prefix("[]"@, b);
            } else {
                let ri_t = render_items(items@, indent, true, items@.len());
                let ri_f = render_items(items@, indent, false, items@.len());
                let close = spaces(indent) + "]"@;
                lemma_literal_clean("[\n"@);
                lemma_literal_clean("]"@);
                lemma_spaces_clean(indent, "]"@);
                assert(render(v, indent, true) + b =~= "[\n"@ + (ri_t + (close + b)));
                lemma_strip_clean_prefix("[\n"@, ri_t + (close + b));
                lemma_strip_render_items(items@, indent, items@.len(), close + b);
                lemma_strip_clean_prefix(close, b);
                assert(render(v, indent, false) + strip_ansi(b) =~= "[\n"@ + (ri_f + (close
                    + strip_ansi(b))));
            }
        },
        JsonValue::Obj(members) => {
            if members@.len() == 0 {
                lemma_literal_clean("{}"@);
                lemma_strip_clean_prefix("{}"@, b);
            } else {
                let rm_t = render_members(members@, indent, true, members@.len());
                let rm_f = render_members(members@, indent, false, members@.len());
                let close = spaces(indent) + "}"@;
                lemma_literal_clean("{\n"@);
                lemma_literal_clean("}"@);
                lemma_spaces_clean(indent, "}"@);
                assert(render(v, indent, true) + b =~= "{\n"@ + (rm_t + (close + b)));
                lemma_strip_clean_prefix("{\n"@, rm_t + (close + b));
                lemma_strip_render_members(members@, indent, members@.len(), close + b);
                lemma_strip_clean_prefix(close, b);
                assert(render(v, indent, false) + strip_ansi(b) =~= "{\n"@ + (rm_f + (close
                    + strip_ansi(b))));
            }
        },
        JsonValue::Null => {
            lemma_literal_clean("null"@);
            lemma_strip_paint(TermColor::DarkGrey, "null"@, b);
        },
        JsonValue::Bool(t) => {
            lemma_strip_paint(TermColor::Yellow, t@, b);
        },
        JsonValue::Num(t) => {
            lemma_strip_paint(TermColor::Magenta, t@, b);
        },
        JsonValue::Str(t) => {
            lemma_strip_paint(TermColor::Magenta, t@, b);
        },
        JsonValue::Bytes(t) => {
            lemma_strip_paint(TermColor::Green, t@, b);
        },
    }
}

proof fn lemma_separator_clean(more: bool)
    ensures
        no_escape(comma_if(more) + "\n"@),
{
    reveal_strlit(",");
    reveal_strlit("");
    reveal_strlit("\n");
    lemma_literal_clean(comma_if(more) + "\n"@);
}

proof fn lemma_strip_render_items(items: Seq<JsonValue>, indent: nat, n: nat, b: Seq<char>)
    requires
        n <= items.len(),
        items_escape_free(items, n),
    ensures
        strip_ansi(render_items(items, indent, true, n) + b) == render_items(
            items,
            indent,
            false,
            n,
        ) + strip_ansi(b),
    decreases items, n,
{
    if n == 0 {
        assert(render_items(items, indent, true, 0) + b =~= b);
        assert(render_items(items, indent, false, 0) + strip_ansi(b) =~= strip_ansi(b));
    } else {
        let item = items[n - 1];
        let prev_t = render_items(items, indent, true, (n - 1) as nat);
        let prev_f = render_items(items, indent, false, (n - 1) as nat);
        let sp = spaces(indent + 2);
        let sep = comma_if(n < items.len()) + "\n"@;
        lemma_separator_clean(n < items.len());
        lemma_spaces_clean(indent + 2, Seq::empty());
        assert(sp + Seq::<char>::empty() =~= sp);
        assert(render_items(items, indent, true, n) + b =~= prev_t + (sp + (render(
            item,
            indent + 2,
            true,
        ) + (sep + b))));
        lemma_strip_render_items(items, indent, (n - 1) as nat, sp + (render(item, indent + 2, true)
            + (sep + b)));
        lemma_strip_clean_prefix(sp, render(item, indent + 2, true) + (sep + b));
        lemma_strip_render(item, indent + 2, sep + b);
        lemma_strip_clean_prefix(sep, b);
        assert(render_items(items, indent, false, n) + strip_ansi(b) =~= prev_f + (sp + (render(
            item,
            indent + 2,
            false,
        ) + (sep + strip_ansi(b)))));
    }
}

pub open spec fn member_block(m: JsonMember, indent: nat, colored: bool, more: bool) -> Seq<char> {
    spaces(indent + 2) + paint(TermColor::Cyan, m.key@, colored) + ": "@ + render(
        m.value,
        indent + 2,
        colored,
    ) + comma_if(more) + "\n"@
}

proof fn lemma_strip_member(m: JsonMember, indent: nat, more: bool, b: Seq<char>)
    requires
        no_escape(m.key@),
        escape_free(m.value),
    ensures
        strip_ansi(member_block(m, indent, true, more) + b) == member_block(m, indent, false, more)
            + strip_ansi(b),
    decreases m.value, 1nat,
{
    reveal_strlit(": ");
    let sp = spaces(indent + 2);
    let colon = ": "@;
    let sep = comma_if(more) + "\n"@;
    let rv_t = render(m.value, indent + 2, true);
    let rv_f = render(m.value, indent + 2, false);
    lemma_separator_clean(more);
    lemma_spaces_clean(indent + 2, Seq::empty());
    assert(sp + Seq::<char>::empty() =~= sp);
    lemma_literal_clean(colon);
    let key_t = paint(TermColor::Cyan, m.key@, true);
    assert(member_block(m, indent, true, more) + b =~= sp + (key_t + (colon + (rv_t + (sep + b)))));
    lemma_strip_clean_prefix(sp, key_t + (colon + (rv_t + (sep + b))));
    lemma_strip_paint(TermColor::Cyan, m.key@, colon + (rv_t + (sep + b)));
    lemma_strip_clean_prefix(colon, rv_t + (sep + b));
    lemma_strip_render(m.value, indent + 2, sep + b);
    lemma_strip_clean_prefix(sep, b);
    assert(member_block(m, indent, false, more) + strip_ansi(b) =~= sp + (m.key@ + (colon + (rv_f
        + (sep + strip_ansi(b))))));
}

proof fn lemma_strip_render_members(members: Seq<JsonMember>, indent: nat, n: nat, b: Seq<char>)
    requires
        n <= members.len(),
        members_escape_free(members, n),
    ensures
        strip_ansi(render_members(members, indent, true, n) + b) == render_members(
            members,
            indent,
            false,
            n,
        ) + strip_ansi(b),
    decreases members, n,
{
    if n == 0 {
        assert(render_members(members, indent, true, 0) + b =~= b);
        assert(render_members(members, indent, false, 0) + strip_ansi(b) =~= strip_ansi(b));
    } else {
        let m = members[n - 1];
        let more = n < members.len();
        let prev_t = render_members(members, indent, true, (n - 1) as nat);
        let prev_f = render_members(members, indent, false, (n - 1) as nat);
        let blk_t = member_block(m, indent, true, more);
        let blk_f = member_block(m, indent, false, more);
        assert(render_members(members, indent, true, n) =~= prev_t + blk_t);
        assert(render_members(members, indent, false, n) =~= prev_f + blk_f);
        assert(render_members(members, indent, true, n) + b =~= prev_t + (blk_t + b));
        lemma_strip_render_members(members, indent, (n - 1) as nat, blk_t + b);
        lemma_strip_member(m, indent, more, b);
        assert(render_members(members, indent, false, n) + strip_ansi(b) =~= prev_f + (blk_f
            + strip_ansi(b)));
    }
}

/// The terminal rendering is the file rendering with colour codes added:
/// stripping the escape sequences from `pretty_json_highlighted`'s text
/// gives `write_pretty_json`'s text, for every value whose texts hold no
/// escape character (jaq escapes control characters in strings).
pub proof fn lemma_highlight_is_colored_plain(v: JsonValue)
    requires
        escape_free(v),
    ensures
        strip_ansi(render(v, 0, true) + "\n"@) == render(v, 0, false) + "\n"@,
{
    reveal_strlit("\n");
    lemma_strip_render(v, 0, "\n"@);
    lemma_literal_clean("\n"@);
    lemma_strip_clean_prefix("\n"@, Seq::empty());
    assert("\n"@ + Seq::<char>::empty() =~= "\n"@);
    assert(strip_ansi(Seq::<char>::empty()) =~= Seq::<char>::empty());
}

/// Highlighting changes only colours, never layout or text: at any
/// indentation, the highlighted text of `v` with its colour codes
/// stripped is its plain text, and text that follows is stripped on its
/// own.
pub proof fn lemma_highlight_only_adds_colour(v: JsonValue, indent: nat, rest: Seq<char>)
    requires
        escape_free(v),
    ensures
        strip_ansi(render(v, indent, true) + rest) == render(v, indent, false) + strip_ansi(rest),
        strip_ansi(render(v, indent, true)) == render(v, indent, false),
{
    lemma_strip_render(v, indent, rest);
    lemma_strip_render(v, indent, Seq::empty());
    assert(render(v, indent, true) + Seq::<char>::empty() =~= render(v, indent, true));
    assert(strip_ansi(Seq::<char>::empty()) =~= Seq::<char>::empty());
    assert(render(v, indent, false) + Seq::<char>::empty() =~= render(v, indent, false));
}

/// A non-empty array or object is laid out over several lines: it opens
/// with `[` or `{` and a newline, and its closing bracket or brace stands
/// on a line of its own, indented like the line it opened on.
pub proof fn lemma_container_closes_at_its_indent(v: JsonValue, indent: nat, colored: bool)
    ensures
        v matches JsonValue::Arr(items) && items@.len() > 0 ==> exists|body: Seq<char>|
            render(v, indent, colored) == "[\n"@ + body + spaces(indent) + "]"@,
        v matches JsonValue::Obj(members) && members@.len() > 0 ==> exists|body: Seq<char>|
            render(v, indent, colored) == "{\n"@ + body + spaces(indent) + "}"@,
{
    match v {
        JsonValue::Arr(items) => {
            if items@.len() > 0 {
                let body = render_items(items@, indent, colored, items@.len());
                assert(render(v, indent, colored) == "[\n"@ + body + spaces(indent) + "]"@);
            }
        },
        JsonValue::Obj(members) => {
            if members@.len() > 0 {
                let body = render_members(members@, indent, colored, members@.len());
                assert(render(v, indent, colored) == "{\n"@ + body + spaces(indent) + "}"@);
            }
        },
        _ => {},
    }
}

/// An array of one element puts it on its own line, two spaces further
/// in, and closes on the next line at the array's own indentation; an
/// object of one member puts `key: value` likewise.  Empty containers
/// stay on one line.
pub proof fn lemma_one_entry_layout(v: JsonValue, indent: nat, colored: bool)
    ensures
        v matches JsonValue::Arr(items) ==> (items@.len() == 1 ==> render(v, indent, colored)
            == "[\n"@ + spaces(indent + 2) + render(items@[0], indent + 2, colored) + "\n"@
            + spaces(indent) + "]"@),
        v matches JsonValue::Obj(members) ==> (members@.len() == 1 ==> render(v, indent, colored)
            == "{\n"@ + spaces(indent + 2) + paint(TermColor::Cyan, members@[0].key@, colored)
            + ": "@ + render(members@[0].value, indent + 2, colored) + "\n"@ + spaces(indent)
            + "}"@),
        v matches JsonValue::Arr(items) && items@.len() == 0 ==> render(v, indent, colored)
            == "[]"@,
        v matches JsonValue::Obj(members) && members@.len() == 0 ==> render(v, indent, colored)
            == "{}"@,
{
    reveal_strlit("");
    match v {
        JsonValue::Arr(items) => {
            if items@.len() == 1 {
                assert(render_items(items@, indent, colored, 0) =~= Seq::<char>::empty());
                assert(comma_if(false) =~= Seq::<char>::empty());
                assert(render(v, indent, colored) =~= "[\n"@ + spaces(indent + 2) + render(
                    items@[0],
                    indent + 2,
                    colored,
                ) + "\n"@ + spaces(indent) + "]"@);
            }
        },
        JsonValue::Obj(members) => {
            if members@.len() == 1 {
                assert(render_members(members@, indent, colored, 0) =~= Seq::<char>::empty());
                assert(comma_if(false) =~= Seq::<char>::empty());
                assert(render(v, indent, colored) =~= "{\n"@ + spaces(indent + 2) + paint(
                    TermColor::Cyan,
                    members@[0].key@,
                    colored,
                ) + ": "@ + render(members@[0].value, indent + 2, colored) + "\n"@ + spaces(
                    indent,
                ) + "}"@);
            }
        },
        _ => {},
    }
}

/// Plain scalars are written as their own text.
pub proof fn lemma_plain_scalars(v: JsonValue, indent: nat)
    ensures
        v is Null ==> render(v, indent, false) == "null"@,
        v matches JsonValue::Num(t) ==> render(v, indent, false) == t@,
        v matches JsonValue::Str(t) ==> render(v, indent, false) == t@,
        v matches JsonValue::Bool(t) ==> render(v, indent, false) == t@,
        v matches JsonValue::Bytes(t) ==> render(v, indent, false) == t@,
{
}

/// Every value of ordinary depth can be indented: only values nested more
/// deeply than half the address space are refused.
pub proof fn lemma_ordinary_depth_is_indentable(v: JsonValue)
    ensures
        json_depth(v) <= 1000 ==> indentable(v),
{
}

/// A container is nested one level more deeply than each of its elements
/// and member values; scalars are not nested at all.
pub proof fn lemma_depth_of_parts(v: JsonValue)
    ensures
        v matches JsonValue::Arr(items) ==> forall|i: int|
            0 <= i < items@.len() ==> json_depth(v) >= 1 + json_depth(#[trigger] items@[i]),
        v matches JsonValue::Obj(members) ==> forall|i: int|
            0 <= i < members@.len() ==> json_depth(v) >= 1 + json_depth(
                #[trigger] members@[i].value,
            ),
        !(v is Arr || v is Obj) ==> json_depth(v) == 0,
        v matches JsonValue::Arr(items) ==> json_depth(v) >= 1,
        v matches JsonValue::Obj(members) ==> json_depth(v) >= 1,
{
    match v {
        JsonValue::Arr(items) => {
            assert forall|i: int| 0 <= i < items@.len() implies json_depth(v) >= 1 + json_depth(
                #[trigger] items@[i],
            ) by {
                lemma_items_depth_bound(items@, items@.len(), i);
            }
        },
        JsonValue::Obj(members) => {
            assert forall|i: int| 0 <= i < members@.len() implies json_depth(v) >= 1
                + json_depth(#[trigger] members@[i].value) by {
                lemma_members_depth_bound(members@, members@.len(), i);
            }
        },
        _ => {},
    }
}

proof fn lemma_items_depth_bound(items: Seq<JsonValue>, n: nat, i: int)
    requires
        0 <= i < n <= items.len(),
    ensures
        items_depth(items, n) >= json_depth(items[i]),
    decreases n,
{
    if i < n - 1 {
        lemma_items_depth_bound(items, (n - 1) as nat, i);
    }
}

proof fn lemma_members_depth_bound(members: Seq<JsonMember>, n: nat, i: int)
    requires
        0 <= i < n <= members.len(),
    ensures
        members_depth(members, n) >= json_depth(members[i].value),
    decreases n,
{
    if i < n - 1 {
        lemma_members_depth_bound(members, (n - 1) as nat, i);
    }
}

} // verus!
