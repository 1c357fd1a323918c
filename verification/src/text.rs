//! Character-level text operations with their specifications.
//!
//! Strings are modelled by their view, a `Seq<char>`.  The helpers here
//! give the trimming, prefix/suffix tests, ASCII case folding and decimal
//! formatting that the rest of the library states its contracts with.
use vstd::prelude::*;
use std::collections::VecDeque;

verus! {

/// `char::is_whitespace`: the Unicode `White_Space` property.
pub open spec fn is_whitespace(c: char) -> bool {
    ||| ('\t' <= c && c <= '\r')
    ||| c == ' '
    ||| c == '\u{85}'
    ||| c == '\u{a0}'
    ||| c == '\u{1680}'
    ||| ('\u{2000}' <= c && c <= '\u{200a}')
    ||| c == '\u{2028}'
    ||| c == '\u{2029}'
    ||| c == '\u{202f}'
    ||| c == '\u{205f}'
    ||| c == '\u{3000}'
}

/// `s` without its leading whitespace (`str::trim_start`).
pub open spec fn trim_start(s: Seq<char>) -> Seq<char>
    decreases s.len(),
{
    if s.len() > 0 && is_whitespace(s[0]) {
        trim_start(s.drop_first())
    } else {
        s
    }
}

/// `s` without its trailing whitespace (`str::trim_end`).
pub open spec fn trim_end(s: Seq<char>) -> Seq<char>
    decreases s.len(),
{
    if s.len() > 0 && is_whitespace(s.last()) {
        trim_end(s.drop_last())
    } else {
        s
    }
}

/// `s` without leading and trailing whitespace (`str::trim`).
pub open spec fn trim(s: Seq<char>) -> Seq<char> {
    trim_end(trim_start(s))
}

/// `s` starts with `p`.
pub open spec fn starts_with(s: Seq<char>, p: Seq<char>) -> bool {
    p.len() <= s.len() && s.subrange(0, p.len() as int) == p
}

/// `s` ends with `p`.
pub open spec fn ends_with(s: Seq<char>, p: Seq<char>) -> bool {
    p.len() <= s.len() && s.subrange(s.len() - p.len(), s.len() as int) == p
}

/// `char::to_ascii_lowercase`.
pub open spec fn ascii_lower(c: char) -> char {
    if 'A' <= c && c <= 'Z' {
        ((c as u32) + 32) as char
    } else {
        c
    }
}

/// `str::to_ascii_lowercase`.
pub open spec fn lower(s: Seq<char>) -> Seq<char> {
    s.map_values(|c: char| ascii_lower(c))
}

/// `char::is_ascii_alphanumeric(c) || c == '_'`.
pub open spec fn is_word_char(c: char) -> bool {
    ||| ('a' <= c && c <= 'z')
    ||| ('A' <= c && c <= 'Z')
    ||| ('0' <= c && c <= '9')
    ||| c == '_'
}

/// The character of the decimal digit `d` (`0 <= d < 10`).
pub open spec fn digit_char(d: nat) -> char {
    (('0' as u32) + d) as char
}

/// The decimal representation of `n`, without sign or leading zeros.
pub open spec fn decimal(n: nat) -> Seq<char>
    decreases n,
{
    if n < 10 {
        seq![digit_char(n)]
    } else {
        decimal(n / 10).push(digit_char(n % 10))
    }
}

/// `n` spaces.
pub open spec fn spaces(n: nat) -> Seq<char> {
    Seq::new(n, |i: int| ' ')
}

pub fn is_whitespace_char(c: char) -> (b: bool)
    ensures
        b == is_whitespace(c),
{
    ('\t' <= c && c <= '\r') || c == ' ' || c == '\u{85}' || c == '\u{a0}' || c == '\u{1680}'
        || ('\u{2000}' <= c && c <= '\u{200a}') || c == '\u{2028}' || c == '\u{2029}' || c
        == '\u{202f}' || c == '\u{205f}' || c == '\u{3000}'
}

pub fn is_word_char_exec(c: char) -> (b: bool)
    ensures
        b == is_word_char(c),
{
    ('a' <= c && c <= 'z') || ('A' <= c && c <= 'Z') || ('0' <= c && c <= '9') || c == '_'
}

/// The characters of `s`, in order.
pub fn chars_of(s: &str) -> (cs: Vec<char>)
    ensures
        cs@ == s@,
{
    let mut cs: Vec<char> = Vec::new();
    for c in it: s.chars()
        invariant
            cs@ == it.seq().take(it.index() as int),
            it.seq() == s@,
    {
        cs.push(c);
    }
    cs
}

/// `String::push`.
#[verifier::external_body]
pub fn push_char(s: &mut String, c: char)
    ensures
        final(s)@ == old(s)@.push(c),
{
    s.push(c);
}

/// Appends `cs[from..to]` to `out`.
pub fn push_range(out: &mut String, cs: &Vec<char>, from: usize, to: usize)
    requires
        from <= to <= cs@.len(),
    ensures
        final(out)@ == old(out)@ + cs@.subrange(from as int, to as int),
{
    let mut i = from;
    while i < to
        invariant
            from <= i <= to <= cs@.len(),
            out@ == old(out)@ + cs@.subrange(from as int, i as int),
        decreases to - i,
    {
        push_char(out, cs[i]);
        assert(cs@.subrange(from as int, i + 1) =~= cs@.subrange(from as int, i as int).push(
            cs@[i as int],
        ));
        i += 1;
    }
}

/// The string of `cs[from..to]`.
pub fn string_of_range(cs: &Vec<char>, from: usize, to: usize) -> (s: String)
    requires
        from <= to <= cs@.len(),
    ensures
        s@ == cs@.subrange(from as int, to as int),
{
    let mut s = String::new();
    push_range(&mut s, cs, from, to);
    assert(s@ =~= cs@.subrange(from as int, to as int));
    s
}

proof fn lemma_trim_start_step(s: Seq<char>, i: int)
    requires
        0 <= i < s.len(),
        is_whitespace(s[i]),
    ensures
        trim_start(s.subrange(i, s.len() as int)) == trim_start(s.subrange(i + 1, s.len() as int)),
{
    assert(s.subrange(i, s.len() as int).drop_first() =~= s.subrange(i + 1, s.len() as int));
}

proof fn lemma_trim_end_step(s: Seq<char>, a: int, j: int)
    requires
        0 <= a < j <= s.len(),
        is_whitespace(s[j - 1]),
    ensures
        trim_end(s.subrange(a, j)) == trim_end(s.subrange(a, j - 1)),
{
    assert(s.subrange(a, j).drop_last() =~= s.subrange(a, j - 1));
}

/// Bounds `(a, b)` with `cs[a..b]` the trimmed text of `cs[from..]`.
pub fn trim_bounds_from(cs: &Vec<char>, from: usize) -> (r: (usize, usize))
    requires
        from <= cs@.len(),
    ensures
        from <= r.0 <= r.1 <= cs@.len(),
        cs@.subrange(r.0 as int, r.1 as int) == trim(cs@.subrange(from as int, cs@.len() as int)),
        trim_start(cs@.subrange(from as int, cs@.len() as int)) == cs@.subrange(
            r.0 as int,
            cs@.len() as int,
        ),
{
    let n = cs.len();
    let mut i = from;
    while i < n && is_whitespace_char(cs[i])
        invariant
            from <= i <= n == cs@.len(),
            trim_start(cs@.subrange(from as int, n as int)) == trim_start(
                cs@.subrange(i as int, n as int),
            ),
        decreases n - i,
    {
        proof {
            lemma_trim_start_step(cs@, i as int);
        }
        i += 1;
    }
    assert(trim_start(cs@.subrange(i as int, n as int)) == cs@.subrange(i as int, n as int));
    let mut j = n;
    while j > i && is_whitespace_char(cs[j - 1])
        invariant
            from <= i <= j <= n == cs@.len(),
            trim_end(cs@.subrange(i as int, n as int)) == trim_end(
                cs@.subrange(i as int, j as int),
            ),
        decreases j,
    {
        proof {
            lemma_trim_end_step(cs@, i as int, j as int);
        }
        j -= 1;
    }
    proof {
        let t = cs@.subrange(i as int, j as int);
        if t.len() > 0 {
            assert(t.last() == cs@[j - 1]);
        }
        assert(trim_end(t) == t);
    }
    (i, j)
}

/// `str::trim`, as characters.
pub fn trimmed_chars(s: &str) -> (r: Vec<char>)
    ensures
        r@ == trim(s@),
{
    let cs = chars_of(s);
    let (a, b) = trim_bounds_from(&cs, 0);
    assert(cs@.subrange(0, cs@.len() as int) =~= cs@);
    let mut r: Vec<char> = Vec::new();
    let mut i = a;
    while i < b
        invariant
            a <= i <= b <= cs@.len(),
            r@ == cs@.subrange(a as int, i as int),
        decreases b - i,
    {
        r.push(cs[i]);
        assert(cs@.subrange(a as int, i + 1) =~= cs@.subrange(a as int, i as int).push(
            cs@[i as int],
        ));
        i += 1;
    }
    r
}

/// `cs` starts with `p`.
pub fn starts_with_chars(cs: &Vec<char>, p: &str) -> (b: bool)
    ensures
        b == starts_with(cs@, p@),
{
    let pc = chars_of(p);
    if pc.len() > cs.len() {
        return false;
    }
    let mut i: usize = 0;
    while i < pc.len()
        invariant
            pc@ == p@,
            pc@.len() <= cs@.len(),
            i <= pc@.len(),
            forall|k: int| 0 <= k < i ==> cs@[k] == pc@[k],
        decreases pc@.len() - i,
    {
        if cs[i] != pc[i] {
            assert(cs@.subrange(0, pc@.len() as int)[i as int] != pc@[i as int]);
            return false;
        }
        i += 1;
    }
    assert(cs@.subrange(0, pc@.len() as int) =~= pc@);
    true
}

/// `cs` ends with `p`.
pub fn ends_with_chars(cs: &Vec<char>, p: &str) -> (b: bool)
    ensures
        b == ends_with(cs@, p@),
{
    let pc = chars_of(p);
    if pc.len() > cs.len() {
        return false;
    }
    let off = cs.len() - pc.len();
    let mut i: usize = 0;
    while i < pc.len()
        invariant
            pc@ == p@,
            off + pc@.len() == cs@.len(),
            cs@.len() <= usize::MAX,
            i <= pc@.len(),
            forall|k: int| 0 <= k < i ==> cs@[off + k] == pc@[k],
        decreases pc@.len() - i,
    {
        if cs[off + i] != pc[i] {
            assert(cs@.subrange(off as int, cs@.len() as int)[i as int] != pc@[i as int]);
            return false;
        }
        i += 1;
    }
    assert(cs@.subrange(off as int, cs@.len() as int) =~= pc@);
    true
}

/// `char::to_ascii_lowercase`.
pub fn ascii_lower_char(c: char) -> (r: char)
    ensures
        r == ascii_lower(c),
{
    if 'A' <= c && c <= 'Z' {
        let code: u8 = ((c as u32) + 32) as u8;
        code as char
    } else {
        c
    }
}

/// `str::to_ascii_lowercase`, as characters.
pub fn lower_chars(s: &str) -> (r: Vec<char>)
    ensures
        r@ == lower(s@),
{
    let cs = chars_of(s);
    let mut r: Vec<char> = Vec::new();
    let mut i: usize = 0;
    while i < cs.len()
        invariant
            i <= cs@.len(),
            cs@ == s@,
            r@ == lower(cs@.subrange(0, i as int)),
        decreases cs@.len() - i,
    {
        r.push(ascii_lower_char(cs[i]));
        assert(lower(cs@.subrange(0, i + 1)) =~= lower(cs@.subrange(0, i as int)).push(
            ascii_lower(cs@[i as int]),
        ));
        i += 1;
    }
    assert(cs@.subrange(0, cs@.len() as int) =~= cs@);
    r
}

proof fn lemma_decimal_nonempty(n: nat)
    ensures
        decimal(n).len() >= 1,
    decreases n,
{
    if n >= 10 {
        lemma_decimal_nonempty(n / 10);
    }
}

/// Appends the decimal representation of `n` to `out`.
pub fn push_decimal(out: &mut String, n: u64)
    ensures
        final(out)@ == old(out)@ + decimal(n as nat),
    decreases n,
{
    if n >= 10 {
        push_decimal(out, n / 10);
    }
    let d = (n % 10) as u8;
    let c = (48u8 + d) as char;
    assert(c == digit_char((n % 10) as nat));
    push_char(out, c);
    proof {
        if n >= 10 {
            assert(out@ =~= old(out)@ + decimal(n as nat));
        } else {
            assert(out@ =~= old(out)@ + decimal(n as nat));
        }
    }
}

/// The decimal representation of `n`.
pub fn decimal_string(n: u64) -> (s: String)
    ensures
        s@ == decimal(n as nat),
{
    let mut s = String::new();
    push_decimal(&mut s, n);
    assert(s@ =~= decimal(n as nat));
    s
}

/// Appends `s` to `out`.
pub fn push_str(out: &mut String, s: &str)
    ensures
        final(out)@ == old(out)@ + s@,
{
    out.append(s);
}

/// The index of the first `'\n'` in `s` at or after `i`, or `s.len()`.
pub open spec fn line_end(s: Seq<char>, i: nat) -> nat
    decreases s.len() - i,
{
    if i >= s.len() {
        s.len()
    } else if s[i as int] == '\n' {
        i
    } else {
        line_end(s, i + 1)
    }
}

/// `l` without one trailing `'\r'`.
pub open spec fn strip_cr(l: Seq<char>) -> Seq<char> {
    if l.len() > 0 && l.last() == '\r' {
        l.drop_last()
    } else {
        l
    }
}

/// The line that starts at index `i`: a `"\r\n"` ending loses both
/// characters, a `"\n"` ending its one; an unterminated last line stays
/// as it is.
pub open spec fn line_at(s: Seq<char>, i: nat) -> Seq<char> {
    let e = line_end(s, i);
    if e < s.len() {
        strip_cr(s.subrange(i as int, e as int))
    } else {
        s.subrange(i as int, e as int)
    }
}

pub proof fn lemma_line_end_bounds(s: Seq<char>, i: nat)
    requires
        i <= s.len(),
    ensures
        i <= line_end(s, i) <= s.len(),
        line_end(s, i) < s.len() ==> s[line_end(s, i) as int] == '\n',
        forall|k: int| i <= k < line_end(s, i) ==> s[k] != '\n',
    decreases s.len() - i,
{
    if i < s.len() && s[i as int] != '\n' {
        lemma_line_end_bounds(s, i + 1);
    }
}

/// The lines of `s` from index `i` on (`str::lines`).
pub open spec fn lines_from(s: Seq<char>, i: nat) -> Seq<Seq<char>>
    decreases s.len() - i,
{
    if i >= s.len() {
        Seq::empty()
    } else {
        proof {
            lemma_line_end_bounds(s, i);
        }
        if line_end(s, i) < s.len() {
            seq![line_at(s, i)] + lines_from(s, line_end(s, i) + 1)
        } else {
            seq![line_at(s, i)]
        }
    }
}

/// The lines of `s`, as `str::lines` splits them.
pub open spec fn lines(s: Seq<char>) -> Seq<Seq<char>> {
    lines_from(s, 0)
}

/// The views of a sequence of strings.
pub open spec fn views(r: Seq<String>) -> Seq<Seq<char>> {
    r.map_values(|l: String| l@)
}

/// `str::lines`, collected.
pub fn split_lines(s: &str) -> (r: VecDeque<String>)
    ensures
        views(r@) == lines(s@),
{
    let cs = chars_of(s);
    let n = cs.len();
    let mut r: VecDeque<String> = VecDeque::new();
    let mut i: usize = 0;
    while i < n
        invariant
            n == cs@.len(),
            cs@ == s@,
            i <= n,
            lines(cs@) == views(r@) + lines_from(cs@, i as nat),
        decreases n - i,
    {
        let mut e = i;
        while e < n && cs[e] != '\n'
            invariant
                i <= e <= n == cs@.len(),
                line_end(cs@, i as nat) == line_end(cs@, e as nat),
            decreases n - e,
        {
            e += 1;
        }
        let mut stop = e;
        if e < n && stop > i && cs[stop - 1] == '\r' {
            stop -= 1;
        }
        let line = string_of_range(&cs, i, stop);
        proof {
            lemma_line_end_bounds(cs@, i as nat);
            assert(line@ == line_at(cs@, i as nat));
            if e < n {
                assert(lines_from(cs@, i as nat) == seq![line_at(cs@, i as nat)] + lines_from(
                    cs@,
                    (e + 1) as nat,
                ));
            } else {
                assert(lines_from(cs@, i as nat) == seq![line_at(cs@, i as nat)]);
            }
        }
        let ghost before = r@;
        r.push_back(line);
        proof {
            assert(views(r@) =~= views(before).push(line@));
        }
        if e < n {
            assert(lines(cs@) =~= views(r@) + lines_from(cs@, (e + 1) as nat));
            i = e + 1;
        } else {
            assert(lines(cs@) =~= views(r@) + lines_from(cs@, n as nat));
            i = n;
        }
    }
    assert(lines(cs@) =~= views(r@));
    r
}

/// A text trimmed at the start is empty or starts with a character that
/// is not whitespace.
pub(crate) proof fn lemma_trim_start_first(s: Seq<char>)
    ensures
        trim_start(s).len() > 0 ==> !is_whitespace(trim_start(s)[0]),
    decreases s.len(),
{
    if s.len() > 0 && is_whitespace(s[0]) {
        lemma_trim_start_first(s.drop_first());
    }
}

/// Trimming twice is trimming once.
pub(crate) proof fn lemma_trim_idempotent(s: Seq<char>)
    ensures
        trim(trim(s)) == trim(s),
{
    let y = trim_start(s);
    lemma_trim_start_first(s);
    lemma_trim_end_last(y);
    let z = trim_end(y);
    if z.len() > 0 {
        assert(z[0] == y[0]);
        assert(trim_start(z) == z);
        lemma_trim_end_last(z);
        assert(trim_end(z) == z);
    } else {
        assert(trim_start(z) =~= z);
        assert(trim_end(z) =~= z);
    }
}

proof fn lemma_trim_start_push(x: Seq<char>, c: char)
    ensures
        trim_start(x.push(c)) == (if trim_start(x).len() > 0 {
            trim_start(x).push(c)
        } else {
            trim_start(seq![c])
        }),
    decreases x.len(),
{
    if x.len() == 0 {
        assert(x.push(c) =~= seq![c]);
    } else if is_whitespace(x[0]) {
        assert(x.push(c)[0] == x[0]);
        assert(x.push(c).drop_first() =~= x.drop_first().push(c));
        lemma_trim_start_push(x.drop_first(), c);
    } else {
        assert(x.push(c)[0] == x[0]);
    }
}

/// A space added at the end of a text does not change it once trimmed.
pub(crate) proof fn lemma_trim_push_space(x: Seq<char>)
    ensures
        trim(x.push(' ')) == trim(x),
{
    lemma_trim_start_push(x, ' ');
    let y = trim_start(x);
    if y.len() > 0 {
        assert(y.push(' ').drop_last() =~= y);
    } else {
        assert(is_whitespace(' '));
        assert(seq![' '][0] == ' ');
        assert(seq![' '].drop_first() =~= Seq::<char>::empty());
        assert(trim_start(Seq::<char>::empty()) =~= Seq::<char>::empty());
        assert(trim_start(seq![' ']) =~= Seq::<char>::empty());
        assert(trim_end(y) =~= y);
    }
}

/// A space added at the start of a text does not change it once trimmed.
pub(crate) proof fn lemma_trim_space_first(x: Seq<char>)
    ensures
        trim(seq![' '] + x) == trim(x),
{
    assert(is_whitespace(' '));
    assert((seq![' '] + x)[0] == ' ');
    assert((seq![' '] + x).drop_first() =~= x);
}

/// `trim_end(s)` is a prefix of `s` that does not end in whitespace.
pub proof fn lemma_trim_end_last(s: Seq<char>)
    ensures
        trim_end(s).len() > 0 ==> !is_whitespace(trim_end(s).last()),
        trim_end(s).len() <= s.len(),
        trim_end(s) == s.subrange(0, trim_end(s).len() as int),
    decreases s.len(),
{
    if s.len() > 0 && is_whitespace(s.last()) {
        lemma_trim_end_last(s.drop_last());
        assert(s.drop_last().subrange(0, trim_end(s).len() as int) =~= s.subrange(
            0,
            trim_end(s).len() as int,
        ));
    } else {
        assert(s.subrange(0, s.len() as int) =~= s);
    }
}

/// `trim_start(s)` is a suffix of `s`; what it drops is whitespace.
pub proof fn lemma_trim_start_suffix(s: Seq<char>)
    ensures
        trim_start(s).len() <= s.len(),
        trim_start(s) == s.subrange(s.len() - trim_start(s).len(), s.len() as int),
        forall|k: int| 0 <= k < s.len() - trim_start(s).len() ==> is_whitespace(s[k]),
    decreases s.len(),
{
    if s.len() > 0 && is_whitespace(s[0]) {
        lemma_trim_start_suffix(s.drop_first());
        let m = trim_start(s).len();
        assert(s.drop_first().subrange(s.len() - 1 - m, s.len() - 1) =~= s.subrange(
            s.len() - m,
            s.len() as int,
        ));
        assert forall|k: int| 0 <= k < s.len() - m implies is_whitespace(s[k]) by {
            if k > 0 {
                assert(s[k] == s.drop_first()[k - 1]);
            }
        }
    } else {
        assert(s.subrange(0, s.len() as int) =~= s);
    }
}

/// `spaces(n)` is exactly `n` blanks.
pub proof fn lemma_spaces_are_blanks(n: nat)
    ensures
        spaces(n).len() == n,
        forall|k: int| 0 <= k < n ==> #[trigger] spaces(n)[k] == ' ',
{
}

/// The number that a text of decimal digits stands for.
pub open spec fn digits_value(s: Seq<char>) -> int
    decreases s.len(),
{
    if s.len() == 0 {
        0
    } else {
        digits_value(s.drop_last()) * 10 + (s.last() as int - '0' as int)
    }
}

/// `decimal(n)` is the usual decimal writing of `n`: digits only, standing
/// for `n`, with no leading zero.
pub proof fn lemma_decimal_writes_the_number(n: nat)
    ensures
        forall|k: int| 0 <= k < decimal(n).len() ==> '0' <= #[trigger] decimal(n)[k] <= '9',
        digits_value(decimal(n)) == n,
        decimal(n).len() > 1 ==> decimal(n)[0] != '0',
        decimal(n).len() >= 1,
    decreases n,
{
    let d = n % 10;
    assert(digit_char(d) as int == '0' as int + d);
    if n < 10 {
        let s = decimal(n);
        assert(s =~= seq![digit_char(n)]);
        assert(n % 10 == n);
        assert(s.last() == digit_char(n));
        assert(s.drop_last() =~= Seq::<char>::empty());
        assert(digits_value(Seq::<char>::empty()) == 0);
        assert(digits_value(s) == digits_value(s.drop_last()) * 10 + (s.last() as int - '0' as int));
        assert(digits_value(s) == n);
    } else {
        lemma_decimal_writes_the_number(n / 10);
        let p = decimal(n / 10);
        let s = decimal(n);
        assert(s.drop_last() =~= p);
        assert(s.last() == digit_char(d));
        assert(n == (n / 10) * 10 + d);
        assert(digits_value(s) == digits_value(p) * 10 + d);
        assert forall|k: int| 0 <= k < s.len() implies '0' <= #[trigger] s[k] <= '9' by {
            if k < p.len() {
                assert(s[k] == p[k]);
            }
        }
        if p.len() > 1 {
            assert(s[0] == p[0]);
        } else {
            assert(p.len() == 1);
            assert(digits_value(p) == p[0] as int - '0' as int) by {
                assert(p.drop_last() =~= Seq::<char>::empty());
                assert(digits_value(Seq::<char>::empty()) == 0);
                assert(p.last() == p[0]);
                assert(digits_value(p) == digits_value(p.drop_last()) * 10 + (p.last() as int - '0' as int));
            }
            assert(s[0] == p[0]);
        }
    }
}

} // verus!
