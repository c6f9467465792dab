//! Characters and words: classes of characters, whitespace and comments,
//! names, numbers and strings.

use vstd::prelude::*;
use vstd::string::StrSliceExecFns;

verus! {

/// The kinds of characters that the grammar tells apart.
#[derive(Clone, Copy, Debug)]
pub enum Class {
    /// A space, a tab, a carriage return or a line feed.
    Whitespace,
    /// A decimal digit.
    Digit,
    /// Any character that may stand in a comment: all but the line feed.
    Comment,
    /// Any character that may stand unescaped in a string: all but the
    /// double quote and the backslash.
    Plain,
    /// Any character that may stand in a name: all but whitespace, the
    /// brackets, the double quote, the semicolon, the dot and the backslash.
    Name,
}

pub open spec fn is_whitespace(c: char) -> bool {
    c == ' ' || c == '\t' || c == '\r' || c == '\n'
}

pub open spec fn is_delimiter(c: char) -> bool {
    c == '(' || c == ')' || c == '[' || c == ']' || c == '{' || c == '}' || c == '"' || c == ';'
        || c == '.' || c == '\\'
}

pub open spec fn is_digit(c: char) -> bool {
    c == '0' || c == '1' || c == '2' || c == '3' || c == '4' || c == '5' || c == '6' || c == '7'
        || c == '8' || c == '9'
}

/// Whether the character `c` is of the class `class`.
pub open spec fn in_class(c: char, class: Class) -> bool {
    match class {
        Class::Whitespace => is_whitespace(c),
        Class::Digit => is_digit(c),
        Class::Comment => c != '\n',
        Class::Plain => c != '"' && c != '\\',
        Class::Name => !is_whitespace(c) && !is_delimiter(c),
    }
}

/// Where the run of characters of `class` that starts at `pos` ends.
pub open spec fn span(s: Seq<char>, pos: int, class: Class) -> int
    decreases s.len() - pos,
{
    if 0 <= pos < s.len() && in_class(s[pos], class) {
        span(s, pos + 1, class)
    } else {
        pos
    }
}

/// Whether the character `c` stands at `pos`.
pub open spec fn at(s: Seq<char>, pos: int, c: char) -> bool {
    0 <= pos < s.len() && s[pos] == c
}

/// Whether the text `lit` stands at `pos`.
pub open spec fn has(s: Seq<char>, pos: int, lit: Seq<char>) -> bool {
    0 <= pos && pos + lit.len() <= s.len() && s.subrange(pos, pos + lit.len()) == lit
}

/// Where whitespace and comments that start at `pos` end. A comment runs
/// from a semicolon to the end of its line.
pub open spec fn skip(s: Seq<char>, pos: int) -> int
    decreases s.len() - pos,
{
    let p = span(s, pos, Class::Whitespace);
    if at(s, p, ';') {
        let q = span(s, p + 1, Class::Comment);
        if pos < q <= s.len() {
            skip(s, q)
        } else {
            q
        }
    } else {
        p
    }
}

/// Where the word `lit` that stands at `pos` ends, if it stands there and no
/// character of a name follows it.
pub open spec fn keyword(s: Seq<char>, pos: int, lit: Seq<char>) -> Option<int> {
    if has(s, pos, lit) && !(pos + lit.len() < s.len() && in_class(
        s[pos + lit.len()],
        Class::Name,
    )) {
        Some(pos + lit.len())
    } else {
        None
    }
}

/// Where the name that starts at `pos` ends: a name is one or more
/// characters of names.
pub open spec fn name(s: Seq<char>, pos: int) -> Option<int> {
    let q = span(s, pos, Class::Name);
    if q > pos {
        Some(q)
    } else {
        None
    }
}

/// Where the number that starts at `pos` ends: an optional minus sign, one
/// or more digits, and optionally a dot and one or more digits. No
/// character of a name may follow.
pub open spec fn number(s: Seq<char>, pos: int) -> Option<int> {
    let digits = if at(s, pos, '-') {
        pos + 1
    } else {
        pos
    };
    let whole = span(s, digits, Class::Digit);
    let end = if at(s, whole, '.') && span(s, whole + 1, Class::Digit) > whole + 1 {
        span(s, whole + 1, Class::Digit)
    } else {
        whole
    };
    if whole > digits && !(0 <= end < s.len() && in_class(s[end], Class::Name)) {
        Some(end)
    } else {
        None
    }
}

/// Whether a backslash and `c` make an escape.
pub open spec fn is_escape(c: char) -> bool {
    c == '"' || c == '\\' || c == 'n' || c == 'r' || c == 't'
}

/// Where the string ends whose characters from `pos` on are still to be
/// read: behind the double quote that closes it.
pub open spec fn string_end(s: Seq<char>, pos: int) -> Option<int>
    decreases s.len() - pos,
{
    let q = span(s, pos, Class::Plain);
    if at(s, q, '"') {
        Some(q + 1)
    } else if at(s, q, '\\') && q + 1 < s.len() && is_escape(s[q + 1]) && q >= pos {
        string_end(s, q + 2)
    } else {
        None
    }
}

/// Where the string that starts at `pos` ends: a double quote, then plain
/// characters and escapes, then a double quote.
pub open spec fn string(s: Seq<char>, pos: int) -> Option<int> {
    if at(s, pos, '"') {
        string_end(s, pos + 1)
    } else {
        None
    }
}

/// The text `t` with each backslash that `second` follows replaced,
/// together with it, by `to`, from left to right.
pub open spec fn replace(t: Seq<char>, second: char, to: char) -> Seq<char>
    decreases t.len(),
{
    if t.len() == 0 {
        t
    } else if t.len() >= 2 && t[0] == '\\' && t[1] == second {
        seq![to] + replace(t.skip(2), second, to)
    } else {
        seq![t[0]] + replace(t.skip(1), second, to)
    }
}

/// What a string holds, given what stands between its quotes: the escapes
/// are replaced one kind after the other, the double quote first, then the
/// backslash, the line feed, the carriage return and the tab.
pub open spec fn unescape(t: Seq<char>) -> Seq<char> {
    replace(
        replace(replace(replace(replace(t, '"', '"'), '\\', '\\'), 'n', '\n'), 'r', '\r'),
        't',
        '\t',
    )
}

/// A run ends at or behind its start and within the text.
pub proof fn lemma_span(s: Seq<char>, pos: int, class: Class)
    requires
        0 <= pos <= s.len(),
    ensures
        pos <= span(s, pos, class) <= s.len(),
        forall|i: int| pos <= i < span(s, pos, class) ==> in_class(#[trigger] s[i], class),
        span(s, pos, class) < s.len() ==> !in_class(s[span(s, pos, class)], class),
    decreases s.len() - pos,
{
    if pos < s.len() && in_class(s[pos], class) {
        lemma_span(s, pos + 1, class);
    }
}

/// Whitespace and comments end at or behind their start and within the
/// text.
pub proof fn law_skip(s: Seq<char>, pos: int)
    requires
        0 <= pos <= s.len(),
    ensures
        pos <= skip(s, pos) <= s.len(),
    decreases s.len() - pos,
{
    lemma_span(s, pos, Class::Whitespace);
    let p = span(s, pos, Class::Whitespace);
    if at(s, p, ';') {
        lemma_span(s, p + 1, Class::Comment);
        law_skip(s, span(s, p + 1, Class::Comment));
    }
}

/// A string ends behind its start and within the text.
pub proof fn law_string_end(s: Seq<char>, pos: int)
    requires
        0 <= pos <= s.len(),
    ensures
        string_end(s, pos) matches Some(e) ==> pos < e <= s.len(),
    decreases s.len() - pos,
{
    lemma_span(s, pos, Class::Plain);
    let q = span(s, pos, Class::Plain);
    if at(s, q, '\\') && q + 1 < s.len() && is_escape(s[q + 1]) {
        law_string_end(s, q + 2);
    }
}

impl Class {
    /// Whether the character `c` is of this class.
    pub fn holds(&self, c: char) -> (r: bool)
        ensures
            r == in_class(c, *self),
    {
        let whitespace = c == ' ' || c == '\t' || c == '\r' || c == '\n';
        match self {
            Class::Whitespace => whitespace,
            Class::Digit => c == '0' || c == '1' || c == '2' || c == '3' || c == '4' || c == '5'
                || c == '6' || c == '7' || c == '8' || c == '9',
            Class::Comment => c != '\n',
            Class::Plain => c != '"' && c != '\\',
            Class::Name => !whitespace && !(c == '(' || c == ')' || c == '[' || c == ']' || c
                == '{' || c == '}' || c == '"' || c == ';' || c == '.' || c == '\\'),
        }
    }
}

/// Where the run of characters of `class` that starts at `pos` ends.
pub fn scan(s: &[char], pos: usize, class: Class) -> (r: usize)
    requires
        pos <= s@.len(),
    ensures
        r == span(s@, pos as int, class),
        pos <= r <= s@.len(),
{
    let mut i: usize = pos;
    while i < s.len() && class.holds(s[i])
        invariant
            pos <= i <= s@.len(),
            span(s@, pos as int, class) == span(s@, i as int, class),
        decreases s@.len() - i,
    {
        i = i + 1;
    }
    i
}

/// Whether the character `c` stands at `pos`.
pub fn is_at(s: &[char], pos: usize, c: char) -> (r: bool)
    ensures
        r == at(s@, pos as int, c),
{
    pos < s.len() && s[pos] == c
}

/// Whether the text `lit` stands at `pos`.
pub fn starts_with(s: &[char], pos: usize, lit: &str) -> (r: bool)
    requires
        pos <= s@.len(),
    ensures
        r == has(s@, pos as int, lit@),
{
    let _len: usize = s.len();
    let n: usize = lit.unicode_len();
    if n > s.len() - pos {
        return false;
    }
    let mut i: usize = 0;
    while i < n
        invariant
            i <= n,
            n == lit@.len(),
            pos + n <= s@.len(),
            s@.len() <= usize::MAX,
            s@.subrange(pos as int, pos + i) == lit@.subrange(0, i as int),
        decreases n - i,
    {
        if s[pos + i] != lit.get_char(i) {
            proof {
                assert(s@.subrange(pos as int, pos + n)[i as int] == s@[pos + i]);
            }
            return false;
        }
        proof {
            assert(s@.subrange(pos as int, pos + i + 1) =~= s@.subrange(pos as int, pos + i).push(
                s@[pos + i],
            ));
            assert(lit@.subrange(0, i + 1) =~= lit@.subrange(0, i as int).push(lit@[i as int]));
        }
        i = i + 1;
    }
    proof {
        assert(lit@.subrange(0, n as int) =~= lit@);
    }
    true
}

/// Where whitespace and comments that start at `pos` end.
pub fn skip_blank(s: &[char], pos: usize) -> (r: usize)
    requires
        pos <= s@.len(),
    ensures
        r == skip(s@, pos as int),
        pos <= r <= s@.len(),
{
    let _len: usize = s.len();
    let mut p: usize = pos;
    loop
        invariant
            pos <= p <= s@.len(),
            s@.len() <= usize::MAX,
            skip(s@, pos as int) == skip(s@, p as int),
        decreases s@.len() - p,
    {
        let w = scan(s, p, Class::Whitespace);
        if is_at(s, w, ';') {
            let q = scan(s, w + 1, Class::Comment);
            p = q;
        } else {
            return w;
        }
    }
}

/// Where the word `lit` that stands at `pos` ends, if it stands there and no
/// character of a name follows it.
pub fn match_keyword(s: &[char], pos: usize, lit: &str) -> (r: Option<usize>)
    requires
        pos <= s@.len(),
    ensures
        r matches Some(e) ==> keyword(s@, pos as int, lit@) == Some(e as int) && pos <= e
            <= s@.len(),
        r is None ==> keyword(s@, pos as int, lit@) is None,
{
    let _len: usize = s.len();
    if !starts_with(s, pos, lit) {
        return None;
    }
    let e: usize = pos + lit.unicode_len();
    if e < s.len() && Class::Name.holds(s[e]) {
        None
    } else {
        Some(e)
    }
}

/// Where the name that starts at `pos` ends.
pub fn match_name(s: &[char], pos: usize) -> (r: Option<usize>)
    requires
        pos <= s@.len(),
    ensures
        r matches Some(e) ==> name(s@, pos as int) == Some(e as int) && pos < e <= s@.len(),
        r is None ==> name(s@, pos as int) is None,
{
    let q = scan(s, pos, Class::Name);
    if q > pos {
        Some(q)
    } else {
        None
    }
}

/// Where the number that starts at `pos` ends.
pub fn match_number(s: &[char], pos: usize) -> (r: Option<usize>)
    requires
        pos <= s@.len(),
    ensures
        r matches Some(e) ==> number(s@, pos as int) == Some(e as int) && pos < e <= s@.len(),
        r is None ==> number(s@, pos as int) is None,
{
    let _len: usize = s.len();
    let digits: usize = if is_at(s, pos, '-') {
        pos + 1
    } else {
        pos
    };
    let whole = scan(s, digits, Class::Digit);
    let mut end: usize = whole;
    if is_at(s, whole, '.') {
        let f = scan(s, whole + 1, Class::Digit);
        if f > whole + 1 {
            end = f;
        }
    }
    if whole > digits && !(end < s.len() && Class::Name.holds(s[end])) {
        Some(end)
    } else {
        None
    }
}

/// Where the string that starts at `pos` ends.
pub fn match_string(s: &[char], pos: usize) -> (r: Option<usize>)
    requires
        pos <= s@.len(),
    ensures
        r matches Some(e) ==> string(s@, pos as int) == Some(e as int) && pos + 2 <= e
            <= s@.len(),
        r is None ==> string(s@, pos as int) is None,
{
    let _len: usize = s.len();
    if !is_at(s, pos, '"') {
        return None;
    }
    let mut p: usize = pos + 1;
    loop
        invariant
            pos < p <= s@.len(),
            s@.len() <= usize::MAX,
            at(s@, pos as int, '"'),
            string_end(s@, pos + 1) == string_end(s@, p as int),
        decreases s@.len() - p,
    {
        let q = scan(s, p, Class::Plain);
        if is_at(s, q, '"') {
            return Some(q + 1);
        }
        if is_at(s, q, '\\') && q + 1 < s.len() && (s[q + 1] == '"' || s[q + 1] == '\\' || s[q
            + 1] == 'n' || s[q + 1] == 'r' || s[q + 1] == 't') {
            p = q + 2;
        } else {
            return None;
        }
    }
}

/// The text `t` with each backslash that `second` follows replaced,
/// together with it, by `to`.
pub fn replace_escape(t: &Vec<char>, second: char, to: char) -> (r: Vec<char>)
    ensures
        r@ == replace(t@, second, to),
{
    let mut out: Vec<char> = Vec::new();
    let mut i: usize = 0;
    proof {
        assert(t@.skip(0) =~= t@);
        assert(out@ + replace(t@, second, to) =~= replace(t@, second, to));
    }
    while i < t.len()
        invariant
            i <= t@.len(),
            replace(t@, second, to) == out@ + replace(t@.skip(i as int), second, to),
        decreases t@.len() - i,
    {
        let ghost rest = t@.skip(i as int);
        proof {
            assert(rest[0] == t@[i as int]);
            if i + 1 < t@.len() {
                assert(rest[1] == t@[i + 1]);
            }
        }
        if i + 1 < t.len() && t[i] == '\\' && t[i + 1] == second {
            proof {
                assert(rest.skip(2) =~= t@.skip(i + 2));
                assert(out@ + (seq![to] + replace(rest.skip(2), second, to)) =~= out@.push(to)
                    + replace(rest.skip(2), second, to));
            }
            out.push(to);
            i = i + 2;
        } else {
            proof {
                assert(rest.skip(1) =~= t@.skip(i + 1));
                assert(out@ + (seq![rest[0]] + replace(rest.skip(1), second, to)) =~= out@.push(
                    rest[0],
                ) + replace(rest.skip(1), second, to));
            }
            out.push(t[i]);
            i = i + 1;
        }
    }
    proof {
        assert(t@.skip(t@.len() as int) =~= Seq::<char>::empty());
        assert(out@ + Seq::<char>::empty() =~= out@);
    }
    out
}

/// What a string holds, given the characters of `s` between its quotes.
pub fn unescaped(s: &[char], from: usize, to: usize) -> (r: String)
    requires
        from <= to <= s@.len(),
    ensures
        r@ == unescape(s@.subrange(from as int, to as int)),
{
    let mut t: Vec<char> = Vec::new();
    let mut i: usize = from;
    while i < to
        invariant
            from <= i <= to <= s@.len(),
            t@ == s@.subrange(from as int, i as int),
        decreases to - i,
    {
        t.push(s[i]);
        proof {
            assert(s@.subrange(from as int, i as int).push(s@[i as int]) =~= s@.subrange(
                from as int,
                i + 1,
            ));
        }
        i = i + 1;
    }
    let t = replace_escape(&t, '"', '"');
    let t = replace_escape(&t, '\\', '\\');
    let t = replace_escape(&t, 'n', '\n');
    let t = replace_escape(&t, 'r', '\r');
    let t = replace_escape(&t, 't', '\t');
    let r = crate::parse::text::string_of(t.as_slice(), 0, t.len());
    proof {
        assert(t@.subrange(0, t@.len() as int) =~= t@);
    }
    r
}

} // verus!
