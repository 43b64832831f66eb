use vstd::prelude::*;
use vstd::string::StringExecFns;

verus! {

/// `String::push`: appends one character at the end.
#[verifier::external_body]
pub(crate) fn push_char(s: &mut String, c: char)
    ensures
        final(s)@ == old(s)@.push(c),
{
    s.push(c);
}

/// The characters of a string, in order.
pub fn chars_of(s: &str) -> (r: Vec<char>)
    ensures
        r@ == s@,
{
    let mut r: Vec<char> = Vec::new();
    for c in it: s.chars()
        invariant
            r@ == it.seq().take(it.index()),
            it.seq() == s@,
    {
        r.push(c);
    }
    r
}

/// The string made of the given characters, in order.
pub fn string_of(v: &[char]) -> (r: String)
    ensures
        r@ == v@,
{
    let mut r = String::new();
    let mut i: usize = 0;
    while i < v.len()
        invariant
            i <= v.len(),
            r@ == v@.take(i as int),
        decreases v.len() - i,
    {
        push_char(&mut r, v[i]);
        assert(v@.take(i as int).push(v@[i as int]) == v@.take(i + 1));
        i += 1;
    }
    assert(v@.take(v.len() as int) == v@);
    r
}


/// A run of `n` spaces.
pub open spec fn spaces(n: nat) -> Seq<char> {
    Seq::new(n, |i: int| ' ')
}

/// Number of spaces at the start of `s`.
pub open spec fn indent_len(s: Seq<char>) -> nat
    decreases s.len(),
{
    if s.len() > 0 && s[0] == ' ' {
        1 + indent_len(s.drop_first())
    } else {
        0
    }
}

/// The spaces at the start of `s`.
pub open spec fn leading_spaces(s: Seq<char>) -> Seq<char> {
    s.take(indent_len(s) as int)
}

/// `indent_len` is the length of the longest all-space prefix.
pub proof fn lemma_indent_len(s: Seq<char>, n: int)
    requires
        0 <= n <= s.len(),
        forall|j: int| 0 <= j < n ==> s[j] == ' ',
        n == s.len() || s[n] != ' ',
    ensures
        indent_len(s) == n,
    decreases s.len(),
{
    if n > 0 {
        lemma_indent_len(s.drop_first(), n - 1);
    }
}

/// The prefix of spaces is all spaces, and no longer than the string.
pub proof fn lemma_indent_len_bounds(s: Seq<char>)
    ensures
        indent_len(s) <= s.len(),
        forall|j: int| 0 <= j < indent_len(s) ==> s[j] == ' ',
        indent_len(s) < s.len() ==> s[indent_len(s) as int] != ' ',
    decreases s.len(),
{
    if s.len() > 0 && s[0] == ' ' {
        lemma_indent_len_bounds(s.drop_first());
        assert forall|j: int| 0 <= j < indent_len(s) implies s[j] == ' ' by {
            if j > 0 {
                assert(s[j] == s.drop_first()[j - 1]);
            }
        }
    }
}

/// Number of leading spaces of a line, as a count.
pub fn leading_space_count(line: &[char]) -> (n: usize)
    ensures
        n == indent_len(line@),
{
    let mut i: usize = 0;
    while i < line.len() && line[i] == ' '
        invariant
            i <= line.len(),
            forall|j: int| 0 <= j < i ==> line@[j] == ' ',
        decreases line.len() - i,
    {
        i += 1;
    }
    proof {
        lemma_indent_len(line@, i as int);
    }
    i
}

/// A line with each tab replaced by the spaces up to the next multiple of
/// `tab` columns, the column being counted in the expanded output.
pub open spec fn expanded(s: Seq<char>, tab: nat) -> Seq<char>
    decreases s.len(),
{
    if s.len() == 0 {
        Seq::empty()
    } else {
        let p = expanded(s.drop_last(), tab);
        if s.last() == '\t' {
            p + spaces((tab - p.len() % tab) as nat)
        } else {
            p.push(s.last())
        }
    }
}

pub proof fn lemma_expanded_prefix_len(s: Seq<char>, tab: nat, i: int)
    requires
        0 <= i <= s.len(),
    ensures
        expanded(s.take(i), tab).len() <= expanded(s, tab).len(),
    decreases s.len(),
{
    if i < s.len() {
        assert(s.drop_last().take(i) == s.take(i));
        lemma_expanded_prefix_len(s.drop_last(), tab, i);
    } else {
        assert(s.take(i) == s);
    }
}

/// Expanding a line that holds no tab gives the line back.
pub proof fn lemma_expanded_without_tabs(s: Seq<char>, tab: nat)
    requires
        !s.contains('\t'),
    ensures
        expanded(s, tab) == s,
    decreases s.len(),
{
    if s.len() > 0 {
        assert(!s.drop_last().contains('\t')) by {
            if s.drop_last().contains('\t') {
                let k = choose|k: int| 0 <= k < s.drop_last().len() && s.drop_last()[k] == '\t';
                assert(s[k] == '\t');
            }
        }
        lemma_expanded_without_tabs(s.drop_last(), tab);
        assert(s[s.len() - 1] != '\t');
        assert(s.drop_last().push(s.last()) == s);
    }
}

/// With a positive tab size, the expanded line holds no tab.
pub proof fn lemma_expanded_has_no_tabs(s: Seq<char>, tab: nat)
    requires
        tab > 0,
    ensures
        !expanded(s, tab).contains('\t'),
    decreases s.len(),
{
    if s.len() > 0 {
        lemma_expanded_has_no_tabs(s.drop_last(), tab);
        let p = expanded(s.drop_last(), tab);
        let e = expanded(s, tab);
        assert forall|k: int| 0 <= k < e.len() implies e[k] != '\t' by {
            if k < p.len() {
                assert(e[k] == p[k]);
            }
        }
    }
}

/// Appends `n` spaces.
pub fn push_spaces(out: &mut String, n: usize)
    ensures
        final(out)@ == old(out)@ + spaces(n as nat),
{
    let ghost start = out@;
    let mut j: usize = 0;
    while j < n
        invariant
            j <= n,
            out@ == start + spaces(j as nat),
        decreases n - j,
    {
        push_char(out, ' ');
        assert(start + spaces(j as nat).push(' ') == start + spaces((j + 1) as nat));
        j += 1;
    }
}

/// Replaces each tab by spaces up to the next tab stop, for display.
pub fn expand_tabs(line: &str, tab_size: usize) -> (r: String)
    requires
        tab_size > 0 || !line@.contains('\t'),
        expanded(line@, tab_size as nat).len() <= usize::MAX,
    ensures
        r@ == expanded(line@, tab_size as nat),
{
    let chars = chars_of(line);
    let mut out = String::new();
    let mut col: usize = 0;
    let mut i: usize = 0;
    assert(chars@.take(0) == Seq::<char>::empty());
    while i < chars.len()
        invariant
            i <= chars.len(),
            chars@ == line@,
            tab_size > 0 || !line@.contains('\t'),
            expanded(line@, tab_size as nat).len() <= usize::MAX,
            out@ == expanded(chars@.take(i as int), tab_size as nat),
            col == out@.len(),
        decreases chars.len() - i,
    {
        let c = chars[i];
        let ghost before = chars@.take(i as int);
        assert(chars@.take(i + 1).drop_last() == before);
        assert(chars@.take(i + 1).last() == c);
        proof {
            lemma_expanded_prefix_len(line@, tab_size as nat, i + 1);
        }
        if c == '\t' {
            assert(line@[i as int] == '\t');
            let k = tab_size - (col % tab_size);
            push_spaces(&mut out, k);
            col = col + k;
        } else {
            push_char(&mut out, c);
            col = col + 1;
        }
        i += 1;
    }
    assert(chars@.take(chars.len() as int) == chars@);
    out
}

/// Whether the line, its tabs expanded, is at most `limit` characters long.
pub fn expanded_fits(line: &str, tab_size: usize, limit: usize) -> (r: bool)
    requires
        tab_size > 0 || !line@.contains('\t'),
    ensures
        r == (expanded(line@, tab_size as nat).len() <= limit),
{
    let chars = chars_of(line);
    let mut col: usize = 0;
    let mut i: usize = 0;
    assert(chars@.take(0) == Seq::<char>::empty());
    while i < chars.len()
        invariant
            i <= chars.len(),
            chars@ == line@,
            tab_size > 0 || !line@.contains('\t'),
            col == expanded(chars@.take(i as int), tab_size as nat).len(),
            col <= limit,
        decreases chars.len() - i,
    {
        let c = chars[i];
        let ghost before = chars@.take(i as int);
        assert(chars@.take(i + 1).drop_last() == before);
        assert(chars@.take(i + 1).last() == c);
        proof {
            lemma_expanded_prefix_len(line@, tab_size as nat, i + 1);
        }
        let step: usize = if c == '\t' {
            assert(line@[i as int] == '\t');
            tab_size - (col % tab_size)
        } else {
            1
        };
        if step > limit - col {
            return false;
        }
        col = col + step;
        i += 1;
    }
    assert(chars@.take(chars.len() as int) == chars@);
    true
}

/// The first `max_chars` characters of `s` (all of it when shorter).
pub fn truncate(s: &str, max_chars: usize) -> (r: String)
    ensures
        r@ == s@.take(if max_chars < s@.len() { max_chars as int } else { s@.len() as int }),
{
    let chars = chars_of(s);
    let n = if max_chars < chars.len() { max_chars } else { chars.len() };
    let mut r = String::new();
    let mut i: usize = 0;
    while i < n
        invariant
            i <= n,
            n <= chars.len(),
            chars@ == s@,
            r@ == s@.take(i as int),
        decreases n - i,
    {
        push_char(&mut r, chars[i]);
        assert(s@.take(i as int).push(s@[i as int]) == s@.take(i + 1));
        i += 1;
    }
    r
}

/// `s` followed by spaces up to `width` characters; unchanged when already
/// that long or longer (the `{:<width$}` layout).
pub open spec fn padded(s: Seq<char>, width: nat) -> Seq<char> {
    if s.len() < width {
        s + spaces((width - s.len()) as nat)
    } else {
        s
    }
}

/// Padding keeps the text in front and fills with spaces up to the width,
/// never cutting the text.
pub proof fn lemma_padded_fills(s: Seq<char>, width: nat)
    ensures
        padded(s, width).len() == (if s.len() < width { width } else { s.len() }),
        padded(s, width).take(s.len() as int) == s,
        forall|k: int| s.len() <= k < padded(s, width).len() ==> #[trigger] padded(s, width)[k] == ' ',
{
    assert(padded(s, width).take(s.len() as int) =~= s);
}

/// Left-aligns `s` in a field of `width` characters.
pub fn pad_right(s: &str, width: usize) -> (r: String)
    requires
        width <= usize::MAX,
    ensures
        r@ == padded(s@, width as nat),
{
    let chars = chars_of(s);
    let mut r = string_of(chars.as_slice());
    if chars.len() < width {
        push_spaces(&mut r, width - chars.len());
    }
    r
}


/// The character of a decimal digit.
pub open spec fn digit_char(d: nat) -> char {
    ((48 + d) as u8) as char
}

/// The decimal notation of `n`, without leading zeros.
pub open spec fn decimal(n: nat) -> Seq<char>
    decreases n,
{
    if n < 10 {
        seq![digit_char(n)]
    } else {
        decimal(n / 10).push(digit_char(n % 10))
    }
}

/// The number that a string of decimal digits spells.
pub open spec fn digits_value(ds: Seq<char>) -> int
    decreases ds.len(),
{
    if ds.len() == 0 {
        0
    } else {
        10 * digits_value(ds.drop_last()) + (ds.last() as int - 48)
    }
}

proof fn lemma_digit_char(d: nat)
    requires
        d < 10,
    ensures
        digit_char(d) as int == 48 + d,
{
}

/// The decimal notation of `n` is made of digits, spells `n`, and starts
/// with a zero only when it is `0`.
pub proof fn lemma_decimal_spells(n: nat)
    ensures
        decimal(n).len() >= 1,
        forall|i: int| 0 <= i < decimal(n).len() ==> '0' <= #[trigger] decimal(n)[i] <= '9',
        digits_value(decimal(n)) == n,
        decimal(n)[0] == '0' ==> n == 0,
    decreases n,
{
    lemma_digit_char(n % 10);
    if n < 10 {
        assert(decimal(n).drop_last() =~= Seq::<char>::empty());
        assert(decimal(n).last() == digit_char(n));
        assert(digits_value(decimal(n)) == 10 * digits_value(Seq::<char>::empty()) + (digit_char(n) as int - 48));
    } else {
        lemma_decimal_spells(n / 10);
        let d = decimal(n);
        let p = decimal(n / 10);
        assert(d.drop_last() == p);
        assert forall|i: int| 0 <= i < d.len() implies '0' <= #[trigger] d[i] <= '9' by {
            if i < p.len() {
                assert(d[i] == p[i]);
            }
        }
        assert(d[0] == p[0]);
        assert(d.last() == digit_char(n % 10));
        assert(digits_value(d) == 10 * digits_value(p) + (digit_char(n % 10) as int - 48));
        assert(n == 10 * (n / 10) + n % 10);
    }
}

/// Appends the decimal notation of `n`.
pub fn push_decimal(s: &mut String, n: usize)
    ensures
        final(s)@ == old(s)@ + decimal(n as nat),
    decreases n,
{
    if n >= 10 {
        push_decimal(s, n / 10);
    }
    let d: u8 = (n % 10) as u8;
    push_char(s, (48u8 + d) as char);
    proof {
        if n >= 10 {
            assert(decimal(n as nat) == decimal((n / 10) as nat).push(digit_char((n % 10) as nat)));
        }
    }
}

/// `s` right-aligned in a field of `width` characters (the `{:>width$}` layout).
pub open spec fn right_aligned(s: Seq<char>, width: nat) -> Seq<char> {
    if s.len() < width {
        spaces((width - s.len()) as nat) + s
    } else {
        s
    }
}

/// The characters with the Unicode `White_Space` property.
pub open spec fn white_space(c: char) -> bool {
    ||| '\u{9}' <= c <= '\u{d}'
    ||| c == ' '
    ||| c == '\u{85}'
    ||| c == '\u{a0}'
    ||| c == '\u{1680}'
    ||| '\u{2000}' <= c <= '\u{200a}'
    ||| c == '\u{2028}'
    ||| c == '\u{2029}'
    ||| c == '\u{202f}'
    ||| c == '\u{205f}'
    ||| c == '\u{3000}'
}

/// Whether `c` is a white-space character.
pub fn is_white_space(c: char) -> (r: bool)
    ensures
        r == white_space(c),
{
    ('\u{9}' <= c && c <= '\u{d}') || c == ' ' || c == '\u{85}' || c == '\u{a0}' || c == '\u{1680}'
        || ('\u{2000}' <= c && c <= '\u{200a}') || c == '\u{2028}' || c == '\u{2029}'
        || c == '\u{202f}' || c == '\u{205f}' || c == '\u{3000}'
}

/// Number of white-space characters at the start of `s`.
pub open spec fn leading_white_len(s: Seq<char>) -> nat
    decreases s.len(),
{
    if s.len() > 0 && white_space(s[0]) {
        1 + leading_white_len(s.drop_first())
    } else {
        0
    }
}

/// Number of white-space characters at the end of `s`.
pub open spec fn trailing_white_len(s: Seq<char>) -> nat
    decreases s.len(),
{
    if s.len() > 0 && white_space(s.last()) {
        1 + trailing_white_len(s.drop_last())
    } else {
        0
    }
}

/// `s` without its leading and trailing white space.
pub open spec fn trimmed(s: Seq<char>) -> Seq<char> {
    let a = s.skip(leading_white_len(s) as int);
    a.take(a.len() - trailing_white_len(a))
}

proof fn lemma_leading_white_len(s: Seq<char>, n: int)
    requires
        0 <= n <= s.len(),
        forall|j: int| 0 <= j < n ==> white_space(s[j]),
        n == s.len() || !white_space(s[n]),
    ensures
        leading_white_len(s) == n,
    decreases s.len(),
{
    if n > 0 {
        lemma_leading_white_len(s.drop_first(), n - 1);
    }
}

proof fn lemma_trailing_white_len(s: Seq<char>, n: int)
    requires
        0 <= n <= s.len(),
        forall|j: int| n <= j < s.len() ==> white_space(s[j]),
        n == 0 || !white_space(s[n - 1]),
    ensures
        trailing_white_len(s) == s.len() - n,
    decreases s.len(),
{
    if n < s.len() {
        lemma_trailing_white_len(s.drop_last(), n);
    }
}

/// Trimming keeps a stretch of the text in the middle, takes off only white
/// space around it, and leaves no white space at either end.
pub proof fn lemma_trimmed_stretch(s: Seq<char>)
    ensures
        ({
            let a = leading_white_len(s) as int;
            let t = trimmed(s);
            &&& 0 <= a && a + t.len() <= s.len()
            &&& t == s.subrange(a, a + t.len())
            &&& forall|k: int| 0 <= k < a ==> white_space(#[trigger] s[k])
            &&& forall|k: int| a + t.len() <= k < s.len() ==> white_space(#[trigger] s[k])
            &&& t.len() > 0 ==> !white_space(t[0]) && !white_space(t.last())
        }),
{
    lemma_leading_white_bounds(s);
    let a = leading_white_len(s) as int;
    let rest = s.skip(a);
    lemma_trailing_white_bounds(rest);
    let t = trimmed(s);
    assert(t =~= s.subrange(a, a + t.len()));
    assert forall|k: int| a + t.len() <= k < s.len() implies white_space(#[trigger] s[k]) by {
        assert(s[k] == rest[k - a]);
    }
    if t.len() > 0 {
        assert(t[0] == s[a]);
        assert(t.last() == rest[t.len() - 1]);
    }
}

proof fn lemma_leading_white_bounds(s: Seq<char>)
    ensures
        leading_white_len(s) <= s.len(),
        forall|j: int| 0 <= j < leading_white_len(s) ==> white_space(#[trigger] s[j]),
        leading_white_len(s) < s.len() ==> !white_space(s[leading_white_len(s) as int]),
    decreases s.len(),
{
    if s.len() > 0 && white_space(s[0]) {
        lemma_leading_white_bounds(s.drop_first());
        assert forall|j: int| 0 <= j < leading_white_len(s) implies white_space(#[trigger] s[j]) by {
            if j > 0 {
                assert(s[j] == s.drop_first()[j - 1]);
            }
        }
    }
}

proof fn lemma_trailing_white_bounds(s: Seq<char>)
    ensures
        trailing_white_len(s) <= s.len(),
        forall|j: int| s.len() - trailing_white_len(s) <= j < s.len() ==> white_space(#[trigger] s[j]),
        trailing_white_len(s) < s.len() ==> !white_space(s[s.len() - trailing_white_len(s) - 1]),
    decreases s.len(),
{
    if s.len() > 0 && white_space(s.last()) {
        lemma_trailing_white_bounds(s.drop_last());
        assert forall|j: int| s.len() - trailing_white_len(s) <= j < s.len() implies white_space(
            #[trigger] s[j],
        ) by {
            if j < s.len() - 1 {
                assert(s[j] == s.drop_last()[j]);
            }
        }
    }
}

/// `s` without leading and trailing white space (`str::trim`).
pub fn trim(s: &str) -> (r: String)
    ensures
        r@ == trimmed(s@),
{
    let chars = chars_of(s);
    let mut i: usize = 0;
    while i < chars.len() && is_white_space(chars[i])
        invariant
            i <= chars.len(),
            chars@ == s@,
            forall|j: int| 0 <= j < i ==> white_space(s@[j]),
        decreases chars.len() - i,
    {
        i += 1;
    }
    proof {
        lemma_leading_white_len(s@, i as int);
    }
    let mut j: usize = chars.len();
    while j > i && is_white_space(chars[j - 1])
        invariant
            i <= j <= chars.len(),
            chars@ == s@,
            forall|k: int| j <= k < s@.len() ==> white_space(s@[k]),
        decreases j,
    {
        j -= 1;
    }
    let ghost a = s@.skip(i as int);
    proof {
        assert forall|k: int| j - i <= k < a.len() implies white_space(a[k]) by {
            assert(a[k] == s@[k + i]);
        }
        if j > i {
            assert(a[j - i - 1] == s@[j - 1]);
        }
        lemma_trailing_white_len(a, j - i);
    }
    let mut r = String::new();
    let mut k: usize = i;
    while k < j
        invariant
            i <= k <= j,
            j <= chars.len(),
            chars@ == s@,
            r@ == s@.subrange(i as int, k as int),
        decreases j - k,
    {
        push_char(&mut r, chars[k]);
        assert(s@.subrange(i as int, k as int).push(s@[k as int]) == s@.subrange(i as int, k + 1));
        k += 1;
    }
    assert(r@ == a.take(a.len() - trailing_white_len(a)));
    r
}


/// The characters of each string of a list.
pub open spec fn views(v: Seq<String>) -> Seq<Seq<char>> {
    v.map_values(|l: String| l@)
}

/// The lines joined with a newline between each two.
pub open spec fn joined(ls: Seq<Seq<char>>) -> Seq<char>
    decreases ls.len(),
{
    if ls.len() == 0 {
        Seq::empty()
    } else if ls.len() == 1 {
        ls[0]
    } else {
        joined(ls.drop_last()) + seq!['\n'] + ls.last()
    }
}

/// The pieces of `s` between newlines (one more piece than newlines).
pub open spec fn split_at_newlines(s: Seq<char>) -> Seq<Seq<char>>
    decreases s.len(),
{
    if s.len() == 0 {
        seq![Seq::empty()]
    } else {
        let p = split_at_newlines(s.drop_last());
        if s.last() == '\n' {
            p.push(Seq::empty())
        } else {
            p.update(p.len() - 1, p.last().push(s.last()))
        }
    }
}

/// A piece that ended in a newline, without a carriage return before it.
pub open spec fn without_cr(l: Seq<char>) -> Seq<char> {
    if l.len() > 0 && l.last() == '\r' {
        l.drop_last()
    } else {
        l
    }
}

/// The lines of a text (`str::lines`): pieces between `\n`, a `\r` before
/// a `\n` dropped, and no empty line after a final `\n`.
pub open spec fn text_lines(s: Seq<char>) -> Seq<Seq<char>> {
    let p = split_at_newlines(s);
    let body = p.drop_last().map_values(|l: Seq<char>| without_cr(l));
    if p.last().len() == 0 {
        body
    } else {
        body.push(p.last())
    }
}

pub proof fn lemma_split_nonempty(s: Seq<char>)
    ensures
        split_at_newlines(s).len() >= 1,
    decreases s.len(),
{
    if s.len() > 0 {
        lemma_split_nonempty(s.drop_last());
    }
}

proof fn lemma_split_append_plain(s: Seq<char>, b: Seq<char>)
    requires
        !b.contains('\n'),
    ensures
        split_at_newlines(s + b) == split_at_newlines(s).update(
            split_at_newlines(s).len() - 1,
            split_at_newlines(s).last() + b,
        ),
    decreases b.len(),
{
    lemma_split_nonempty(s);
    let p = split_at_newlines(s);
    if b.len() == 0 {
        assert(s + b == s);
        assert(p.last() + b == p.last());
        assert(p.update(p.len() - 1, p.last()) == p);
    } else {
        let b1 = b.drop_last();
        assert(!b1.contains('\n')) by {
            if b1.contains('\n') {
                let k = choose|k: int| 0 <= k < b1.len() && b1[k] == '\n';
                assert(b[k] == '\n');
            }
        }
        lemma_split_append_plain(s, b1);
        assert((s + b).drop_last() == s + b1);
        assert((s + b).last() == b.last());
        assert(b[b.len() - 1] != '\n');
        assert((p.last() + b1).push(b.last()) == p.last() + b);
    }
}

/// Splitting a join of newline-free lines gives the lines back.
pub proof fn lemma_split_joined(ls: Seq<Seq<char>>)
    requires
        ls.len() >= 1,
        forall|i: int| 0 <= i < ls.len() ==> !(#[trigger] ls[i]).contains('\n'),
    ensures
        split_at_newlines(joined(ls)) == ls,
    decreases ls.len(),
{
    if ls.len() == 1 {
        lemma_split_append_plain(Seq::empty(), ls[0]);
        assert(Seq::<char>::empty() + ls[0] == ls[0]);
        assert(split_at_newlines(Seq::empty()) == seq![Seq::<char>::empty()]);
        assert(Seq::<char>::empty() + ls[0] == ls[0]);
        assert(seq![Seq::<char>::empty()].update(0, ls[0]) == ls);
    } else {
        let front = ls.drop_last();
        assert forall|i: int| 0 <= i < front.len() implies !(#[trigger] front[i]).contains('\n') by {
            assert(front[i] == ls[i]);
        }
        lemma_split_joined(front);
        let j = joined(front) + seq!['\n'];
        assert(j.drop_last() == joined(front));
        assert(split_at_newlines(j) == front.push(Seq::empty()));
        assert(!ls[ls.len() - 1].contains('\n'));
        lemma_split_append_plain(j, ls.last());
        assert(Seq::<char>::empty() + ls.last() == ls.last());
        assert(front.push(Seq::empty()).update(front.len() as int, ls.last()) == ls);
    }
}

/// Reading back the lines of a joined text gives the lines, when no line
/// holds a newline, no line but the last ends in `\r`, and the last line is
/// not empty.
pub proof fn lemma_text_lines_of_joined(ls: Seq<Seq<char>>)
    requires
        ls.len() >= 1,
        forall|i: int| 0 <= i < ls.len() ==> !(#[trigger] ls[i]).contains('\n'),
        forall|i: int| 0 <= i < ls.len() - 1 ==> without_cr(#[trigger] ls[i]) == ls[i],
        ls.last().len() > 0,
    ensures
        text_lines(joined(ls)) == ls,
{
    lemma_split_joined(ls);
    let body = ls.drop_last().map_values(|l: Seq<char>| without_cr(l));
    assert(body == ls.drop_last());
    assert(ls.drop_last().push(ls.last()) == ls);
}

proof fn lemma_split_sizes(s: Seq<char>)
    ensures
        split_at_newlines(s).len() <= s.len() + 1,
        forall|i: int| 0 <= i < split_at_newlines(s).len() ==> (#[trigger] split_at_newlines(s)[i]).len() <= s.len(),
    decreases s.len(),
{
    lemma_split_nonempty(s);
    if s.len() > 0 {
        lemma_split_sizes(s.drop_last());
        lemma_split_nonempty(s.drop_last());
        let p = split_at_newlines(s.drop_last());
        assert forall|i: int| 0 <= i < split_at_newlines(s).len() implies (#[trigger] split_at_newlines(
            s,
        )[i]).len() <= s.len() by {
            if i < p.len() - 1 {
                assert(split_at_newlines(s)[i] == p[i]);
            } else if i == p.len() - 1 {
                assert(p[i].len() <= s.len() - 1);
            }
        }
    }
}

/// A text has at most one line more than characters, and no line longer
/// than the text.
pub proof fn lemma_text_lines_fit(s: Seq<char>)
    ensures
        text_lines(s).len() <= s.len() + 1,
        forall|i: int| 0 <= i < text_lines(s).len() ==> (#[trigger] text_lines(s)[i]).len() <= s.len(),
{
    lemma_split_sizes(s);
    lemma_split_nonempty(s);
    let p = split_at_newlines(s);
    let t = text_lines(s);
    assert forall|i: int| 0 <= i < t.len() implies (#[trigger] t[i]).len() <= s.len() by {
        if i < p.len() - 1 {
            assert(t[i] == without_cr(p[i]));
            assert(p[i].len() <= s.len());
        } else {
            assert(t[i] == p.last());
        }
    }
}

/// The lines joined with newlines (`lines.join("\n")`).
pub fn join_lines(lines: &Vec<String>) -> (r: String)
    ensures
        r@ == joined(views(lines@)),
{
    let mut r = String::new();
    let mut i: usize = 0;
    while i < lines.len()
        invariant
            i <= lines.len(),
            r@ == joined(views(lines@).take(i as int)),
        decreases lines.len() - i,
    {
        let ghost before = views(lines@).take(i as int);
        assert(views(lines@).take(i + 1).drop_last() == before);
        if i > 0 {
            r.append("\n");
            proof { reveal_strlit("\n"); }
        }
        r.append(lines[i].as_str());
        proof {
            if i == 0 {
                assert(Seq::<char>::empty() + lines@[0]@ == lines@[0]@);
            }
        }
        i += 1;
    }
    assert(views(lines@).take(lines.len() as int) == views(lines@));
    r
}

/// The lines of a text, as `str::lines` gives them.
pub fn split_lines(content: &str) -> (r: Vec<String>)
    ensures
        views(r@) == text_lines(content@),
{
    let chars = chars_of(content);
    let mut out: Vec<String> = Vec::new();
    let mut cur: Vec<char> = Vec::new();
    let mut i: usize = 0;
    proof { lemma_split_nonempty(content@); }
    assert(chars@.take(0) == Seq::<char>::empty());
    while i < chars.len()
        invariant
            i <= chars.len(),
            chars@ == content@,
            split_at_newlines(chars@.take(i as int)).len() >= 1,
            views(out@) == split_at_newlines(chars@.take(i as int)).drop_last().map_values(
                |l: Seq<char>| without_cr(l),
            ),
            cur@ == split_at_newlines(chars@.take(i as int)).last(),
        decreases chars.len() - i,
    {
        let c = chars[i];
        let ghost pre = chars@.take(i as int);
        let ghost p = split_at_newlines(pre);
        assert(chars@.take(i + 1).drop_last() == pre);
        assert(chars@.take(i + 1).last() == c);
        if c == '\n' {
            let ghost whole = cur@;
            if cur.len() > 0 && cur[cur.len() - 1] == '\r' {
                cur.pop();
            }
            let piece = string_of(cur.as_slice());
            proof {
                if whole.len() > 0 && whole[whole.len() - 1] == '\r' {
                    assert(cur@ == whole.drop_last());
                }
            }
            let ghost old_out = out@;
            out.push(piece);
            cur = Vec::new();
            proof {
                let np = p.push(Seq::empty());
                assert(np.drop_last() == p);
                assert(views(out@) =~= views(old_out).push(without_cr(p.last())));
                assert(p.map_values(|l: Seq<char>| without_cr(l)) =~= p.drop_last().map_values(
                    |l: Seq<char>| without_cr(l),
                ).push(without_cr(p.last())));
                assert(views(out@) == np.drop_last().map_values(|l: Seq<char>| without_cr(l)));
            }
        } else {
            cur.push(c);
            proof {
                let np = p.update(p.len() - 1, p.last().push(c));
                assert(np.drop_last() == p.drop_last());
            }
        }
        i += 1;
    }
    assert(chars@.take(chars.len() as int) == content@);
    if cur.len() > 0 {
        let last = string_of(cur.as_slice());
        out.push(last);
    }
    out
}


/// `line` with the characters from `start` to `end` replaced by `ins`.
pub open spec fn spliced(line: Seq<char>, start: int, end: int, ins: Seq<char>) -> Seq<char> {
    line.take(start) + ins + line.skip(end)
}

/// Replaces the characters from `start` to `end` of `line` by `ins`.
pub fn splice(line: &Vec<char>, start: usize, end: usize, ins: &Vec<char>) -> (r: Vec<char>)
    requires
        start <= end <= line.len(),
    ensures
        r@ == spliced(line@, start as int, end as int, ins@),
{
    let mut r: Vec<char> = Vec::new();
    let mut i: usize = 0;
    while i < start
        invariant
            i <= start <= end <= line.len(),
            r@ == line@.take(i as int),
        decreases start - i,
    {
        r.push(line[i]);
        assert(line@.take(i as int).push(line@[i as int]) == line@.take(i + 1));
        i += 1;
    }
    let mut j: usize = 0;
    while j < ins.len()
        invariant
            j <= ins.len(),
            r@ == line@.take(start as int) + ins@.take(j as int),
        decreases ins.len() - j,
    {
        r.push(ins[j]);
        assert((line@.take(start as int) + ins@.take(j as int)).push(ins@[j as int])
            == line@.take(start as int) + ins@.take(j + 1));
        j += 1;
    }
    assert(ins@.take(ins.len() as int) == ins@);
    let mut k: usize = end;
    while k < line.len()
        invariant
            end <= k <= line.len(),
            r@ == line@.take(start as int) + ins@ + line@.subrange(end as int, k as int),
        decreases line.len() - k,
    {
        r.push(line[k]);
        assert((line@.take(start as int) + ins@ + line@.subrange(end as int, k as int)).push(
            line@[k as int],
        ) == line@.take(start as int) + ins@ + line@.subrange(end as int, k + 1));
        k += 1;
    }
    assert(line@.subrange(end as int, line.len() as int) == line@.skip(end as int));
    r
}

} // verus!
