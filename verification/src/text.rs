//! Text primitives: Unicode whitespace and trimming, PowerShell single-quoted
//! literals, and decimal rendering of integers.

use vstd::prelude::*;
use vstd::string::*;

verus! {

/// Calls `String::push`, which appends the character `c` to the end of `s`.
#[verifier::external_body]
pub(crate) fn push_char(s: &mut String, c: char)
    ensures
        final(s)@ == old(s)@.push(c),
{
    s.push(c);
}

/// The characters of `s`, in order.
pub fn chars_of(s: &str) -> (v: Vec<char>)
    ensures
        v@ == s@,
{
    let mut v: Vec<char> = Vec::new();
    for c in it: s.chars()
        invariant
            v@ == it.seq().take(it.index()),
    {
        v.push(c);
    }
    v
}

/// A new string that holds the characters of `s`.
pub fn owned(s: &str) -> (r: String)
    ensures
        r@ == s@,
{
    s.to_owned()
}

/// Whether two strings hold the same characters.
pub fn same_text(a: &str, b: &str) -> (r: bool)
    ensures
        r == (a@ == b@),
{
    owned(a) == owned(b)
}

// ---------------------------------------------------------------------------
// Whitespace and trimming
// ---------------------------------------------------------------------------

/// The characters with the Unicode `White_Space` property.
pub open spec fn is_white_space(c: char) -> bool {
    ||| '\u{9}' <= c <= '\u{d}'
    ||| c == ' '
    ||| c == '\u{85}'
    ||| c == '\u{a0}'
    ||| c == '\u{1680}'
    ||| '\u{2000}' <= c <= '\u{200a}'
    ||| c == '\u{2028}'
    ||| c == '\u{2029}'
    ||| c == '\u{202f}'
    ||| c == '\u{205f}'
    ||| c == '\u{3000}'
}

/// `s` without its leading whitespace.
pub open spec fn trim_start(s: Seq<char>) -> Seq<char>
    decreases s.len(),
{
    if s.len() > 0 && is_white_space(s[0]) {
        trim_start(s.drop_first())
    } else {
        s
    }
}

/// `s` without its trailing whitespace.
pub open spec fn trim_end(s: Seq<char>) -> Seq<char>
    decreases s.len(),
{
    if s.len() > 0 && is_white_space(s.last()) {
        trim_end(s.drop_last())
    } else {
        s
    }
}

/// `s` without leading and trailing whitespace.
pub open spec fn trim(s: Seq<char>) -> Seq<char> {
    trim_end(trim_start(s))
}

/// Whether `c` has the Unicode `White_Space` property.
pub fn is_white_space_char(c: char) -> (r: bool)
    ensures
        r == is_white_space(c),
{
    ('\u{9}' <= c && c <= '\u{d}') || c == ' ' || c == '\u{85}' || c == '\u{a0}' || c
        == '\u{1680}' || ('\u{2000}' <= c && c <= '\u{200a}') || c == '\u{2028}' || c
        == '\u{2029}' || c == '\u{202f}' || c == '\u{205f}' || c == '\u{3000}'
}

/// `s` without leading and trailing whitespace.
pub fn trim_str(s: &str) -> (r: &str)
    ensures
        r@ == trim(s@),
{
    let cs = chars_of(s);
    let n = cs.len();
    let mut start: usize = 0;
    assert(s@.skip(0) =~= s@);
    while start < n && is_white_space_char(cs[start])
        invariant
            start <= n,
            n == s@.len(),
            cs@ == s@,
            trim_start(s@) == trim_start(s@.skip(start as int)),
        decreases n - start,
    {
        assert(s@.skip(start as int).drop_first() =~= s@.skip(start + 1));
        start += 1;
    }
    assert(trim_start(s@) == s@.skip(start as int));
    assert(s@.skip(start as int) =~= s@.subrange(start as int, n as int));
    let mut end: usize = n;
    while end > start && is_white_space_char(cs[end - 1])
        invariant
            start <= end <= n,
            n == s@.len(),
            cs@ == s@,
            trim_end(s@.subrange(start as int, n as int)) == trim_end(
                s@.subrange(start as int, end as int),
            ),
        decreases end,
    {
        assert(s@.subrange(start as int, end as int).drop_last() =~= s@.subrange(
            start as int,
            end - 1,
        ));
        end -= 1;
    }
    s.substring_char(start, end)
}

/// Text that neither begins nor ends with whitespace is its own trim.
pub(crate) proof fn lemma_trim_of_unpadded(c: Seq<char>)
    requires
        c.len() > 0 ==> !is_white_space(c[0]) && !is_white_space(c.last()),
    ensures
        trim(c) == c,
{
}

/// Trimming removes a run of whitespace from each end and nothing else: the
/// result is a contiguous part of `s`, everything before and after it is
/// whitespace, and it neither begins nor ends with whitespace.
pub proof fn lemma_trim_removes_only_white_space(s: Seq<char>)
    ensures
        exists|a: int, b: int|
            #![trigger s.subrange(a, b)]
            0 <= a <= b <= s.len() && trim(s) == s.subrange(a, b) && (forall|i: int|
                0 <= i < a ==> is_white_space(#[trigger] s[i])) && (forall|i: int|
                b <= i < s.len() ==> is_white_space(#[trigger] s[i])),
        trim(s).len() > 0 ==> !is_white_space(trim(s)[0]) && !is_white_space(trim(s).last()),
{
    let a = lemma_trim_start_skips(s);
    let t = trim_start(s);
    let b = lemma_trim_end_takes(t);
    assert(trim(s) =~= s.subrange(a, a + b));
    assert forall|i: int| a + b <= i < s.len() implies is_white_space(#[trigger] s[i]) by {
        assert(s[i] == t[i - a]);
    }
}

proof fn lemma_trim_start_skips(s: Seq<char>) -> (a: int)
    ensures
        0 <= a <= s.len(),
        trim_start(s) == s.skip(a),
        forall|i: int| 0 <= i < a ==> is_white_space(#[trigger] s[i]),
        trim_start(s).len() > 0 ==> !is_white_space(trim_start(s)[0]),
    decreases s.len(),
{
    if s.len() > 0 && is_white_space(s[0]) {
        let a = lemma_trim_start_skips(s.drop_first());
        assert(s.drop_first().skip(a) =~= s.skip(a + 1));
        assert forall|i: int| 0 <= i < a + 1 implies is_white_space(#[trigger] s[i]) by {
            if i > 0 {
                assert(s[i] == s.drop_first()[i - 1]);
            }
        }
        a + 1
    } else {
        assert(s.skip(0) =~= s);
        0
    }
}

proof fn lemma_trim_end_takes(s: Seq<char>) -> (b: int)
    ensures
        0 <= b <= s.len(),
        trim_end(s) == s.take(b),
        forall|i: int| b <= i < s.len() ==> is_white_space(#[trigger] s[i]),
        trim_end(s).len() > 0 ==> !is_white_space(trim_end(s).last()),
    decreases s.len(),
{
    if s.len() > 0 && is_white_space(s.last()) {
        let b = lemma_trim_end_takes(s.drop_last());
        assert(s.drop_last().take(b) =~= s.take(b));
        assert forall|i: int| b <= i < s.len() implies is_white_space(#[trigger] s[i]) by {
            if i < s.len() - 1 {
                assert(s[i] == s.drop_last()[i]);
            }
        }
        b
    } else {
        assert(s.take(s.len() as int) =~= s);
        s.len() as int
    }
}

/// The characters that trimming removes are those of Unicode's `White_Space`
/// property: tab, line feed, vertical tab, form feed, carriage return, space,
/// U+0085, U+00A0, U+1680, U+2000 to U+200A, U+2028, U+2029, U+202F, U+205F
/// and U+3000; no other character below U+0085 or between U+2000 and U+3000.
pub proof fn lemma_white_space_chars(c: char)
    ensures
        c == '\t' || c == '\n' || c == '\u{b}' || c == '\u{c}' || c == '\r' || c == ' ' || c
            == '\u{85}' || c == '\u{a0}' || c == '\u{1680}' || ('\u{2000}' <= c <= '\u{200a}')
            || c == '\u{2028}' || c == '\u{2029}' || c == '\u{202f}' || c == '\u{205f}' || c
            == '\u{3000}' ==> is_white_space(c),
        (c < '\u{85}' && c != '\t' && c != '\n' && c != '\u{b}' && c != '\u{c}' && c != '\r'
            && c != ' ') ==> !is_white_space(c),
        ('\u{200a}' < c < '\u{3000}' && c != '\u{2028}' && c != '\u{2029}' && c != '\u{202f}'
            && c != '\u{205f}') ==> !is_white_space(c),
{
}

/// Whether `s` holds text other than whitespace.
pub open spec fn has_text(s: Option<String>) -> bool {
    s matches Some(v) && trim(v@).len() > 0
}

/// A value has text exactly when it is present and holds a character that is
/// not whitespace.
pub proof fn lemma_has_text_means_non_blank(s: Option<String>)
    ensures
        has_text(s) <==> (s matches Some(v) && exists|i: int|
            0 <= i < v@.len() && !is_white_space(#[trigger] v@[i])),
{
    if let Some(v) = s {
        lemma_trim_removes_only_white_space(v@);
        let t = v@;
        if trim(t).len() > 0 {
            let (a, b) = choose|a: int, b: int|
                #![trigger t.subrange(a, b)]
                0 <= a <= b <= t.len() && trim(t) == t.subrange(a, b) && (forall|i: int|
                    0 <= i < a ==> is_white_space(#[trigger] t[i])) && (forall|i: int|
                    b <= i < t.len() ==> is_white_space(#[trigger] t[i]));
            assert(t[a] == trim(t)[0]);
        } else {
            let (a, b) = choose|a: int, b: int|
                #![trigger t.subrange(a, b)]
                0 <= a <= b <= t.len() && trim(t) == t.subrange(a, b) && (forall|i: int|
                    0 <= i < a ==> is_white_space(#[trigger] t[i])) && (forall|i: int|
                    b <= i < t.len() ==> is_white_space(#[trigger] t[i]));
            assert(a == b);
            assert forall|i: int| 0 <= i < t.len() implies is_white_space(#[trigger] t[i]) by {
                if i >= a {
                    assert(i >= b);
                }
            }
        }
    }
}

/// True when the value is present and is not blank.
pub fn has(s: &Option<String>) -> (r: bool)
    ensures
        r == has_text(*s),
{
    match s {
        Some(v) => !trim_str(v.as_str()).is_empty(),
        None => false,
    }
}

// ---------------------------------------------------------------------------
// PowerShell single-quoted literals
// ---------------------------------------------------------------------------

/// The characters PowerShell reads as a single quote: the ASCII apostrophe
/// and the typographic quotes U+2018, U+2019, U+201A and U+201B.
pub open spec fn is_ps_quote(c: char) -> bool {
    ||| c == '\''
    ||| c == '\u{2018}'
    ||| c == '\u{2019}'
    ||| c == '\u{201a}'
    ||| c == '\u{201b}'
}

/// Whether `c` is read by PowerShell as a single quote.
pub fn is_ps_quote_char(c: char) -> (r: bool)
    ensures
        r == is_ps_quote(c),
{
    c == '\'' || c == '\u{2018}' || c == '\u{2019}' || c == '\u{201a}' || c == '\u{201b}'
}

/// The body of a single-quoted literal for `s`: each quote character is
/// written twice.
pub open spec fn escape_quotes(s: Seq<char>) -> Seq<char>
    decreases s.len(),
{
    if s.len() == 0 {
        seq![]
    } else if is_ps_quote(s[0]) {
        seq![s[0], s[0]] + escape_quotes(s.drop_first())
    } else {
        seq![s[0]] + escape_quotes(s.drop_first())
    }
}

/// The single-quoted PowerShell literal that stands for `s`.
pub open spec fn ps_quoted(s: Seq<char>) -> Seq<char> {
    seq!['\''] + escape_quotes(s) + seq!['\'']
}

/// Quote a value as a single-quoted PowerShell string literal.
pub fn ps_quote(s: &str) -> (r: String)
    ensures
        r@ == ps_quoted(s@),
{
    let cs = chars_of(s);
    let n = cs.len();
    let mut r = String::new();
    push_char(&mut r, '\'');
    let mut i: usize = 0;
    assert(s@.skip(0) =~= s@);
    while i < n
        invariant
            i <= n,
            n == s@.len(),
            cs@ == s@,
            ps_quoted(s@) =~= r@ + escape_quotes(s@.skip(i as int)) + seq!['\''],
        decreases n - i,
    {
        let c = cs[i];
        assert(s@.skip(i as int).drop_first() =~= s@.skip(i + 1));
        if is_ps_quote_char(c) {
            push_char(&mut r, c);
            push_char(&mut r, c);
        } else {
            push_char(&mut r, c);
        }
        i += 1;
    }
    push_char(&mut r, '\'');
    r
}

/// Reads the rest of a single-quoted literal whose opening quote has been
/// read, as PowerShell's tokenizer does: a quote character followed by
/// another one stands for the first of them, and a quote character followed
/// by anything else closes the literal. Gives the text and how many
/// characters were read, the closing quote included.
pub open spec fn read_quoted_rest(t: Seq<char>) -> Option<(Seq<char>, nat)>
    decreases t.len(),
{
    if t.len() == 0 {
        None
    } else if is_ps_quote(t[0]) {
        if t.len() >= 2 && is_ps_quote(t[1]) {
            match read_quoted_rest(t.skip(2)) {
                Some((v, k)) => Some((seq![t[0]] + v, k + 2)),
                None => None,
            }
        } else {
            Some((seq![], 1))
        }
    } else {
        match read_quoted_rest(t.drop_first()) {
            Some((v, k)) => Some((seq![t[0]] + v, k + 1)),
            None => None,
        }
    }
}

/// Reads a single-quoted PowerShell literal at the start of `t`, as
/// PowerShell's tokenizer does (any of the quote characters opens it): the
/// text it stands for and its length.
pub open spec fn read_ps_literal(t: Seq<char>) -> Option<(Seq<char>, nat)> {
    if t.len() > 0 && is_ps_quote(t[0]) {
        match read_quoted_rest(t.drop_first()) {
            Some((v, k)) => Some((v, k + 1)),
            None => None,
        }
    } else {
        None
    }
}

proof fn lemma_read_escaped(s: Seq<char>, rest: Seq<char>)
    requires
        rest.len() == 0 || !is_ps_quote(rest[0]),
    ensures
        read_quoted_rest(escape_quotes(s) + seq!['\''] + rest) == Some(
            (s, escape_quotes(s).len() + 1),
        ),
    decreases s.len(),
{
    let t = escape_quotes(s) + seq!['\''] + rest;
    if s.len() == 0 {
        assert(escape_quotes(s) =~= Seq::<char>::empty());
        assert(t[0] == '\'');
        if t.len() >= 2 {
            assert(t[1] == rest[0]);
        }
    } else {
        let tail = s.drop_first();
        lemma_read_escaped(tail, rest);
        let t_tail = escape_quotes(tail) + seq!['\''] + rest;
        if is_ps_quote(s[0]) {
            assert(t =~= seq![s[0], s[0]] + t_tail);
            assert(t.skip(2) =~= t_tail);
        } else {
            assert(t =~= seq![s[0]] + t_tail);
            assert(t.drop_first() =~= t_tail);
        }
        assert(seq![s[0]] + tail =~= s);
    }
}

/// Text without quote characters is its own literal body.
pub(crate) proof fn lemma_escape_plain(s: Seq<char>)
    requires
        forall|i: int| 0 <= i < s.len() ==> !is_ps_quote(#[trigger] s[i]),
    ensures
        escape_quotes(s) == s,
    decreases s.len(),
{
    if s.len() > 0 {
        let tail = s.drop_first();
        assert(forall|i: int| 0 <= i < tail.len() ==> tail[i] == s[i + 1]);
        lemma_escape_plain(tail);
        assert(seq![s[0]] + tail =~= s);
    }
}

/// A quoted value reads back as itself: PowerShell reads the literal that
/// `ps_quote` makes as exactly the original text, and the literal ends where
/// the quoted text ends, so nothing in the value can close it early. This
/// holds whatever follows the literal, unless what follows begins with a
/// quote character (which PowerShell would read as an escaped quote).
pub proof fn lemma_ps_quote_reads_back(s: Seq<char>, rest: Seq<char>)
    requires
        rest.len() == 0 || !is_ps_quote(rest[0]),
    ensures
        read_ps_literal(ps_quoted(s) + rest) == Some((s, ps_quoted(s).len())),
{
    let t = ps_quoted(s) + rest;
    lemma_read_escaped(s, rest);
    assert(t.drop_first() =~= escape_quotes(s) + seq!['\''] + rest);
}

/// Quoting text that holds none of the quote characters `'`, U+2018, U+2019,
/// U+201A, U+201B just puts it between two `'`.
pub proof fn lemma_ps_quote_plain_text(s: Seq<char>)
    requires
        forall|i: int|
            0 <= i < s.len() ==> #[trigger] s[i] != '\'' && s[i] != '\u{2018}' && s[i]
                != '\u{2019}' && s[i] != '\u{201a}' && s[i] != '\u{201b}',
    ensures
        ps_quoted(s) == seq!['\''] + s + seq!['\''],
{
    lemma_escape_plain(s);
}

/// Each quote character that PowerShell knows (`'`, U+2018, U+2019, U+201A,
/// U+201B) is written twice inside the literal.
pub proof fn lemma_ps_quote_doubles_quotes(q: char)
    requires
        q == '\'' || q == '\u{2018}' || q == '\u{2019}' || q == '\u{201a}' || q == '\u{201b}',
    ensures
        ps_quoted(seq![q]) == seq!['\'', q, q, '\''],
{
    assert(seq![q].drop_first() =~= Seq::<char>::empty());
    assert(escape_quotes(Seq::<char>::empty()) =~= Seq::<char>::empty());
    assert(escape_quotes(seq![q]) =~= seq![q, q]);
    assert(ps_quoted(seq![q]) =~= seq!['\'', q, q, '\'']);
}

/// Quoting works character by character: the literal for `a + b` is the
/// literal for `a` without its closing quote followed by the literal for `b`
/// without its opening quote.
pub proof fn lemma_ps_quote_concat(a: Seq<char>, b: Seq<char>)
    ensures
        ps_quoted(a + b) == ps_quoted(a).drop_last() + ps_quoted(b).drop_first(),
{
    lemma_escape_concat(a, b);
    assert(ps_quoted(a + b) =~= ps_quoted(a).drop_last() + ps_quoted(b).drop_first());
}

proof fn lemma_escape_concat(a: Seq<char>, b: Seq<char>)
    ensures
        escape_quotes(a + b) == escape_quotes(a) + escape_quotes(b),
    decreases a.len(),
{
    if a.len() == 0 {
        assert(a + b =~= b);
        assert(escape_quotes(a) =~= Seq::<char>::empty());
        assert(escape_quotes(a) + escape_quotes(b) =~= escape_quotes(b));
    } else {
        lemma_escape_concat(a.drop_first(), b);
        assert((a + b).drop_first() =~= a.drop_first() + b);
        assert((a + b)[0] == a[0]);
        if is_ps_quote(a[0]) {
            assert(escape_quotes(a + b) =~= escape_quotes(a) + escape_quotes(b));
        } else {
            assert(escape_quotes(a + b) =~= escape_quotes(a) + escape_quotes(b));
        }
    }
}

/// Whether `needle` occurs in `s`.
pub open spec fn contains_text(s: Seq<char>, needle: Seq<char>) -> bool {
    exists|i: int|
        0 <= i && i + needle.len() <= s.len() && #[trigger] s.subrange(i, i + needle.len())
            == needle
}

/// The characters of a textual result, in place of the strings.
pub open spec fn text_result(r: Result<String, String>) -> Result<Seq<char>, Seq<char>> {
    match r {
        Ok(v) => Ok(v@),
        Err(e) => Err(e@),
    }
}

/// Whether `s` begins with `p`.
pub open spec fn starts_with(s: Seq<char>, p: Seq<char>) -> bool {
    p.len() <= s.len() && s.subrange(0, p.len() as int) == p
}

/// `s` after the prefix `p`, where `s` begins with `p`.
pub fn strip_prefix_text<'a>(s: &'a str, p: &str) -> (r: Option<&'a str>)
    ensures
        r is Some <==> starts_with(s@, p@),
        r matches Some(t) ==> t@ == s@.skip(p@.len() as int),
{
    let cs = chars_of(s);
    let ps = chars_of(p);
    if ps.len() > cs.len() {
        return None;
    }
    let mut i: usize = 0;
    while i < ps.len()
        invariant
            i <= ps@.len() <= cs@.len(),
            cs@ == s@,
            ps@ == p@,
            s@.subrange(0, i as int) == p@.subrange(0, i as int),
        decreases ps@.len() - i,
    {
        if cs[i] != ps[i] {
            assert(s@.subrange(0, p@.len() as int)[i as int] != p@[i as int]);
            return None;
        }
        assert(s@.subrange(0, i + 1) =~= s@.subrange(0, i as int).push(s@[i as int]));
        assert(p@.subrange(0, i + 1) =~= p@.subrange(0, i as int).push(p@[i as int]));
        i += 1;
    }
    assert(p@.subrange(0, p@.len() as int) =~= p@);
    Some(s.substring_char(ps.len(), cs.len()))
}

// ---------------------------------------------------------------------------
// Decimal numbers
// ---------------------------------------------------------------------------

/// The ASCII digit for `d < 10`.
pub open spec fn digit(d: nat) -> char {
    ((d + 48) as u8) as char
}

/// The decimal digits of `n`, most significant first, without leading zeros.
pub open spec fn decimal(n: nat) -> Seq<char>
    decreases n,
{
    if n < 10 {
        seq![digit(n)]
    } else {
        decimal(n / 10).push(digit(n % 10))
    }
}

/// The decimal rendering of a signed integer, with `-` before a negative one.
pub open spec fn signed_decimal(n: int) -> Seq<char> {
    if n < 0 {
        seq!['-'] + decimal((-n) as nat)
    } else {
        decimal(n as nat)
    }
}

/// The number that a sequence of ASCII digits writes in decimal.
pub open spec fn digits_value(s: Seq<char>) -> int
    decreases s.len(),
{
    if s.len() == 0 {
        0
    } else {
        digits_value(s.drop_last()) * 10 + (s.last() as int - 48)
    }
}

/// The decimal rendering of `n` is a non-empty string of ASCII digits, with
/// no leading zero unless `n` is 0, that denotes exactly `n`.
pub proof fn lemma_decimal_reads_back(n: nat)
    ensures
        decimal(n).len() > 0,
        forall|i: int| 0 <= i < decimal(n).len() ==> '0' <= #[trigger] decimal(n)[i] <= '9',
        decimal(n)[0] == '0' ==> n == 0,
        digits_value(decimal(n)) == n,
    decreases n,
{
    lemma_digit(n % 10);
    if n >= 10 {
        lemma_decimal_reads_back(n / 10);
        let p = decimal(n / 10);
        assert(decimal(n) =~= p.push(digit(n % 10)));
        assert(decimal(n).drop_last() =~= p);
        assert(decimal(n)[0] == p[0]);
        assert(decimal(n).last() == digit(n % 10));
        assert((n / 10) * 10 + n % 10 == n) by (nonlinear_arith);
        assert(digits_value(decimal(n)) == digits_value(p) * 10 + (n % 10));
    } else {
        assert(decimal(n).drop_last() =~= Seq::<char>::empty());
        assert(decimal(n).last() == digit(n));
        assert(digits_value(decimal(n)) == digits_value(Seq::<char>::empty()) * 10 + n);
    }
}

proof fn lemma_digit(d: nat)
    requires
        d < 10,
    ensures
        digit(d) as int == d + 48,
        '0' <= digit(d) <= '9',
{
    let b: u8 = (d + 48) as u8;
    assert(b as int == d + 48);
    assert(b as char as int == b as int);
}

fn digit_char(d: u64) -> (c: char)
    requires
        d < 10,
    ensures
        c == digit(d as nat),
{
    let b: u8 = (d as u8) + 48;
    b as char
}

/// Appends the decimal digits of `n` to `out`.
pub fn push_decimal(out: &mut String, n: u64)
    ensures
        final(out)@ == old(out)@ + decimal(n as nat),
    decreases n,
{
    if n >= 10 {
        push_decimal(out, n / 10);
    }
    push_char(out, digit_char(n % 10));
    assert(old(out)@ + decimal(n as nat) =~= out@);
}

/// Appends the decimal rendering of `n` to `out`.
pub fn push_signed_decimal(out: &mut String, n: i64)
    ensures
        final(out)@ == old(out)@ + signed_decimal(n as int),
{
    if n < 0 {
        push_char(out, '-');
        let m: u64 = if n == i64::MIN {
            9223372036854775808u64
        } else {
            (-n) as u64
        };
        push_decimal(out, m);
        assert(old(out)@ + signed_decimal(n as int) =~= out@);
    } else {
        push_decimal(out, n as u64);
    }
}

} // verus!
