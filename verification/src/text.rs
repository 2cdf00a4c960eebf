//! Text scanning: trimming, splitting, line breaking and decimal numbers.
//!
//! Every function is specified over the characters of its argument (`Seq<char>`), with the
//! conventions that the standard library has for the function of the same name.

use vstd::prelude::*;
use vstd::utf8::{decode_utf8, valid_utf8};

verus! {

/// The characters with the Unicode property `White_Space`.
pub open spec fn whitespace(c: char) -> bool {
    ||| '\u{9}' <= c <= '\u{d}'
    ||| c == ' '
    ||| c == '\u{85}'
    ||| c == '\u{a0}'
    ||| c == '\u{1680}'
    ||| '\u{2000}' <= c <= '\u{200a}'
    ||| c == '\u{2028}'
    ||| c == '\u{2029}'
    ||| c == '\u{202f}'
    ||| c == '\u{205f}'
    ||| c == '\u{3000}'
}

/// Tests for a character with the Unicode property `White_Space`.
pub fn is_whitespace(c: char) -> (r: bool)
    ensures
        r == whitespace(c),
{
    ('\u{9}' <= c && c <= '\u{d}') || c == ' ' || c == '\u{85}' || c == '\u{a0}' || c == '\u{1680}'
        || ('\u{2000}' <= c && c <= '\u{200a}') || c == '\u{2028}' || c == '\u{2029}' || c
        == '\u{202f}' || c == '\u{205f}' || c == '\u{3000}'
}

/// The predicate that holds of one character only.
pub open spec fn is_char(sep: char) -> spec_fn(char) -> bool {
    |c: char| c == sep
}

/// The predicate that holds of what is not white space.
pub open spec fn not_whitespace() -> spec_fn(char) -> bool {
    |c: char| !whitespace(c)
}

/// The predicate that holds of white space.
pub open spec fn is_space() -> spec_fn(char) -> bool {
    |c: char| whitespace(c)
}

/// The characters of a string, as a vector.
pub fn chars_of(s: &str) -> (r: Vec<char>)
    ensures
        r@ == s@,
{
    let mut r: Vec<char> = Vec::new();
    for c in it: s.chars()
        invariant
            r@ == it.seq().take(it.index() as int),
            it.seq() == s@,
    {
        r.push(c);
    }
    r
}

/// Where the first character that satisfies `p` stands, or the length where there is none.
pub open spec fn first_where(s: Seq<char>, p: spec_fn(char) -> bool) -> int
    decreases s.len(),
{
    if s.len() == 0 || p(s[0]) {
        0
    } else {
        1 + first_where(s.drop_first(), p)
    }
}

/// What `first_where` finds: a position up to which no character satisfies the predicate.
pub proof fn lemma_first_where(s: Seq<char>, p: spec_fn(char) -> bool)
    ensures
        0 <= first_where(s, p) <= s.len(),
        forall|i: int| 0 <= i < first_where(s, p) ==> !p(#[trigger] s[i]),
        first_where(s, p) < s.len() ==> p(s[first_where(s, p)]),
    decreases s.len(),
{
    if s.len() > 0 && !p(s[0]) {
        let t = s.drop_first();
        lemma_first_where(t, p);
        assert forall|i: int| 0 <= i < first_where(s, p) implies !p(#[trigger] s[i]) by {
            if i > 0 {
                assert(s[i] == t[i - 1]);
            }
        }
        if first_where(s, p) < s.len() {
            assert(s[first_where(s, p)] == t[first_where(s, p) - 1]);
        }
    }
}

/// A position with the properties of `first_where` is the one.
pub proof fn lemma_first_where_unique(s: Seq<char>, p: spec_fn(char) -> bool, n: int)
    requires
        0 <= n <= s.len(),
        forall|i: int| 0 <= i < n ==> !p(#[trigger] s[i]),
        n < s.len() ==> p(s[n]),
    ensures
        first_where(s, p) == n,
{
    lemma_first_where(s, p);
    let m = first_where(s, p);
    if m < n {
        assert(!p(s[m]));
    } else if n < m {
        assert(!p(s[n]));
    }
}

/// The text without its leading white space.
pub open spec fn trim_start(s: Seq<char>) -> Seq<char> {
    s.skip(first_where(s, not_whitespace()))
}

/// The text without its trailing white space.
pub open spec fn trim_end(s: Seq<char>) -> Seq<char>
    decreases s.len(),
{
    if s.len() > 0 && whitespace(s.last()) {
        trim_end(s.drop_last())
    } else {
        s
    }
}

/// The text without the white space at its two ends.
pub open spec fn trimmed(s: Seq<char>) -> Seq<char> {
    trim_end(trim_start(s))
}

/// Removes the white space at the two ends of a text.
pub fn trim(s: &str) -> (r: &str)
    ensures
        r@ == trimmed(s@),
{
    let chars = chars_of(s);
    let n: usize = chars.len();
    let mut a: usize = 0;
    while a < n && is_whitespace(chars[a])
        invariant
            a <= n,
            n == chars@.len(),
            forall|i: int| 0 <= i < a ==> whitespace(#[trigger] chars@[i]),
        decreases n - a,
    {
        a += 1;
    }
    proof {
        lemma_first_where_unique(s@, not_whitespace(), a as int);
    }
    let ghost t = trim_start(s@);
    let mut b: usize = n;
    assert(s@.subrange(a as int, n as int) =~= t);
    while a < b && is_whitespace(chars[b - 1])
        invariant
            a <= b <= n,
            n == chars@.len(),
            chars@ == s@,
            trim_end(s@.subrange(a as int, b as int)) == trim_end(t),
        decreases b,
    {
        assert(s@.subrange(a as int, b as int).drop_last() =~= s@.subrange(a as int, b - 1));
        b -= 1;
    }
    assert(a < b ==> s@.subrange(a as int, b as int).last() == s@[b - 1]);
    s.substring_char(a, b)
}

/// The pieces between the occurrences of `sep`: one more than there are occurrences.
pub open spec fn split_at_char(s: Seq<char>, sep: char) -> Seq<Seq<char>>
    decreases s.len(),
{
    let i = first_where(s, is_char(sep));
    if i >= s.len() {
        seq![s]
    } else {
        proof {
            lemma_first_where(s, is_char(sep));
        }
        seq![s.take(i)] + split_at_char(s.skip(i + 1), sep)
    }
}

/// Splits a text at every occurrence of a character.
pub fn split<'a>(s: &'a str, sep: char) -> (r: Vec<&'a str>)
    ensures
        views(r@) == split_at_char(s@, sep),
{
    let chars = chars_of(s);
    let n: usize = chars.len();
    let mut r: Vec<&'a str> = Vec::new();
    let mut pos: usize = 0;
    assert(s@.skip(0) =~= s@);
    assert(views(r@) + split_at_char(s@, sep) =~= split_at_char(s@, sep));
    loop
        invariant
            pos <= n,
            n == chars@.len(),
            chars@ == s@,
            views(r@) + split_at_char(s@.skip(pos as int), sep) == split_at_char(s@, sep),
        decreases n - pos,
    {
        let ghost rest = s@.skip(pos as int);
        let ghost before = views(r@);
        let mut b: usize = pos;
        while b < n && chars[b] != sep
            invariant
                pos <= b <= n,
                n == chars@.len(),
                chars@ == s@,
                rest == s@.skip(pos as int),
                forall|i: int| 0 <= i < b - pos ==> #[trigger] rest[i] != sep,
            decreases n - b,
        {
            b += 1;
        }
        proof {
            lemma_first_where_unique(rest, is_char(sep), b - pos);
        }
        let w: &'a str = s.substring_char(pos, b);
        r.push(w);
        proof {
            assert(w@ =~= rest.take(b - pos));
            assert(views(r@) =~= before.push(w@));
        }
        if b == n {
            assert(w@ =~= rest);
            assert(views(r@) =~= before + seq![rest]);
            return r;
        }
        proof {
            assert(rest.skip(b - pos + 1) =~= s@.skip(b + 1));
            assert(before.push(w@) + split_at_char(s@.skip(b + 1), sep) =~= before + (seq![w@]
                + split_at_char(s@.skip(b + 1), sep)));
        }
        pos = b + 1;
    }
}

/// Whether a text begins with another.
pub open spec fn begins_with(s: Seq<char>, prefix: Seq<char>) -> bool {
    prefix.len() <= s.len() && s.take(prefix.len() as int) == prefix
}

/// Tests whether a text begins with another.
pub fn starts_with(s: &str, prefix: &str) -> (r: bool)
    ensures
        r == begins_with(s@, prefix@),
{
    let x = chars_of(s);
    let y = chars_of(prefix);
    if y.len() > x.len() {
        return false;
    }
    let n: usize = y.len();
    let mut i: usize = 0;
    while i < n
        invariant
            i <= n,
            n == y@.len(),
            n <= x@.len(),
            x@ == s@,
            y@ == prefix@,
            forall|k: int| 0 <= k < i ==> #[trigger] s@[k] == prefix@[k],
        decreases n - i,
    {
        if x[i] != y[i] {
            assert(s@.take(n as int)[i as int] != prefix@[i as int]);
            return false;
        }
        i += 1;
    }
    assert(s@.take(n as int) =~= prefix@);
    true
}

/// The text before the first `sep` and the text after it, where there is one.
pub open spec fn split_first(s: Seq<char>, sep: char) -> Option<(Seq<char>, Seq<char>)> {
    let i = first_where(s, is_char(sep));
    if i >= s.len() {
        None
    } else {
        Some((s.take(i), s.skip(i + 1)))
    }
}

/// Splits a text at the first occurrence of a character.
pub fn split_once<'a>(s: &'a str, sep: char) -> (r: Option<(&'a str, &'a str)>)
    ensures
        match (r, split_first(s@, sep)) {
            (Some(p), Some(q)) => p.0@ == q.0 && p.1@ == q.1,
            (None, None) => true,
            _ => false,
        },
{
    let chars = chars_of(s);
    let n: usize = chars.len();
    let mut i: usize = 0;
    while i < n && chars[i] != sep
        invariant
            i <= n,
            n == chars@.len(),
            forall|k: int| 0 <= k < i ==> #[trigger] chars@[k] != sep,
        decreases n - i,
    {
        i += 1;
    }
    proof {
        lemma_first_where_unique(s@, is_char(sep), i as int);
    }
    if i == n {
        None
    } else {
        assert(s@.subrange(0, i as int) =~= s@.take(i as int));
        assert(s@.subrange(i + 1, n as int) =~= s@.skip(i + 1));
        Some((s.substring_char(0, i), s.substring_char(i + 1, n)))
    }
}

/// The maximal runs of characters that are not white space, in order.
pub open spec fn words_of(s: Seq<char>) -> Seq<Seq<char>>
    decreases s.len(),
{
    let t = trim_start(s);
    let i = first_where(t, is_space());
    if t.len() == 0 {
        seq![]
    } else {
        proof {
            lemma_first_where(s, not_whitespace());
            lemma_first_where(t, is_space());
            assert(t[0] == s[first_where(s, not_whitespace())]);
        }
        seq![t.take(i)] + words_of(t.skip(i))
    }
}

/// The views of the strings of a vector.
pub open spec fn views(v: Seq<&str>) -> Seq<Seq<char>> {
    v.map_values(|x: &str| x@)
}

/// Splits a text at its white space; no word is empty.
pub fn split_whitespace<'a>(s: &'a str) -> (r: Vec<&'a str>)
    ensures
        views(r@) == words_of(s@),
{
    let chars = chars_of(s);
    let n: usize = chars.len();
    let mut r: Vec<&'a str> = Vec::new();
    let mut pos: usize = 0;
    assert(s@.skip(0) =~= s@);
    assert(views(r@) + words_of(s@) =~= words_of(s@));
    while pos < n
        invariant
            pos <= n,
            n == chars@.len(),
            chars@ == s@,
            views(r@) + words_of(s@.skip(pos as int)) == words_of(s@),
        decreases n - pos,
    {
        let ghost rest = s@.skip(pos as int);
        let ghost before = views(r@);
        let ghost start = pos;
        let mut a: usize = pos;
        while a < n && is_whitespace(chars[a])
            invariant
                start <= a <= n,
                n == chars@.len(),
                chars@ == s@,
                rest == s@.skip(start as int),
                forall|i: int| 0 <= i < a - start ==> whitespace(#[trigger] rest[i]),
            decreases n - a,
        {
            a += 1;
        }
        proof {
            lemma_first_where_unique(rest, not_whitespace(), a - start);
        }
        let ghost t = trim_start(rest);
        assert(t =~= s@.skip(a as int));
        let mut b: usize = a;
        while b < n && !is_whitespace(chars[b])
            invariant
                a <= b <= n,
                n == chars@.len(),
                chars@ == s@,
                t == s@.skip(a as int),
                forall|i: int| 0 <= i < b - a ==> !whitespace(#[trigger] t[i]),
            decreases n - b,
        {
            b += 1;
        }
        proof {
            lemma_first_where_unique(t, is_space(), b - a);
        }
        if a < b {
            let w: &'a str = s.substring_char(a, b);
            r.push(w);
            proof {
                assert(t.skip(b - a) =~= s@.skip(b as int));
                assert(t.take(b - a) =~= w@);
                assert(views(r@) =~= before.push(w@));
                assert(before.push(w@) + words_of(s@.skip(b as int)) =~= before + (seq![w@]
                    + words_of(s@.skip(b as int))));
            }
        } else {
            assert(a == n);
            assert(t.len() == 0);
            proof {
                lemma_no_words(s@.skip(n as int));
            }
        }
        pos = b;
    }
    proof {
        lemma_no_words(s@.skip(n as int));
        assert(views(r@) + seq![] =~= views(r@));
    }
    r
}

proof fn lemma_no_words(s: Seq<char>)
    requires
        s.len() == 0,
    ensures
        words_of(s) == Seq::<Seq<char>>::empty(),
{
    lemma_first_where(s, not_whitespace());
    assert(trim_start(s).len() == 0);
}

/// A line without the carriage return that ends it.
pub open spec fn without_cr(s: Seq<char>) -> Seq<char> {
    if s.len() > 0 && s.last() == '\r' {
        s.drop_last()
    } else {
        s
    }
}

/// The lines of a text, without their line ends (`\n` or `\r\n`); what follows the last line
/// end is a line unless it is empty.
pub open spec fn lines_of(s: Seq<char>) -> Seq<Seq<char>>
    decreases s.len(),
{
    let i = first_where(s, is_char('\n'));
    if s.len() == 0 {
        seq![]
    } else if i >= s.len() {
        seq![s]
    } else {
        proof {
            lemma_first_where(s, is_char('\n'));
        }
        seq![without_cr(s.take(i))] + lines_of(s.skip(i + 1))
    }
}

/// Splits a text into its lines.
pub fn lines<'a>(s: &'a str) -> (r: Vec<&'a str>)
    ensures
        views(r@) == lines_of(s@),
{
    let chars = chars_of(s);
    let n: usize = chars.len();
    let mut r: Vec<&'a str> = Vec::new();
    let mut pos: usize = 0;
    assert(s@.skip(0) =~= s@);
    assert(views(r@) + lines_of(s@) =~= lines_of(s@));
    while pos < n
        invariant
            pos <= n,
            n == chars@.len(),
            chars@ == s@,
            views(r@) + lines_of(s@.skip(pos as int)) == lines_of(s@),
        decreases n - pos,
    {
        let ghost rest = s@.skip(pos as int);
        let ghost before = views(r@);
        let mut b: usize = pos;
        while b < n && chars[b] != '\n'
            invariant
                pos <= b <= n,
                n == chars@.len(),
                chars@ == s@,
                rest == s@.skip(pos as int),
                forall|i: int| 0 <= i < b - pos ==> #[trigger] rest[i] != '\n',
            decreases n - b,
        {
            b += 1;
        }
        proof {
            lemma_first_where_unique(rest, is_char('\n'), b - pos);
        }
        let ghost line = rest.take(b - pos);
        assert(line =~= s@.subrange(pos as int, b as int));
        if b < n {
            let mut e: usize = b;
            if pos < b && chars[b - 1] == '\r' {
                e = b - 1;
                assert(line.last() == '\r');
                assert(line.drop_last() =~= s@.subrange(pos as int, e as int));
            }
            let w: &'a str = s.substring_char(pos, e);
            r.push(w);
            proof {
                assert(w@ == without_cr(line));
                assert(rest.skip(b - pos + 1) =~= s@.skip(b + 1));
                assert(views(r@) =~= before.push(w@));
                assert(before.push(w@) + lines_of(s@.skip(b + 1)) =~= before + (seq![w@]
                    + lines_of(s@.skip(b + 1))));
            }
            pos = b + 1;
        } else {
            let w: &'a str = s.substring_char(pos, n);
            r.push(w);
            proof {
                assert(w@ =~= rest);
                assert(views(r@) =~= before + seq![rest]);
                assert(s@.skip(n as int).len() == 0);
                assert(lines_of(s@.skip(n as int)) =~= Seq::<Seq<char>>::empty());
                assert(views(r@) + Seq::<Seq<char>>::empty() =~= views(r@));
            }
            pos = n;
        }
    }
    proof {
        assert(s@.skip(n as int).len() == 0);
        assert(lines_of(s@.skip(n as int)) =~= Seq::<Seq<char>>::empty());
        assert(views(r@) + Seq::<Seq<char>>::empty() =~= views(r@));
    }
    r
}

/// An ASCII capital letter as its small letter; any other character as it is.
pub open spec fn ascii_lower(c: char) -> char {
    if 'A' <= c <= 'Z' {
        ((c as u32 + 32) as u32) as char
    } else {
        c
    }
}

/// The text with its ASCII capital letters made small.
pub open spec fn lowered(s: Seq<char>) -> Seq<char> {
    s.map_values(|c: char| ascii_lower(c))
}

fn to_ascii_lower(c: char) -> (r: char)
    ensures
        r == ascii_lower(c),
{
    if 'A' <= c && c <= 'Z' {
        let b: u8 = c as u8;
        (b + 32) as char
    } else {
        c
    }
}

/// Compares two texts without regard to the case of ASCII letters.
pub fn eq_ignore_ascii_case(a: &str, b: &str) -> (r: bool)
    ensures
        r == (lowered(a@) == lowered(b@)),
{
    let x = chars_of(a);
    let y = chars_of(b);
    if x.len() != y.len() {
        assert(lowered(a@).len() != lowered(b@).len());
        return false;
    }
    let n: usize = x.len();
    let mut i: usize = 0;
    while i < n
        invariant
            i <= n,
            n == x@.len(),
            n == y@.len(),
            x@ == a@,
            y@ == b@,
            forall|k: int| 0 <= k < i ==> ascii_lower(#[trigger] a@[k]) == ascii_lower(b@[k]),
        decreases n - i,
    {
        if to_ascii_lower(x[i]) != to_ascii_lower(y[i]) {
            assert(lowered(a@)[i as int] != lowered(b@)[i as int]);
            return false;
        }
        i += 1;
    }
    assert(lowered(a@) =~= lowered(b@));
    true
}

/// Tests two texts for equality.
pub fn same_text(a: &str, b: &str) -> (r: bool)
    ensures
        r == (a@ == b@),
{
    let x = chars_of(a);
    let y = chars_of(b);
    if x.len() != y.len() {
        return false;
    }
    let n: usize = x.len();
    let mut i: usize = 0;
    while i < n
        invariant
            i <= n,
            n == x@.len(),
            n == y@.len(),
            x@ == a@,
            y@ == b@,
            forall|k: int| 0 <= k < i ==> #[trigger] a@[k] == b@[k],
        decreases n - i,
    {
        if x[i] != y[i] {
            return false;
        }
        i += 1;
    }
    assert(a@ =~= b@);
    true
}

/// The number that a run of decimal digits writes.
pub open spec fn decimal_value(s: Seq<char>) -> nat
    decreases s.len(),
{
    if s.len() == 0 {
        0
    } else {
        10 * decimal_value(s.drop_last()) + (s.last() as u32 - '0' as u32) as nat
    }
}

/// Digits only.
pub open spec fn all_digits(s: Seq<char>) -> bool {
    forall|i: int| 0 <= i < s.len() ==> '0' <= #[trigger] s[i] <= '9'
}

/// The number without the plus sign that may stand before it.
pub open spec fn without_plus(s: Seq<char>) -> Seq<char> {
    if s.len() > 0 && s[0] == '+' {
        s.drop_first()
    } else {
        s
    }
}

/// The 16-bit number that a text writes: digits, with a plus sign before them or not.
pub open spec fn u16_value(s: Seq<char>) -> Option<u16> {
    let d = without_plus(s);
    if d.len() > 0 && all_digits(d) && decimal_value(d) <= u16::MAX {
        Some(decimal_value(d) as u16)
    } else {
        None
    }
}

proof fn lemma_decimal_value_grows(s: Seq<char>, k: int)
    requires
        0 <= k <= s.len(),
        all_digits(s),
    ensures
        decimal_value(s.take(k)) <= decimal_value(s),
    decreases s.len(),
{
    if k < s.len() {
        assert(s.drop_last().take(k) =~= s.take(k));
        lemma_decimal_value_grows(s.drop_last(), k);
    } else {
        assert(s.take(k) =~= s);
    }
}

/// Reads a 16-bit number.
pub fn parse_u16(s: &str) -> (r: Option<u16>)
    ensures
        r == u16_value(s@),
{
    let chars = chars_of(s);
    let n: usize = chars.len();
    let from: usize = if n > 0 && chars[0] == '+' {
        1
    } else {
        0
    };
    let ghost d = without_plus(s@);
    assert(d =~= s@.skip(from as int));
    if from == n {
        return None;
    }
    let mut i: usize = from;
    let mut value: u32 = 0;
    assert(d.take(0) =~= Seq::<char>::empty());
    while i < n
        invariant
            from <= i <= n,
            n == chars@.len(),
            chars@ == s@,
            d == s@.skip(from as int),
            d == without_plus(s@),
            value <= u16::MAX,
            value == decimal_value(d.take(i - from)),
            forall|k: int| 0 <= k < i - from ==> '0' <= #[trigger] d[k] <= '9',
        decreases n - i,
    {
        let c: char = chars[i];
        assert(d[i - from] == c);
        if c < '0' || '9' < c {
            assert(!all_digits(d));
            return None;
        }
        assert(d.take(i - from + 1).drop_last() =~= d.take(i - from));
        value = value * 10 + (c as u32 - '0' as u32);
        i += 1;
        if value > 65535 {
            proof {
                if all_digits(d) {
                    lemma_decimal_value_grows(d, i - from);
                }
            }
            return None;
        }
    }
    assert(d.take(n - from) =~= d);
    Some(value as u16)
}

/// The decimal digits of a number, without leading zeros.
pub open spec fn decimal(n: nat) -> Seq<char>
    decreases n,
{
    let d = ('0' as u32 + n % 10) as u32 as char;
    if n < 10 {
        seq![d]
    } else {
        decimal(n / 10).push(d)
    }
}

/// A number that was written in decimal is read back.
pub proof fn law_decimal_reads_back(n: nat)
    ensures
        decimal(n).len() > 0,
        all_digits(decimal(n)),
        decimal_value(decimal(n)) == n,
    decreases n,
{
    let d = decimal(n);
    reveal_with_fuel(decimal_value, 2);
    if n < 10 {
        assert(d.drop_last() =~= seq![]);
    } else {
        law_decimal_reads_back(n / 10);
        assert(d.drop_last() =~= decimal(n / 10));
        assert forall|i: int| 0 <= i < d.len() implies '0' <= #[trigger] d[i] <= '9' by {
            if i < d.len() - 1 {
                assert(d[i] == decimal(n / 10)[i]);
            }
        }
    }
}

/// Writes one decimal digit.
fn digit_text(d: u64) -> (r: &'static str)
    requires
        d < 10,
    ensures
        r@ == seq![('0' as u32 + d) as u32 as char],
{
    proof {
        reveal_strlit("0");
        reveal_strlit("1");
        reveal_strlit("2");
        reveal_strlit("3");
        reveal_strlit("4");
        reveal_strlit("5");
        reveal_strlit("6");
        reveal_strlit("7");
        reveal_strlit("8");
        reveal_strlit("9");
    }
    let r = if d == 0 {
        "0"
    } else if d == 1 {
        "1"
    } else if d == 2 {
        "2"
    } else if d == 3 {
        "3"
    } else if d == 4 {
        "4"
    } else if d == 5 {
        "5"
    } else if d == 6 {
        "6"
    } else if d == 7 {
        "7"
    } else if d == 8 {
        "8"
    } else {
        "9"
    };
    assert(r@ =~= seq![('0' as u32 + d) as u32 as char]);
    r
}

/// Writes a number in decimal.
pub fn decimal_text(n: u64) -> (r: String)
    ensures
        r@ == decimal(n as nat),
    decreases n,
{
    let d = digit_text(n % 10);
    if n < 10 {
        let r = d.to_string();
        r
    } else {
        let mut r = decimal_text(n / 10);
        let ghost head = r@;
        r.append(d);
        assert(head + d@ =~= head.push(d@[0]));
        r
    }
}

/// Writes a truth value.
pub fn bool_text(b: bool) -> (r: &'static str)
    ensures
        r@ == bool_chars(b),
{
    if b {
        "true"
    } else {
        "false"
    }
}

/// A truth value as a word.
pub open spec fn bool_chars(b: bool) -> Seq<char> {
    if b {
        "true"@
    } else {
        "false"@
    }
}

/// The text in an `Option`.
pub open spec fn text_in(o: Option<String>) -> Option<Seq<char>> {
    match o {
        Some(s) => Some(s@),
        None => None,
    }
}

/// The views of the owned strings of a vector.
pub open spec fn string_views(v: Seq<String>) -> Seq<Seq<char>> {
    v.map_values(|s: String| s@)
}

/// Texts with a separator between each two of them.
pub open spec fn join_text(parts: Seq<Seq<char>>, sep: Seq<char>) -> Seq<char>
    decreases parts.len(),
{
    if parts.len() == 0 {
        seq![]
    } else if parts.len() == 1 {
        parts[0]
    } else {
        join_text(parts.drop_last(), sep) + sep + parts.last()
    }
}

/// Puts texts together with a separator between each two of them.
pub fn join_strings(parts: &Vec<String>, sep: &str) -> (r: String)
    ensures
        r@ == join_text(string_views(parts@), sep@),
{
    let ghost all = string_views(parts@);
    let mut r = String::new();
    let n: usize = parts.len();
    let mut i: usize = 0;
    assert(all.take(0) =~= seq![]);
    while i < n
        invariant
            i <= n,
            n == parts@.len(),
            all == string_views(parts@),
            r@ == join_text(all.take(i as int), sep@),
        decreases n - i,
    {
        if i > 0 {
            r.append(sep);
        }
        r.append(parts[i].as_str());
        proof {
            let head = all.take(i as int);
            let next = all.take(i + 1);
            assert(next.drop_last() =~= head);
            assert(next.last() == parts@[i as int]@);
            if i == 0 {
                assert(r@ =~= next[0]);
            }
        }
        i += 1;
    }
    assert(all.take(n as int) =~= all);
    r
}

proof fn lemma_first_where_append(s: Seq<char>, sep: char, tail: Seq<char>)
    requires
        first_where(s, is_char(sep)) < s.len() || tail.len() > 0 && tail[0] == sep || tail.len()
            == 0,
    ensures
        first_where(s + tail, is_char(sep)) == first_where(s, is_char(sep)),
{
    lemma_first_where(s, is_char(sep));
    let n = first_where(s, is_char(sep));
    assert forall|i: int| 0 <= i < n implies !is_char(sep)(#[trigger] (s + tail)[i]) by {
        assert((s + tail)[i] == s[i]);
    }
    if n < s.len() {
        assert((s + tail)[n] == s[n]);
    } else if tail.len() > 0 {
        assert((s + tail)[n] == tail[0]);
    }
    lemma_first_where_unique(s + tail, is_char(sep), n);
}

/// What follows the last separator is the last piece.
proof fn lemma_split_append(s: Seq<char>, sep: char, last: Seq<char>)
    requires
        !last.contains(sep),
    ensures
        split_at_char(s.push(sep) + last, sep) == split_at_char(s, sep).push(last),
    decreases s.len(),
{
    let whole = s.push(sep) + last;
    let tail = seq![sep] + last;
    assert(whole =~= s + tail);
    lemma_first_where_append(s, sep, tail);
    lemma_first_where(s, is_char(sep));
    let n = first_where(s, is_char(sep));
    if n < s.len() {
        assert(whole.take(n) =~= s.take(n));
        assert(whole.skip(n + 1) =~= s.skip(n + 1).push(sep) + last);
        lemma_split_append(s.skip(n + 1), sep, last);
        assert(split_at_char(whole, sep) =~= split_at_char(s, sep).push(last));
    } else {
        assert(whole.take(n) =~= s);
        assert(whole.skip(n + 1) =~= last);
        assert forall|i: int| 0 <= i < last.len() implies !is_char(sep)(#[trigger] last[i]) by {
            assert(last.contains(last[i]));
        }
        lemma_first_where_unique(last, is_char(sep), last.len() as int);
        assert(split_at_char(last, sep) =~= seq![last]);
        assert(split_at_char(s, sep) =~= seq![s]);
        assert(split_at_char(whole, sep) =~= split_at_char(s, sep).push(last));
    }
}

/// Splitting at the separator undoes joining with it, where no part has the separator in it.
pub proof fn law_split_undoes_join(parts: Seq<Seq<char>>, sep: char)
    requires
        parts.len() > 0,
        forall|i: int| 0 <= i < parts.len() ==> !(#[trigger] parts[i]).contains(sep),
    ensures
        split_at_char(join_text(parts, seq![sep]), sep) == parts,
    decreases parts.len(),
{
    if parts.len() == 1 {
        let p = parts[0];
        assert forall|i: int| 0 <= i < p.len() implies !is_char(sep)(#[trigger] p[i]) by {
            assert(p.contains(p[i]));
        }
        lemma_first_where_unique(p, is_char(sep), p.len() as int);
        assert(split_at_char(p, sep) =~= parts);
    } else {
        let head = parts.drop_last();
        law_split_undoes_join(head, sep);
        lemma_split_append(join_text(head, seq![sep]), sep, parts.last());
        assert(join_text(head, seq![sep]) + seq![sep] + parts.last() =~= join_text(
            head,
            seq![sep],
        ).push(sep) + parts.last());
        assert(head.push(parts.last()) =~= parts);
    }
}

/// White space is what Unicode lists under `White_Space`: these characters and no others.
pub proof fn law_whitespace(c: char)
    ensures
        whitespace(c) <==> seq![
            0x9u32,
            0xa,
            0xb,
            0xc,
            0xd,
            0x20,
            0x85,
            0xa0,
            0x1680,
            0x2000,
            0x2001,
            0x2002,
            0x2003,
            0x2004,
            0x2005,
            0x2006,
            0x2007,
            0x2008,
            0x2009,
            0x200a,
            0x2028,
            0x2029,
            0x202f,
            0x205f,
            0x3000,
        ].contains(c as u32),
{
    let t = seq![
        0x9u32,
        0xa,
        0xb,
        0xc,
        0xd,
        0x20,
        0x85,
        0xa0,
        0x1680,
        0x2000,
        0x2001,
        0x2002,
        0x2003,
        0x2004,
        0x2005,
        0x2006,
        0x2007,
        0x2008,
        0x2009,
        0x200a,
        0x2028,
        0x2029,
        0x202f,
        0x205f,
        0x3000,
    ];
    assert(t[0] == 0x9 && t[1] == 0xa && t[2] == 0xb && t[3] == 0xc && t[4] == 0xd);
    assert(t[5] == 0x20 && t[6] == 0x85 && t[7] == 0xa0 && t[8] == 0x1680);
    assert(t[9] == 0x2000 && t[10] == 0x2001 && t[11] == 0x2002 && t[12] == 0x2003);
    assert(t[13] == 0x2004 && t[14] == 0x2005 && t[15] == 0x2006 && t[16] == 0x2007);
    assert(t[17] == 0x2008 && t[18] == 0x2009 && t[19] == 0x200a && t[20] == 0x2028);
    assert(t[21] == 0x2029 && t[22] == 0x202f && t[23] == 0x205f && t[24] == 0x3000);
}

proof fn lemma_trim_end(s: Seq<char>) -> (b: int)
    ensures
        0 <= b <= s.len(),
        trim_end(s) == s.take(b),
        forall|i: int| b <= i < s.len() ==> whitespace(#[trigger] s[i]),
        b > 0 ==> !whitespace(s[b - 1]),
    decreases s.len(),
{
    if s.len() > 0 && whitespace(s.last()) {
        let t = s.drop_last();
        let b = lemma_trim_end(t);
        assert(t.take(b) =~= s.take(b));
        assert forall|i: int| b <= i < s.len() implies whitespace(#[trigger] s[i]) by {
            if i < t.len() {
                assert(t[i] == s[i]);
            }
        }
        if b > 0 {
            assert(t[b - 1] == s[b - 1]);
        }
        b
    } else {
        assert(s.take(s.len() as int) =~= s);
        s.len() as int
    }
}

/// A trimmed text is the text without white space at its two ends: only white space is gone, and
/// none is left at an end.
pub proof fn law_trim(s: Seq<char>) -> (r: (int, int))
    ensures
        0 <= r.0 <= r.1 <= s.len(),
        trimmed(s) == s.subrange(r.0, r.1),
        forall|i: int| 0 <= i < r.0 ==> whitespace(#[trigger] s[i]),
        forall|i: int| r.1 <= i < s.len() ==> whitespace(#[trigger] s[i]),
        r.0 < r.1 ==> !whitespace(s[r.0]) && !whitespace(s[r.1 - 1]),
{
    lemma_first_where(s, not_whitespace());
    let a = first_where(s, not_whitespace());
    let t = s.skip(a);
    let b = lemma_trim_end(t);
    assert(t.take(b) =~= s.subrange(a, a + b));
    assert forall|i: int| 0 <= i < a implies whitespace(#[trigger] s[i]) by {
        assert(!not_whitespace()(s[i]));
    }
    assert forall|i: int| a + b <= i < s.len() implies whitespace(#[trigger] s[i]) by {
        assert(s[i] == t[i - a]);
    }
    if b > 0 {
        assert(t[b - 1] == s[a + b - 1]);
        assert(not_whitespace()(s[a]));
    }
    (a, a + b)
}

/// A text that is trimmed and has no white space at its ends stays as it is, whatever white space
/// is put around it.
pub proof fn law_trim_ignores_outer_space(before: Seq<char>, s: Seq<char>, after: Seq<char>)
    requires
        forall|i: int| 0 <= i < before.len() ==> whitespace(#[trigger] before[i]),
        forall|i: int| 0 <= i < after.len() ==> whitespace(#[trigger] after[i]),
        s.len() > 0,
        !whitespace(s[0]),
        !whitespace(s.last()),
    ensures
        trimmed(before + s + after) == s,
{
    let whole = before + s + after;
    let (a, b) = law_trim(whole);
    let n = before.len() as int;
    assert(whole[n] == s[0]);
    assert(whole[n + s.len() - 1] == s.last());
    if a < n {
        if a < b {
            assert(whole[a] == before[a]);
        } else {
            assert(whitespace(whole[n]));
        }
    }
    if b > n + s.len() {
        if a < b {
            assert(whole[b - 1] == after[b - 1 - n - s.len()]);
        }
    }
    assert(a == n && b == n + s.len()) by {
        if a > n {
            assert(whitespace(whole[n]));
        }
        if b < n + s.len() {
            assert(whitespace(whole[n + s.len() - 1]));
        }
    }
    assert(whole.subrange(a, b) =~= s);
}

/// Two lists of texts that are joined, with the separator between them, make what the whole list
/// makes; nothing is added to a single text.
pub proof fn law_join(first: Seq<Seq<char>>, second: Seq<Seq<char>>, sep: Seq<char>, one: Seq<char>)
    requires
        first.len() > 0,
        second.len() > 0,
    ensures
        join_text(first + second, sep) == join_text(first, sep) + sep + join_text(second, sep),
        join_text(seq![one], sep) == one,
        join_text(Seq::<Seq<char>>::empty(), sep) == Seq::<char>::empty(),
    decreases second.len(),
{
    let all = first + second;
    if second.len() == 1 {
        assert(all.drop_last() =~= first);
        assert(all.last() == second[0]);
    } else {
        let head = second.drop_last();
        law_join(first, head, sep, one);
        assert(all.drop_last() =~= first + head);
        assert(join_text(all, sep) =~= join_text(first, sep) + sep + join_text(second, sep));
    }
}

/// The pieces that a text is split into have no separator, and joined with it they make the text
/// again.
pub proof fn law_join_undoes_split(s: Seq<char>, sep: char)
    ensures
        split_at_char(s, sep).len() > 0,
        join_text(split_at_char(s, sep), seq![sep]) == s,
        forall|i: int|
            0 <= i < split_at_char(s, sep).len() ==> !(#[trigger] split_at_char(s, sep)[i]).contains(
                sep,
            ),
    decreases s.len(),
{
    lemma_first_where(s, is_char(sep));
    let n = first_where(s, is_char(sep));
    let all = split_at_char(s, sep);
    if n < s.len() {
        let first = s.take(n);
        let tail = s.skip(n + 1);
        let rest = split_at_char(tail, sep);
        law_join_undoes_split(tail, sep);
        law_join(seq![first], rest, seq![sep], first);
        assert(first + seq![sep] + tail =~= s) by {
            assert(is_char(sep)(s[n]));
        }
        assert forall|i: int| 0 <= i < all.len() implies !(#[trigger] all[i]).contains(sep) by {
            if i == 0 {
                assert forall|k: int| 0 <= k < first.len() implies first[k] != sep by {
                    assert(!is_char(sep)(s[k]));
                }
            } else {
                assert(all[i] == rest[i - 1]);
            }
        }
    } else {
        assert forall|k: int| 0 <= k < s.len() implies s[k] != sep by {
            assert(!is_char(sep)(s[k]));
        }
    }
}

/// A text begins with another exactly where it is that text with something after it.
pub proof fn law_begins_with(prefix: Seq<char>, rest: Seq<char>, s: Seq<char>)
    ensures
        begins_with(prefix + rest, prefix),
        begins_with(s, prefix) ==> s == prefix + s.skip(prefix.len() as int),
{
    assert((prefix + rest).take(prefix.len() as int) =~= prefix);
    if begins_with(s, prefix) {
        assert(s =~= s.take(prefix.len() as int) + s.skip(prefix.len() as int));
    }
}

/// A text is split at the first separator: what comes before has none, and the two parts with the
/// separator between them are the text. It is split wherever there is a separator.
pub proof fn law_split_first(s: Seq<char>, sep: char)
    ensures
        match split_first(s, sep) {
            Some((before, after)) => !before.contains(sep) && s == before.push(sep) + after,
            None => !s.contains(sep),
        },
{
    lemma_first_where(s, is_char(sep));
    let n = first_where(s, is_char(sep));
    if n < s.len() {
        assert(is_char(sep)(s[n]));
        assert(s =~= s.take(n).push(sep) + s.skip(n + 1));
        assert forall|k: int| 0 <= k < n implies s.take(n)[k] != sep by {
            assert(!is_char(sep)(s[k]));
        }
    } else {
        assert forall|k: int| 0 <= k < s.len() implies s[k] != sep by {
            assert(!is_char(sep)(s[k]));
        }
    }
}

proof fn lemma_words_from(a: Seq<char>, b: Seq<char>)
    requires
        trim_start(a) == trim_start(b),
    ensures
        words_of(a) == words_of(b),
{
}

proof fn lemma_leading_space(c: char, b: Seq<char>)
    requires
        whitespace(c),
    ensures
        words_of(seq![c] + b) == words_of(b),
{
    let s = seq![c] + b;
    lemma_first_where(b, not_whitespace());
    let n = first_where(b, not_whitespace());
    assert forall|i: int| 0 <= i < n + 1 implies !not_whitespace()(#[trigger] s[i]) by {
        if i > 0 {
            assert(s[i] == b[i - 1]);
            assert(!not_whitespace()(b[i - 1]));
        }
    }
    if n < b.len() {
        assert(s[n + 1] == b[n]);
    }
    lemma_first_where_unique(s, not_whitespace(), n + 1);
    assert(s.skip(n + 1) =~= b.skip(n));
    lemma_words_from(s, b);
}

/// White space parts words: the words of a text with white space in it are those before it and
/// those after it. A run without white space is one word.
pub proof fn law_words(a: Seq<char>, c: char, b: Seq<char>, word: Seq<char>)
    requires
        whitespace(c),
        word.len() > 0,
        forall|i: int| 0 <= i < word.len() ==> !whitespace(#[trigger] word[i]),
    ensures
        words_of(a.push(c) + b) == words_of(a) + words_of(b),
        words_of(word) == seq![word],
        words_of(Seq::<char>::empty()) == Seq::<Seq<char>>::empty(),
{
    lemma_words_apart(a, c, b);
    lemma_first_where_unique(word, not_whitespace(), 0);
    assert(word.skip(0) =~= word);
    lemma_first_where_unique(word, is_space(), word.len() as int);
    assert(word.take(word.len() as int) =~= word);
    lemma_no_words(word.skip(word.len() as int));
    lemma_no_words(Seq::<char>::empty());
    assert(words_of(word) =~= seq![word]);
}

proof fn lemma_words_apart(a: Seq<char>, c: char, b: Seq<char>)
    requires
        whitespace(c),
    ensures
        words_of(a.push(c) + b) == words_of(a) + words_of(b),
    decreases a.len(),
{
    let s = a.push(c) + b;
    lemma_first_where(a, not_whitespace());
    let n = first_where(a, not_whitespace());
    if n == a.len() {
        lemma_no_words_of_space(a);
        let tail = seq![c] + b;
        lemma_leading_space(c, b);
        lemma_first_where(tail, not_whitespace());
        let m = first_where(tail, not_whitespace());
        assert forall|i: int| 0 <= i < n + m implies !not_whitespace()(#[trigger] s[i]) by {
            if i < n {
                assert(s[i] == a[i]);
                assert(!not_whitespace()(a[i]));
            } else {
                assert(s[i] == tail[i - n]);
                assert(!not_whitespace()(tail[i - n]));
            }
        }
        if m < tail.len() {
            assert(s[n + m] == tail[m]);
        }
        lemma_first_where_unique(s, not_whitespace(), n + m);
        assert(s.skip(n + m) =~= tail.skip(m));
        lemma_words_from(s, tail);
        assert(words_of(a) + words_of(b) =~= words_of(b));
    } else {
        assert forall|i: int| 0 <= i < n implies !not_whitespace()(#[trigger] s[i]) by {
            assert(s[i] == a[i]);
            assert(!not_whitespace()(a[i]));
        }
        assert(s[n] == a[n]);
        lemma_first_where_unique(s, not_whitespace(), n);
        let ta = a.skip(n);
        let ts = s.skip(n);
        assert(ts =~= ta.push(c) + b);
        lemma_first_where(ta, is_space());
        let i = first_where(ta, is_space());
        assert(ta[0] == a[n]);
        assert(i > 0);
        assert forall|k: int| 0 <= k < i implies !is_space()(#[trigger] ts[k]) by {
            assert(ts[k] == ta[k]);
            assert(!is_space()(ta[k]));
        }
        if i < ta.len() {
            assert(ts[i] == ta[i]);
        } else {
            assert(ts[i] == c);
        }
        lemma_first_where_unique(ts, is_space(), i);
        assert(ts.take(i) =~= ta.take(i));
        if i < ta.len() {
            assert(ts.skip(i) =~= ta.skip(i).push(c) + b);
            lemma_words_apart(ta.skip(i), c, b);
        } else {
            assert(ts.skip(i) =~= seq![c] + b);
            lemma_leading_space(c, b);
            lemma_no_words(ta.skip(i));
        }
        assert(words_of(s) =~= words_of(a) + words_of(b));
    }
}

proof fn lemma_no_words_of_space(s: Seq<char>)
    requires
        first_where(s, not_whitespace()) == s.len(),
    ensures
        words_of(s) == Seq::<Seq<char>>::empty(),
{
    assert(trim_start(s).len() == 0);
}

/// A line end parts lines: the lines of a text are those up to any line end in it and those after
/// it. What has no line end is one line, and a line end does not belong to its line, nor does a
/// carriage return before it.
pub proof fn law_lines(a: Seq<char>, b: Seq<char>, line: Seq<char>)
    requires
        !line.contains('\n'),
    ensures
        lines_of(a.push('\n') + b) == lines_of(a.push('\n')) + lines_of(b),
        lines_of(line.push('\r').push('\n')) == seq![line],
        !(line.len() > 0 && line.last() == '\r') ==> lines_of(line.push('\n')) == seq![line],
        line.len() > 0 ==> lines_of(line) == seq![line],
        lines_of(Seq::<char>::empty()) == Seq::<Seq<char>>::empty(),
{
    lemma_lines_apart(a, b);
    assert forall|i: int| 0 <= i < line.len() implies line[i] != '\n' by {
        assert(line.contains(line[i]));
    }
    lemma_one_line(line);
    let cr = line.push('\r');
    assert forall|i: int| 0 <= i < cr.len() implies cr[i] != '\n' by {
        if i < line.len() {
            assert(cr[i] == line[i]);
        }
    }
    lemma_one_line(cr);
    assert(cr.drop_last() =~= line);
    lemma_first_where_unique(line, is_char('\n'), line.len() as int);
}

proof fn lemma_one_line(line: Seq<char>)
    requires
        forall|i: int| 0 <= i < line.len() ==> #[trigger] line[i] != '\n',
    ensures
        lines_of(line.push('\n')) == seq![without_cr(line)],
{
    let s = line.push('\n');
    let n = line.len() as int;
    assert forall|i: int| 0 <= i < n implies !is_char('\n')(#[trigger] s[i]) by {
        assert(s[i] == line[i]);
    }
    lemma_first_where_unique(s, is_char('\n'), n);
    assert(s.take(n) =~= line);
    assert(s.skip(n + 1) =~= Seq::<char>::empty());
    assert(lines_of(Seq::<char>::empty()) =~= Seq::<Seq<char>>::empty());
    assert(lines_of(s) =~= seq![without_cr(line)]);
}

proof fn lemma_lines_apart(a: Seq<char>, b: Seq<char>)
    ensures
        lines_of(a.push('\n') + b) == lines_of(a.push('\n')) + lines_of(b),
    decreases a.len(),
{
    let s = a.push('\n') + b;
    let u = a.push('\n');
    lemma_first_where(a, is_char('\n'));
    let n = first_where(a, is_char('\n'));
    assert forall|i: int| 0 <= i < n implies !is_char('\n')(#[trigger] s[i]) by {
        assert(s[i] == a[i]);
        assert(!is_char('\n')(a[i]));
    }
    assert forall|i: int| 0 <= i < n implies !is_char('\n')(#[trigger] u[i]) by {
        assert(u[i] == a[i]);
        assert(!is_char('\n')(a[i]));
    }
    if n < a.len() {
        assert(s[n] == a[n] && u[n] == a[n]);
    }
    lemma_first_where_unique(s, is_char('\n'), n);
    lemma_first_where_unique(u, is_char('\n'), n);
    assert(s.take(n) =~= u.take(n));
    if n < a.len() {
        let rest = a.skip(n + 1);
        assert(s.skip(n + 1) =~= rest.push('\n') + b);
        assert(u.skip(n + 1) =~= rest.push('\n'));
        lemma_lines_apart(rest, b);
    } else {
        assert(s.skip(n + 1) =~= b);
        assert(u.skip(n + 1) =~= Seq::<char>::empty());
        assert(lines_of(Seq::<char>::empty()) =~= Seq::<Seq<char>>::empty());
    }
    assert(lines_of(s) =~= lines_of(u) + lines_of(b));
}

/// Two texts are the same but for the case of ASCII letters exactly where they are as long as
/// each other, and at each place have the same character, or the two cases of one ASCII letter.
pub proof fn law_case(a: Seq<char>, b: Seq<char>)
    ensures
        lowered(a) == lowered(b) <==> a.len() == b.len() && forall|i: int|
            0 <= i < a.len() ==> {
                ||| #[trigger] a[i] == b[i]
                ||| 'A' <= a[i] <= 'Z' && b[i] as u32 == a[i] as u32 + 32
                ||| 'A' <= b[i] <= 'Z' && a[i] as u32 == b[i] as u32 + 32
            },
{
    if lowered(a) == lowered(b) {
        assert(lowered(a).len() == a.len() && lowered(b).len() == b.len());
        assert forall|i: int| 0 <= i < a.len() implies {
            ||| #[trigger] a[i] == b[i]
            ||| 'A' <= a[i] <= 'Z' && b[i] as u32 == a[i] as u32 + 32
            ||| 'A' <= b[i] <= 'Z' && a[i] as u32 == b[i] as u32 + 32
        } by {
            assert(lowered(a)[i] == ascii_lower(a[i]));
            assert(lowered(b)[i] == ascii_lower(b[i]));
        }
    }
    if a.len() == b.len() && forall|i: int|
        0 <= i < a.len() ==> {
            ||| #[trigger] a[i] == b[i]
            ||| 'A' <= a[i] <= 'Z' && b[i] as u32 == a[i] as u32 + 32
            ||| 'A' <= b[i] <= 'Z' && a[i] as u32 == b[i] as u32 + 32
        } {
        assert forall|i: int| 0 <= i < a.len() implies lowered(a)[i] == lowered(b)[i] by {
            assert(ascii_lower(a[i]) == ascii_lower(b[i]));
        }
        assert(lowered(a) =~= lowered(b));
    }
}

/// A digit more is ten times the number and the digit; a number of one digit is that digit.
pub proof fn law_decimal_digits(n: nat, d: nat)
    requires
        d < 10,
    ensures
        n > 0 ==> decimal(10 * n + d) == decimal(n).push(('0' as u32 + d) as u32 as char),
        decimal(d) == seq![('0' as u32 + d) as u32 as char],
{
    assert((10 * n + d) / 10 == n);
    assert((10 * n + d) % 10 == d);
}

/// A number of 16 bits is read from its digits, with a plus sign or zeros before them or not;
/// what is too large or has any other character in it is no such number.
pub proof fn law_u16(n: nat, s: Seq<char>)
    ensures
        u16_value(decimal(n)) == (if n <= 65535 {
            Some(n as u16)
        } else {
            None
        }),
        u16_value(seq!['+'] + decimal(n)) == u16_value(decimal(n)),
        u16_value(seq!['0'] + decimal(n)) == u16_value(decimal(n)),
        u16_value(s) is Some ==> s.len() > 0 && forall|i: int|
            0 <= i < s.len() ==> '0' <= #[trigger] s[i] <= '9' || i == 0 && s[i] == '+',
        u16_value(Seq::<char>::empty()) is None,
        u16_value(seq!['+']) is None,
{
    law_decimal_reads_back(n);
    let d = decimal(n);
    assert(d[0] != '+') by {
        assert('0' <= d[0] <= '9');
    }
    let plus = seq!['+'] + d;
    assert(plus.drop_first() =~= d);
    let zero = seq!['0'] + d;
    lemma_leading_zero(d);
    assert forall|i: int| 0 <= i < zero.len() implies '0' <= #[trigger] zero[i] <= '9' by {
        if i > 0 {
            assert(zero[i] == d[i - 1]);
        }
    }
    assert(seq!['+'].drop_first() =~= Seq::<char>::empty());
    if u16_value(s) is Some {
        let t = without_plus(s);
        assert forall|i: int| 0 <= i < s.len() implies '0' <= #[trigger] s[i] <= '9' || i == 0
            && s[i] == '+' by {
            if s[0] == '+' {
                if i > 0 {
                    assert(t[i - 1] == s[i]);
                }
            } else {
                assert(t[i] == s[i]);
            }
        }
    }
}

proof fn lemma_leading_zero(d: Seq<char>)
    ensures
        decimal_value(seq!['0'] + d) == decimal_value(d),
    decreases d.len(),
{
    let z = seq!['0'] + d;
    if d.len() == 0 {
        reveal_with_fuel(decimal_value, 2);
        assert(z.drop_last() =~= Seq::<char>::empty());
    } else {
        assert(z.drop_last() =~= seq!['0'] + d.drop_last());
        lemma_leading_zero(d.drop_last());
    }
}

/// Reads bytes as text with `std::str::from_utf8`: a text where they are UTF-8, and nothing where
/// they are not.
#[verifier::external_body]
pub(crate) fn utf8_text(bytes: &[u8]) -> (r: Option<&str>)
    ensures
        r is Some <==> valid_utf8(bytes@),
        r matches Some(s) ==> s@ == decode_utf8(bytes@),
{
    std::str::from_utf8(bytes).ok()
}

/// The views of texts are the texts, each in its place.
pub proof fn law_views(borrowed: Seq<&str>, owned: Seq<String>, i: int)
    ensures
        views(borrowed).len() == borrowed.len(),
        0 <= i < borrowed.len() ==> views(borrowed)[i] == borrowed[i]@,
        string_views(owned).len() == owned.len(),
        0 <= i < owned.len() ==> string_views(owned)[i] == owned[i]@,
{
}

} // verus!
