//! Text helpers over `String`/`&str`, stated over their character views.
use vstd::prelude::*;
use vstd::utf8::{decode_utf8, encode_utf8, encode_utf8_decode_utf8, valid_utf8};

verus! {

/// What `String::from_utf8_lossy` makes of `bytes`.
pub uninterp spec fn utf8_lossy(bytes: Seq<u8>) -> Seq<char>;

/// The text `String::from_utf8_lossy` gives for `bytes`: their decoding when they are valid
/// UTF-8, and otherwise what std makes of them.
pub open spec fn lossy_text(bytes: Seq<u8>) -> Seq<char> {
    if valid_utf8(bytes) {
        decode_utf8(bytes)
    } else {
        utf8_lossy(bytes)
    }
}

/// Decodes `bytes` as UTF-8, replacing invalid sequences (`String::from_utf8_lossy`).
/// Trusted: the result is the decoded text whenever the bytes are valid UTF-8, as std
/// documents; on invalid input it is only named.
#[verifier::external_body]
pub(crate) fn string_from_utf8_lossy(bytes: &[u8]) -> (r: String)
    ensures
        r@ == utf8_lossy(bytes@),
        valid_utf8(bytes@) ==> r@ == decode_utf8(bytes@),
{
    String::from_utf8_lossy(bytes).into_owned()
}

/// Decodes `bytes` as UTF-8 into a new string (`std::str::from_utf8`, then copied).
/// Trusted: `Some` exactly when the bytes are valid UTF-8, holding their decoding, as std
/// documents.
#[verifier::external_body]
pub(crate) fn string_from_utf8(bytes: &[u8]) -> (r: Option<String>)
    ensures
        r is Some <==> valid_utf8(bytes@),
        r matches Some(s) ==> s@ == decode_utf8(bytes@),
{
    match std::str::from_utf8(bytes) {
        Ok(s) => Some(s.to_string()),
        Err(_) => None,
    }
}

/// Appends one character (`String::push`).
/// Trusted: the string gains exactly `c` at its end, as std documents.
#[verifier::external_body]
pub(crate) fn push_char(s: &mut String, c: char)
    ensures
        final(s)@ == old(s)@.push(c),
{
    s.push(c);
}

/// Appends a text (`String::push_str`).
/// Trusted: the string gains exactly the characters of `t` at its end, as std documents.
#[verifier::external_body]
pub(crate) fn push_str(s: &mut String, t: &str)
    ensures
        final(s)@ == old(s)@ + t@,
{
    s.push_str(t);
}

/// What `str::to_lowercase` makes of a text.
pub uninterp spec fn lowercase_of(s: Seq<char>) -> Seq<char>;

/// The text in lower case (`str::to_lowercase`).
/// Trusted: the result is named `lowercase_of`; nothing else is stated.
#[verifier::external_body]
pub(crate) fn to_lowercase(s: &str) -> (r: String)
    ensures
        r@ == lowercase_of(s@),
{
    s.to_lowercase()
}

/// Byte-wise equality of two slices.
pub fn bytes_eq(a: &[u8], b: &[u8]) -> (r: bool)
    ensures
        r == (a@ == b@),
{
    if a.len() != b.len() {
        return false;
    }
    let mut i: usize = 0;
    while i < a.len()
        invariant
            a@.len() == b@.len(),
            i <= a@.len(),
            forall|j: int| 0 <= j < i ==> a@[j] == b@[j],
        decreases a@.len() - i,
    {
        if a[i] != b[i] {
            return false;
        }
        i += 1;
    }
    assert(a@ =~= b@);
    true
}

/// Equality of two texts.
pub fn str_eq(a: &str, b: &str) -> (r: bool)
    ensures
        r == (a@ == b@),
{
    let r = bytes_eq(a.as_bytes(), b.as_bytes());
    proof {
        encode_utf8_decode_utf8(a@);
        encode_utf8_decode_utf8(b@);
    }
    r
}

/// Whether a text is empty.
pub fn str_is_empty(s: &str) -> (r: bool)
    ensures
        r == (s@.len() == 0),
{
    let r = s.as_bytes().len() == 0;
    proof {
        encode_utf8_decode_utf8(s@);
        if s@.len() == 0 {
            assert(s@ =~= Seq::<char>::empty());
            assert(vstd::utf8::encode_utf8(s@) =~= Seq::<u8>::empty());
        } else if r {
            assert(vstd::utf8::encode_utf8(s@) =~= Seq::<u8>::empty());
            assert(decode_utf8(Seq::<u8>::empty()) =~= Seq::<char>::empty());
        }
    }
    r
}

/// The characters of a text.
pub fn str_chars(s: &str) -> (v: Vec<char>)
    ensures
        v@ == s@,
{
    let mut v = Vec::new();
    for c in it: s.chars()
        invariant
            v@ == it.seq().take(it.index() as int),
    {
        v.push(c);
    }
    assert(v@ =~= s@);
    v
}

/// A string holding `chars`.
pub fn string_from_chars(chars: &[char]) -> (s: String)
    ensures
        s@ == chars@,
{
    let mut s = String::new();
    let mut i: usize = 0;
    while i < chars.len()
        invariant
            i <= chars@.len(),
            s@ == chars@.subrange(0, i as int),
        decreases chars@.len() - i,
    {
        push_char(&mut s, chars[i]);
        i += 1;
        assert(s@ =~= chars@.subrange(0, i as int));
    }
    assert(chars@.subrange(0, chars@.len() as int) =~= chars@);
    s
}

/// The pieces of `s` between occurrences of `sep`, as `str::split` gives them: one more
/// piece than there are separators, empty pieces included.
pub open spec fn split_on(s: Seq<char>, sep: char) -> Seq<Seq<char>>
    decreases s.len(),
{
    if s.len() == 0 {
        seq![Seq::empty()]
    } else {
        let p = split_on(s.drop_last(), sep);
        if s.last() == sep {
            p.push(Seq::empty())
        } else {
            p.update(p.len() - 1, p.last().push(s.last()))
        }
    }
}

/// `split_on` never gives an empty list of pieces.
pub proof fn lemma_split_on_nonempty(s: Seq<char>, sep: char)
    ensures
        split_on(s, sep).len() >= 1,
    decreases s.len(),
{
    if s.len() > 0 {
        lemma_split_on_nonempty(s.drop_last(), sep);
    }
}

/// Splitting `a`, a separator and a text `b` free of separators gives the pieces of `a`
/// followed by `b`.
pub proof fn lemma_split_on_append(a: Seq<char>, sep: char, b: Seq<char>)
    requires
        forall|i: int| 0 <= i < b.len() ==> b[i] != sep,
    ensures
        split_on(a + seq![sep] + b, sep) == split_on(a, sep).push(b),
    decreases b.len(),
{
    if b.len() == 0 {
        assert((a + seq![sep] + b).drop_last() =~= a);
        assert(a + seq![sep] + b =~= a.push(sep));
        assert(b =~= Seq::<char>::empty());
    } else {
        let b0 = b.drop_last();
        lemma_split_on_append(a, sep, b0);
        let s = a + seq![sep] + b;
        assert(s.drop_last() =~= a + seq![sep] + b0);
        assert(s.last() == b.last());
        assert(b0.push(b.last()) =~= b);
        let p = split_on(a, sep).push(b0);
        assert(p.update(p.len() - 1, p.last().push(b.last())) =~= split_on(a, sep).push(b));
    }
}

/// A text free of separators is a single piece.
pub proof fn lemma_split_on_single(b: Seq<char>, sep: char)
    requires
        forall|i: int| 0 <= i < b.len() ==> b[i] != sep,
    ensures
        split_on(b, sep) == seq![b],
    decreases b.len(),
{
    if b.len() == 0 {
        assert(b =~= Seq::<char>::empty());
    } else {
        lemma_split_on_single(b.drop_last(), sep);
        assert(b.drop_last().push(b.last()) =~= b);
    }
}

/// Whether `c` has the Unicode White_Space property (`char::is_whitespace`).
pub open spec fn is_ws(c: char) -> bool {
    ('\u{9}' <= c <= '\u{d}') || c == ' ' || c == '\u{85}' || c == '\u{a0}' || c == '\u{1680}'
        || ('\u{2000}' <= c <= '\u{200a}') || c == '\u{2028}' || c == '\u{2029}' || c
        == '\u{202f}' || c == '\u{205f}' || c == '\u{3000}'
}

/// Whether `c` has the Unicode White_Space property.
pub fn is_whitespace(c: char) -> (r: bool)
    ensures
        r == is_ws(c),
{
    ('\u{9}' <= c && c <= '\u{d}') || c == ' ' || c == '\u{85}' || c == '\u{a0}' || c
        == '\u{1680}' || ('\u{2000}' <= c && c <= '\u{200a}') || c == '\u{2028}' || c
        == '\u{2029}' || c == '\u{202f}' || c == '\u{205f}' || c == '\u{3000}'
}

/// `s` without its leading white space.
pub open spec fn trim_start(s: Seq<char>) -> Seq<char>
    decreases s.len(),
{
    if s.len() > 0 && is_ws(s[0]) {
        trim_start(s.drop_first())
    } else {
        s
    }
}

/// `s` without its trailing white space.
pub open spec fn trim_end(s: Seq<char>) -> Seq<char>
    decreases s.len(),
{
    if s.len() > 0 && is_ws(s.last()) {
        trim_end(s.drop_last())
    } else {
        s
    }
}

/// `s` without leading and trailing white space (`str::trim`).
pub open spec fn trim_ws(s: Seq<char>) -> Seq<char> {
    trim_end(trim_start(s))
}

/// The position of the first `c` in `s`, if any.
pub open spec fn first_index_of(s: Seq<char>, c: char) -> Option<int> {
    if exists|i: int| 0 <= i < s.len() && s[i] == c {
        Some(
            choose|i: int| 0 <= i < s.len() && s[i] == c && forall|j: int| 0 <= j < i ==> s[j] != c,
        )
    } else {
        None
    }
}

/// The bounds of `cs[a..b]` without its leading and trailing white space.
pub fn trim_range(cs: &Vec<char>, a: usize, b: usize) -> (r: (usize, usize))
    requires
        a <= b <= cs@.len(),
    ensures
        a <= r.0 <= r.1 <= b,
        cs@.subrange(r.0 as int, r.1 as int) == trim_ws(cs@.subrange(a as int, b as int)),
{
    let mut i = a;
    while i < b && is_whitespace(cs[i])
        invariant
            a <= i <= b <= cs@.len(),
            trim_start(cs@.subrange(i as int, b as int)) == trim_start(
                cs@.subrange(a as int, b as int),
            ),
        decreases b - i,
    {
        assert(cs@.subrange(i as int, b as int).drop_first() =~= cs@.subrange(i + 1, b as int));
        i += 1;
    }
    let mut j = b;
    proof {
        if i < b {
            assert(cs@.subrange(i as int, b as int)[0] == cs@[i as int]);
        } else {
            assert(cs@.subrange(i as int, b as int).len() == 0);
        }
    }
    while j > i && is_whitespace(cs[j - 1])
        invariant
            a <= i <= j <= b <= cs@.len(),
            trim_end(cs@.subrange(i as int, j as int)) == trim_ws(cs@.subrange(a as int, b as int)),
        decreases j - i,
    {
        assert(cs@.subrange(i as int, j as int).drop_last() =~= cs@.subrange(i as int, j - 1));
        j -= 1;
    }
    proof {
        if j > i {
            assert(cs@.subrange(i as int, j as int).last() == cs@[j - 1]);
        }
    }
    (i, j)
}

/// The position of the first `c` in `cs[a..b]`, if any.
pub fn find_char(cs: &Vec<char>, a: usize, b: usize, c: char) -> (r: Option<usize>)
    requires
        a <= b <= cs@.len(),
    ensures
        match first_index_of(cs@.subrange(a as int, b as int), c) {
            Some(i) => r matches Some(j) && j == a + i,
            None => r is None,
        },
        r matches Some(i) ==> a <= i < b && cs@[i as int] == c,
{
    let ghost s = cs@.subrange(a as int, b as int);
    let mut i = a;
    while i < b
        invariant
            a <= i <= b <= cs@.len(),
            s == cs@.subrange(a as int, b as int),
            forall|j: int| 0 <= j < i - a ==> s[j] != c,
        decreases b - i,
    {
        if cs[i] == c {
            proof {
                let k = i - a;
                assert(s[k] == c);
                let w = choose|w: int| 0 <= w < s.len() && s[w] == c && forall|j: int| 0 <= j < w ==> s[j] != c;
                assert(0 <= k < s.len() && s[k] == c && forall|j: int| 0 <= j < k ==> s[j] != c);
                assert(w == k) by {
                    if w < k {
                        assert(s[w] != c);
                    } else if w > k {
                        assert(s[k] != c);
                    }
                }
            }
            return Some(i);
        }
        i += 1;
    }
    None
}

/// The bounds of the pieces of `cs[a..b]` between occurrences of `sep` (`str::split`).
pub fn split_ranges(cs: &Vec<char>, a: usize, b: usize, sep: char) -> (r: Vec<(usize, usize)>)
    requires
        a <= b <= cs@.len(),
    ensures
        r@.len() == split_on(cs@.subrange(a as int, b as int), sep).len(),
        forall|k: int|
            0 <= k < r@.len() ==> a <= (#[trigger] r@[k]).0 <= r@[k].1 <= b && cs@.subrange(
                r@[k].0 as int,
                r@[k].1 as int,
            ) == split_on(cs@.subrange(a as int, b as int), sep)[k],
{
    let ghost s = cs@.subrange(a as int, b as int);
    let mut r: Vec<(usize, usize)> = Vec::new();
    let mut start = a;
    let mut j = a;
    proof {
        assert(s.take(0) =~= Seq::<char>::empty());
        assert(cs@.subrange(start as int, j as int) =~= Seq::<char>::empty());
    }
    while j < b
        invariant
            a <= start <= j <= b <= cs@.len(),
            s == cs@.subrange(a as int, b as int),
            split_on(s.take(j - a), sep).len() == r@.len() + 1,
            split_on(s.take(j - a), sep).last() == cs@.subrange(start as int, j as int),
            forall|k: int|
                0 <= k < r@.len() ==> a <= (#[trigger] r@[k]).0 <= r@[k].1 <= start && cs@.subrange(
                    r@[k].0 as int,
                    r@[k].1 as int,
                ) == split_on(s.take(j - a), sep)[k],
        decreases b - j,
    {
        let ghost before = split_on(s.take(j - a), sep);
        let ghost t1 = s.take(j + 1 - a);
        proof {
            assert(t1.drop_last() =~= s.take(j - a));
            assert(t1.last() == cs@[j as int]);
        }
        if cs[j] == sep {
            r.push((start, j));
            start = j + 1;
            proof {
                assert(cs@.subrange(start as int, j + 1) =~= Seq::<char>::empty());
            }
        } else {
            proof {
                assert(cs@.subrange(start as int, j + 1) =~= cs@.subrange(start as int, j as int).push(
                    cs@[j as int],
                ));
            }
        }
        j += 1;
    }
    r.push((start, b));
    proof {
        assert(s.take(b - a) =~= s);
    }
    r
}

/// The text `cs[a..b]`.
pub fn string_from_range(cs: &Vec<char>, a: usize, b: usize) -> (s: String)
    requires
        a <= b <= cs@.len(),
    ensures
        s@ == cs@.subrange(a as int, b as int),
{
    string_from_chars(&cs.as_slice()[a..b])
}

/// The decimal digit character of `d` (below 10).
pub open spec fn digit_char(d: nat) -> char {
    (48 + d) as char
}

/// The decimal digits of `n`, most significant first, without leading zeros.
pub open spec fn decimal(n: nat) -> Seq<char>
    decreases n,
{
    if n < 10 {
        seq![digit_char(n)]
    } else {
        decimal(n / 10).push(digit_char(n % 10))
    }
}

/// The decimal text of `n` (`u64::to_string`).
pub fn u64_to_decimal(n: u64) -> (s: String)
    ensures
        s@ == decimal(n as nat),
{
    let mut out: Vec<char> = Vec::new();
    let mut m = n;
    while m >= 10
        invariant
            decimal(n as nat) == decimal(m as nat) + out@,
        decreases m,
    {
        let d = (m % 10) as u8;
        let c = (48u8 + d) as char;
        out.insert(0, c);
        proof {
            assert(decimal(m as nat) == decimal((m / 10) as nat).push(digit_char((m % 10) as nat)));
            assert(decimal((m / 10) as nat).push(c) + out@.drop_first() =~= decimal((m / 10) as nat) + out@);
        }
        m = m / 10;
    }
    let c = (48u8 + m as u8) as char;
    out.insert(0, c);
    assert(decimal(n as nat) =~= out@);
    string_from_chars(out.as_slice())
}

/// Whether `c` is a decimal digit.
pub open spec fn is_digit(c: char) -> bool {
    '0' <= c <= '9'
}

/// The number that the decimal digits `t` denote.
pub open spec fn decimal_value(t: Seq<char>) -> nat
    decreases t.len(),
{
    if t.len() == 0 {
        0
    } else {
        decimal_value(t.drop_last()) * 10 + (t.last() as nat - 48) as nat
    }
}

/// What `str::parse` gives for an unsigned integer type whose largest value is `max`: an
/// optional '+', then one or more decimal digits denoting at most `max`.
pub open spec fn parse_unsigned(s: Seq<char>, max: nat) -> Option<nat> {
    let t = if s.len() > 0 && s[0] == '+' {
        s.drop_first()
    } else {
        s
    };
    parse_digits(t, max)
}

/// The value of the decimal digits `t` when there is at least one, all are digits and the
/// value is at most `max`.
pub open spec fn parse_digits(t: Seq<char>, max: nat) -> Option<nat> {
    if t.len() == 0 || exists|i: int| 0 <= i < t.len() && !is_digit(#[trigger] t[i]) {
        None
    } else if decimal_value(t) > max {
        None
    } else {
        Some(decimal_value(t))
    }
}

/// Parses `cs[a..b]` as an unsigned decimal integer of at most `max`, as `str::parse` does
/// for the unsigned type whose largest value is `max`.
pub fn parse_unsigned_range(cs: &Vec<char>, a: usize, b: usize, max: u64) -> (r: Option<u64>)
    requires
        a <= b <= cs@.len(),
    ensures
        match parse_unsigned(cs@.subrange(a as int, b as int), max as nat) {
            Some(v) => r == Some(v as u64),
            None => r is None,
        },
{
    let ghost s = cs@.subrange(a as int, b as int);
    let mut i = a;
    if i < b && cs[i] == '+' {
        i += 1;
    }
    let ghost t = cs@.subrange(i as int, b as int);
    assert(t =~= (if s.len() > 0 && s[0] == '+' {
        s.drop_first()
    } else {
        s
    }));
    if i == b {
        return None;
    }
    let i0 = i;
    let mut acc: u64 = 0;
    let mut over = false;
    while i < b
        invariant
            a <= i0 <= i <= b <= cs@.len(),
            t == cs@.subrange(i0 as int, b as int),
            s == cs@.subrange(a as int, b as int),
            t == (if s.len() > 0 && s[0] == '+' {
                s.drop_first()
            } else {
                s
            }),
            forall|k: int| 0 <= k < i - i0 ==> is_digit(#[trigger] t[k]),
            over <==> decimal_value(t.take(i - i0)) > max,
            !over ==> acc == decimal_value(t.take(i - i0)),
        decreases b - i,
    {
        let ghost p = t.take(i - i0);
        let ghost q = t.take(i + 1 - i0);
        assert(q.drop_last() =~= p);
        assert(q.last() == cs@[i as int]);
        let c = cs[i];
        if !('0' <= c && c <= '9') {
            assert(!is_digit(t[i - i0]));
            return None;
        }
        let d = (c as u32 - 48) as u64;
        if !over {
            if d > max || acc > (max - d) / 10 {
                over = true;
                assert(decimal_value(q) > max) by (nonlinear_arith)
                    requires
                        decimal_value(q) == acc * 10 + d,
                        d > max || acc > (max - d) / 10,
                        d <= 9,
                ;
            } else {
                assert(acc * 10 + d <= max) by (nonlinear_arith)
                    requires
                        acc <= (max - d) / 10,
                        d <= max,
                ;
                acc = acc * 10 + d;
            }
        } else {
            assert(decimal_value(q) >= decimal_value(p)) by (nonlinear_arith)
                requires
                    decimal_value(q) == decimal_value(p) * 10 + d,
            ;
        }
        i += 1;
    }
    assert(t.take(t.len() as int) =~= t);
    if over {
        None
    } else {
        Some(acc)
    }
}

/// Whether `s` begins with `p`.
pub open spec fn has_prefix(s: Seq<char>, p: Seq<char>) -> bool {
    p.len() <= s.len() && s.subrange(0, p.len() as int) == p
}

/// Whether `p` occurs in `s`.
pub open spec fn has_infix(s: Seq<char>, p: Seq<char>) -> bool {
    exists|i: int| 0 <= i && i + p.len() <= s.len() && #[trigger] s.subrange(i, i + p.len()) == p
}

/// Whether `cs[a + i..]` begins with `p`.
fn matches_at(cs: &Vec<char>, i: usize, b: usize, p: &Vec<char>) -> (r: bool)
    requires
        i <= b <= cs@.len(),
    ensures
        r == (p@.len() <= b - i && cs@.subrange(i as int, i + p@.len()) == p@),
{
    if p.len() > b - i {
        return false;
    }
    let mut k: usize = 0;
    while k < p.len()
        invariant
            i + p@.len() <= b <= cs@.len(),
            k <= p@.len(),
            forall|j: int| 0 <= j < k ==> cs@[i + j] == p@[j],
        decreases p@.len() - k,
    {
        if cs[i + k] != p[k] {
            assert(cs@.subrange(i as int, i + p@.len())[k as int] != p@[k as int]);
            return false;
        }
        k += 1;
    }
    assert(cs@.subrange(i as int, i + p@.len()) =~= p@);
    true
}

/// Whether the text `cs[a..b]` begins with `pat` (`str::starts_with`).
pub fn range_starts_with(cs: &Vec<char>, a: usize, b: usize, pat: &str) -> (r: bool)
    requires
        a <= b <= cs@.len(),
    ensures
        r == has_prefix(cs@.subrange(a as int, b as int), pat@),
{
    let p = str_chars(pat);
    let r = matches_at(cs, a, b, &p);
    proof {
        if p@.len() <= b - a {
            assert(cs@.subrange(a as int, b as int).subrange(0, p@.len() as int) =~= cs@.subrange(
                a as int,
                a + p@.len(),
            ));
        }
    }
    r
}

/// Whether `pat` occurs in the text `cs[a..b]` (`str::contains`).
pub fn range_contains(cs: &Vec<char>, a: usize, b: usize, pat: &str) -> (r: bool)
    requires
        a <= b <= cs@.len(),
    ensures
        r == has_infix(cs@.subrange(a as int, b as int), pat@),
{
    let ghost s = cs@.subrange(a as int, b as int);
    let p = str_chars(pat);
    if p.len() == 0 {
        assert(s.subrange(0, 0 + pat@.len() as int) =~= pat@);
        return true;
    }
    if p.len() > b - a {
        return false;
    }
    let mut i = a;
    while i <= b - p.len()
        invariant
            a <= i,
            1 <= p@.len() <= b - a,
            b <= cs@.len(),
            s == cs@.subrange(a as int, b as int),
            p@ == pat@,
            forall|j: int| 0 <= j < i - a && j + p@.len() <= s.len() ==> #[trigger] s.subrange(j, j + p@.len()) != p@,
        decreases b + 1 - i,
    {
        if matches_at(cs, i, b, &p) {
            assert(s.subrange(i - a, i - a + p@.len()) =~= cs@.subrange(i as int, i + p@.len()));
            return true;
        }
        assert(s.subrange(i - a, i - a + p@.len()) =~= cs@.subrange(i as int, i + p@.len()));
        i += 1;
    }
    false
}

/// A line without the '\r' before its '\n'.
pub open spec fn strip_cr(l: Seq<char>) -> Seq<char> {
    if l.len() > 0 && l.last() == '\r' {
        l.drop_last()
    } else {
        l
    }
}

/// The lines of `s` (`str::lines`): the pieces between '\n', each without a '\r' just
/// before its '\n', and no empty last piece after a final '\n'.
pub open spec fn lines_of(s: Seq<char>) -> Seq<Seq<char>> {
    let p = split_on(s, '\n');
    let n = if p.last().len() == 0 {
        p.len() - 1
    } else {
        p.len() as int
    };
    Seq::new(n as nat, |i: int| if i < p.len() - 1 {
        strip_cr(p[i])
    } else {
        p[i]
    })
}

/// The bounds of the lines of the text `cs` (see `lines_of`).
pub fn line_ranges(cs: &Vec<char>) -> (r: Vec<(usize, usize)>)
    ensures
        r@.len() == lines_of(cs@).len(),
        forall|k: int|
            0 <= k < r@.len() ==> (#[trigger] r@[k]).0 <= r@[k].1 <= cs@.len() && cs@.subrange(
                r@[k].0 as int,
                r@[k].1 as int,
            ) == lines_of(cs@)[k],
{
    let n = cs.len();
    let pieces = split_ranges(cs, 0, n, '\n');
    let ghost p = split_on(cs@, '\n');
    assert(cs@.subrange(0, n as int) =~= cs@);
    proof {
        lemma_split_on_nonempty(cs@, '\n');
    }
    let count = pieces.len();
    let (la, lb) = pieces[count - 1];
    let keep = if la == lb {
        count - 1
    } else {
        count
    };
    let mut r: Vec<(usize, usize)> = Vec::new();
    let mut k: usize = 0;
    while k < keep
        invariant
            keep <= count == pieces@.len() == p.len(),
            p == split_on(cs@, '\n'),
            keep == lines_of(cs@).len(),
            n == cs@.len(),
            k <= keep,
            r@.len() == k,
            forall|x: int|
                0 <= x < count ==> (#[trigger] pieces@[x]).0 <= pieces@[x].1 <= n && cs@.subrange(
                    pieces@[x].0 as int,
                    pieces@[x].1 as int,
                ) == p[x],
            forall|x: int|
                0 <= x < k ==> (#[trigger] r@[x]).0 <= r@[x].1 <= cs@.len() && cs@.subrange(
                    r@[x].0 as int,
                    r@[x].1 as int,
                ) == lines_of(cs@)[x],
        decreases keep - k,
    {
        let (s0, s1) = pieces[k];
        proof {
            let lf = |i: int| if i < p.len() - 1 {
                strip_cr(p[i])
            } else {
                p[i]
            };
            assert(lines_of(cs@) =~= Seq::new(keep as nat, lf));
            assert(lines_of(cs@)[k as int] == (if k < p.len() - 1 {
                strip_cr(p[k as int])
            } else {
                p[k as int]
            }));
            if s1 > s0 {
                assert(p[k as int].last() == cs@[s1 - 1]);
            }
        }
        if k < count - 1 && s1 > s0 && cs[s1 - 1] == '\r' {
            r.push((s0, s1 - 1));
            proof {
                assert(cs@.subrange(s0 as int, s1 - 1) =~= p[k as int].drop_last());
            }
        } else {
            r.push((s0, s1));
        }
        k += 1;
    }
    r
}

/// The words of `s` read so far and the word being read (`str::split_whitespace`).
pub open spec fn words_scan(s: Seq<char>) -> (Seq<Seq<char>>, Seq<char>)
    decreases s.len(),
{
    if s.len() == 0 {
        (Seq::empty(), Seq::empty())
    } else {
        let (done, cur) = words_scan(s.drop_last());
        if is_ws(s.last()) {
            if cur.len() > 0 {
                (done.push(cur), Seq::empty())
            } else {
                (done, Seq::empty())
            }
        } else {
            (done, cur.push(s.last()))
        }
    }
}

/// The words of `s`: its maximal runs of characters that are not white space.
pub open spec fn words_of(s: Seq<char>) -> Seq<Seq<char>> {
    let (done, cur) = words_scan(s);
    if cur.len() > 0 {
        done.push(cur)
    } else {
        done
    }
}

/// The bounds of the words of the text `cs[a..b]`.
pub fn word_ranges(cs: &Vec<char>, a: usize, b: usize) -> (r: Vec<(usize, usize)>)
    requires
        a <= b <= cs@.len(),
    ensures
        r@.len() == words_of(cs@.subrange(a as int, b as int)).len(),
        forall|k: int|
            0 <= k < r@.len() ==> (#[trigger] r@[k]).0 <= r@[k].1 <= cs@.len() && cs@.subrange(
                r@[k].0 as int,
                r@[k].1 as int,
            ) == words_of(cs@.subrange(a as int, b as int))[k],
{
    let ghost s = cs@.subrange(a as int, b as int);
    let mut r: Vec<(usize, usize)> = Vec::new();
    let mut start = a;
    let mut j = a;
    proof {
        assert(s.take(0) =~= Seq::<char>::empty());
        assert(cs@.subrange(start as int, j as int) =~= Seq::<char>::empty());
    }
    while j < b
        invariant
            a <= start <= j <= b <= cs@.len(),
            s == cs@.subrange(a as int, b as int),
            words_scan(s.take(j - a)).0.len() == r@.len(),
            words_scan(s.take(j - a)).1 == cs@.subrange(start as int, j as int),
            forall|k: int|
                0 <= k < r@.len() ==> (#[trigger] r@[k]).0 <= r@[k].1 <= cs@.len() && cs@.subrange(
                    r@[k].0 as int,
                    r@[k].1 as int,
                ) == words_scan(s.take(j - a)).0[k],
        decreases b - j,
    {
        let ghost t1 = s.take(j + 1 - a);
        proof {
            assert(t1.drop_last() =~= s.take(j - a));
            assert(t1.last() == cs@[j as int]);
        }
        if is_whitespace(cs[j]) {
            if j > start {
                r.push((start, j));
            }
            start = j + 1;
            proof {
                assert(cs@.subrange(start as int, j + 1) =~= Seq::<char>::empty());
            }
        } else {
            proof {
                assert(cs@.subrange(start as int, j + 1) =~= cs@.subrange(start as int, j as int).push(
                    cs@[j as int],
                ));
            }
        }
        j += 1;
    }
    if b > start {
        r.push((start, b));
    }
    proof {
        assert(s.take(b - a) =~= s);
    }
    r
}

} // verus!
