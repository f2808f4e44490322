//! Recognising the text of an IP address: a dotted IPv4 quad (decimal octets without
//! leading zeros), or IPv6 hexadecimal groups with at most one `::` and an optional
//! trailing IPv4 quad, following the grammar of the standard library's address parser.
use crate::text::{decimal_value, is_digit, parse_unsigned, parse_unsigned_range, str_chars};
use vstd::prelude::*;

verus! {

/// Whether `c` is a hexadecimal digit in either case.
pub open spec fn is_hex_digit(c: char) -> bool {
    is_digit(c) || ('a' <= c <= 'f') || ('A' <= c <= 'F')
}

/// Whether `c` is a digit: hexadecimal when `hex`, decimal otherwise.
pub open spec fn is_radix_digit(c: char, hex: bool) -> bool {
    if hex {
        is_hex_digit(c)
    } else {
        is_digit(c)
    }
}

/// The length of the run of digits that starts at `i`.
pub open spec fn run_len(s: Seq<char>, i: int, hex: bool) -> nat
    decreases s.len() - i,
{
    if 0 <= i < s.len() && is_radix_digit(s[i], hex) {
        1 + run_len(s, i + 1, hex)
    } else {
        0
    }
}

/// Where a decimal octet read at `i` ends: one to three digits, no leading zero before
/// another digit, and a value of at most 255.
pub open spec fn octet_end(s: Seq<char>, i: int) -> Option<int> {
    let n = run_len(s, i, false);
    if n == 0 || n > 3 || (s[i] == '0' && n > 1) || decimal_value(s.subrange(i, i + n)) > 255 {
        None
    } else {
        Some(i + n)
    }
}

/// Where a '.' at `i` followed by an octet ends.
pub open spec fn dotted_end(s: Seq<char>, i: int) -> Option<int> {
    if 0 <= i < s.len() && s[i] == '.' {
        octet_end(s, i + 1)
    } else {
        None
    }
}

/// Where an IPv4 quad read at `i` ends.
pub open spec fn v4_end(s: Seq<char>, i: int) -> Option<int> {
    match octet_end(s, i) {
        Some(a) => match dotted_end(s, a) {
            Some(b) => match dotted_end(s, b) {
                Some(c) => dotted_end(s, c),
                None => None,
            },
            None => None,
        },
        None => None,
    }
}

/// Where an IPv6 group (one to four hexadecimal digits) read at `i` ends.
pub open spec fn hex_end(s: Seq<char>, i: int) -> Option<int> {
    let n = run_len(s, i, true);
    if n == 0 || n > 4 {
        None
    } else {
        Some(i + n)
    }
}

/// Reads IPv6 groups number `g` up to `limit` from `pos`, each after the first behind a
/// ':'; an IPv4 quad may stand for two groups where at least two are left, and ends the
/// reading. Gives the position reached, the number of groups read, and whether the last
/// was an IPv4 quad.
pub open spec fn groups_from(s: Seq<char>, pos: int, g: int, limit: int) -> (int, int, bool)
    decreases limit - g,
{
    if g >= limit {
        (pos, g, false)
    } else {
        let start = if g == 0 {
            Some(pos)
        } else if 0 <= pos < s.len() && s[pos] == ':' {
            Some(pos + 1)
        } else {
            None
        };
        match start {
            None => (pos, g, false),
            Some(st) => if g < limit - 1 && v4_end(s, st) is Some {
                (v4_end(s, st)->0, g + 2, true)
            } else {
                match hex_end(s, st) {
                    Some(e) => groups_from(s, e, g + 1, limit),
                    None => (pos, g, false),
                }
            },
        }
    }
}

/// Where an IPv6 address read from the start ends: eight groups, or fewer groups (none
/// of them an IPv4 quad) then "::" then at most as many groups as leave one out.
pub open spec fn v6_end(s: Seq<char>) -> Option<int> {
    let (p, h, v4) = groups_from(s, 0, 0, 8);
    if h == 8 {
        Some(p)
    } else if v4 {
        None
    } else if 0 <= p && p + 1 < s.len() && s[p] == ':' && s[p + 1] == ':' {
        Some(groups_from(s, p + 2, 0, 8 - (h + 1)).0)
    } else {
        None
    }
}

/// Whether `s` is the text of an IP address: where an IPv4 quad can be read at its
/// start, it must be all of `s`; otherwise all of `s` must read as an IPv6 address.
pub open spec fn ip_text_ok(s: Seq<char>) -> bool {
    match v4_end(s, 0) {
        Some(e) => e == s.len(),
        None => v6_end(s) == Some(s.len() as int),
    }
}

proof fn lemma_run_len(s: Seq<char>, i: int, hex: bool)
    requires
        0 <= i <= s.len(),
    ensures
        i + run_len(s, i, hex) <= s.len(),
        forall|m: int| 0 <= m < run_len(s, i, hex) ==> is_radix_digit(#[trigger] s[i + m], hex),
        i + run_len(s, i, hex) < s.len() ==> !is_radix_digit(s[i + run_len(s, i, hex)], hex),
    decreases s.len() - i,
{
    if i < s.len() && is_radix_digit(s[i], hex) {
        lemma_run_len(s, i + 1, hex);
        assert forall|m: int| 0 <= m < run_len(s, i, hex) implies is_radix_digit(
            #[trigger] s[i + m],
            hex,
        ) by {
            if m > 0 {
                assert(s[(i + 1) + (m - 1)] == s[i + m]);
            }
        }
    }
}

fn radix_digit(c: char, hex: bool) -> (b: bool)
    ensures
        b == is_radix_digit(c, hex),
{
    if ('0' <= c && c <= '9') {
        true
    } else if hex {
        ('a' <= c && c <= 'f') || ('A' <= c && c <= 'F')
    } else {
        false
    }
}

fn run_len_at(s: &Vec<char>, i: usize, hex: bool) -> (n: usize)
    requires
        i <= s@.len(),
    ensures
        n == run_len(s@, i as int, hex),
        i + n <= s.len(),
{
    let mut j = i;
    while j < s.len() && radix_digit(s[j], hex)
        invariant
            i <= j <= s@.len(),
            run_len(s@, i as int, hex) == (j - i) + run_len(s@, j as int, hex),
        decreases s@.len() - j,
    {
        j += 1;
    }
    j - i
}

fn octet_end_at(s: &Vec<char>, i: usize) -> (r: Option<usize>)
    requires
        i <= s@.len(),
    ensures
        match octet_end(s@, i as int) {
            Some(e) => r == Some(e as usize) && i < e <= s.len(),
            None => r is None,
        },
{
    let n = run_len_at(s, i, false);
    if n == 0 || n > 3 {
        return None;
    }
    if s[i] == '0' && n > 1 {
        return None;
    }
    let ghost t = s@.subrange(i as int, (i + n) as int);
    proof {
        lemma_run_len(s@, i as int, false);
        assert forall|k: int| 0 <= k < t.len() implies is_digit(#[trigger] t[k]) by {
            assert(t[k] == s@[i + k]);
        }
        assert(t[0] == s@[i as int]);
        assert(parse_unsigned(t, 255) == (if decimal_value(t) > 255 {
            None
        } else {
            Some(decimal_value(t))
        }));
    }
    match parse_unsigned_range(s, i, i + n, 255) {
        Some(_) => Some(i + n),
        None => None,
    }
}

fn dotted_end_at(s: &Vec<char>, i: usize) -> (r: Option<usize>)
    requires
        i <= s@.len(),
    ensures
        match dotted_end(s@, i as int) {
            Some(e) => r == Some(e as usize) && i < e <= s.len(),
            None => r is None,
        },
{
    if i < s.len() && s[i] == '.' {
        octet_end_at(s, i + 1)
    } else {
        None
    }
}

fn v4_end_at(s: &Vec<char>, i: usize) -> (r: Option<usize>)
    requires
        i <= s@.len(),
    ensures
        match v4_end(s@, i as int) {
            Some(e) => r == Some(e as usize) && i < e <= s.len(),
            None => r is None,
        },
{
    let a = match octet_end_at(s, i) {
        Some(a) => a,
        None => return None,
    };
    let b = match dotted_end_at(s, a) {
        Some(b) => b,
        None => return None,
    };
    let c = match dotted_end_at(s, b) {
        Some(c) => c,
        None => return None,
    };
    dotted_end_at(s, c)
}

fn hex_end_at(s: &Vec<char>, i: usize) -> (r: Option<usize>)
    requires
        i <= s@.len(),
    ensures
        match hex_end(s@, i as int) {
            Some(e) => r == Some(e as usize) && i < e <= s.len(),
            None => r is None,
        },
{
    let n = run_len_at(s, i, true);
    if n == 0 || n > 4 {
        None
    } else {
        Some(i + n)
    }
}

fn groups_at(s: &Vec<char>, pos: usize, g: usize, limit: usize) -> (r: (usize, usize, bool))
    requires
        pos <= s@.len(),
        g <= limit <= 8,
    ensures
        r.0 == groups_from(s@, pos as int, g as int, limit as int).0,
        r.1 == groups_from(s@, pos as int, g as int, limit as int).1,
        r.2 == groups_from(s@, pos as int, g as int, limit as int).2,
        r.0 <= s.len(),
        r.1 <= limit,
    decreases limit - g,
{
    if g >= limit {
        return (pos, g, false);
    }
    let st = if g == 0 {
        pos
    } else if pos < s.len() && s[pos] == ':' {
        pos + 1
    } else {
        return (pos, g, false);
    };
    if g + 1 < limit {
        match v4_end_at(s, st) {
            Some(e) => {
                return (e, g + 2, true);
            },
            None => {},
        }
    }
    match hex_end_at(s, st) {
        Some(e) => groups_at(s, e, g + 1, limit),
        None => (pos, g, false),
    }
}

fn v6_end_at(s: &Vec<char>) -> (r: Option<usize>)
    ensures
        match v6_end(s@) {
            Some(e) => r == Some(e as usize) && 0 <= e <= s.len(),
            None => r is None,
        },
{
    let (p, h, v4) = groups_at(s, 0, 0, 8);
    if h == 8 {
        Some(p)
    } else if v4 {
        None
    } else if s.len() >= 2 && p <= s.len() - 2 && s[p] == ':' && s[p + 1] == ':' {
        let (q, _, _) = groups_at(s, p + 2, 0, 8 - (h + 1));
        Some(q)
    } else {
        None
    }
}

/// Whether `text` is the text of an IP address (see `ip_text_ok`).
pub fn ip_text_valid(text: &str) -> (b: bool)
    ensures
        b == ip_text_ok(text@),
{
    let s = str_chars(text);
    match v4_end_at(&s, 0) {
        Some(e) => e == s.len(),
        None => match v6_end_at(&s) {
            Some(e) => e == s.len(),
            None => false,
        },
    }
}

} // verus!
