//! Certificate fingerprints as SDP carries them: "sha-256 " followed by the digest's bytes
//! as two uppercase hexadecimal digits each, separated by colons.
use crate::crypto::{sha256, sha256_of};
use crate::text::{lemma_split_on_append, lemma_split_on_nonempty, lemma_split_on_single, push_char, split_on, str_chars};
use vstd::prelude::*;

verus! {

/// The uppercase hexadecimal digit of `n` (below 16).
pub open spec fn hex_upper(n: u8) -> char {
    if n < 10 {
        (48 + n) as char
    } else {
        (55 + n) as char
    }
}

/// The two uppercase hexadecimal digits of `b`.
pub open spec fn byte_pair(b: u8) -> Seq<char> {
    seq![hex_upper(b / 16), hex_upper(b % 16)]
}

/// The digits of each byte of `h`, separated by colons.
pub open spec fn hex_pairs(h: Seq<u8>) -> Seq<char>
    decreases h.len(),
{
    if h.len() == 0 {
        Seq::empty()
    } else if h.len() == 1 {
        byte_pair(h[0])
    } else {
        hex_pairs(h.drop_last()) + seq![':'] + byte_pair(h.last())
    }
}

/// The name of the digest algorithm: "sha-256".
pub open spec fn sha256_name() -> Seq<char> {
    seq!['s', 'h', 'a', '-', '2', '5', '6']
}

/// The fingerprint text of the digest `h`.
pub open spec fn fingerprint_text(h: Seq<u8>) -> Seq<char> {
    sha256_name() + seq![' '] + hex_pairs(h)
}

/// Whether `c` is a hexadecimal digit, in either case.
pub open spec fn is_hex_digit(c: char) -> bool {
    ('0' <= c <= '9') || ('a' <= c <= 'f') || ('A' <= c <= 'F')
}

/// The value of the hexadecimal digit `c`.
pub open spec fn hex_digit_value(c: char) -> int {
    if '0' <= c <= '9' {
        c as int - 48
    } else if 'a' <= c <= 'f' {
        c as int - 87
    } else {
        c as int - 55
    }
}

/// The number that the hexadecimal digits `t` denote.
pub open spec fn hex_value(t: Seq<char>) -> int
    decreases t.len(),
{
    if t.len() == 0 {
        0
    } else {
        hex_value(t.drop_last()) * 16 + hex_digit_value(t.last())
    }
}

/// The piece without its leading '+', if it has one.
pub open spec fn strip_plus(piece: Seq<char>) -> Seq<char> {
    if piece.len() > 0 && piece[0] == '+' {
        piece.drop_first()
    } else {
        piece
    }
}

/// The byte that the hexadecimal digits `t` denote: `None` when `t` is empty, holds a
/// character that is not a hexadecimal digit, or denotes 256 or more.
pub open spec fn hex_digits_byte(t: Seq<char>) -> Option<u8> {
    if t.len() == 0 || exists|i: int| 0 <= i < t.len() && !is_hex_digit(#[trigger] t[i]) {
        None
    } else if hex_value(t) > 255 {
        None
    } else {
        Some(hex_value(t) as u8)
    }
}

/// What `u8::from_str_radix(piece, 16)` accepts: an optional '+', then one or more
/// hexadecimal digits whose value is below 256.
pub open spec fn hex_byte(piece: Seq<char>) -> Option<u8> {
    hex_digits_byte(strip_plus(piece))
}

/// The digest a fingerprint text denotes: the text up to its first space must be "sha-256",
/// and what follows must be exactly 32 colon-separated bytes in hexadecimal.
pub open spec fn fingerprint_parse(s: Seq<char>) -> Option<Seq<u8>> {
    if !(exists|k: int| 0 <= k < s.len() && s[k] == ' ') {
        None
    } else {
        let k = choose|k: int|
            0 <= k < s.len() && s[k] == ' ' && forall|j: int| 0 <= j < k ==> s[j] != ' ';
        let pieces = split_on(s.subrange(k + 1, s.len() as int), ':');
        if s.subrange(0, k) != sha256_name() {
            None
        } else if pieces.len() == 32 && forall|i: int| 0 <= i < 32 ==> #[trigger] hex_byte(
            pieces[i],
        ) is Some {
            Some(Seq::new(32, |i: int| hex_byte(pieces[i])->0))
        } else {
            None
        }
    }
}

/// The uppercase hexadecimal digit of `n`.
fn hex_char(n: u8) -> (c: char)
    requires
        n < 16,
    ensures
        c == hex_upper(n),
{
    if n < 10 {
        (48u8 + n) as char
    } else {
        (55u8 + n) as char
    }
}

/// The fingerprint text of `hash`: "sha-256 " then the bytes in uppercase hexadecimal,
/// separated by colons.
pub fn format_fingerprint(hash: &[u8]) -> (s: String)
    ensures
        s@ == fingerprint_text(hash@),
{
    let mut s = String::from_str("sha-256 ");
    proof {
        reveal_strlit("sha-256 ");
        assert(s@ =~= sha256_name() + seq![' '] + hex_pairs(hash@.take(0)));
    }
    let mut i: usize = 0;
    while i < hash.len()
        invariant
            i <= hash@.len(),
            s@ == sha256_name() + seq![' '] + hex_pairs(hash@.take(i as int)),
        decreases hash@.len() - i,
    {
        let b = hash[i];
        if i > 0 {
            push_char(&mut s, ':');
        }
        push_char(&mut s, hex_char(b / 16));
        push_char(&mut s, hex_char(b % 16));
        proof {
            let t = hash@.take(i + 1);
            assert(t.drop_last() =~= hash@.take(i as int));
            assert(t.last() == b);
            if i == 0 {
                assert(hash@.take(0) =~= Seq::<u8>::empty());
            }
        }
        i += 1;
        assert(s@ =~= sha256_name() + seq![' '] + hex_pairs(hash@.take(i as int)));
    }
    assert(hash@.take(hash@.len() as int) =~= hash@);
    s
}

/// The fingerprint text of the SHA-256 digest of `data`.
pub fn generate_fingerprint(data: &[u8]) -> (s: String)
    ensures
        s@ == fingerprint_text(sha256_of(data@)),
{
    let digest = sha256(data);
    format_fingerprint(&digest)
}

/// The value of the hexadecimal digit `c`, if it is one.
fn hex_digit(c: char) -> (r: Option<u32>)
    ensures
        r is Some <==> is_hex_digit(c),
        r matches Some(v) ==> v == hex_digit_value(c) && v < 16,
{
    if '0' <= c && c <= '9' {
        Some(c as u32 - 48)
    } else if 'a' <= c && c <= 'f' {
        Some(c as u32 - 87)
    } else if 'A' <= c && c <= 'F' {
        Some(c as u32 - 55)
    } else {
        None
    }
}

/// `u8::from_str_radix(piece, 16)` on the characters `cs[start..end]`.
fn parse_hex_byte(cs: &Vec<char>, start: usize, end: usize) -> (r: Option<u8>)
    requires
        start <= end <= cs@.len(),
    ensures
        r == hex_byte(cs@.subrange(start as int, end as int)),
{
    let ghost piece = cs@.subrange(start as int, end as int);
    let mut i = start;
    if i < end && cs[i] == '+' {
        i += 1;
    }
    let ghost t = cs@.subrange(i as int, end as int);
    assert(t =~= strip_plus(piece));
    if i == end {
        return None;
    }
    let i0 = i;
    let mut acc: u32 = 0;
    while i < end
        invariant
            start <= i0 <= i <= end <= cs@.len(),
            t == cs@.subrange(i0 as int, end as int),
            piece == cs@.subrange(start as int, end as int),
            t == strip_plus(piece),
            forall|k: int| 0 <= k < i - i0 ==> is_hex_digit(#[trigger] t[k]),
            acc == (if hex_value(t.take(i - i0)) > 255 {
                256
            } else {
                hex_value(t.take(i - i0))
            }),
        decreases end - i,
    {
        let ghost p = t.take(i - i0);
        let ghost q = t.take(i + 1 - i0);
        assert(q.drop_last() =~= p);
        assert(q.last() == cs@[i as int]);
        assert(hex_value(p) >= 0) by {
            lemma_hex_value_nonneg(p);
        }
        match hex_digit(cs[i]) {
            None => {
                assert(!is_hex_digit(t[i - i0]));
                return None;
            },
            Some(d) => {
                if acc <= 255 {
                    acc = acc * 16 + d;
                    if acc > 255 {
                        acc = 256;
                    }
                }
            },
        }
        i += 1;
    }
    assert(t.take(t.len() as int) =~= t);
    if acc > 255 {
        None
    } else {
        Some(acc as u8)
    }
}

/// A number written in hexadecimal digits is not negative.
proof fn lemma_hex_value_nonneg(t: Seq<char>)
    requires
        forall|k: int| 0 <= k < t.len() ==> is_hex_digit(#[trigger] t[k]),
    ensures
        hex_value(t) >= 0,
    decreases t.len(),
{
    if t.len() > 0 {
        let p = t.drop_last();
        assert forall|k: int| 0 <= k < p.len() implies is_hex_digit(#[trigger] p[k]) by {
            assert(p[k] == t[k]);
        }
        lemma_hex_value_nonneg(p);
        assert(is_hex_digit(t[t.len() - 1]));
    }
}

/// The digest that a fingerprint text denotes, or `None` when the text is not "sha-256",
/// a space, and 32 colon-separated hexadecimal bytes.
pub fn parse_fingerprint(fingerprint: &str) -> (r: Option<Vec<u8>>)
    ensures
        r matches Some(h) ==> fingerprint_parse(fingerprint@) == Some(h@),
        r is None ==> fingerprint_parse(fingerprint@) is None,
{
    let cs = str_chars(fingerprint);
    let n = cs.len();
    let mut k: usize = 0;
    while k < n && cs[k] != ' '
        invariant
            k <= n == cs@.len(),
            forall|j: int| 0 <= j < k ==> cs@[j] != ' ',
        decreases n - k,
    {
        k += 1;
    }
    if k == n {
        return None;
    }
    let ghost s = cs@;
    proof {
        let kk = choose|kk: int|
            0 <= kk < s.len() && s[kk] == ' ' && forall|j: int| 0 <= j < kk ==> s[j] != ' ';
        assert(0 <= k < s.len() && s[k as int] == ' ' && forall|j: int|
            0 <= j < k ==> s[j] != ' ');
        assert(kk == k) by {
            if kk < k {
                assert(s[kk] != ' ');
            } else if kk > k {
                assert(s[k as int] != ' ');
            }
        }
    }
    let name_ok = k == 7 && cs[0] == 's' && cs[1] == 'h' && cs[2] == 'a' && cs[3] == '-' && cs[4]
        == '2' && cs[5] == '5' && cs[6] == '6';
    if !name_ok {
        proof {
            if s.subrange(0, k as int) == sha256_name() {
                assert(s.subrange(0, k as int).len() == 7);
                assert(s.subrange(0, k as int)[0] == s[0]);
                assert(s.subrange(0, k as int)[1] == s[1]);
                assert(s.subrange(0, k as int)[2] == s[2]);
                assert(s.subrange(0, k as int)[3] == s[3]);
                assert(s.subrange(0, k as int)[4] == s[4]);
                assert(s.subrange(0, k as int)[5] == s[5]);
                assert(s.subrange(0, k as int)[6] == s[6]);
            }
        }
        return None;
    }
    assert(s.subrange(0, k as int) =~= sha256_name());
    let ghost rest = s.subrange(k + 1, n as int);
    let mut hash: Vec<u8> = Vec::new();
    let mut ok = true;
    let mut start = k + 1;
    let mut j = k + 1;
    proof {
        assert(rest.take(0) =~= Seq::<char>::empty());
        assert(cs@.subrange(start as int, j as int) =~= Seq::<char>::empty());
    }
    while j < n
        invariant
            k + 1 <= start <= j <= n == cs@.len(),
            s == cs@,
            rest == s.subrange(k + 1, n as int),
            split_on(rest.take(j - k - 1), ':').len() >= 1,
            split_on(rest.take(j - k - 1), ':').last() == cs@.subrange(start as int, j as int),
            ok <==> forall|p: int|
                0 <= p < split_on(rest.take(j - k - 1), ':').len() - 1 ==> #[trigger] hex_byte(
                    split_on(rest.take(j - k - 1), ':')[p],
                ) is Some,
            ok ==> hash@.len() == split_on(rest.take(j - k - 1), ':').len() - 1,
            ok ==> forall|p: int|
                0 <= p < hash@.len() ==> hex_byte(split_on(rest.take(j - k - 1), ':')[p]) == Some(
                    #[trigger] hash@[p],
                ),
        decreases n - j,
    {
        let ghost before = split_on(rest.take(j - k - 1), ':');
        let ghost t1 = rest.take(j + 1 - k - 1);
        proof {
            assert(t1.drop_last() =~= rest.take(j - k - 1));
            assert(t1.last() == cs@[j as int]);
            lemma_split_on_nonempty(t1, ':');
        }
        if cs[j] == ':' {
            let piece = parse_hex_byte(&cs, start, j);
            match piece {
                Some(b) => {
                    if ok {
                        hash.push(b);
                    }
                },
                None => {
                    ok = false;
                },
            }
            start = j + 1;
            proof {
                let after = split_on(t1, ':');
                assert(after == before.push(Seq::<char>::empty()));
                assert(cs@.subrange(start as int, j + 1) =~= Seq::<char>::empty());
                assert forall|p: int| 0 <= p < before.len() implies after[p] == before[p] by {}
            }
        } else {
            proof {
                let after = split_on(t1, ':');
                assert(after == before.update(before.len() - 1, before.last().push(cs@[j as int])));
                assert(cs@.subrange(start as int, j + 1) =~= cs@.subrange(
                    start as int,
                    j as int,
                ).push(cs@[j as int]));
                assert forall|p: int| 0 <= p < before.len() - 1 implies after[p] == before[p] by {}
            }
        }
        j += 1;
    }
    let last = parse_hex_byte(&cs, start, n);
    proof {
        assert(rest.take(n - k - 1) =~= rest);
    }
    let ghost pieces = split_on(rest, ':');
    match last {
        None => {
            proof {
                if pieces.len() == 32 {
                    assert(hex_byte(pieces[31]) is None);
                }
            }
            None
        },
        Some(b) => {
            if !ok {
                proof {
                    if pieces.len() == 32 {
                        let p = choose|p: int|
                            0 <= p < pieces.len() - 1 && !(#[trigger] hex_byte(pieces[p]) is Some);
                        assert(hex_byte(pieces[p]) is None);
                    }
                }
                return None;
            }
            hash.push(b);
            if hash.len() == 32 {
                proof {
                    assert forall|i: int| 0 <= i < 32 implies #[trigger] hex_byte(
                        pieces[i],
                    ) is Some by {
                        if i < 31 {
                            assert(hex_byte(pieces[i]) == Some(hash@[i]));
                        }
                    }
                    assert(hash@ =~= Seq::new(32, |i: int| hex_byte(pieces[i])->0)) by {
                        assert forall|i: int| 0 <= i < 32 implies hash@[i] == hex_byte(
                            pieces[i],
                        )->0 by {
                            if i < 31 {
                                assert(hex_byte(pieces[i]) == Some(hash@[i]));
                            }
                        }
                    }
                }
                Some(hash)
            } else {
                None
            }
        },
    }
}

/// The hexadecimal text of a byte splits into no pieces at colons.
proof fn lemma_byte_pair_no_colon(b: u8)
    ensures
        forall|i: int| 0 <= i < byte_pair(b).len() ==> byte_pair(b)[i] != ':',
        forall|i: int| 0 <= i < byte_pair(b).len() ==> byte_pair(b)[i] != ' ',
        byte_pair(b).len() == 2,
{
}

/// Reading the digits of a byte gives the byte back.
proof fn lemma_byte_pair_value(b: u8)
    ensures
        hex_byte(byte_pair(b)) == Some(b),
{
    let t = byte_pair(b);
    let hi = b / 16;
    let lo = b % 16;
    assert(t.drop_last() =~= seq![hex_upper(hi)]);
    assert(t.drop_last().drop_last() =~= Seq::<char>::empty());
    assert(hex_digit_value(hex_upper(hi)) == hi as int);
    assert(hex_digit_value(hex_upper(lo)) == lo as int);
    assert(hex_value(t.drop_last().drop_last()) == 0);
    assert(hex_value(t.drop_last()) == hi as int);
    assert(hex_value(t) == hi * 16 + lo);
    assert(is_hex_digit(t[0]) && is_hex_digit(t[1]));
    assert(t[0] != '+');
}

/// The pieces of `hex_pairs(h)` at colons are the digit pairs of each byte.
proof fn lemma_split_hex_pairs(h: Seq<u8>)
    requires
        h.len() >= 1,
    ensures
        split_on(hex_pairs(h), ':') == Seq::new(h.len(), |i: int| byte_pair(h[i])),
        forall|i: int| 0 <= i < hex_pairs(h).len() ==> hex_pairs(h)[i] != ' ',
    decreases h.len(),
{
    if h.len() == 1 {
        lemma_byte_pair_no_colon(h[0]);
        lemma_split_on_single(byte_pair(h[0]), ':');
        assert(seq![byte_pair(h[0])] =~= Seq::new(h.len(), |i: int| byte_pair(h[i])));
    } else {
        let p = h.drop_last();
        lemma_split_hex_pairs(p);
        lemma_byte_pair_no_colon(h.last());
        lemma_split_on_append(hex_pairs(p), ':', byte_pair(h.last()));
        assert(Seq::new(p.len(), |i: int| byte_pair(p[i])).push(byte_pair(h.last())) =~= Seq::new(
            h.len(),
            |i: int| byte_pair(h[i]),
        ));
        let a = hex_pairs(p);
        let c = byte_pair(h.last());
        assert forall|i: int| 0 <= i < hex_pairs(h).len() implies hex_pairs(h)[i] != ' ' by {
            if i < a.len() {
                assert(hex_pairs(h)[i] == a[i]);
            } else if i > a.len() {
                assert(hex_pairs(h)[i] == c[i - a.len() - 1]);
            }
        }
    }
}

/// Law: parsing the fingerprint text of a 32-byte digest gives the digest back.
pub proof fn lemma_fingerprint_roundtrip(h: Seq<u8>)
    requires
        h.len() == 32,
    ensures
        fingerprint_parse(fingerprint_text(h)) == Some(h),
{
    let s = fingerprint_text(h);
    lemma_split_hex_pairs(h);
    assert(s[7] == ' ');
    let k = choose|k: int|
        0 <= k < s.len() && s[k] == ' ' && forall|j: int| 0 <= j < k ==> s[j] != ' ';
    assert(0 <= 7 < s.len() && s[7] == ' ' && forall|j: int| 0 <= j < 7 ==> s[j] != ' ');
    assert(k == 7) by {
        if k > 7 {
            assert(s[7] != ' ');
        } else if k < 7 {
            assert(s[k] == sha256_name()[k]);
        }
    }
    assert(s.subrange(0, 7) =~= sha256_name());
    assert(s.subrange(8, s.len() as int) =~= hex_pairs(h));
    let pieces = split_on(hex_pairs(h), ':');
    assert forall|i: int| 0 <= i < 32 implies #[trigger] hex_byte(pieces[i]) is Some && hex_byte(
        pieces[i],
    ) == Some(h[i]) by {
        lemma_byte_pair_value(h[i]);
    }
    assert(Seq::new(32, |i: int| hex_byte(pieces[i])->0) =~= h);
}

} // verus!
