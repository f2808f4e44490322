//! The text messages of the signaling protocol: a type, then `|key=value` fields.
use crate::text::{is_ws, lemma_split_on_append, lemma_split_on_single, trim_end, trim_start, lemma_split_on_nonempty, first_index_of, push_char, push_str, split_on, split_ranges, str_chars, str_eq, string_from_range, trim_range, trim_ws, find_char};
use vstd::prelude::*;

verus! {

/// A signaling message: its type and its fields in the order they were first set.
#[derive(Debug, Clone)]
pub struct Message {
    pub msg_type: String,
    pub fields: Vec<(String, String)>,
}

/// The texts of a list of fields.
pub open spec fn field_texts(f: Seq<(String, String)>) -> Seq<(Seq<char>, Seq<char>)> {
    f.map_values(|p: (String, String)| (p.0@, p.1@))
}

/// The position of the first field named `k`, if any.
pub open spec fn field_index(fv: Seq<(Seq<char>, Seq<char>)>, k: Seq<char>) -> Option<int> {
    if exists|i: int| 0 <= i < fv.len() && fv[i].0 == k {
        Some(
            choose|i: int|
                0 <= i < fv.len() && fv[i].0 == k && forall|j: int| 0 <= j < i ==> fv[j].0 != k,
        )
    } else {
        None
    }
}

/// The value of the field named `k`, if there is one.
pub open spec fn field_value(fv: Seq<(Seq<char>, Seq<char>)>, k: Seq<char>) -> Option<Seq<char>> {
    match field_index(fv, k) {
        Some(i) => Some(fv[i].1),
        None => None,
    }
}

/// Sets field `k` to `v`: an existing field keeps its place, a new one goes last.
pub open spec fn fields_insert(fv: Seq<(Seq<char>, Seq<char>)>, k: Seq<char>, v: Seq<char>) -> Seq<
    (Seq<char>, Seq<char>),
> {
    match field_index(fv, k) {
        Some(i) => fv.update(i, (k, v)),
        None => fv.push((k, v)),
    }
}

/// The field a `key=value` piece sets: the text before its first '=' and the text after
/// it, each trimmed; none when the piece has no '='.
pub open spec fn piece_field(p: Seq<char>) -> Option<(Seq<char>, Seq<char>)> {
    match first_index_of(p, '=') {
        Some(i) => Some((trim_ws(p.subrange(0, i)), trim_ws(p.subrange(i + 1, p.len() as int)))),
        None => None,
    }
}

/// The fields that the pieces set, one after the other.
pub open spec fn fields_of(pieces: Seq<Seq<char>>) -> Seq<(Seq<char>, Seq<char>)>
    decreases pieces.len(),
{
    if pieces.len() == 0 {
        Seq::empty()
    } else {
        let prev = fields_of(pieces.drop_last());
        match piece_field(pieces.last()) {
            Some(kv) => fields_insert(prev, kv.0, kv.1),
            None => prev,
        }
    }
}

/// The pieces of a trimmed line between '|' characters.
pub open spec fn line_pieces(line: Seq<char>) -> Seq<Seq<char>> {
    split_on(trim_ws(line), '|')
}

/// The type of the message a line holds: its first piece.
pub open spec fn line_type(line: Seq<char>) -> Seq<char> {
    line_pieces(line)[0]
}

/// The fields of the message a line holds: those its other pieces set.
pub open spec fn line_fields(line: Seq<char>) -> Seq<(Seq<char>, Seq<char>)> {
    fields_of(line_pieces(line).drop_first())
}

/// The line of a message with type `typ` and `fields`, in order.
pub open spec fn message_text(typ: Seq<char>, fields: Seq<(Seq<char>, Seq<char>)>) -> Seq<char>
    decreases fields.len(),
{
    if fields.len() == 0 {
        typ
    } else {
        message_text(typ, fields.drop_last()) + seq!['|'] + fields.last().0 + seq!['='] + fields.last().1
    }
}

/// The texts of the pairs in a list of string pairs.
pub open spec fn pair_texts(f: Seq<(&str, &str)>) -> Seq<(Seq<char>, Seq<char>)> {
    f.map_values(|p: (&str, &str)| (p.0@, p.1@))
}

impl Message {
    /// The texts of the fields.
    pub open spec fn field_view(self) -> Seq<(Seq<char>, Seq<char>)> {
        field_texts(self.fields@)
    }

    /// A message with no fields.
    pub fn new(msg_type: &str) -> (m: Self)
        ensures
            m.msg_type@ == msg_type@,
            m.field_view() == Seq::<(Seq<char>, Seq<char>)>::empty(),
    {
        let m = Message { msg_type: String::from_str(msg_type), fields: Vec::new() };
        assert(m.field_view() =~= Seq::<(Seq<char>, Seq<char>)>::empty());
        m
    }

    /// The position of the first field named `key`, if any.
    fn index_of(&self, key: &str) -> (r: Option<usize>)
        ensures
            match field_index(self.field_view(), key@) {
                Some(i) => r matches Some(j) && j == i,
                None => r is None,
            },
            r matches Some(i) ==> i < self.fields@.len(),
    {
        let ghost fv = self.field_view();
        let mut i: usize = 0;
        while i < self.fields.len()
            invariant
                fv == self.field_view(),
                i <= fv.len(),
                forall|j: int| 0 <= j < i ==> fv[j].0 != key@,
            decreases fv.len() - i,
        {
            if str_eq(self.fields[i].0.as_str(), key) {
                proof {
                    assert(fv[i as int].0 == key@);
                    let w = choose|w: int|
                        0 <= w < fv.len() && fv[w].0 == key@ && forall|j: int|
                            0 <= j < w ==> fv[j].0 != key@;
                    assert(0 <= i < fv.len() && fv[i as int].0 == key@ && forall|j: int|
                        0 <= j < i ==> fv[j].0 != key@);
                    assert(w == i) by {
                        if w < i {
                            assert(fv[w].0 != key@);
                        } else if w > i {
                            assert(fv[i as int].0 != key@);
                        }
                    }
                }
                return Some(i);
            }
            i += 1;
        }
        None
    }

    /// The value of the field named `key`, if there is one.
    pub fn get(&self, key: &str) -> (r: Option<&String>)
        ensures
            match field_value(self.field_view(), key@) {
                Some(v) => r matches Some(s) && s@ == v,
                None => r is None,
            },
    {
        match self.index_of(key) {
            Some(i) => Some(&self.fields[i].1),
            None => None,
        }
    }

    /// Sets field `key` to `value`, keeping the place of an existing field.
    pub fn insert(&mut self, key: String, value: String)
        ensures
            final(self).msg_type@ == old(self).msg_type@,
            final(self).field_view() == fields_insert(old(self).field_view(), key@, value@),
    {
        let ghost fv = self.field_view();
        let ghost k = key@;
        let ghost v = value@;
        match self.index_of(key.as_str()) {
            Some(i) => {
                self.fields.set(i, (key, value));
                assert(self.field_view() =~= fv.update(i as int, (k, v)));
            },
            None => {
                self.fields.push((key, value));
                assert(self.field_view() =~= fv.push((k, v)));
            },
        }
    }
}

/// Reads a message from a line: the line is trimmed and split at '|'; the first piece is
/// the type and each other piece with an '=' sets a field (key and value trimmed; a later
/// piece for the same key overrides the value). Every line gives a message.
#[verifier::spinoff_prover]
#[verifier::rlimit(40)]
pub fn parse_message(line: &str) -> (r: Option<Message>)
    ensures
        r matches Some(m) && m.msg_type@ == line_type(line@) && m.field_view() == line_fields(
            line@,
        ),
{
    let cs = str_chars(line);
    let (a, b) = trim_range(&cs, 0, cs.len());
    proof {
        assert(cs@.subrange(0, cs@.len() as int) =~= line@);
    }
    let pieces = split_ranges(&cs, a, b, '|');
    let ghost ps = line_pieces(line@);
    assert(ps =~= split_on(cs@.subrange(a as int, b as int), '|'));
    proof {
        lemma_split_on_nonempty(cs@.subrange(a as int, b as int), '|');
    }
    let (t0, t1) = pieces[0];
    let mut msg = Message::new("");
    msg.msg_type = string_from_range(&cs, t0, t1);
    proof {
        assert(ps.drop_first().take(0) =~= Seq::<Seq<char>>::empty());
    }
    let mut k: usize = 1;
    while k < pieces.len()
        invariant
            1 <= k <= pieces@.len() == ps.len(),
            forall|x: int|
                0 <= x < pieces@.len() ==> a <= (#[trigger] pieces@[x]).0 <= pieces@[x].1 <= b
                    && cs@.subrange(pieces@[x].0 as int, pieces@[x].1 as int) == ps[x],
            b <= cs@.len(),
            msg.msg_type@ == ps[0],
            msg.field_view() == fields_of(ps.drop_first().take(k - 1)),
        decreases pieces@.len() - k,
    {
        let (p0, p1) = pieces[k];
        let ghost p = ps[k as int];
        proof {
            let q = ps.drop_first().take(k as int);
            assert(q.drop_last() =~= ps.drop_first().take(k - 1));
            assert(q.last() == p);
        }
        match find_char(&cs, p0, p1, '=') {
            Some(e) => {
                let (ka, kb) = trim_range(&cs, p0, e);
                let (va, vb) = trim_range(&cs, e + 1, p1);
                let key = string_from_range(&cs, ka, kb);
                let value = string_from_range(&cs, va, vb);
                proof {
                    assert(cs@.subrange(p0 as int, e as int) =~= p.subrange(0, e - p0));
                    assert(cs@.subrange(e + 1, p1 as int) =~= p.subrange(e - p0 + 1, p.len() as int));
                }
                msg.insert(key, value);
            },
            None => {},
        }
        k += 1;
    }
    proof {
        assert(ps.drop_first().take(k - 1) =~= ps.drop_first());
    }
    Some(msg)
}

/// The line of a message: the type, then `|key=value` for each field, in order.
pub fn build_message(typ: &str, fields: &[(&str, &str)]) -> (s: String)
    ensures
        s@ == message_text(typ@, pair_texts(fields@)),
{
    let mut out = String::from_str(typ);
    let mut i: usize = 0;
    proof {
        assert(pair_texts(fields@).take(0) =~= Seq::<(Seq<char>, Seq<char>)>::empty());
    }
    while i < fields.len()
        invariant
            i <= fields@.len(),
            out@ == message_text(typ@, pair_texts(fields@).take(i as int)),
        decreases fields@.len() - i,
    {
        let (k, v) = fields[i];
        push_char(&mut out, '|');
        push_str(&mut out, k);
        push_char(&mut out, '=');
        push_str(&mut out, v);
        proof {
            let t = pair_texts(fields@).take(i + 1);
            assert(t.drop_last() =~= pair_texts(fields@).take(i as int));
            assert(t.last() == (k@, v@));
        }
        i += 1;
    }
    assert(pair_texts(fields@).take(i as int) =~= pair_texts(fields@));
    out
}

/// Whether `c` does not occur in `s`.
pub open spec fn free_of(s: Seq<char>, c: char) -> bool {
    forall|i: int| 0 <= i < s.len() ==> s[i] != c
}

/// The `key=value` pieces of a list of fields.
pub open spec fn field_pieces(fields: Seq<(Seq<char>, Seq<char>)>) -> Seq<Seq<char>> {
    fields.map_values(|kv: (Seq<char>, Seq<char>)| kv.0 + seq!['='] + kv.1)
}

/// Trimming never lengthens a text.
proof fn lemma_trim_len(s: Seq<char>)
    ensures
        trim_start(s).len() <= s.len(),
        trim_end(s).len() <= s.len(),
    decreases s.len(),
{
    if s.len() > 0 {
        lemma_trim_len(s.drop_first());
        lemma_trim_len(s.drop_last());
    }
}

/// A text that trimming leaves as it is has no white space at its ends.
proof fn lemma_trimmed_ends(s: Seq<char>)
    requires
        trim_ws(s) == s,
        s.len() > 0,
    ensures
        !is_ws(s[0]),
        !is_ws(s.last()),
{
    lemma_trim_len(s);
    lemma_trim_len(trim_start(s));
    if is_ws(s[0]) {
        lemma_trim_len(s.drop_first());
        assert(trim_start(s) == trim_start(s.drop_first()));
    }
    if is_ws(s.last()) {
        if is_ws(s[0]) {
        } else {
            assert(trim_start(s) == s);
            lemma_trim_len(s.drop_last());
            assert(trim_end(s) == trim_end(s.drop_last()));
        }
    }
}

/// A text with no white space at its ends is left as it is by trimming.
proof fn lemma_trim_keeps(s: Seq<char>)
    requires
        s.len() > 0 ==> !is_ws(s[0]) && !is_ws(s.last()),
    ensures
        trim_ws(s) == s,
{
}

/// The pieces of a message line between '|': the type, then one `key=value` piece per
/// field.
proof fn lemma_message_pieces(typ: Seq<char>, fields: Seq<(Seq<char>, Seq<char>)>)
    requires
        free_of(typ, '|'),
        forall|i: int| 0 <= i < fields.len() ==> free_of(#[trigger] fields[i].0, '|') && free_of(fields[i].1, '|'),
    ensures
        split_on(message_text(typ, fields), '|') == seq![typ] + field_pieces(fields),
    decreases fields.len(),
{
    if fields.len() == 0 {
        lemma_split_on_single(typ, '|');
        assert(field_pieces(fields) =~= Seq::<Seq<char>>::empty());
    } else {
        let init = fields.drop_last();
        let (k, v) = fields.last();
        lemma_message_pieces(typ, init);
        let b = k + seq!['='] + v;
        assert forall|i: int| 0 <= i < b.len() implies b[i] != '|' by {
            if i < k.len() {
                assert(b[i] == k[i]);
            } else if i > k.len() {
                assert(b[i] == v[i - k.len() - 1]);
            }
        }
        lemma_split_on_append(message_text(typ, init), '|', b);
        assert(message_text(typ, fields) =~= message_text(typ, init) + seq!['|'] + b);
        assert(field_pieces(fields) =~= field_pieces(init).push(b));
    }
}

/// The first '=' of `k=v` is the one after the key, when the key has none.
proof fn lemma_piece_field(k: Seq<char>, v: Seq<char>)
    requires
        free_of(k, '='),
        trim_ws(k) == k,
        trim_ws(v) == v,
    ensures
        piece_field(k + seq!['='] + v) == Some((k, v)),
{
    let p = k + seq!['='] + v;
    let n = k.len() as int;
    assert(p[n] == '=');
    let i = choose|i: int| 0 <= i < p.len() && p[i] == '=' && forall|j: int| 0 <= j < i ==> p[j] != '=';
    assert(0 <= n < p.len() && p[n] == '=' && forall|j: int| 0 <= j < n ==> p[j] != '=') by {
        assert forall|j: int| 0 <= j < n implies p[j] != '=' by {
            assert(p[j] == k[j]);
        }
    }
    assert(i == n) by {
        if i < n {
            assert(p[i] == k[i]);
        } else if i > n {
            assert(p[n] != '=');
        }
    }
    assert(p.subrange(0, n) =~= k);
    assert(p.subrange(n + 1, p.len() as int) =~= v);
}

/// The fields that the pieces of distinct, well-formed fields set are those fields.
proof fn lemma_fields_of_pieces(fields: Seq<(Seq<char>, Seq<char>)>)
    requires
        forall|i: int|
            0 <= i < fields.len() ==> free_of(#[trigger] fields[i].0, '=') && trim_ws(fields[i].0)
                == fields[i].0 && trim_ws(fields[i].1) == fields[i].1,
        forall|i: int, j: int| 0 <= i < j < fields.len() ==> fields[i].0 != fields[j].0,
    ensures
        fields_of(field_pieces(fields)) == fields,
    decreases fields.len(),
{
    if fields.len() > 0 {
        let init = fields.drop_last();
        let (k, v) = fields.last();
        lemma_fields_of_pieces(init);
        assert(field_pieces(fields).drop_last() =~= field_pieces(init));
        assert(field_pieces(fields).last() == k + seq!['='] + v);
        lemma_piece_field(k, v);
        assert(!(exists|i: int| 0 <= i < init.len() && init[i].0 == k)) by {
            assert forall|i: int| 0 <= i < init.len() implies init[i].0 != k by {
                assert(fields[i].0 != fields[fields.len() - 1].0);
            }
        }
        assert(init.push((k, v)) =~= fields);
    }
}

/// A message line read back gives the type and the fields it was built from, when the
/// type, keys and values hold no '|', the keys hold no '=' and are all different, and none
/// of them has white space at its ends.
pub proof fn lemma_message_roundtrip(typ: Seq<char>, fields: Seq<(Seq<char>, Seq<char>)>)
    requires
        free_of(typ, '|'),
        trim_ws(typ) == typ,
        forall|i: int|
            0 <= i < fields.len() ==> {
                &&& free_of(#[trigger] fields[i].0, '|')
                &&& free_of(fields[i].0, '=')
                &&& free_of(fields[i].1, '|')
                &&& trim_ws(fields[i].0) == fields[i].0
                &&& trim_ws(fields[i].1) == fields[i].1
            },
        forall|i: int, j: int| 0 <= i < j < fields.len() ==> fields[i].0 != fields[j].0,
    ensures
        line_type(message_text(typ, fields)) == typ,
        line_fields(message_text(typ, fields)) == fields,
{
    let text = message_text(typ, fields);
    assert(trim_ws(text) == text) by {
        if text.len() > 0 {
            if typ.len() > 0 {
                lemma_trimmed_ends(typ);
            }
            lemma_text_ends(typ, fields);
        }
        lemma_trim_keeps(text);
    }
    lemma_message_pieces(typ, fields);
    assert((seq![typ] + field_pieces(fields)).drop_first() =~= field_pieces(fields));
    lemma_fields_of_pieces(fields);
}

/// The first and last characters of a message line are not white space when the type,
/// keys and values have none at their ends.
proof fn lemma_text_ends(typ: Seq<char>, fields: Seq<(Seq<char>, Seq<char>)>)
    requires
        trim_ws(typ) == typ,
        forall|i: int|
            0 <= i < fields.len() ==> trim_ws(#[trigger] fields[i].1) == fields[i].1,
        message_text(typ, fields).len() > 0,
    ensures
        !is_ws(message_text(typ, fields)[0]),
        !is_ws(message_text(typ, fields).last()),
    decreases fields.len(),
{
    if typ.len() > 0 {
        lemma_trimmed_ends(typ);
    }
    if fields.len() > 0 {
        let init = fields.drop_last();
        let (k, v) = fields.last();
        let head = message_text(typ, init);
        let t = head + seq!['|'] + k + seq!['='] + v;
        assert(message_text(typ, fields) == t);
        if head.len() > 0 {
            lemma_text_ends(typ, init);
            assert(t[0] == head[0]);
        } else {
            assert(t[0] == '|');
        }
        if v.len() > 0 {
            lemma_trimmed_ends(v);
            assert(t.last() == v.last());
        } else {
            assert(t.last() == '=');
        }
    }
}

} // verus!
