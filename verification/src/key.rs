//! Cache keys.
//!
//! A key is derived from the path and the query of a request target. Every
//! byte outside a small alphabet of letters, digits, `.` and `-` is written
//! as `_` followed by two upper-case hexadecimal digits; path and query are
//! escaped on their own and joined by `~` when a query is present. The
//! derivation is injective: two targets share a key only if they are the same
//! target. A key holds no path separator and can be used inside a file name.

use vstd::prelude::*;

verus! {

/// `_`, which introduces an escaped byte.
pub const ESCAPE: u8 = 95;

/// `~`, which stands between the escaped path and the escaped query.
pub const SEPARATOR: u8 = 126;

/// Bytes that a key carries unchanged: ASCII letters, digits, `-` and `.`.
pub open spec fn is_plain(b: u8) -> bool {
    (48 <= b <= 57) || (65 <= b <= 90) || (97 <= b <= 122) || b == 45 || b == 46
}

/// Upper-case hexadecimal digit for a value below 16.
pub open spec fn hex_digit(n: int) -> u8 {
    if n < 10 {
        (48 + n) as u8
    } else {
        (55 + n) as u8
    }
}

/// What one byte of a target becomes inside a key.
pub open spec fn escape_byte(b: u8) -> Seq<u8> {
    if is_plain(b) {
        seq![b]
    } else {
        seq![ESCAPE, hex_digit(b as int / 16), hex_digit(b as int % 16)]
    }
}

/// The escaped form of a byte string: the escaped forms of its bytes, in order.
pub open spec fn escape(s: Seq<u8>) -> Seq<u8>
    decreases s.len(),
{
    if s.len() == 0 {
        Seq::empty()
    } else {
        escape_byte(s[0]) + escape(s.drop_first())
    }
}

/// The key of the target with the given path and query.
pub open spec fn key_of(path: Seq<u8>, query: Option<Seq<u8>>) -> Seq<u8> {
    match query {
        None => escape(path),
        Some(q) => escape(path) + seq![SEPARATOR] + escape(q),
    }
}

/// Bytes that may occur in a key.
pub open spec fn is_key_byte(b: u8) -> bool {
    is_plain(b) || b == ESCAPE || b == SEPARATOR
}

/// A byte string made of key bytes only.
pub open spec fn is_key_text(s: Seq<u8>) -> bool {
    forall|i: int| 0 <= i < s.len() ==> is_key_byte(#[trigger] s[i])
}

/// The view of an optional borrowed byte string.
pub open spec fn option_bytes(q: Option<&[u8]>) -> Option<Seq<u8>> {
    match q {
        None => None,
        Some(s) => Some(s@),
    }
}

/// Escaping distributes over concatenation.
pub proof fn lemma_escape_concat(a: Seq<u8>, b: Seq<u8>)
    ensures
        escape(a + b) == escape(a) + escape(b),
    decreases a.len(),
{
    if a.len() == 0 {
        assert(a + b =~= b);
        assert(escape(a) + escape(b) =~= escape(b));
    } else {
        lemma_escape_concat(a.drop_first(), b);
        assert((a + b).drop_first() =~= a.drop_first() + b);
        assert((a + b)[0] == a[0]);
        assert(escape(a + b) =~= escape(a) + escape(b));
    }
}

/// An escaped string holds plain bytes and `_` only; in particular no `~`.
pub proof fn lemma_escape_alphabet(s: Seq<u8>)
    ensures
        forall|i: int|
            0 <= i < escape(s).len() ==> is_plain(#[trigger] escape(s)[i]) || escape(s)[i]
                == ESCAPE,
    decreases s.len(),
{
    if s.len() > 0 {
        lemma_escape_alphabet(s.drop_first());
        let head = escape_byte(s[0]);
        let tail = escape(s.drop_first());
        assert forall|i: int| 0 <= i < escape(s).len() implies is_plain(#[trigger] escape(s)[i])
            || escape(s)[i] == ESCAPE by {
            if i < head.len() {
                assert(escape(s)[i] == head[i]);
            } else {
                assert(escape(s)[i] == tail[i - head.len()]);
            }
        }
    }
}

/// Escaping loses nothing: equal escaped forms come from equal strings.
pub proof fn lemma_escape_injective(a: Seq<u8>, b: Seq<u8>)
    requires
        escape(a) == escape(b),
    ensures
        a == b,
    decreases a.len(),
{
    if a.len() == 0 {
        if b.len() > 0 {
            assert(escape(b).len() >= escape_byte(b[0]).len());
        }
        assert(a =~= b);
    } else {
        if b.len() == 0 {
            assert(escape(a).len() >= escape_byte(a[0]).len());
        }
        let ha = escape_byte(a[0]);
        let hb = escape_byte(b[0]);
        let ta = escape(a.drop_first());
        let tb = escape(b.drop_first());
        assert(escape(a)[0] == ha[0]);
        assert(escape(b)[0] == hb[0]);
        if is_plain(a[0]) {
            assert(is_plain(b[0]));
        } else {
            assert(!is_plain(b[0]));
            assert(escape(a)[1] == ha[1] && escape(a)[2] == ha[2]);
            assert(escape(b)[1] == hb[1] && escape(b)[2] == hb[2]);
            assert(a[0] as int / 16 == b[0] as int / 16);
            assert(a[0] as int % 16 == b[0] as int % 16);
        }
        assert(a[0] == b[0]);
        assert(ta =~= escape(a).subrange(ha.len() as int, escape(a).len() as int));
        assert(tb =~= escape(b).subrange(hb.len() as int, escape(b).len() as int));
        lemma_escape_injective(a.drop_first(), b.drop_first());
        assert(a =~= seq![a[0]] + a.drop_first());
        assert(b =~= seq![b[0]] + b.drop_first());
    }
}

/// Two strings that are free of `sep` and joined to their tails by `sep`
/// are told apart by the first occurrence of `sep`.
pub proof fn lemma_split_unique(
    a1: Seq<u8>,
    b1: Seq<u8>,
    a2: Seq<u8>,
    b2: Seq<u8>,
    sep: u8,
)
    requires
        a1 + seq![sep] + b1 == a2 + seq![sep] + b2,
        forall|i: int| 0 <= i < a1.len() ==> a1[i] != sep,
        forall|i: int| 0 <= i < a2.len() ==> a2[i] != sep,
    ensures
        a1 == a2,
        b1 == b2,
{
    let l = a1 + seq![sep] + b1;
    let r = a2 + seq![sep] + b2;
    assert(l[a1.len() as int] == sep);
    assert(r[a2.len() as int] == sep);
    if a1.len() < a2.len() {
        assert(r[a1.len() as int] == a2[a1.len() as int]);
    }
    if a2.len() < a1.len() {
        assert(l[a2.len() as int] == a1[a2.len() as int]);
    }
    assert(a1 =~= l.subrange(0, a1.len() as int));
    assert(a2 =~= r.subrange(0, a2.len() as int));
    assert(b1 =~= l.subrange(a1.len() as int + 1, l.len() as int));
    assert(b2 =~= r.subrange(a2.len() as int + 1, r.len() as int));
}

/// Distinct targets never share a key: if the keys of two targets are equal,
/// their paths are equal and their queries are equal, an absent query being
/// different from an empty one.
pub proof fn lemma_key_injective(
    path1: Seq<u8>,
    query1: Option<Seq<u8>>,
    path2: Seq<u8>,
    query2: Option<Seq<u8>>,
)
    requires
        key_of(path1, query1) == key_of(path2, query2),
    ensures
        path1 == path2,
        query1 == query2,
{
    lemma_escape_alphabet(path1);
    lemma_escape_alphabet(path2);
    match (query1, query2) {
        (None, None) => {
            lemma_escape_injective(path1, path2);
        },
        (Some(q1), Some(q2)) => {
            lemma_split_unique(escape(path1), escape(q1), escape(path2), escape(q2), SEPARATOR);
            lemma_escape_injective(path1, path2);
            lemma_escape_injective(q1, q2);
        },
        (None, Some(q2)) => {
            let k = key_of(path2, query2);
            assert(k[escape(path2).len() as int] == SEPARATOR);
        },
        (Some(q1), None) => {
            let k = key_of(path1, query1);
            assert(k[escape(path1).len() as int] == SEPARATOR);
        },
    }
}

/// Every key is made of key bytes.
pub proof fn lemma_key_alphabet(path: Seq<u8>, query: Option<Seq<u8>>)
    ensures
        is_key_text(key_of(path, query)),
{
    lemma_escape_alphabet(path);
    match query {
        None => {},
        Some(q) => {
            lemma_escape_alphabet(q);
            let k = key_of(path, query);
            let p = escape(path);
            assert forall|i: int| 0 <= i < k.len() implies is_key_byte(#[trigger] k[i]) by {
                if i < p.len() {
                    assert(k[i] == p[i]);
                } else if i == p.len() {
                    assert(k[i] == SEPARATOR);
                } else {
                    assert(k[i] == escape(q)[i - p.len() - 1]);
                }
            }
        },
    }
}

fn is_plain_byte(b: u8) -> (r: bool)
    ensures
        r == is_plain(b),
{
    (48 <= b && b <= 57) || (65 <= b && b <= 90) || (97 <= b && b <= 122) || b == 45 || b == 46
}

fn hex_digit_of(n: u8) -> (d: u8)
    requires
        n < 16,
    ensures
        d == hex_digit(n as int),
{
    if n < 10 {
        48 + n
    } else {
        55 + n
    }
}

/// Appends the escaped form of `src` to `out`.
pub fn push_escaped(out: &mut Vec<u8>, src: &[u8])
    ensures
        final(out)@ == old(out)@ + escape(src@),
{
    let mut i: usize = 0;
    assert(src@.take(0) =~= Seq::<u8>::empty());
    assert(out@ =~= old(out)@ + escape(src@.take(0)));
    while i < src.len()
        invariant
            i <= src.len(),
            out@ == old(out)@ + escape(src@.take(i as int)),
        decreases src.len() - i,
    {
        let b: u8 = src[i];
        let ghost before = out@;
        if is_plain_byte(b) {
            out.push(b);
        } else {
            out.push(ESCAPE);
            out.push(hex_digit_of(b / 16));
            out.push(hex_digit_of(b % 16));
        }
        proof {
            let done = src@.take(i as int);
            assert(out@ =~= before + escape_byte(b));
            assert(escape(seq![b]) =~= escape_byte(b)) by {
                reveal_with_fuel(escape, 2);
                assert(seq![b].drop_first() =~= Seq::<u8>::empty());
            }
            lemma_escape_concat(done, seq![b]);
            assert(src@.take(i + 1) =~= done + seq![b]);
            assert(out@ =~= old(out)@ + escape(src@.take(i + 1)));
        }
        i = i + 1;
    }
    assert(src@.take(i as int) =~= src@);
}

/// The key under which the answers to one request target are stored.
#[derive(Debug)]
pub struct CacheKey {
    text: Vec<u8>,
}

impl CacheKey {
    #[verifier::type_invariant]
    spec fn well_formed(&self) -> bool {
        is_key_text(self.text@)
    }

    /// The bytes of the key.
    pub closed spec fn view(&self) -> Seq<u8> {
        self.text@
    }

    /// Derives the key of the target with the given path and query.
    pub fn derive(path: &[u8], query: Option<&[u8]>) -> (key: CacheKey)
        ensures
            key.view() == key_of(path@, option_bytes(query)),
    {
        let mut text: Vec<u8> = Vec::new();
        push_escaped(&mut text, path);
        match query {
            None => {},
            Some(q) => {
                text.push(SEPARATOR);
                push_escaped(&mut text, q);
            },
        }
        proof {
            lemma_key_alphabet(path@, option_bytes(query));
            assert(text@ =~= key_of(path@, option_bytes(query)));
        }
        CacheKey { text }
    }

    /// The bytes of the key, all of them key bytes.
    pub fn as_bytes(&self) -> (bytes: &[u8])
        ensures
            bytes@ == self.view(),
            is_key_text(bytes@),
    {
        proof {
            use_type_invariant(self);
        }
        self.text.as_slice()
    }
}

} // verus!
