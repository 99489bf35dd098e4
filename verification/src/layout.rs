//! Where the artifacts of a key live on the storage medium.
//!
//! Each key has at most one body artifact and, independently, at most one
//! redirect artifact. A body that is still being written lives in a pending
//! artifact of its own, named by the key and by the ticket of the request
//! that writes it. The three kinds of name never meet, and each name gives
//! back the key (and the ticket) it was made from, so the layout is stable
//! and no lookup can open an artifact that is still being written.

use crate::key::{is_key_byte, is_key_text, lemma_split_unique, CacheKey};
use crate::octets::push_all;
use vstd::prelude::*;

verus! {

/// `b`, the first byte of a body artifact's name.
pub const TAG_BODY: u8 = 98;

/// `r`, the first byte of a redirect artifact's name.
pub const TAG_REDIRECT: u8 = 114;

/// `p`, the first byte of a pending artifact's name.
pub const TAG_PENDING: u8 = 112;

/// `-`, which follows the tag and the ticket.
pub const DASH: u8 = 45;

/// `/`, which joins the storage root and a name.
pub const SLASH: u8 = 47;

/// The decimal digits of `n`, most significant first.
pub open spec fn decimal(n: nat) -> Seq<u8>
    decreases n,
{
    if n < 10 {
        seq![(48 + n) as u8]
    } else {
        decimal(n / 10).push((48 + n % 10) as u8)
    }
}

/// The name of the body artifact of `key`.
pub open spec fn body_name(key: Seq<u8>) -> Seq<u8> {
    seq![TAG_BODY, DASH] + key
}

/// The name of the redirect artifact of `key`.
pub open spec fn redirect_name(key: Seq<u8>) -> Seq<u8> {
    seq![TAG_REDIRECT, DASH] + key
}

/// The name of the pending artifact that the request with `ticket` writes for `key`.
pub open spec fn pending_name(key: Seq<u8>, ticket: u64) -> Seq<u8> {
    seq![TAG_PENDING, DASH] + decimal(ticket as nat) + seq![DASH] + key
}

/// The location of the artifact `name` below the storage root.
pub open spec fn storage_path(root: Seq<u8>, name: Seq<u8>) -> Seq<u8> {
    root + seq![SLASH] + name
}

/// A name that is safe as one component of a path: it starts with a lower-case
/// letter and holds key bytes only, so it is not empty, not `.` or `..`, and
/// free of `/` and of the zero byte.
pub open spec fn is_safe_name(name: Seq<u8>) -> bool {
    &&& name.len() >= 2
    &&& 97 <= name[0] <= 122
    &&& is_key_text(name)
}

/// The decimal form is not empty and made of digits.
pub proof fn lemma_decimal_digits(n: nat)
    ensures
        decimal(n).len() >= 1,
        forall|i: int| 0 <= i < decimal(n).len() ==> 48 <= #[trigger] decimal(n)[i] <= 57,
    decreases n,
{
    if n >= 10 {
        lemma_decimal_digits(n / 10);
    }
}

/// Equal decimal forms come from equal numbers.
pub proof fn lemma_decimal_injective(a: nat, b: nat)
    requires
        decimal(a) == decimal(b),
    ensures
        a == b,
    decreases a,
{
    lemma_decimal_digits(a / 10);
    lemma_decimal_digits(b / 10);
    if a < 10 {
        if b >= 10 {
            assert(decimal(b).len() >= 2);
        }
        assert(decimal(a)[0] == (48 + a) as u8);
        assert(decimal(b)[0] == (48 + b) as u8);
    } else {
        if b < 10 {
            assert(decimal(a).len() >= 2);
        }
        assert(decimal(a).last() == (48 + a % 10) as u8);
        assert(decimal(b).last() == (48 + b % 10) as u8);
        assert(decimal(a).drop_last() =~= decimal(a / 10));
        assert(decimal(b).drop_last() =~= decimal(b / 10));
        lemma_decimal_injective(a / 10, b / 10);
        assert(a == 10 * (a / 10) + a % 10);
        assert(b == 10 * (b / 10) + b % 10);
    }
}

/// The layout is injective and its kinds are disjoint: a name determines its
/// kind, its key and, for a pending artifact, its ticket.
pub proof fn lemma_names_distinct(key1: Seq<u8>, ticket1: u64, key2: Seq<u8>, ticket2: u64)
    ensures
        body_name(key1) == body_name(key2) ==> key1 == key2,
        redirect_name(key1) == redirect_name(key2) ==> key1 == key2,
        pending_name(key1, ticket1) == pending_name(key2, ticket2) ==> key1 == key2 && ticket1
            == ticket2,
        body_name(key1) != redirect_name(key2),
        body_name(key1) != pending_name(key2, ticket2),
        redirect_name(key1) != pending_name(key2, ticket2),
{
    assert(body_name(key1)[0] == TAG_BODY);
    assert(redirect_name(key2)[0] == TAG_REDIRECT);
    assert(pending_name(key2, ticket2)[0] == TAG_PENDING);
    assert(redirect_name(key1)[0] == TAG_REDIRECT);
    if body_name(key1) == body_name(key2) {
        assert(key1 =~= body_name(key1).skip(2));
        assert(key2 =~= body_name(key2).skip(2));
    }
    if redirect_name(key1) == redirect_name(key2) {
        assert(key1 =~= redirect_name(key1).skip(2));
        assert(key2 =~= redirect_name(key2).skip(2));
    }
    if pending_name(key1, ticket1) == pending_name(key2, ticket2) {
        let d1 = decimal(ticket1 as nat);
        let d2 = decimal(ticket2 as nat);
        lemma_decimal_digits(ticket1 as nat);
        lemma_decimal_digits(ticket2 as nat);
        assert(d1 + seq![DASH] + key1 =~= pending_name(key1, ticket1).skip(2));
        assert(d2 + seq![DASH] + key2 =~= pending_name(key2, ticket2).skip(2));
        lemma_split_unique(d1, key1, d2, key2, DASH);
        lemma_decimal_injective(ticket1 as nat, ticket2 as nat);
    }
}

/// Every artifact name of a well-formed key is safe as a path component.
pub proof fn lemma_names_safe(key: Seq<u8>, ticket: u64)
    requires
        is_key_text(key),
    ensures
        is_safe_name(body_name(key)),
        is_safe_name(redirect_name(key)),
        is_safe_name(pending_name(key, ticket)),
{
    let b = body_name(key);
    assert forall|i: int| 0 <= i < b.len() implies is_key_byte(#[trigger] b[i]) by {
        if i >= 2 {
            assert(b[i] == key[i - 2]);
        }
    }
    let r = redirect_name(key);
    assert forall|i: int| 0 <= i < r.len() implies is_key_byte(#[trigger] r[i]) by {
        if i >= 2 {
            assert(r[i] == key[i - 2]);
        }
    }
    let p = pending_name(key, ticket);
    let d = decimal(ticket as nat);
    lemma_decimal_digits(ticket as nat);
    assert forall|i: int| 0 <= i < p.len() implies is_key_byte(#[trigger] p[i]) by {
        if 2 <= i < 2 + d.len() {
            assert(p[i] == d[i - 2]);
        } else if i > 2 + d.len() {
            assert(p[i] == key[i - 3 - d.len()]);
        }
    }
}

/// Appends the decimal digits of `n` to `out`.
pub fn push_decimal(out: &mut Vec<u8>, n: u64)
    ensures
        final(out)@ == old(out)@ + decimal(n as nat),
    decreases n,
{
    if n >= 10 {
        push_decimal(out, n / 10);
    }
    let digit: u8 = (n % 10) as u8;
    out.push(48 + digit);
    assert(out@ =~= old(out)@ + decimal(n as nat));
}

impl CacheKey {
    /// The name of the body artifact of this key.
    pub fn body_name(&self) -> (name: Vec<u8>)
        ensures
            name@ == body_name(self.view()),
            is_safe_name(name@),
    {
        let mut name: Vec<u8> = Vec::new();
        name.push(TAG_BODY);
        name.push(DASH);
        push_all(&mut name, self.as_bytes());
        proof {
            lemma_names_safe(self.view(), 0);
            assert(name@ =~= body_name(self.view()));
        }
        name
    }

    /// The name of the redirect artifact of this key.
    pub fn redirect_name(&self) -> (name: Vec<u8>)
        ensures
            name@ == redirect_name(self.view()),
            is_safe_name(name@),
    {
        let mut name: Vec<u8> = Vec::new();
        name.push(TAG_REDIRECT);
        name.push(DASH);
        push_all(&mut name, self.as_bytes());
        proof {
            lemma_names_safe(self.view(), 0);
            assert(name@ =~= redirect_name(self.view()));
        }
        name
    }

    /// The name of the pending artifact that the request with `ticket` writes
    /// for this key.
    pub fn pending_name(&self, ticket: u64) -> (name: Vec<u8>)
        ensures
            name@ == pending_name(self.view(), ticket),
            is_safe_name(name@),
    {
        let mut name: Vec<u8> = Vec::new();
        name.push(TAG_PENDING);
        name.push(DASH);
        push_decimal(&mut name, ticket);
        name.push(DASH);
        push_all(&mut name, self.as_bytes());
        proof {
            lemma_names_safe(self.view(), ticket);
            assert(name@ =~= pending_name(self.view(), ticket));
        }
        name
    }
}

/// The location of the artifact `name` below the storage root `root`.
pub fn locate(root: &[u8], name: &[u8]) -> (path: Vec<u8>)
    ensures
        path@ == storage_path(root@, name@),
{
    let mut path: Vec<u8> = Vec::new();
    push_all(&mut path, root);
    path.push(SLASH);
    push_all(&mut path, name);
    assert(path@ =~= storage_path(root@, name@));
    path
}

} // verus!
