//! The cache store.
//!
//! The store keeps its artifacts on a medium that maps names to contents.
//! The program around the core owns the real medium; this module states
//! what each operation on it must do, names the primitives of the store in
//! terms of those operations, and proves what follows for the cache: a body
//! that is being written cannot be seen, it becomes visible in one step,
//! whole and from one writer, and it never changes afterwards, however the
//! operations of several requests are interleaved.

use crate::layout::{body_name, lemma_names_distinct, pending_name, redirect_name};
use crate::protocol::{Lookup, Probe};
use vstd::prelude::*;

verus! {

/// The artifacts on the medium: name to contents.
pub type Medium = Map<Seq<u8>, Seq<u8>>;

/// An operation on the medium. Each is performed in one indivisible step.
pub enum StoreOp {
    /// Create `name` empty, replacing what was there.
    Create { name: Seq<u8> },
    /// Append `data` to `name`, if it exists.
    Append { name: Seq<u8>, data: Seq<u8> },
    /// Make `from` visible as `to`, unless `to` exists already; remove `from`.
    Publish { from: Seq<u8>, to: Seq<u8> },
    /// Remove `name`.
    Discard { name: Seq<u8> },
    /// Write `name` in one piece.
    Put { name: Seq<u8>, content: Seq<u8> },
}

/// The medium after one operation.
pub open spec fn apply(m: Medium, op: StoreOp) -> Medium {
    match op {
        StoreOp::Create { name } => m.insert(name, Seq::empty()),
        StoreOp::Append { name, data } => if m.contains_key(name) {
            m.insert(name, m[name] + data)
        } else {
            m
        },
        StoreOp::Publish { from, to } => if !m.contains_key(from) {
            m
        } else if m.contains_key(to) {
            m.remove(from)
        } else {
            m.remove(from).insert(to, m[from])
        },
        StoreOp::Discard { name } => m.remove(name),
        StoreOp::Put { name, content } => m.insert(name, content),
    }
}

/// The medium after a run of operations, in order.
pub open spec fn replay(m: Medium, ops: Seq<StoreOp>) -> Medium
    decreases ops.len(),
{
    if ops.len() == 0 {
        m
    } else {
        apply(replay(m, ops.drop_last()), ops.last())
    }
}

/// What reading the artifact `name` gives on a medium that works.
pub open spec fn read(m: Medium, name: Seq<u8>) -> Lookup<Seq<u8>> {
    if m.contains_key(name) {
        Lookup::Found(m[name])
    } else {
        Lookup::Absent
    }
}

/// What opening the artifact `name` gives on a medium that works.
pub open spec fn probe(m: Medium, name: Seq<u8>) -> Probe {
    if m.contains_key(name) {
        Probe::Found
    } else {
        Probe::Absent
    }
}

/// Looking up the body of `key`: it is found if its body artifact exists.
pub open spec fn lookup_body(m: Medium, key: Seq<u8>) -> Probe {
    probe(m, body_name(key))
}

/// Looking up the redirect of `key`: the contents of its redirect artifact,
/// if that exists.
pub open spec fn lookup_redirect(m: Medium, key: Seq<u8>) -> Lookup<Seq<u8>> {
    read(m, redirect_name(key))
}

/// Beginning to write a body for `key` under `ticket`: the pending artifact
/// is created empty.
pub open spec fn begin_body_write(key: Seq<u8>, ticket: u64) -> StoreOp {
    StoreOp::Create { name: pending_name(key, ticket) }
}

/// Writing on: `data` is appended to the pending artifact.
pub open spec fn write_body(key: Seq<u8>, ticket: u64, data: Seq<u8>) -> StoreOp {
    StoreOp::Append { name: pending_name(key, ticket), data }
}

/// Committing the write: the pending artifact becomes the body of `key`,
/// unless `key` has a body already.
pub open spec fn commit(key: Seq<u8>, ticket: u64) -> StoreOp {
    StoreOp::Publish { from: pending_name(key, ticket), to: body_name(key) }
}

/// Abandoning the write: the pending artifact is removed.
pub open spec fn abandon(key: Seq<u8>, ticket: u64) -> StoreOp {
    StoreOp::Discard { name: pending_name(key, ticket) }
}

/// Recording `location` as the redirect of `key`, in one piece.
pub open spec fn put_redirect(key: Seq<u8>, location: Seq<u8>) -> StoreOp {
    StoreOp::Put { name: redirect_name(key), content: location }
}

/// A name of a pending artifact.
pub open spec fn is_pending_name(name: Seq<u8>) -> bool {
    exists|key: Seq<u8>, ticket: u64| name == pending_name(key, ticket)
}

/// The operations that requests perform: they create, fill and remove
/// pending artifacts, publish a pending artifact as the body of some key,
/// and write redirect artifacts in one piece.
pub open spec fn is_protocol_op(op: StoreOp) -> bool {
    match op {
        StoreOp::Create { name } => is_pending_name(name),
        StoreOp::Append { name, .. } => is_pending_name(name),
        StoreOp::Discard { name } => is_pending_name(name),
        StoreOp::Publish { from, to } => is_pending_name(from) && exists|key: Seq<u8>|
            to == body_name(key),
        StoreOp::Put { name, .. } => exists|key: Seq<u8>| name == redirect_name(key),
    }
}

/// A run made of the operations that requests perform.
pub open spec fn is_protocol_run(ops: Seq<StoreOp>) -> bool {
    forall|i: int| 0 <= i < ops.len() ==> is_protocol_op(#[trigger] ops[i])
}

/// The pending artifact that an operation acts on, if it acts on one.
pub open spec fn subject(op: StoreOp) -> Option<Seq<u8>> {
    match op {
        StoreOp::Create { name } => Some(name),
        StoreOp::Append { name, .. } => Some(name),
        StoreOp::Discard { name } => Some(name),
        StoreOp::Publish { from, .. } => Some(from),
        StoreOp::Put { .. } => None,
    }
}

/// Whether `op` acts on the pending artifact `pending`.
pub open spec fn concerns(op: StoreOp, pending: Seq<u8>) -> bool {
    subject(op) == Some(pending)
}

/// A run that acts on no pending artifact but `pending`.
pub open spec fn keeps_to(ops: Seq<StoreOp>, pending: Seq<u8>) -> bool {
    forall|i: int|
        0 <= i < ops.len() && subject(#[trigger] ops[i]) is Some ==> concerns(ops[i], pending)
}

/// The operations of a run that act on `pending`, in order.
pub open spec fn own_ops(ops: Seq<StoreOp>, pending: Seq<u8>) -> Seq<StoreOp>
    decreases ops.len(),
{
    if ops.len() == 0 {
        Seq::empty()
    } else if concerns(ops.last(), pending) {
        own_ops(ops.drop_last(), pending).push(ops.last())
    } else {
        own_ops(ops.drop_last(), pending)
    }
}

/// Appending `chunks` to `pending`, one operation for each chunk, in order.
pub open spec fn appends(pending: Seq<u8>, chunks: Seq<Seq<u8>>) -> Seq<StoreOp> {
    Seq::new(chunks.len(), |i: int| StoreOp::Append { name: pending, data: chunks[i] })
}

/// What a writer does to its pending artifact before it commits: it creates
/// the artifact and appends its chunks in order.
pub open spec fn writes(pending: Seq<u8>, chunks: Seq<Seq<u8>>) -> Seq<StoreOp> {
    seq![StoreOp::Create { name: pending }] + appends(pending, chunks)
}

/// Operations that change what a lookup can see: a commit, and the write of
/// a redirect.
pub open spec fn is_visible_op(op: StoreOp) -> bool {
    op is Publish || op is Put
}

/// A run without an operation that a lookup can see.
pub open spec fn is_invisible_run(ops: Seq<StoreOp>) -> bool {
    forall|i: int| 0 <= i < ops.len() ==> !is_visible_op(#[trigger] ops[i])
}

/// A run of one operation.
pub proof fn lemma_replay_one(m: Medium, op: StoreOp)
    ensures
        replay(m, seq![op]) == apply(m, op),
{
    assert(seq![op].drop_last() =~= Seq::<StoreOp>::empty());
    assert(replay(m, seq![op].drop_last()) == m);
}

/// A run followed by another.
pub proof fn lemma_replay_concat(m: Medium, a: Seq<StoreOp>, b: Seq<StoreOp>)
    ensures
        replay(m, a + b) == replay(replay(m, a), b),
    decreases b.len(),
{
    if b.len() == 0 {
        assert(a + b =~= a);
    } else {
        lemma_replay_concat(m, a, b.drop_last());
        assert((a + b).drop_last() =~= a + b.drop_last());
        assert((a + b).last() == b.last());
    }
}

/// A prefix of a run extended by one operation.
pub proof fn lemma_replay_step(m: Medium, ops: Seq<StoreOp>, j: int)
    requires
        0 <= j < ops.len(),
    ensures
        replay(m, ops.take(j + 1)) == apply(replay(m, ops.take(j)), ops[j]),
{
    assert(ops.take(j + 1).drop_last() =~= ops.take(j));
    assert(ops.take(j + 1).last() == ops[j]);
}

/// After creating a pending artifact and appending chunks to it, it holds
/// the chunks, in order and nothing else, and no other artifact has changed.
pub proof fn lemma_writes_content(m: Medium, pending: Seq<u8>, chunks: Seq<Seq<u8>>)
    ensures
        replay(m, writes(pending, chunks)) == m.insert(pending, chunks.flatten()),
    decreases chunks.len(),
{
    let ops = writes(pending, chunks);
    if chunks.len() == 0 {
        assert(ops.drop_last() =~= Seq::<StoreOp>::empty());
        assert(replay(m, ops.drop_last()) == m);
        assert(chunks.flatten() =~= Seq::<u8>::empty());
    } else {
        let fewer = chunks.drop_last();
        lemma_writes_content(m, pending, fewer);
        assert(ops.drop_last() =~= writes(pending, fewer));
        assert(ops.last() == (StoreOp::Append { name: pending, data: chunks.last() }));
        fewer.lemma_flatten_push(chunks.last());
        assert(fewer.push(chunks.last()) =~= chunks);
        assert(replay(m, ops) =~= m.insert(pending, chunks.flatten()));
    }
}

/// Completeness: a run of protocol operations without a commit and without
/// the write of a redirect changes nothing that a lookup can see. Whatever
/// is written to pending artifacts, a body or a redirect that was absent is
/// still absent, and one that was there is as it was.
pub proof fn lemma_invisible_run(m: Medium, ops: Seq<StoreOp>, key: Seq<u8>)
    requires
        is_protocol_run(ops),
        is_invisible_run(ops),
    ensures
        read(replay(m, ops), body_name(key)) == read(m, body_name(key)),
        read(replay(m, ops), redirect_name(key)) == read(m, redirect_name(key)),
        probe(replay(m, ops), body_name(key)) == probe(m, body_name(key)),
    decreases ops.len(),
{
    if ops.len() > 0 {
        let rest = ops.drop_last();
        let op = ops.last();
        assert(is_protocol_op(op) && !is_visible_op(op));
        assert forall|i: int| 0 <= i < rest.len() implies is_protocol_op(#[trigger] rest[i])
            && !is_visible_op(rest[i]) by {
            assert(rest[i] == ops[i]);
        }
        lemma_invisible_run(m, rest, key);
        let name = match op {
            StoreOp::Create { name } => name,
            StoreOp::Append { name, .. } => name,
            StoreOp::Discard { name } => name,
            _ => arbitrary(),
        };
        let (pk, pt) = choose|k: Seq<u8>, t: u64| name == pending_name(k, t);
        lemma_names_distinct(key, 0, pk, pt);
    }
}

/// An operation of the protocol that does not act on a pending artifact
/// leaves it as it is.
pub proof fn lemma_foreign_op_keeps_pending(m: Medium, op: StoreOp, pending: Seq<u8>)
    requires
        is_protocol_op(op),
        is_pending_name(pending),
        !concerns(op, pending),
    ensures
        apply(m, op).contains_key(pending) == m.contains_key(pending),
        apply(m, op).contains_key(pending) ==> apply(m, op)[pending] == m[pending],
{
    let (pk, pt) = choose|key: Seq<u8>, ticket: u64| pending == pending_name(key, ticket);
    match op {
        StoreOp::Publish { from, to } => {
            let key = choose|key: Seq<u8>| to == body_name(key);
            lemma_names_distinct(key, 0, pk, pt);
        },
        StoreOp::Put { name, content } => {
            let key = choose|key: Seq<u8>| name == redirect_name(key);
            lemma_names_distinct(key, 0, pk, pt);
        },
        _ => {},
    }
}

/// Isolation of writers: what a pending artifact holds after a run of
/// protocol operations is what it holds after the operations that act on it
/// alone. The operations of other requests, wherever they fall in between,
/// change nothing of it.
pub proof fn lemma_pending_isolated(m: Medium, ops: Seq<StoreOp>, pending: Seq<u8>)
    requires
        is_protocol_run(ops),
        is_pending_name(pending),
    ensures
        replay(m, ops).contains_key(pending) == replay(m, own_ops(ops, pending)).contains_key(
            pending,
        ),
        replay(m, ops).contains_key(pending) ==> replay(m, ops)[pending] == replay(
            m,
            own_ops(ops, pending),
        )[pending],
    decreases ops.len(),
{
    if ops.len() > 0 {
        let rest = ops.drop_last();
        let op = ops.last();
        assert(is_protocol_op(op));
        assert forall|i: int| 0 <= i < rest.len() implies is_protocol_op(#[trigger] rest[i]) by {
            assert(rest[i] == ops[i]);
        }
        lemma_pending_isolated(m, rest, pending);
        let all = replay(m, rest);
        let own = replay(m, own_ops(rest, pending));
        if concerns(op, pending) {
            let mine = own_ops(rest, pending).push(op);
            assert(mine.drop_last() =~= own_ops(rest, pending));
            assert(mine.last() == op);
            assert(replay(m, mine) == apply(own, op));
            match op {
                StoreOp::Publish { from, to } => {
                    let (pk, pt) = choose|key: Seq<u8>, ticket: u64|
                        pending == pending_name(key, ticket);
                    let key = choose|key: Seq<u8>| to == body_name(key);
                    lemma_names_distinct(key, 0, pk, pt);
                },
                _ => {},
            }
        } else {
            lemma_foreign_op_keeps_pending(all, op, pending);
        }
    }
}

/// A body artifact that exists is never changed: no operation of the
/// protocol alters or removes it.
pub proof fn lemma_body_is_immutable(m: Medium, op: StoreOp, key: Seq<u8>)
    requires
        is_protocol_op(op),
        m.contains_key(body_name(key)),
    ensures
        apply(m, op).contains_key(body_name(key)),
        apply(m, op)[body_name(key)] == m[body_name(key)],
{
    match op {
        StoreOp::Create { name } => {
            let (pk, pt) = choose|k: Seq<u8>, t: u64| name == pending_name(k, t);
            lemma_names_distinct(key, 0, pk, pt);
        },
        StoreOp::Append { name, data } => {
            let (pk, pt) = choose|k: Seq<u8>, t: u64| name == pending_name(k, t);
            lemma_names_distinct(key, 0, pk, pt);
        },
        StoreOp::Discard { name } => {
            let (pk, pt) = choose|k: Seq<u8>, t: u64| name == pending_name(k, t);
            lemma_names_distinct(key, 0, pk, pt);
        },
        StoreOp::Publish { from, to } => {
            let (pk, pt) = choose|k: Seq<u8>, t: u64| from == pending_name(k, t);
            lemma_names_distinct(key, 0, pk, pt);
        },
        StoreOp::Put { name, content } => {
            let k = choose|k: Seq<u8>| name == redirect_name(k);
            lemma_names_distinct(key, 0, k, 0);
        },
    }
}

/// A body artifact appears only by a commit, and then holds what the
/// committed pending artifact held at that moment.
pub proof fn lemma_body_appears_by_commit(m: Medium, op: StoreOp, key: Seq<u8>)
    requires
        is_protocol_op(op),
        !m.contains_key(body_name(key)),
        apply(m, op).contains_key(body_name(key)),
    ensures
        op matches StoreOp::Publish { from, to } && to == body_name(key) && m.contains_key(from)
            && apply(m, op)[body_name(key)] == m[from],
{
    match op {
        StoreOp::Create { name } => {
            let (pk, pt) = choose|k: Seq<u8>, t: u64| name == pending_name(k, t);
            lemma_names_distinct(key, 0, pk, pt);
        },
        StoreOp::Append { name, data } => {},
        StoreOp::Discard { name } => {},
        StoreOp::Publish { from, to } => {},
        StoreOp::Put { name, content } => {
            let k = choose|k: Seq<u8>| name == redirect_name(k);
            lemma_names_distinct(key, 0, k, 0);
        },
    }
}

/// Once a body artifact exists at some point of a run, it exists with the
/// same contents at every later point.
pub proof fn lemma_body_stays(m: Medium, ops: Seq<StoreOp>, key: Seq<u8>, i: int, j: int)
    requires
        is_protocol_run(ops),
        0 <= i <= j <= ops.len(),
        replay(m, ops.take(i)).contains_key(body_name(key)),
    ensures
        replay(m, ops.take(j)).contains_key(body_name(key)),
        replay(m, ops.take(j))[body_name(key)] == replay(m, ops.take(i))[body_name(key)],
    decreases j - i,
{
    if i < j {
        lemma_body_stays(m, ops, key, i, j - 1);
        lemma_replay_step(m, ops, j - 1);
        assert(is_protocol_op(ops[j - 1]));
        lemma_body_is_immutable(replay(m, ops.take(j - 1)), ops[j - 1], key);
    }
}

/// Integrity under concurrency. Take any run of protocol operations, of any
/// number of requests in any interleaving, on a medium without a body for
/// `key`. Let the operation at `commit` be the first that publishes a body
/// for `key`, from the pending artifact `pending`, and let the operations
/// of the run before it that act on `pending` be those of one writer that
/// created the artifact and appended `chunks`. Then from that commit on the
/// body of `key` is exactly those chunks in order, whatever other requests
/// wrote in between and whichever commits follow.
pub proof fn lemma_first_commit_wins(
    m: Medium,
    ops: Seq<StoreOp>,
    key: Seq<u8>,
    commit: int,
    pending: Seq<u8>,
    chunks: Seq<Seq<u8>>,
    later: int,
)
    requires
        is_protocol_run(ops),
        0 <= commit < later <= ops.len(),
        !replay(m, ops.take(commit)).contains_key(body_name(key)),
        ops[commit] == (StoreOp::Publish { from: pending, to: body_name(key) }),
        own_ops(ops.take(commit), pending) == writes(pending, chunks),
    ensures
        replay(m, ops.take(later)).contains_key(body_name(key)),
        replay(m, ops.take(later))[body_name(key)] == chunks.flatten(),
{
    let before = ops.take(commit);
    assert(is_protocol_op(ops[commit]));
    assert forall|i: int| 0 <= i < before.len() implies is_protocol_op(#[trigger] before[i]) by {
        assert(before[i] == ops[i]);
    }
    lemma_writes_content(m, pending, chunks);
    lemma_pending_isolated(m, before, pending);
    lemma_replay_step(m, ops, commit);
    let at = replay(m, before);
    assert(at.contains_key(pending));
    assert(at[pending] == chunks.flatten());
    let after = replay(m, ops.take(commit + 1));
    assert(after == at.remove(pending).insert(body_name(key), at[pending]));
    lemma_body_stays(m, ops, key, commit + 1, later);
}

/// What a fetch for `key` under `ticket` does to the medium when it reaches
/// its end: it creates its pending artifact, appends `chunks` and commits.
pub open spec fn fetch_log(key: Seq<u8>, ticket: u64, chunks: Seq<Seq<u8>>) -> Seq<StoreOp> {
    writes(pending_name(key, ticket), chunks).push(commit(key, ticket))
}

/// What a fetch for `key` under `ticket` may have done so far, if `chunks`
/// is the body that upstream sends it: a beginning of its whole log, or the
/// writes of some of the chunks followed by abandoning the write.
pub open spec fn is_fetch_so_far(
    log: Seq<StoreOp>,
    key: Seq<u8>,
    ticket: u64,
    chunks: Seq<Seq<u8>>,
) -> bool {
    ||| log.is_prefix_of(fetch_log(key, ticket, chunks))
    ||| exists|n: int|
        0 <= n <= chunks.len() && log == writes(
            pending_name(key, ticket),
            #[trigger] chunks.take(n),
        ).push(abandon(key, ticket))
}

/// A run in which several fetches for `key` go on side by side, in any
/// interleaving and together with any operations for other keys: fetch `j`
/// has the ticket `tickets[j]` and is sent the body `bodies[j]`. At every
/// point of the run each fetch has done a beginning of what a fetch does,
/// and nothing but these fetches commits a body for `key`.
pub open spec fn is_concurrent_run(
    ops: Seq<StoreOp>,
    key: Seq<u8>,
    tickets: Seq<u64>,
    bodies: Seq<Seq<Seq<u8>>>,
) -> bool {
    &&& is_protocol_run(ops)
    &&& tickets.len() == bodies.len()
    &&& forall|j: int, n: int|
        0 <= j < tickets.len() && 0 <= n <= ops.len() ==> is_fetch_so_far(
            #[trigger] own_ops(ops.take(n), pending_name(key, tickets[j])),
            key,
            tickets[j],
            bodies[j],
        )
    &&& forall|i: int|
        0 <= i < ops.len() && (#[trigger] ops[i]) is Publish && ops[i]->to == body_name(key)
            ==> exists|j: int|
            0 <= j < tickets.len() && ops[i]->from == pending_name(key, #[trigger] tickets[j])
}

/// A log that ends in a commit is the whole log of a fetch.
proof fn lemma_committed_log_is_whole(
    done: Seq<StoreOp>,
    last: StoreOp,
    key: Seq<u8>,
    ticket: u64,
    chunks: Seq<Seq<u8>>,
)
    requires
        last is Publish,
        is_fetch_so_far(done.push(last), key, ticket, chunks),
    ensures
        done == writes(pending_name(key, ticket), chunks),
{
    let pending = pending_name(key, ticket);
    let log = done.push(last);
    let whole = fetch_log(key, ticket, chunks);
    let body = writes(pending, chunks);
    assert(log[done.len() as int] == last);
    if log.is_prefix_of(whole) {
        assert(log[done.len() as int] == whole[done.len() as int]);
        if done.len() < body.len() {
            assert(whole[done.len() as int] == body[done.len() as int]);
        }
        assert(done =~= body) by {
            assert forall|i: int| 0 <= i < done.len() implies done[i] == body[i] by {
                assert(log[i] == whole[i]);
            }
        }
    } else {
        let n = choose|n: int|
            0 <= n <= chunks.len() && log == writes(pending, #[trigger] chunks.take(n)).push(
                abandon(key, ticket),
            );
        let other = writes(pending, chunks.take(n)).push(abandon(key, ticket));
        assert(other[other.len() - 1] == abandon(key, ticket));
        assert(log[log.len() - 1] == last);
    }
}

/// Integrity under concurrency. Let any number of fetches for one key, for
/// which the cache holds no body, go on side by side, each with a ticket
/// and a body of its own, their operations interleaved in any way. If the
/// key has a body afterwards, it is the whole body of one of the fetches,
/// every chunk of it in order: never a part of a body, and never a mixture
/// of two.
pub proof fn lemma_concurrent_fetches_commit_once(
    m: Medium,
    ops: Seq<StoreOp>,
    key: Seq<u8>,
    tickets: Seq<u64>,
    bodies: Seq<Seq<Seq<u8>>>,
)
    requires
        !m.contains_key(body_name(key)),
        is_concurrent_run(ops, key, tickets, bodies),
    ensures
        replay(m, ops).contains_key(body_name(key)) ==> exists|j: int|
            0 <= j < tickets.len() && replay(m, ops)[body_name(key)] == (
            #[trigger] bodies[j]).flatten(),
    decreases ops.len(),
{
    let body = body_name(key);
    if ops.len() > 0 && replay(m, ops).contains_key(body) {
        let rest = ops.drop_last();
        let last = ops.last();
        assert(is_protocol_op(last));
        assert(is_concurrent_run(rest, key, tickets, bodies)) by {
            assert forall|i: int| 0 <= i < rest.len() implies is_protocol_op(
                #[trigger] rest[i],
            ) by {
                assert(rest[i] == ops[i]);
            }
            assert forall|j: int, n: int|
                0 <= j < tickets.len() && 0 <= n <= rest.len() implies is_fetch_so_far(
                #[trigger] own_ops(rest.take(n), pending_name(key, tickets[j])),
                key,
                tickets[j],
                bodies[j],
            ) by {
                assert(rest.take(n) =~= ops.take(n));
            }
            assert forall|i: int|
                0 <= i < rest.len() && (#[trigger] rest[i]) is Publish && rest[i]->to
                    == body implies exists|j: int|
                0 <= j < tickets.len() && rest[i]->from == pending_name(
                    key,
                    #[trigger] tickets[j],
                ) by {
                assert(rest[i] == ops[i]);
            }
        }
        let before = replay(m, rest);
        if before.contains_key(body) {
            lemma_concurrent_fetches_commit_once(m, rest, key, tickets, bodies);
            lemma_body_is_immutable(before, last, key);
        } else {
            lemma_body_appears_by_commit(before, last, key);
            assert(last == ops[ops.len() - 1]);
            let j = choose|j: int|
                0 <= j < tickets.len() && last->from == pending_name(key, #[trigger] tickets[j]);
            let pending = pending_name(key, tickets[j]);
            assert(ops.take(ops.len() as int) =~= ops);
            assert(own_ops(ops, pending) == own_ops(rest, pending).push(last));
            lemma_committed_log_is_whole(own_ops(rest, pending), last, key, tickets[j], bodies[j]);
            assert forall|i: int| 0 <= i < rest.len() implies is_protocol_op(
                #[trigger] rest[i],
            ) by {
                assert(rest[i] == ops[i]);
            }
            lemma_pending_isolated(m, rest, pending);
            lemma_writes_content(m, pending, bodies[j]);
            assert(replay(m, ops)[body] == bodies[j].flatten());
        }
    }
}

/// Writing cannot be seen. Beginning a write, writing on and abandoning the
/// write change no lookup, of any key.
pub proof fn lemma_write_is_unseen(
    m: Medium,
    key: Seq<u8>,
    ticket: u64,
    data: Seq<u8>,
    other: Seq<u8>,
)
    ensures
        lookup_body(apply(m, begin_body_write(key, ticket)), other) == lookup_body(m, other),
        lookup_body(apply(m, write_body(key, ticket, data)), other) == lookup_body(m, other),
        lookup_body(apply(m, abandon(key, ticket)), other) == lookup_body(m, other),
        lookup_redirect(apply(m, begin_body_write(key, ticket)), other) == lookup_redirect(
            m,
            other,
        ),
        lookup_redirect(apply(m, write_body(key, ticket, data)), other) == lookup_redirect(
            m,
            other,
        ),
        lookup_redirect(apply(m, abandon(key, ticket)), other) == lookup_redirect(m, other),
        !apply(m, abandon(key, ticket)).contains_key(pending_name(key, ticket)),
{
    lemma_names_distinct(other, 0, key, ticket);
}

/// A commit is all or nothing. Committing a pending artifact that exists
/// makes the whole of it the body of its key, where the key had none; it
/// changes nothing of a body that was there; and either way the pending
/// artifact is gone and no other key is touched.
pub proof fn lemma_commit_is_whole(m: Medium, key: Seq<u8>, ticket: u64, other: Seq<u8>)
    requires
        m.contains_key(pending_name(key, ticket)),
    ensures
        ({
            let after = apply(m, commit(key, ticket));
            &&& lookup_body(after, key) == Probe::Found
            &&& after[body_name(key)] == if m.contains_key(body_name(key)) {
                m[body_name(key)]
            } else {
                m[pending_name(key, ticket)]
            }
            &&& !after.contains_key(pending_name(key, ticket))
            &&& other != key ==> lookup_body(after, other) == lookup_body(m, other)
            &&& lookup_redirect(after, other) == lookup_redirect(m, other)
        }),
{
    lemma_names_distinct(key, 0, key, ticket);
    lemma_names_distinct(other, 0, key, ticket);
    lemma_names_distinct(other, 0, key, 0);
    lemma_names_distinct(key, 0, other, 0);
}

/// A recorded redirect is there at once, and only for its key.
pub proof fn lemma_put_redirect_is_seen(m: Medium, key: Seq<u8>, location: Seq<u8>, other: Seq<u8>)
    ensures
        lookup_redirect(apply(m, put_redirect(key, location)), key) == Lookup::Found(location),
        other != key ==> lookup_redirect(apply(m, put_redirect(key, location)), other)
            == lookup_redirect(m, other),
        lookup_body(apply(m, put_redirect(key, location)), other) == lookup_body(m, other),
{
    lemma_names_distinct(key, 0, other, 0);
    lemma_names_distinct(other, 0, key, 0);
}

} // verus!
