//! Chunks: groups of connections that one worker serves in turn. This module
//! holds the decisions about them: which chunk a new connection joins, when the
//! pool of chunks grows, and how a worker's sweep steps through its connections.
use vstd::prelude::*;

verus! {

/// A chunk that holds this many connections counts as full.
pub const MAX_CONNECTIONS: usize = 10;

/// Milliseconds a chunk's worker rests between sweeps.
pub const SLEEP_TIME: u64 = 50;

/// Milliseconds the listener rests after placing a connection.
pub const LISTENING_SLEEP_TIME: u64 = 100;

/// Milliseconds the dispatcher rests after each event.
pub const CHANNEL_SLEEP_TIME: u64 = 75;

/// How many chunks a pool starts with, and gets again when found empty.
pub const INITIAL_CHUNKS: usize = 2;

/// Where a new connection goes.
#[derive(Debug, Clone, Copy, PartialEq, Eq, Structural)]
pub struct Placement {
    /// Fresh chunks to add to the pool before placing (the pool was empty).
    pub fresh_chunks: usize,
    /// The chunk that takes the connection.
    pub target: usize,
    /// The target is the last chunk, so its size decides whether the pool grows.
    pub check_capacity: bool,
}

/// The listener's round-robin position in the pool of chunks.
#[derive(Debug)]
pub struct ChunkCursor {
    index: usize,
}

/// The placement for a cursor at `index` and a pool of `pool_len` chunks; none
/// when the cursor lies outside the pool.
pub open spec fn placement_for(index: nat, pool_len: nat) -> Option<Placement> {
    let fresh: nat = if pool_len == 0 {
        INITIAL_CHUNKS as nat
    } else {
        0
    };
    let len = pool_len + fresh;
    if index < len {
        Some(
            Placement {
                fresh_chunks: fresh as usize,
                target: index as usize,
                check_capacity: index == len - 1,
            },
        )
    } else {
        None
    }
}

/// The number of chunks after a placement that did or did not grow the pool.
pub open spec fn pool_after(pool_len: nat, grow: bool) -> nat {
    if grow {
        pool_len + 1
    } else {
        pool_len
    }
}

/// Whether placing a connection as `p` into a target chunk that then holds
/// `target_size` connections adds a chunk to the pool.
pub open spec fn grows(p: Placement, target_size: nat) -> bool {
    p.check_capacity && target_size >= MAX_CONNECTIONS
}

/// Law: in a pool of `n` chunks, a cursor at chunk `i` places the connection
/// on chunk `i` without adding fresh chunks, and the pool grows exactly when
/// `i` is the last chunk and that chunk is full, whatever the pool's size. An
/// empty pool first gets `INITIAL_CHUNKS` chunks and then follows the same rule.
pub proof fn law_pool_grows_at_full_last_chunk(i: nat, n: nat, target_size: nat)
    requires
        n <= usize::MAX,
    ensures
        0 < n && i < n ==> placement_for(i, n) is Some && placement_for(i, n)->Some_0.target == i
            && placement_for(i, n)->Some_0.fresh_chunks == 0 && (grows(
            placement_for(i, n)->Some_0,
            target_size,
        ) <==> (i == n - 1 && target_size >= MAX_CONNECTIONS)),
        n == 0 && i < INITIAL_CHUNKS ==> placement_for(i, n) is Some && placement_for(i, n)->Some_0.target
            == i && placement_for(i, n)->Some_0.fresh_chunks == INITIAL_CHUNKS && (grows(
            placement_for(i, n)->Some_0,
            target_size,
        ) <==> (i == INITIAL_CHUNKS - 1 && target_size >= MAX_CONNECTIONS)),
        (0 < n && i >= n) || (n == 0 && i >= INITIAL_CHUNKS) ==> placement_for(i, n) is None,
{
}

/// Law: after placing on chunk `i` of a pool of `n` chunks, the pool has one
/// more chunk exactly when it grew, and the cursor moves on to the next chunk,
/// back to the first after the last one.
pub proof fn law_cursor_moves_round_robin(i: nat, n: nat, grow: bool)
    requires
        i < n,
    ensures
        pool_after(n, grow) == if grow {
            n + 1
        } else {
            n
        },
        (i + 1) % pool_after(n, grow) == if i + 1 < pool_after(n, grow) {
            i + 1
        } else {
            0
        },
{
    let m = pool_after(n, grow);
    if i + 1 < m {
        vstd::arithmetic::div_mod::lemma_small_mod((i + 1) as nat, m);
    } else {
        assert(i + 1 == m);
        vstd::arithmetic::div_mod::lemma_mod_self_0(m as int);
    }
}

impl ChunkCursor {
    /// The chunk the next connection goes to.
    pub closed spec fn position(&self) -> nat {
        self.index as nat
    }

    /// A cursor at the first chunk.
    pub fn new() -> (c: ChunkCursor)
        ensures
            c.position() == 0,
    {
        ChunkCursor { index: 0 }
    }

    /// The chunk the next connection goes to.
    pub fn index(&self) -> (i: usize)
        ensures
            i == self.position(),
    {
        self.index
    }

    /// Where the next connection goes in a pool of `pool_len` chunks: an empty
    /// pool first gets `INITIAL_CHUNKS` fresh chunks; `None` when the cursor
    /// lies past the pool's end.
    pub fn place(&self, pool_len: usize) -> (r: Option<Placement>)
        ensures
            r == placement_for(self.position(), pool_len as nat),
    {
        let fresh: usize = if pool_len == 0 {
            INITIAL_CHUNKS
        } else {
            0
        };
        let len = pool_len + fresh;
        if self.index < len {
            Some(
                Placement {
                    fresh_chunks: fresh,
                    target: self.index,
                    check_capacity: self.index == len - 1,
                },
            )
        } else {
            None
        }
    }

    /// Moves on after a connection was placed in a pool that has `pool_len`
    /// chunks (fresh ones included) and whose target chunk now holds
    /// `target_size` connections: when the target is the last chunk and full, a
    /// chunk is added (the result says so), and the cursor moves to the next
    /// chunk, wrapping around at the end.
    pub fn advance(&mut self, placement: &Placement, pool_len: usize, target_size: usize) -> (grow: bool)
        requires
            placement.target == old(self).position(),
            placement.target < pool_len,
            placement.check_capacity == (placement.target == pool_len - 1),
            pool_len < usize::MAX,
        ensures
            grow == (placement.check_capacity && target_size >= MAX_CONNECTIONS),
            grow == grows(*placement, target_size as nat),
            final(self).position() == (old(self).position() + 1) % pool_after(pool_len as nat, grow),
            final(self).position() < pool_after(pool_len as nat, grow),
    {
        let grow = placement.check_capacity && target_size >= MAX_CONNECTIONS;
        let len = if grow {
            pool_len + 1
        } else {
            pool_len
        };
        self.index = (self.index + 1) % len;
        grow
    }
}

/// The connections and the index after one step of a sweep at `index`: a
/// connection whose read failed is dropped and the sweep stays; otherwise it
/// moves past it.
pub open spec fn sweep_step_result<C>(connections: Seq<C>, index: int, read_failed: bool) -> (
    Seq<C>,
    int,
) {
    if read_failed {
        (connections.remove(index), index)
    } else {
        (connections, index + 1)
    }
}

/// Where a sweep that starts at `index` ends when the reads it makes fail or
/// succeed as `outcomes` says, one outcome per read; the sweep stops once the
/// index reaches the end of the connections.
pub open spec fn sweep_run<C>(connections: Seq<C>, index: int, outcomes: Seq<bool>) -> (
    Seq<C>,
    int,
)
    decreases outcomes.len(),
{
    if outcomes.len() == 0 || !(0 <= index < connections.len()) {
        (connections, index)
    } else {
        let next = sweep_step_result(connections, index, outcomes[0]);
        sweep_run(next.0, next.1, outcomes.drop_first())
    }
}

/// The connections such a sweep reads from, in the order it reads them.
pub open spec fn sweep_reads<C>(connections: Seq<C>, index: int, outcomes: Seq<bool>) -> Seq<C>
    decreases outcomes.len(),
{
    if outcomes.len() == 0 || !(0 <= index < connections.len()) {
        Seq::empty()
    } else {
        let next = sweep_step_result(connections, index, outcomes[0]);
        seq![connections[index]] + sweep_reads(next.0, next.1, outcomes.drop_first())
    }
}

/// The connections whose read did not fail, in their order, where the read of
/// `connections[i]` failed exactly when `failed[i]` holds.
pub open spec fn kept<C>(connections: Seq<C>, failed: Seq<bool>) -> Seq<C>
    decreases connections.len(),
{
    if connections.len() == 0 {
        Seq::empty()
    } else {
        let rest = kept(connections.drop_last(), failed);
        if failed[connections.len() - 1] {
            rest
        } else {
            rest.push(connections.last())
        }
    }
}

/// The rest of a round, from the moment the first `k` connections have been
/// read: those of them that stay lie before the index, the unread ones after.
proof fn lemma_sweep_from<C>(connections: Seq<C>, failed: Seq<bool>, k: int)
    requires
        failed.len() == connections.len(),
        0 <= k <= connections.len(),
    ensures
        ({
            let done = kept(connections.take(k), failed);
            &&& sweep_run(done + connections.skip(k), done.len() as int, failed.skip(k)) == (
                kept(connections, failed),
                kept(connections, failed).len() as int,
            )
            &&& sweep_reads(done + connections.skip(k), done.len() as int, failed.skip(k))
                == connections.skip(k)
        }),
    decreases connections.len() - k,
{
    let done = kept(connections.take(k), failed);
    let state = done + connections.skip(k);
    let index = done.len() as int;
    if k == connections.len() {
        assert(connections.take(k) =~= connections);
        assert(connections.skip(k) =~= Seq::<C>::empty());
        assert(state =~= done);
        assert(failed.skip(k) =~= Seq::<bool>::empty());
    } else {
        lemma_sweep_from(connections, failed, k + 1);
        let outcomes = failed.skip(k);
        assert(outcomes.len() > 0);
        assert(outcomes[0] == failed[k]);
        assert(outcomes.drop_first() =~= failed.skip(k + 1));
        assert(state[index] == connections[k]);
        assert(connections.take(k + 1).drop_last() =~= connections.take(k));
        assert(connections.take(k + 1).last() == connections[k]);
        let done2 = kept(connections.take(k + 1), failed);
        let next = sweep_step_result(state, index, outcomes[0]);
        if failed[k] {
            assert(done2 == done);
            assert(next.0 =~= done2 + connections.skip(k + 1));
            assert(next.1 == done2.len());
        } else {
            assert(done2 == done.push(connections[k]));
            assert(next.0 =~= done2 + connections.skip(k + 1));
            assert(next.1 == done2.len());
        }
        assert(connections.skip(k) =~= seq![connections[k]] + connections.skip(k + 1));
    }
}

/// Law: a worker's whole round over its connections reads each connection
/// once, in order, and leaves exactly those whose read did not fail, in the
/// order they had, with the index at their end.
pub proof fn law_sweep_round<C>(connections: Seq<C>, failed: Seq<bool>)
    requires
        failed.len() == connections.len(),
    ensures
        sweep_reads(connections, 0, failed) == connections,
        sweep_run(connections, 0, failed) == (
            kept(connections, failed),
            kept(connections, failed).len() as int,
        ),
{
    lemma_sweep_from(connections, failed, 0);
    assert(connections.take(0) =~= Seq::<C>::empty());
    assert(kept(connections.take(0), failed) =~= Seq::<C>::empty());
    assert(Seq::<C>::empty() + connections.skip(0) =~= connections);
    assert(failed.skip(0) =~= failed);
}

/// One step of a worker's sweep over its chunk's connections, after trying to
/// read from the connection at `index`: a connection whose read failed is
/// dropped and the sweep stays at `index`; otherwise it moves past it.
pub fn sweep_step<C>(connections: &mut Vec<C>, index: usize, read_failed: bool) -> (next: usize)
    requires
        index < old(connections).len(),
    ensures
        (final(connections)@, next as int) == sweep_step_result(
            old(connections)@,
            index as int,
            read_failed,
        ),
        read_failed ==> final(connections)@ == old(connections)@.remove(index as int) && next == index,
        !read_failed ==> final(connections)@ == old(connections)@ && next == index + 1,
{
    if read_failed {
        let _ = connections.remove(index);
        index
    } else {
        index + 1
    }
}

} // verus!
