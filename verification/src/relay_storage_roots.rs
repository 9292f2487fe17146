//! A bounded, insertion-ordered history of relay-chain storage roots.
//!
//! The history keeps the latest `max_storage_roots` relay storage roots so
//! that state proofs can be validated against an old state of the relay
//! chain. One root is recorded per local block, at finalization time; when
//! the same relay block is observed by consecutive local blocks the call is
//! an idempotent no-op, and when the bound is exceeded exactly one entry —
//! the oldest — is evicted, keeping the per-block cost constant.

use vstd::prelude::*;

verus! {

/// One recorded relay block: its number and the storage root summarizing
/// the relay chain's state at that block. Immutable once created; removed
/// only by oldest-first eviction.
#[derive(Clone, Copy, PartialEq, Eq, Debug)]
pub struct RelayStorageRootEntry {
    /// The relay-chain block number the root belongs to.
    pub relay_block_number: u32,
    /// The storage root of the relay chain at that block.
    pub state_root: [u8; 32],
}

/// Configuration of the history, fixed at construction.
#[derive(Clone, Copy, PartialEq, Eq, Structural, Debug)]
pub struct Config {
    /// How many storage roots are retained before the oldest is evicted.
    pub max_storage_roots: u32,
}

/// The relay block numbers of the entries, in insertion order.
pub open spec fn keys_of(s: Seq<RelayStorageRootEntry>) -> Seq<u32> {
    Seq::new(s.len(), |i: int| s[i].relay_block_number)
}

/// Whether an entry for relay block `n` is present.
pub open spec fn has_key(s: Seq<RelayStorageRootEntry>, n: u32) -> bool {
    exists|i: int| 0 <= i < s.len() && s[i].relay_block_number == n
}

/// Whether no two entries share a relay block number.
pub open spec fn keys_distinct(s: Seq<RelayStorageRootEntry>) -> bool {
    forall|i: int, j: int|
        0 <= i < j < s.len() ==> s[i].relay_block_number != s[j].relay_block_number
}

/// One finalize-time recording step: if relay block `n` is already present
/// the history is unchanged; otherwise the new entry is appended and, if
/// the length now exceeds `max`, exactly one entry — the oldest — is
/// evicted.
pub open spec fn record_step(
    s: Seq<RelayStorageRootEntry>,
    n: u32,
    root: [u8; 32],
    max: u32,
) -> Seq<RelayStorageRootEntry> {
    if has_key(s, n) {
        s
    } else {
        let pushed = s.push(RelayStorageRootEntry { relay_block_number: n, state_root: root });
        if pushed.len() > max {
            pushed.subrange(1, pushed.len() as int)
        } else {
            pushed
        }
    }
}

/// The bounded history itself: the live entries in insertion order,
/// together with the fixed bound.
///
/// Conceptually this is a map from relay block number to root plus an
/// ordered list of the live keys; both are carried here by one ordered
/// queue of entries with pairwise-distinct keys.
pub struct Pallet {
    config: Config,
    entries: Vec<RelayStorageRootEntry>,
}

impl Pallet {
    /// The live entries, in insertion order.
    pub closed spec fn entries_seq(self) -> Seq<RelayStorageRootEntry> {
        self.entries@
    }

    /// The configured bound on the number of retained roots.
    pub closed spec fn max_roots(self) -> u32 {
        self.config.max_storage_roots
    }

    /// Well-formedness: no relay block number is recorded twice, and the
    /// history is within its bound.
    pub open spec fn wf(self) -> bool {
        &&& keys_distinct(self.entries_seq())
        &&& self.entries_seq().len() <= self.max_roots()
    }

    /// Builds an empty history with the given fixed configuration, as at
    /// chain genesis.
    pub fn new(config: Config) -> (p: Pallet)
        ensures
            p.wf(),
            p.entries_seq() == Seq::<RelayStorageRootEntry>::empty(),
            p.max_roots() == config.max_storage_roots,
    {
        Pallet { config, entries: Vec::new() }
    }

    /// The configured bound, as a plain integer.
    pub fn max_storage_roots(&self) -> (r: u32)
        ensures
            r == self.max_roots(),
    {
        self.config.max_storage_roots
    }

    /// How many roots are currently retained.
    pub fn num_roots(&self) -> (r: usize)
        ensures
            r == self.entries_seq().len(),
    {
        self.entries.len()
    }

    /// Whether a root is retained for relay block `n`.
    pub fn contains_relay_block(&self, n: u32) -> (r: bool)
        ensures
            r == has_key(self.entries_seq(), n),
    {
        let mut i: usize = 0;
        while i < self.entries.len()
            invariant
                i <= self.entries@.len(),
                forall|j: int| 0 <= j < i ==> self.entries@[j].relay_block_number != n,
            decreases self.entries@.len() - i,
        {
            if self.entries[i].relay_block_number == n {
                assert(has_key(self.entries@, n)) by {
                    assert(self.entries@[i as int].relay_block_number == n);
                }
                return true;
            }
            i += 1;
        }
        false
    }

    /// The retained root for relay block `n`, if any.
    pub fn get_relay_storage_root(&self, n: u32) -> (r: Option<[u8; 32]>)
        ensures
            r is Some <==> has_key(self.entries_seq(), n),
            match r {
                Option::None => !has_key(self.entries_seq(), n),
                Option::Some(root) => exists|i: int|
                    0 <= i < self.entries_seq().len() && self.entries_seq()[i]
                        == (RelayStorageRootEntry { relay_block_number: n, state_root: root }),
            },
    {
        let mut i: usize = 0;
        while i < self.entries.len()
            invariant
                i <= self.entries@.len(),
                forall|j: int| 0 <= j < i ==> self.entries@[j].relay_block_number != n,
            decreases self.entries@.len() - i,
        {
            if self.entries[i].relay_block_number == n {
                let entry = self.entries[i];
                assert(self.entries@[i as int]
                    == (RelayStorageRootEntry {
                    relay_block_number: n,
                    state_root: entry.state_root,
                }));
                return Some(entry.state_root);
            }
            i += 1;
        }
        None
    }

    /// The relay block numbers of the retained roots, oldest first.
    pub fn relay_storage_root_keys(&self) -> (r: Vec<u32>)
        ensures
            r@ == keys_of(self.entries_seq()),
    {
        let mut keys: Vec<u32> = Vec::new();
        let mut i: usize = 0;
        while i < self.entries.len()
            invariant
                i <= self.entries@.len(),
                keys@.len() == i,
                forall|j: int| 0 <= j < i ==> keys@[j] == self.entries@[j].relay_block_number,
            decreases self.entries@.len() - i,
        {
            keys.push(self.entries[i].relay_block_number);
            i += 1;
        }
        assert(keys@ =~= keys_of(self.entries@));
        keys
    }

    /// Records the relay chain's current state, as observed by the host's
    /// relay-state provider, at local-block finalization time.
    ///
    /// Re-observing an already recorded relay block number is a no-op;
    /// otherwise the entry is appended and, when the bound is exceeded, the
    /// oldest entry is evicted — exactly the [`record_step`] transition.
    pub fn set_relay_storage_root(&mut self, relay_block_number: u32, state_root: [u8; 32])
        requires
            old(self).wf(),
        ensures
            final(self).wf(),
            final(self).max_roots() == old(self).max_roots(),
            final(self).entries_seq() == record_step(
                old(self).entries_seq(),
                relay_block_number,
                state_root,
                old(self).max_roots(),
            ),
    {
        proof {
            lemma_record_step_wf(
                self.entries@,
                relay_block_number,
                state_root,
                self.config.max_storage_roots,
            );
        }
        // If this relay block number has already been stored, skip it.
        if self.contains_relay_block(relay_block_number) {
            return;
        }
        self.entries.push(RelayStorageRootEntry { relay_block_number, state_root });
        // Delete the oldest stored root if the total number exceeds the bound.
        if self.entries.len() > self.config.max_storage_roots as usize {
            let ghost pushed = self.entries@;
            self.entries.remove(0);
            proof {
                assert(self.entries@ =~= pushed.subrange(1, pushed.len() as int));
            }
        }
    }
}

/// Idempotence law: recording the same relay block number twice (with the
/// same root, as one local block observes one relay state) leaves the
/// history after the second step exactly as it was after the first.
pub proof fn lemma_record_idempotent(s: Seq<RelayStorageRootEntry>, n: u32, root: [u8; 32], max: u32)
    ensures
        record_step(record_step(s, n, root, max), n, root, max) == record_step(s, n, root, max),
{
    let entry = RelayStorageRootEntry { relay_block_number: n, state_root: root };
    if !has_key(s, n) {
        let pushed = s.push(entry);
        let once = record_step(s, n, root, max);
        if pushed.len() > max {
            assert(once == pushed.subrange(1, pushed.len() as int));
            if s.len() == 0 {
                // The bound is zero and the freshly pushed entry itself was
                // evicted: the second step pushes and evicts it again.
                assert(!has_key(once, n));
                assert(record_step(once, n, root, max) =~= once);
            } else {
                assert(once[s.len() - 1] == pushed[s.len() as int]);
                assert(has_key(once, n));
            }
        } else {
            assert(once == pushed);
            assert(pushed[s.len() as int] == entry);
            assert(has_key(once, n));
        }
    }
}

/// The history that results from a sequence of recording steps, applied in
/// order.
pub open spec fn record_all(
    s: Seq<RelayStorageRootEntry>,
    inputs: Seq<RelayStorageRootEntry>,
    max: u32,
) -> Seq<RelayStorageRootEntry>
    decreases inputs.len(),
{
    if inputs.len() == 0 {
        s
    } else {
        record_all(
            record_step(s, inputs[0].relay_block_number, inputs[0].state_root, max),
            inputs.drop_first(),
            max,
        )
    }
}

/// The suffix of at most `max` newest entries of a history.
pub open spec fn newest_up_to(s: Seq<RelayStorageRootEntry>, max: u32) -> Seq<
    RelayStorageRootEntry,
> {
    if s.len() <= max {
        s
    } else {
        s.subrange(s.len() - max, s.len() as int)
    }
}

/// A key present in the bounded suffix of a history is present in the
/// history itself.
proof fn lemma_newest_key(u: Seq<RelayStorageRootEntry>, max: u32, m: u32)
    requires
        has_key(newest_up_to(u, max), m),
    ensures
        has_key(u, m),
{
    let v = newest_up_to(u, max);
    let i = choose|i: int| 0 <= i < v.len() && v[i].relay_block_number == m;
    if u.len() <= max {
        assert(u[i].relay_block_number == m);
    } else {
        assert(u[i + u.len() - max].relay_block_number == m);
    }
}

/// Taking the bounded suffix before appending more entries gives the same
/// history as appending first and taking the bounded suffix once.
proof fn lemma_newest_append(u: Seq<RelayStorageRootEntry>, w: Seq<RelayStorageRootEntry>, max: u32)
    ensures
        newest_up_to(newest_up_to(u, max) + w, max) == newest_up_to(u + w, max),
{
    let v = newest_up_to(u, max);
    if u.len() <= max {
        assert(v + w =~= u + w);
    } else {
        let lhs = newest_up_to(v + w, max);
        let rhs = newest_up_to(u + w, max);
        assert(v.len() == max);
        assert forall|i: int| 0 <= i < lhs.len() implies lhs[i] == rhs[i] by {
            if (v + w).len() <= max {
                // Then no entries were appended at all.
                assert(w.len() == 0);
                assert(lhs[i] == v[i]);
                assert(rhs[i] == (u + w)[u.len() + w.len() - max + i]);
                assert(rhs[i] == u[u.len() - max + i]);
            } else {
                assert(lhs[i] == (v + w)[w.len() + i]);
                assert(rhs[i] == (u + w)[u.len() + w.len() - max + i]);
                if w.len() + i < max {
                    assert(lhs[i] == v[w.len() + i]);
                    assert(lhs[i] == u[u.len() - max + w.len() + i]);
                    assert(rhs[i] == u[u.len() + w.len() - max + i]);
                } else {
                    assert(lhs[i] == w[w.len() + i - max]);
                    assert(rhs[i] == w[w.len() + i - max]);
                }
            }
        }
        assert(lhs =~= rhs);
    }
}

/// A fresh recording step is exactly "append, then keep the bounded
/// suffix".
proof fn lemma_record_step_fresh(s: Seq<RelayStorageRootEntry>, n: u32, root: [u8; 32], max: u32)
    requires
        !has_key(s, n),
        s.len() <= max,
    ensures
        record_step(s, n, root, max) == newest_up_to(
            s.push(RelayStorageRootEntry { relay_block_number: n, state_root: root }),
            max,
        ),
{
    let pushed = s.push(RelayStorageRootEntry { relay_block_number: n, state_root: root });
    if pushed.len() > max {
        assert(s.len() == max);
        assert(pushed.subrange(1, pushed.len() as int) =~= pushed.subrange(
            pushed.len() - max,
            pushed.len() as int,
        ));
    }
}

/// A sequence of recording steps whose relay block numbers are pairwise
/// distinct and all fresh is exactly "append them all, then keep the
/// bounded suffix".
pub proof fn lemma_record_all_newest(
    s: Seq<RelayStorageRootEntry>,
    inputs: Seq<RelayStorageRootEntry>,
    max: u32,
)
    requires
        s.len() <= max,
        keys_distinct(inputs),
        forall|k: int| 0 <= k < inputs.len() ==> !has_key(s, #[trigger] inputs[k].relay_block_number),
    ensures
        record_all(s, inputs, max) == newest_up_to(s + inputs, max),
    decreases inputs.len(),
{
    if inputs.len() == 0 {
        assert(s + inputs =~= s);
    } else {
        let e0 = inputs[0];
        let rest = inputs.drop_first();
        assert(RelayStorageRootEntry {
            relay_block_number: e0.relay_block_number,
            state_root: e0.state_root,
        } == e0);
        let pushed = s.push(e0);
        lemma_record_step_fresh(s, e0.relay_block_number, e0.state_root, max);
        let s1 = record_step(s, e0.relay_block_number, e0.state_root, max);
        assert(s1 == newest_up_to(pushed, max));
        assert(s1.len() <= max);
        assert forall|k: int| 0 <= k < rest.len() implies !has_key(
            s1,
            #[trigger] rest[k].relay_block_number,
        ) by {
            assert(rest[k] == inputs[k + 1]);
            let m = rest[k].relay_block_number;
            if has_key(s1, m) {
                lemma_newest_key(pushed, max, m);
                let i = choose|i: int| 0 <= i < pushed.len() && pushed[i].relay_block_number == m;
                if i < s.len() {
                    assert(s[i].relay_block_number == m);
                    assert(has_key(s, m));
                } else {
                    assert(e0.relay_block_number == m);
                    assert(inputs[0].relay_block_number == inputs[k + 1].relay_block_number);
                }
            }
        }
        assert forall|i: int, j: int|
            0 <= i < j < rest.len() implies rest[i].relay_block_number
            != rest[j].relay_block_number by {
            assert(rest[i] == inputs[i + 1]);
            assert(rest[j] == inputs[j + 1]);
        }
        lemma_record_all_newest(s1, rest, max);
        lemma_newest_append(pushed, rest, max);
        assert(pushed + rest =~= s + inputs);
        assert(record_all(s, inputs, max) == record_all(s1, rest, max));
    }
}

/// Bounded-growth law (FIFO eviction): starting within the bound, after a
/// sequence of at least `max` recording steps with pairwise-distinct,
/// fresh relay block numbers, the history holds exactly `max` entries —
/// the `max` most recently recorded ones, in recording order, every older
/// entry having been evicted oldest-first.
pub proof fn lemma_bounded_growth(
    s: Seq<RelayStorageRootEntry>,
    inputs: Seq<RelayStorageRootEntry>,
    max: u32,
)
    requires
        s.len() <= max,
        keys_distinct(inputs),
        forall|k: int| 0 <= k < inputs.len() ==> !has_key(s, #[trigger] inputs[k].relay_block_number),
        inputs.len() >= max,
    ensures
        record_all(s, inputs, max).len() == max,
        record_all(s, inputs, max) == inputs.subrange(inputs.len() - max, inputs.len() as int),
{
    lemma_record_all_newest(s, inputs, max);
    let total = s + inputs;
    let result = record_all(s, inputs, max);
    if total.len() <= max {
        assert(s.len() == 0 && inputs.len() == max);
        assert(result =~= inputs.subrange(inputs.len() - max, inputs.len() as int));
    } else {
        assert(result == total.subrange(total.len() - max, total.len() as int));
        assert(result =~= inputs.subrange(inputs.len() - max, inputs.len() as int)) by {
            assert forall|i: int| 0 <= i < max implies result[i] == inputs[inputs.len() - max + i] by {
                assert(result[i] == total[total.len() - max + i]);
                assert(total.len() - max + i >= s.len());
                assert(total[total.len() - max + i] == inputs[inputs.len() - max + i]);
            }
        }
    }
}

/// A recording step keeps the relay block numbers pairwise distinct, and
/// keeps the history within its bound when it was within it before.
pub proof fn lemma_record_step_wf(s: Seq<RelayStorageRootEntry>, n: u32, root: [u8; 32], max: u32)
    requires
        keys_distinct(s),
    ensures
        keys_distinct(record_step(s, n, root, max)),
        s.len() <= max ==> record_step(s, n, root, max).len() <= max,
{
    if !has_key(s, n) {
        let pushed = s.push(RelayStorageRootEntry { relay_block_number: n, state_root: root });
        assert forall|i: int, j: int| 0 <= i < j < pushed.len() implies pushed[i].relay_block_number
            != pushed[j].relay_block_number by {
            if j == s.len() as int {
                assert(pushed[i] == s[i]);
                assert(!(0 <= i < s.len() && s[i].relay_block_number == n));
            }
        }
        if pushed.len() > max {
            let evicted = pushed.subrange(1, pushed.len() as int);
            assert forall|i: int, j: int|
                0 <= i < j < evicted.len() implies evicted[i].relay_block_number
                != evicted[j].relay_block_number by {
                assert(evicted[i] == pushed[i + 1]);
                assert(evicted[j] == pushed[j + 1]);
            }
        }
    }
}

} // verus!
