use vstd::prelude::*;

use futures_channel::mpsc::UnboundedSender;

verus! {

/// Declares the sender half of futures_channel's unbounded channel, so a
/// registry entry can hold the outbound sink of a peer. The value is opaque
/// here; messages pass through it only via the trusted send below.
#[verifier::external_type_specification]
#[verifier::external_body]
#[verifier::reject_recursive_types(T)]
pub struct ExUnboundedSender<T>(UnboundedSender<T>);

/// Relies on futures_channel::mpsc::UnboundedSender::unbounded_send: queues
/// the message onto the peer's outbound channel and reports failure as a
/// value, never panicking, when the receiving half is closed or gone.
/// Whether a given send is accepted depends on the receiver's state, so
/// nothing more is promised of the outcome.
#[verifier::external_body]
fn send_to_sink(sink: &UnboundedSender<String>, message: &String) -> (accepted: bool) {
    sink.unbounded_send(message.clone()).is_ok()
}

/// The registry's defensive error: the identity offered to `insert` is
/// already registered.
#[derive(Clone, Copy, PartialEq, Eq, Structural, Debug)]
pub enum RegistryError {
    DuplicateIdentity,
}

/// `ids` with every occurrence of `id` removed.
pub open spec fn without(ids: Seq<u64>, id: u64) -> Seq<u64> {
    ids.filter(|x: u64| x != id)
}

/// No identity occurs twice.
pub open spec fn distinct_ids(ids: Seq<u64>) -> bool {
    forall|i: int, j: int| 0 <= i < j < ids.len() ==> #[trigger] ids[i] != #[trigger] ids[j]
}

/// How often `x` occurs in `s`.
pub open spec fn occurrences(s: Seq<u64>, x: u64) -> nat
    decreases s.len(),
{
    if s.len() == 0 {
        0
    } else {
        occurrences(s.drop_last(), x) + (if s.last() == x {
            1nat
        } else {
            0nat
        })
    }
}

/// One registered peer: its connection identity and its outbound sink.
struct PeerEntry {
    id: u64,
    sink: UnboundedSender<String>,
}

/// The shared peer map of the bridge: at most one entry per connection
/// identity, each carrying the outbound sink of that peer. The registry is
/// the hub's single shared-mutable structure; callers serialize access to it
/// (the surrounding program guards it with mutual exclusion).
pub struct PeerRegistry {
    entries: Vec<PeerEntry>,
}

impl PeerRegistry {
    /// The registered identities, in registration order.
    pub closed spec fn ids(&self) -> Seq<u64> {
        self.entries@.map_values(|e: PeerEntry| e.id)
    }

    /// The registry's invariant: at most one entry per identity.
    pub open spec fn wf(&self) -> bool {
        distinct_ids(self.ids())
    }

    /// An empty registry.
    pub fn new() -> (r: PeerRegistry)
        ensures
            r.ids() == Seq::<u64>::empty(),
            r.wf(),
    {
        let r = PeerRegistry { entries: Vec::new() };
        proof {
            assert(r.ids() =~= Seq::<u64>::empty());
        }
        r
    }

    /// How many peers are registered.
    pub fn peer_count(&self) -> (n: usize)
        ensures
            n == self.ids().len(),
    {
        self.entries.len()
    }

    /// Whether `id` is registered.
    pub fn contains_id(&self, id: u64) -> (r: bool)
        ensures
            r == self.ids().contains(id),
    {
        let mut k: usize = 0;
        while k < self.entries.len()
            invariant
                k <= self.entries.len(),
                forall|j: int| 0 <= j < k ==> self.ids()[j] != id,
            decreases self.entries.len() - k,
        {
            if self.entries[k].id == id {
                proof {
                    assert(self.ids()[k as int] == id);
                }
                return true;
            }
            k += 1;
        }
        false
    }

    /// Registers a new peer. Fails with `DuplicateIdentity`, leaving the
    /// registry unchanged, exactly when the identity is already present;
    /// otherwise the peer is appended.
    pub fn insert(&mut self, id: u64, sink: UnboundedSender<String>) -> (r: Result<
        (),
        RegistryError,
    >)
        requires
            old(self).wf(),
        ensures
            final(self).wf(),
            r == Ok::<(), RegistryError>(()) <==> !old(self).ids().contains(id),
            old(self).ids().contains(id) ==> r == Err::<(), RegistryError>(
                RegistryError::DuplicateIdentity,
            ) && final(self).ids() == old(self).ids(),
            !old(self).ids().contains(id) ==> final(self).ids() == old(self).ids().push(id),
    {
        if self.contains_id(id) {
            Err(RegistryError::DuplicateIdentity)
        } else {
            self.entries.push(PeerEntry { id, sink });
            proof {
                assert(self.ids() =~= old(self).ids().push(id));
                assert forall|i: int, j: int|
                    0 <= i < j < self.ids().len() implies #[trigger] self.ids()[i]
                    != #[trigger] self.ids()[j] by {
                    if j == self.ids().len() - 1 {
                        assert(!old(self).ids().contains(id));
                        assert(old(self).ids()[i] != id);
                    }
                }
            }
            Ok(())
        }
    }

    /// Deregisters `id`. Idempotent: when `id` is absent nothing changes;
    /// otherwise its one entry leaves and every other peer stays, in order.
    pub fn remove(&mut self, id: u64)
        requires
            old(self).wf(),
        ensures
            final(self).wf(),
            final(self).ids() == without(old(self).ids(), id),
            !final(self).ids().contains(id),
            forall|p: u64|
                p != id ==> (final(self).ids().contains(p) <==> old(self).ids().contains(p)),
    {
        let ghost s = self.ids();
        let mut k: usize = 0;
        while k < self.entries.len()
            invariant
                k <= self.entries.len(),
                s == old(self).ids(),
                self.ids() == s,
                self.wf(),
                forall|j: int| 0 <= j < k ==> s[j] != id,
            decreases self.entries.len() - k,
        {
            if self.entries[k].id == id {
                proof {
                    assert(s[k as int] == id);
                }
                self.entries.remove(k);
                proof {
                    assert(self.ids() =~= s.remove(k as int));
                    lemma_remove_unique_is_without(s, id, k as int);
                    lemma_without_contains(s, id);
                }
                return;
            }
            k += 1;
        }
        proof {
            assert(forall|j: int| 0 <= j < s.len() ==> s[j] != id);
            lemma_filter_id_absent(s, id);
            lemma_without_contains(s, id);
        }
    }

    /// Delivers `message` to every registered peer other than `except`, in
    /// registration order, and reports each attempt: the identity tried and
    /// whether its sink accepted the message. One refused sink never stops
    /// the remaining deliveries: the attempted identities are exactly the
    /// registered ones minus the sender, whatever each outcome was.
    pub fn broadcast(&self, except: u64, message: &String) -> (attempts: Vec<(u64, bool)>)
        ensures
            attempts@.map_values(|a: (u64, bool)| a.0) == without(self.ids(), except),
    {
        let mut attempts: Vec<(u64, bool)> = Vec::new();
        let mut k: usize = 0;
        while k < self.entries.len()
            invariant
                k <= self.entries.len(),
                attempts@.map_values(|a: (u64, bool)| a.0) == without(
                    self.ids().take(k as int),
                    except,
                ),
            decreases self.entries.len() - k,
        {
            let ghost prefix = self.ids().take(k as int);
            let entry = &self.entries[k];
            proof {
                assert(self.ids()[k as int] == entry.id);
                assert(self.ids().take(k as int + 1) =~= prefix.push(entry.id));
                lemma_without_push(prefix, except, entry.id);
            }
            if entry.id != except {
                let accepted = send_to_sink(&entry.sink, message);
                let ghost before = attempts@;
                attempts.push((entry.id, accepted));
                proof {
                    assert(attempts@.map_values(|a: (u64, bool)| a.0) =~= before.map_values(
                        |a: (u64, bool)| a.0,
                    ).push(entry.id));
                }
            }
            k += 1;
        }
        proof {
            assert(self.ids().take(self.entries@.len() as int) =~= self.ids());
        }
        attempts
    }

    /// Removes every peer whose broadcast attempt failed. A peer stays
    /// registered exactly when it was registered before and no failed
    /// attempt names it.
    pub fn purge_failed(&mut self, attempts: &Vec<(u64, bool)>)
        requires
            old(self).wf(),
        ensures
            final(self).wf(),
            forall|p: u64|
                #[trigger] final(self).ids().contains(p) <==> (old(self).ids().contains(p)
                    && !failed_in(attempts@, p)),
    {
        let mut k: usize = 0;
        while k < attempts.len()
            invariant
                k <= attempts.len(),
                self.wf(),
                forall|p: u64|
                    #[trigger] self.ids().contains(p) <==> (old(self).ids().contains(p)
                        && !failed_in(attempts@.take(k as int), p)),
            decreases attempts.len() - k,
        {
            let ghost prefix = attempts@.take(k as int);
            let (id, accepted) = attempts[k];
            let ghost before = self.ids();
            if !accepted {
                self.remove(id);
            }
            proof {
                assert(attempts@.take(k as int + 1) =~= prefix.push((id, accepted)));
                assert forall|p: u64|
                    #[trigger] self.ids().contains(p) <==> (old(self).ids().contains(p)
                        && !failed_in(attempts@.take(k as int + 1), p)) by {
                    lemma_failed_in_push(prefix, (id, accepted), p);
                    assert(before.contains(p) <==> (old(self).ids().contains(p) && !failed_in(
                        prefix,
                        p,
                    )));
                    if !accepted && p == id {
                        assert(!self.ids().contains(p));
                        assert(attempts@.take(k as int + 1)[k as int] == (p, false));
                    }
                }
            }
            k += 1;
        }
        proof {
            assert(attempts@.take(attempts@.len() as int) =~= attempts@);
        }
    }
}

/// Whether some attempt in `attempts` failed for identity `p`.
pub open spec fn failed_in(attempts: Seq<(u64, bool)>, p: u64) -> bool {
    exists|i: int| 0 <= i < attempts.len() && attempts[i] == (p, false)
}

/// Extending an attempt list adds exactly one potential failure.
proof fn lemma_failed_in_push(attempts: Seq<(u64, bool)>, a: (u64, bool), p: u64)
    ensures
        failed_in(attempts.push(a), p) <==> (failed_in(attempts, p) || a == (p, false)),
{
    let pushed = attempts.push(a);
    if failed_in(pushed, p) {
        let i = choose|i: int| 0 <= i < pushed.len() && pushed[i] == (p, false);
        if i < attempts.len() {
            assert(attempts[i] == (p, false));
        }
    }
    if failed_in(attempts, p) {
        let i = choose|i: int| 0 <= i < attempts.len() && attempts[i] == (p, false);
        assert(pushed[i] == (p, false));
    }
    if a == (p, false) {
        assert(pushed[attempts.len() as int] == (p, false));
    }
}

/// Filtering an identity out of a sequence that never held it changes
/// nothing.
proof fn lemma_filter_id_absent(s: Seq<u64>, id: u64)
    requires
        forall|i: int| 0 <= i < s.len() ==> s[i] != id,
    ensures
        without(s, id) == s,
    decreases s.len(),
{
    reveal(Seq::filter);
    if s.len() > 0 {
        lemma_filter_id_absent(s.drop_last(), id);
        assert(without(s.drop_last(), id).push(s.last()) =~= s);
    }
}

/// Filtering distributes over appending one element.
proof fn lemma_without_push(s: Seq<u64>, id: u64, e: u64)
    ensures
        without(s.push(e), id) == (if e != id {
            without(s, id).push(e)
        } else {
            without(s, id)
        }),
{
    reveal(Seq::filter);
    assert(s.push(e).drop_last() =~= s);
}

/// When `id` occurs exactly once, at position `k`, filtering it out is the
/// same as removing that position.
proof fn lemma_remove_unique_is_without(s: Seq<u64>, id: u64, k: int)
    requires
        0 <= k < s.len(),
        s[k] == id,
        distinct_ids(s),
    ensures
        s.remove(k) == without(s, id),
{
    let left = s.subrange(0, k);
    let mid = seq![id];
    let right = s.subrange(k + 1, s.len() as int);
    assert(s =~= left + mid + right);
    Seq::filter_distributes_over_add(left + mid, right, |x: u64| x != id);
    Seq::filter_distributes_over_add(left, mid, |x: u64| x != id);
    lemma_filter_id_absent(left, id);
    lemma_filter_id_absent(right, id);
    reveal_with_fuel(Seq::filter, 3);
    assert(mid.drop_last() =~= Seq::<u64>::empty());
    assert(without(mid, id) =~= Seq::<u64>::empty());
    assert(s.remove(k) =~= left + right);
    assert(without(s, id) =~= left + right);
}

/// After filtering `id` out, `id` is gone and every other identity keeps its
/// membership.
proof fn lemma_without_contains(s: Seq<u64>, id: u64)
    ensures
        !without(s, id).contains(id),
        forall|p: u64| p != id ==> (#[trigger] without(s, id).contains(p) <==> s.contains(p)),
    decreases s.len(),
{
    reveal(Seq::filter);
    if s.len() > 0 {
        let rest = s.drop_last();
        lemma_without_contains(rest, id);
        assert(without(rest, id).push(s.last()) =~= (if s.last() != id {
            without(s, id)
        } else {
            without(rest, id).push(s.last())
        }));
        assert forall|p: u64| p != id implies (#[trigger] without(s, id).contains(p) <==> s.contains(
            p,
        )) by {
            lemma_contains_drop_last(s, p);
            if s.last() != id {
                lemma_contains_push(without(rest, id), s.last(), p);
            }
        }
        if s.last() != id {
            lemma_contains_push(without(rest, id), s.last(), id);
        }
    }
}

/// Membership in a sequence splits into membership in its front and equality
/// with its last element.
proof fn lemma_contains_drop_last(s: Seq<u64>, p: u64)
    requires
        s.len() > 0,
    ensures
        s.contains(p) <==> (s.drop_last().contains(p) || s.last() == p),
{
    if s.contains(p) {
        let i = choose|i: int| 0 <= i < s.len() && s[i] == p;
        if i < s.len() - 1 {
            assert(s.drop_last()[i] == p);
        }
    }
    if s.drop_last().contains(p) {
        let i = choose|i: int| 0 <= i < s.drop_last().len() && s.drop_last()[i] == p;
        assert(s[i] == p);
    }
    if s.last() == p {
        assert(s[s.len() - 1] == p);
    }
}

/// Membership in a pushed sequence splits the same way.
proof fn lemma_contains_push(s: Seq<u64>, e: u64, p: u64)
    ensures
        s.push(e).contains(p) <==> (s.contains(p) || e == p),
{
    assert(s.push(e).drop_last() =~= s);
    lemma_contains_drop_last(s.push(e), p);
}

/// A broadcast never attempts the sender's own identity, and every occurrence
/// of another identity survives the sender's exclusion.
proof fn lemma_occurrences_without(s: Seq<u64>, except: u64, p: u64)
    ensures
        occurrences(without(s, except), p) == (if p == except {
            0nat
        } else {
            occurrences(s, p)
        }),
    decreases s.len(),
{
    reveal(Seq::filter);
    if s.len() == 0 {
    } else {
        let rest = s.drop_last();
        lemma_occurrences_without(rest, except, p);
        if s.last() != except {
            assert(without(s, except) == without(rest, except).push(s.last()));
            assert(without(rest, except).push(s.last()).drop_last() =~= without(rest, except));
        }
    }
}

/// In a duplicate-free sequence an identity occurs once if present, else not
/// at all.
proof fn lemma_occurrences_distinct(s: Seq<u64>, p: u64)
    requires
        distinct_ids(s),
    ensures
        occurrences(s, p) == (if s.contains(p) {
            1nat
        } else {
            0nat
        }),
    decreases s.len(),
{
    if s.len() > 0 {
        let rest = s.drop_last();
        assert(distinct_ids(rest)) by {
            assert(forall|i: int| 0 <= i < rest.len() ==> rest[i] == s[i]);
        }
        lemma_occurrences_distinct(rest, p);
        lemma_contains_drop_last(s, p);
        if s.last() == p && rest.contains(p) {
            let i = choose|i: int| 0 <= i < rest.len() && rest[i] == p;
            assert(s[i] == s[s.len() - 1]);
            assert(false);
        }
    }
}

/// Law: one broadcast from `except` attempts every other registered identity
/// exactly once, and the sender's own identity never, when the registered
/// identities are duplicate-free.
pub proof fn lemma_broadcast_exactly_once(ids: Seq<u64>, except: u64, p: u64)
    requires
        distinct_ids(ids),
    ensures
        ids.contains(p) && p != except ==> occurrences(without(ids, except), p) == 1,
        (!ids.contains(p) || p == except) ==> occurrences(without(ids, except), p) == 0,
{
    lemma_occurrences_without(ids, except, p);
    lemma_occurrences_distinct(ids, p);
}

} // verus!
