//! Live connections, each with the handle of its outbound channel.
use vstd::prelude::*;

use crate::broadcast::{enqueue_text, Outbox};

verus! {

/// Connections keyed by a connection number; `S` is the handle through
/// which frames reach that connection.
pub struct Registry<S> {
    entries: Vec<(u64, S)>,
    model: Ghost<Map<u64, S>>,
}

impl<S> View for Registry<S> {
    type V = Map<u64, S>;

    closed spec fn view(&self) -> Map<u64, S> {
        self.model@
    }
}

impl<S> Registry<S> {
    pub closed spec fn wf(&self) -> bool {
        &&& forall|i: int, j: int|
            0 <= i < j < self.entries@.len() ==> self.entries@[i].0 != self.entries@[j].0
        &&& forall|i: int|
            0 <= i < self.entries@.len() ==> self.model@.contains_key(#[trigger] self.entries@[i].0)
                && self.model@[self.entries@[i].0] == self.entries@[i].1
        &&& forall|k: u64| #[trigger]
            self.model@.contains_key(k) ==> exists|i: int|
                0 <= i < self.entries@.len() && #[trigger] self.entries@[i].0 == k
    }

    /// A registry with no connection.
    pub fn new() -> (r: Registry<S>)
        ensures
            r.wf(),
            r@ == Map::<u64, S>::empty(),
    {
        Registry { entries: Vec::new(), model: Ghost(Map::empty()) }
    }

    /// The keys in storage order.
    pub closed spec fn order(&self) -> Seq<u64> {
        self.entries@.map_values(|e: (u64, S)| e.0)
    }

    /// The storage order lists every registered connection exactly once.
    pub proof fn lemma_order(&self)
        requires
            self.wf(),
        ensures
            self.order().len() == self@.len(),
            self.order().no_duplicates(),
            forall|k: u64| self@.contains_key(k) <==> #[trigger] self.order().contains(k),
    {
        self.lemma_len();
        let keys = self.order();
        assert forall|k: u64| self@.contains_key(k) <==> #[trigger] keys.contains(k) by {
            assert(self.model@.dom().contains(k) <==> keys.to_set().contains(k));
        }
    }

    proof fn lemma_len(&self)
        requires
            self.wf(),
        ensures
            self.entries@.len() == self@.len(),
            self.order().no_duplicates(),
            self.model@.dom() == self.order().to_set(),
    {
        let keys = self.order();
        assert(keys.no_duplicates()) by {
            assert forall|i: int, j: int|
                0 <= i < keys.len() && 0 <= j < keys.len() && i != j implies keys[i] != keys[j] by {
                // wf orders the pair by index; take it in that order.
                if i < j {
                    assert(self.entries@[i].0 != self.entries@[j].0);
                } else {
                    assert(self.entries@[j].0 != self.entries@[i].0);
                }
            }
        }
        keys.unique_seq_to_set();
        assert forall|k: u64| #[trigger] self.model@.dom().contains(k) <==> keys.to_set().contains(k) by {
            if self.model@.contains_key(k) {
                let i = choose|i: int| 0 <= i < self.entries@.len() && #[trigger] self.entries@[i].0 == k;
                assert(keys[i] == k);
            }
            if keys.to_set().contains(k) {
                let i = choose|i: int| 0 <= i < keys.len() && keys[i] == k;
                assert(self.entries@[i].0 == k);
            }
        }
        assert(self.model@.dom() =~= keys.to_set());
    }

    fn find(&self, key: u64) -> (r: Option<usize>)
        requires
            self.wf(),
        ensures
            r matches Some(i) ==> i < self.entries@.len() && self.entries@[i as int].0 == key,
            r is None ==> !self@.contains_key(key),
    {
        let mut i: usize = 0;
        while i < self.entries.len()
            invariant
                i <= self.entries@.len(),
                forall|j: int| 0 <= j < i ==> self.entries@[j].0 != key,
            decreases self.entries@.len() - i,
        {
            if self.entries[i].0 == key {
                return Some(i);
            }
            i += 1;
        }
        None
    }

    /// Registers connection `key` with its channel, replacing an earlier
    /// entry under the same key.
    pub fn register(&mut self, key: u64, channel: S)
        requires
            old(self).wf(),
        ensures
            final(self).wf(),
            final(self)@ == old(self)@.insert(key, channel),
    {
        let ghost old_entries = self.entries@;
        let ghost ch = channel;
        match self.find(key) {
            Some(i) => {
                self.entries.set(i, (key, channel));
                proof {
                    self.model@ = self.model@.insert(key, ch);
                    assert(self.entries@ == old_entries.update(i as int, (key, ch)));
                    assert forall|k: u64| #[trigger] self.model@.contains_key(k) implies exists|j: int|
                        0 <= j < self.entries@.len() && #[trigger] self.entries@[j].0 == k by {
                        if k != key {
                            let j = choose|j: int| 0 <= j < old_entries.len() && #[trigger] old_entries[j].0 == k;
                            assert(self.entries@[j].0 == k);
                        } else {
                            assert(self.entries@[i as int].0 == k);
                        }
                    }
                }
            },
            None => {
                self.entries.push((key, channel));
                proof {
                    self.model@ = self.model@.insert(key, ch);
                    let n = old_entries.len() as int;
                    assert(self.entries@ == old_entries.push((key, ch)));
                    assert forall|k: u64| #[trigger] self.model@.contains_key(k) implies exists|j: int|
                        0 <= j < self.entries@.len() && #[trigger] self.entries@[j].0 == k by {
                        if k != key {
                            let j = choose|j: int| 0 <= j < old_entries.len() && #[trigger] old_entries[j].0 == k;
                            assert(self.entries@[j].0 == k);
                        } else {
                            assert(self.entries@[n].0 == k);
                        }
                    }
                }
            },
        }
    }

    /// Removes connection `key`, if registered.
    pub fn deregister(&mut self, key: u64)
        requires
            old(self).wf(),
        ensures
            final(self).wf(),
            final(self)@ == old(self)@.remove(key),
    {
        match self.find(key) {
            Some(i) => {
                let ghost old_entries = self.entries@;
                self.entries.remove(i);
                proof {
                    self.model@ = self.model@.remove(key);
                    assert(self.entries@ == old_entries.remove(i as int));
                    assert forall|j: int| 0 <= j < self.entries@.len() implies #[trigger]
                        self.entries@[j].0 != key by {
                        if j < i {
                            assert(self.entries@[j] == old_entries[j]);
                        } else {
                            assert(self.entries@[j] == old_entries[j + 1]);
                        }
                    }
                    assert forall|k: u64| #[trigger] self.model@.contains_key(k) implies exists|j: int|
                        0 <= j < self.entries@.len() && #[trigger] self.entries@[j].0 == k by {
                        let j = choose|j: int| 0 <= j < old_entries.len() && #[trigger] old_entries[j].0 == k;
                        assert(j != i);
                        if j < i {
                            assert(self.entries@[j].0 == k);
                        } else {
                            assert(self.entries@[j - 1].0 == k);
                        }
                    }
                }
            },
            None => {
                proof {
                    assert(self.model@.remove(key) =~= self.model@);
                }
            },
        }
    }

    /// Whether connection `key` is registered.
    pub fn contains(&self, key: u64) -> (r: bool)
        requires
            self.wf(),
        ensures
            r == self@.contains_key(key),
    {
        self.find(key).is_some()
    }

    /// Number of registered connections.
    pub fn len(&self) -> (r: usize)
        requires
            self.wf(),
        ensures
            r == self@.len(),
    {
        proof {
            self.lemma_len();
        }
        self.entries.len()
    }

    /// The `i`-th entry in storage order: its key and channel. Indices
    /// `0..len()` visit each registered connection once (see `lemma_order`).
    pub fn entry_at(&self, i: usize) -> (r: (u64, &S))
        requires
            self.wf(),
            i < self@.len(),
        ensures
            r.0 == self.order()[i as int],
            self@.contains_key(r.0),
            self@[r.0] == *r.1,
    {
        proof {
            self.lemma_len();
        }
        let e = &self.entries[i];
        (e.0, &e.1)
    }
}

impl Registry<Outbox> {
    /// Hands `frame` once to every registered connection, in storage order,
    /// without blocking. A connection whose queue refuses it is skipped and
    /// does not stop delivery to the rest; exactly the keys of those
    /// connections are returned, each once. No other channel is touched.
    pub fn broadcast_frame(&mut self, frame: &String) -> (failed: Vec<u64>)
        requires
            old(self).wf(),
        ensures
            final(self).wf(),
            final(self)@.dom() == old(self)@.dom(),
            forall|k: u64| #[trigger]
                old(self)@.contains_key(k) ==> final(self)@[k]@ == old(self)@[k]@.push(
                    (frame@, !failed@.contains(k)),
                ),
            failed@.no_duplicates(),
            forall|i: int| 0 <= i < failed@.len() ==> old(self)@.contains_key(#[trigger] failed@[i]),
    {
        let ghost old_entries = self.entries@;
        let ghost old_model = self.model@;
        let mut failed: Vec<u64> = Vec::new();
        let n = self.entries.len();
        let mut i: usize = 0;
        while i < n
            invariant
                self.wf(),
                n == old_entries.len(),
                i <= n,
                self.entries@.len() == n,
                self.model@.dom() == old_model.dom(),
                forall|j: int| 0 <= j < n ==> (#[trigger] self.entries@[j]).0 == old_entries[j].0,
                forall|j: int| i <= j < n ==> #[trigger] self.entries@[j] == old_entries[j],
                forall|j: int|
                    0 <= j < i ==> (#[trigger] self.entries@[j]).1@ == old_entries[j].1@.push(
                        (frame@, !failed@.contains(old_entries[j].0)),
                    ),
                forall|t: int|
                    0 <= t < failed@.len() ==> exists|j: int|
                        0 <= j < i && old_entries[j].0 == #[trigger] failed@[t],
                failed@.no_duplicates(),
                old_model == old(self).model@,
                old_entries == old(self).entries@,
            decreases n - i,
        {
            let ghost before = self.entries@;
            let (key, mut out) = self.entries.remove(i);
            let delivered = enqueue_text(&mut out, frame);
            let ghost failed_before = failed@;
            if !delivered {
                failed.push(key);
            }
            let ghost outv = out;
            self.entries.insert(i, (key, out));
            proof {
                assert(self.entries@ =~= before.update(i as int, (key, outv)));
                self.model@ = self.model@.insert(key, outv);
                assert(before[i as int] == old_entries[i as int]);
                assert(key == old_entries[i as int].0);
                assert forall|j: int| 0 <= j < n && j != i implies old_entries[j].0 != key by {
                    assert(before[j].0 == old_entries[j].0);
                    if j < i {
                        assert(before[j].0 != before[i as int].0);
                    } else {
                        assert(before[i as int].0 != before[j].0);
                    }
                }
                assert(!failed_before.contains(key)) by {
                    if failed_before.contains(key) {
                        let t = choose|t: int| 0 <= t < failed_before.len() && failed_before[t] == key;
                        let j = choose|j: int| 0 <= j < i && old_entries[j].0 == #[trigger] failed_before[t];
                        assert(old_entries[j].0 == key);
                    }
                }
                if !delivered {
                    assert(failed@ == failed_before.push(key));
                    assert(failed@[failed@.len() - 1] == key);
                    assert forall|x: u64| #[trigger] failed@.contains(x) == (failed_before.contains(x) || x
                        == key) by {
                        if failed@.contains(x) && x != key {
                            let t = choose|t: int| 0 <= t < failed@.len() && failed@[t] == x;
                            assert(failed_before[t] == x);
                        }
                        if failed_before.contains(x) {
                            let t = choose|t: int| 0 <= t < failed_before.len() && failed_before[t] == x;
                            assert(failed@[t] == x);
                        }
                    }
                } else {
                    assert(failed@ == failed_before);
                }
                assert forall|j: int| 0 <= j < i implies (#[trigger] self.entries@[j]).1@
                    == old_entries[j].1@.push((frame@, !failed@.contains(old_entries[j].0))) by {
                    assert(old_entries[j].0 != key);
                    assert(failed@.contains(old_entries[j].0) == failed_before.contains(old_entries[j].0));
                }
                assert(failed@.contains(key) == !delivered);
                assert forall|k: u64| #[trigger] self.model@.contains_key(k) implies exists|j: int|
                    0 <= j < self.entries@.len() && #[trigger] self.entries@[j].0 == k by {
                    let j = choose|j: int| 0 <= j < before.len() && #[trigger] before[j].0 == k;
                    assert(self.entries@[j].0 == k);
                }
                assert forall|t: int| 0 <= t < failed@.len() implies exists|j: int|
                    0 <= j < i + 1 && old_entries[j].0 == #[trigger] failed@[t] by {
                    if t < failed_before.len() {
                        assert(failed@[t] == failed_before[t]);
                    } else {
                        assert(old_entries[i as int].0 == failed@[t]);
                    }
                }
            }
            i += 1;
        }
        proof {
            assert forall|k: u64| #[trigger] old(self)@.contains_key(k) implies self@[k]@
                == old(self)@[k]@.push((frame@, !failed@.contains(k))) by {
                let j = choose|j: int| 0 <= j < old_entries.len() && #[trigger] old_entries[j].0 == k;
                assert(self.entries@[j].0 == k);
            }
            assert(self.model@.dom() =~= old_model.dom());
            assert forall|t: int| 0 <= t < failed@.len() implies old(self)@.contains_key(#[trigger] failed@[t]) by {
                let j = choose|j: int| 0 <= j < n && old_entries[j].0 == #[trigger] failed@[t];
                assert(old_entries[j].0 == failed@[t]);
            }
        }
        failed
    }
}

} // verus!
