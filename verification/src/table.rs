//! The transposition table: one node per board, filed under the board's
//! token. Boards reached along different lines of play share their node.
//!
//! The table is modelled as a map from tokens to nodes. It is kept in a
//! vector in which no token occurs twice, and is searched from the front.

use vstd::prelude::*;
use crate::node::{NodeView, TreeNode};

verus! {

/// A node together with the token it is filed under.
pub struct Entry<S> {
    /// The token of the node's board.
    pub key: [i8; 75],
    /// The node.
    pub node: TreeNode<S>,
}

/// The table of nodes.
pub struct TranspositionTable<S> {
    entries: Vec<Entry<S>>,
}

/// Whether two tokens are the same.
pub fn same_key(left: &[i8; 75], right: &[i8; 75]) -> (same: bool)
    ensures
        same == (left@ == right@),
{
    let mut k: usize = 0;
    while k < 75
        invariant
            k <= 75,
            forall|j: int| 0 <= j < k ==> left@[j] == right@[j],
        decreases 75 - k,
    {
        if left[k] != right[k] {
            return false;
        }
        k = k + 1;
    }
    assert(left@ =~= right@);
    true
}

impl<S> TranspositionTable<S> {
    /// Whether slot `i` files a node under `key`.
    pub closed spec fn files(&self, key: Seq<i8>, i: int) -> bool {
        0 <= i < self.entries@.len() && self.entries@[i].key@ == key
    }

    /// No token is filed twice.
    pub closed spec fn wf(&self) -> bool {
        forall|i: int, j: int|
            0 <= i < j < self.entries@.len() ==> (#[trigger] self.entries@[i]).key@
                != (#[trigger] self.entries@[j]).key@
    }

    /// The table as a map from tokens to nodes.
    pub closed spec fn view(&self) -> Map<Seq<i8>, NodeView<S>> {
        Map::new(
            |key: Seq<i8>| exists|i: int| self.files(key, i),
            |key: Seq<i8>| self.entries@[choose|i: int| self.files(key, i)].node@,
        )
    }

    /// The number of nodes.
    pub closed spec fn spec_len(&self) -> nat {
        self.entries@.len()
    }

    proof fn filed_is_mapped(&self, key: Seq<i8>, i: int)
        requires
            self.wf(),
            self.files(key, i),
        ensures
            self@.dom().contains(key),
            self@[key] == self.entries@[i].node@,
    {
        let chosen: int = choose|j: int| self.files(key, j);
        assert(self.files(key, chosen));
        if chosen < i {
            assert(self.entries@[chosen].key@ != self.entries@[i].key@);
        }
        if i < chosen {
            assert(self.entries@[i].key@ != self.entries@[chosen].key@);
        }
    }

    /// An empty table.
    pub fn new() -> (table: TranspositionTable<S>)
        ensures
            table.wf(),
            table@ == Map::<Seq<i8>, NodeView<S>>::empty(),
            table.spec_len() == 0,
    {
        let table = TranspositionTable { entries: Vec::new() };
        assert(table@ =~= Map::<Seq<i8>, NodeView<S>>::empty());
        table
    }

    /// The number of nodes.
    pub fn len(&self) -> (count: usize)
        ensures
            count == self.spec_len(),
    {
        self.entries.len()
    }

    /// The number of nodes is the size of the map.
    pub proof fn len_is_domain(&self)
        requires
            self.wf(),
        ensures
            self@.dom().finite(),
            self@.dom().len() == self.spec_len(),
    {
        self.prefix_domain(self.entries@.len() as int);
        assert(self.prefix_keys(self.entries@.len() as int) =~= self@.dom());
    }

    /// The tokens filed in the first `n` slots.
    closed spec fn prefix_keys(&self, n: int) -> Set<Seq<i8>> {
        Set::new(|key: Seq<i8>| exists|i: int| 0 <= i < n && self.files(key, i))
    }

    proof fn prefix_domain(&self, n: int)
        requires
            self.wf(),
            0 <= n <= self.entries@.len(),
        ensures
            self.prefix_keys(n).finite(),
            self.prefix_keys(n).len() == n,
        decreases n,
    {
        if n == 0 {
            assert(self.prefix_keys(0) =~= Set::<Seq<i8>>::empty());
        } else {
            self.prefix_domain(n - 1);
            let key: Seq<i8> = self.entries@[n - 1].key@;
            assert(self.files(key, n - 1));
            assert(!self.prefix_keys(n - 1).contains(key)) by {
                if self.prefix_keys(n - 1).contains(key) {
                    let i: int = choose|i: int| 0 <= i < n - 1 && self.files(key, i);
                    assert(self.entries@[i].key@ != self.entries@[n - 1].key@);
                }
            }
            assert(self.prefix_keys(n) =~= self.prefix_keys(n - 1).insert(key)) by {
                assert forall|k: Seq<i8>| self.prefix_keys(n).contains(k) implies self.prefix_keys(
                    n - 1,
                ).insert(key).contains(k) by {
                    let i: int = choose|i: int| 0 <= i < n && self.files(k, i);
                    if i < n - 1 {
                        assert(self.prefix_keys(n - 1).contains(k));
                    }
                }
                assert forall|k: Seq<i8>| self.prefix_keys(n - 1).insert(key).contains(
                    k,
                ) implies self.prefix_keys(n).contains(k) by {
                    if k == key {
                        assert(self.files(k, n - 1));
                    } else {
                        let i: int = choose|i: int| 0 <= i < n - 1 && self.files(k, i);
                        assert(self.files(k, i));
                    }
                }
            }
        }
    }

    /// The slot that files `key`.
    fn slot(&self, key: &[i8; 75]) -> (found: Option<usize>)
        requires
            self.wf(),
        ensures
            match found {
                Some(i) => self.files(key@, i as int) && self@.dom().contains(key@) && self@[key@]
                    == self.entries@[i as int].node@,
                None => !self@.dom().contains(key@) && forall|i: int| !self.files(key@, i),
            },
    {
        let mut i: usize = 0;
        while i < self.entries.len()
            invariant
                self.wf(),
                i <= self.entries@.len(),
                forall|j: int| 0 <= j < i ==> !self.files(key@, j),
            decreases self.entries@.len() - i,
        {
            if same_key(&self.entries[i].key, key) {
                proof {
                    self.filed_is_mapped(key@, i as int);
                }
                return Some(i);
            }
            i = i + 1;
        }
        None
    }

    /// The tokens under which nodes are filed, each once.
    pub fn keys(&self) -> (keys: Vec<[i8; 75]>)
        requires
            self.wf(),
        ensures
            keys@.len() == self.spec_len(),
            forall|i: int| 0 <= i < keys@.len() ==> self@.dom().contains(#[trigger] keys@[i]@),
            forall|i: int, j: int| 0 <= i < j < keys@.len() ==> keys@[i]@ != keys@[j]@,
            forall|key: Seq<i8>|
                self@.dom().contains(key) ==> exists|i: int|
                    0 <= i < keys@.len() && #[trigger] keys@[i]@ == key,
    {
        let mut keys: Vec<[i8; 75]> = Vec::with_capacity(self.entries.len());
        let mut i: usize = 0;
        while i < self.entries.len()
            invariant
                self.wf(),
                i <= self.entries@.len(),
                keys@.len() == i,
                forall|j: int| 0 <= j < i ==> (#[trigger] keys@[j])@ == self.entries@[j].key@,
            decreases self.entries@.len() - i,
        {
            keys.push(self.entries[i].key);
            i = i + 1;
        }
        proof {
            assert forall|j: int| 0 <= j < keys@.len() implies self@.dom().contains(
                #[trigger] keys@[j]@,
            ) by {
                self.filed_is_mapped(keys@[j]@, j);
            }
            assert forall|a: int, b: int| 0 <= a < b < keys@.len() implies keys@[a]@
                != keys@[b]@ by {
                assert(self.entries@[a].key@ != self.entries@[b].key@);
            }
            assert forall|key: Seq<i8>| self@.dom().contains(key) implies exists|j: int|
                0 <= j < keys@.len() && #[trigger] keys@[j]@ == key by {
                let j: int = choose|j: int| self.files(key, j);
                assert(keys@[j]@ == key);
            }
        }
        keys
    }

    /// The node filed under `key`.
    pub fn get(&self, key: &[i8; 75]) -> (found: Option<&TreeNode<S>>)
        requires
            self.wf(),
        ensures
            match found {
                Some(node) => self@.dom().contains(key@) && node@ == self@[key@],
                None => !self@.dom().contains(key@),
            },
    {
        match self.slot(key) {
            Some(i) => Some(&self.entries[i].node),
            None => None,
        }
    }

    /// Files `node` under `key`, in place of the node that was filed there
    /// before, if there was one.
    pub fn insert(&mut self, key: [i8; 75], node: TreeNode<S>)
        requires
            old(self).wf(),
        ensures
            final(self).wf(),
            final(self)@ == old(self)@.insert(key@, node@),
    {
        let slot: Option<usize> = self.slot(&key);
        match slot {
            Some(i) => {
                self.entries[i] = Entry { key: key, node: node };
                assert(self.wf()) by {
                    assert forall|a: int, b: int| 0 <= a < b < self.entries@.len() implies (
                    #[trigger] self.entries@[a]).key@ != (#[trigger] self.entries@[b]).key@ by {
                        assert(old(self).entries@[a].key@ != old(self).entries@[b].key@);
                    }
                }
            },
            None => {
                self.entries.push(Entry { key: key, node: node });
                assert(self.wf()) by {
                    assert forall|a: int, b: int| 0 <= a < b < self.entries@.len() implies (
                    #[trigger] self.entries@[a]).key@ != (#[trigger] self.entries@[b]).key@ by {
                        if b == self.entries@.len() - 1 {
                            assert(!old(self).files(key@, a));
                        } else {
                            assert(old(self).entries@[a].key@ != old(self).entries@[b].key@);
                        }
                    }
                }
            },
        }
        proof {
            let ghost at: int = match slot {
                Some(i) => i as int,
                None => old(self).entries@.len() as int,
            };
            assert(self.files(key@, at) && self.entries@[at].node@ == node@);
            assert forall|other: Seq<i8>, i: int|
                other != key@ && old(self).files(other, i) implies exists|j: int|
                #[trigger] self.files(other, j) && self.entries@[j].node@ == old(
                    self,
                ).entries@[i].node@ by {
                assert(self.files(other, i));
            }
            assert forall|other: Seq<i8>, j: int|
                other != key@ && self.files(other, j) implies exists|i: int| #[trigger]
                old(self).files(other, i) by {
                assert(old(self).files(other, j));
            }
            self.same_but(old(self), key@, node@);
        }
    }

    /// What filing one node does to the map.
    proof fn same_but(&self, before: &TranspositionTable<S>, key: Seq<i8>, node: NodeView<S>)
        requires
            self.wf(),
            before.wf(),
            exists|i: int| self.files(key, i) && self.entries@[i].node@ == node,
            forall|other: Seq<i8>, i: int|
                other != key && before.files(other, i) ==> exists|j: int|
                    #[trigger] self.files(other, j) && self.entries@[j].node@
                        == before.entries@[i].node@,
            forall|other: Seq<i8>, j: int|
                other != key && self.files(other, j) ==> exists|i: int| #[trigger]
                    before.files(other, i),
        ensures
            self@ == before@.insert(key, node),
    {
        let target: Map<Seq<i8>, NodeView<S>> = before@.insert(key, node);
        assert forall|k: Seq<i8>| self@.dom().contains(k) <==> target.dom().contains(k) by {
            if k == key {
                let i: int = choose|i: int| self.files(key, i) && self.entries@[i].node@ == node;
                assert(self.files(key, i));
            } else {
                if self@.dom().contains(k) {
                    let j: int = choose|j: int| self.files(k, j);
                    let i: int = choose|i: int| before.files(k, i);
                    assert(before.files(k, i));
                }
                if target.dom().contains(k) {
                    let i: int = choose|i: int| before.files(k, i);
                    let j: int = choose|j: int|
                        #[trigger] self.files(k, j) && self.entries@[j].node@
                            == before.entries@[i].node@;
                    assert(self.files(k, j));
                }
            }
        }
        assert forall|k: Seq<i8>| self@.dom().contains(k) implies self@[k] == target[k] by {
            if k == key {
                let i: int = choose|i: int| self.files(key, i) && self.entries@[i].node@ == node;
                self.filed_is_mapped(key, i);
            } else {
                let i: int = choose|i: int| before.files(k, i);
                assert(before.files(k, i));
                let j: int = choose|j: int|
                    #[trigger] self.files(k, j) && self.entries@[j].node@
                        == before.entries@[i].node@;
                self.filed_is_mapped(k, j);
                before.filed_is_mapped(k, i);
            }
        }
        assert(self@ =~= target);
    }
    /// What changing the node in one slot does to the map.
    proof fn same_but_slot(&self, before: &TranspositionTable<S>, at: int)
        requires
            before.wf(),
            0 <= at < before.entries@.len(),
            self.entries@.len() == before.entries@.len(),
            self.entries@[at].key@ == before.entries@[at].key@,
            forall|j: int|
                0 <= j < before.entries@.len() && j != at ==> self.entries@[j]
                    == before.entries@[j],
        ensures
            self.wf(),
            self@ == before@.insert(self.entries@[at].key@, self.entries@[at].node@),
    {
        let key: Seq<i8> = self.entries@[at].key@;
        assert(self.wf()) by {
            assert forall|a: int, b: int| 0 <= a < b < self.entries@.len() implies (
            #[trigger] self.entries@[a]).key@ != (#[trigger] self.entries@[b]).key@ by {
                assert(before.entries@[a].key@ != before.entries@[b].key@);
            }
        }
        assert(self.files(key, at));
        assert forall|other: Seq<i8>, i: int|
            other != key && before.files(other, i) implies exists|j: int|
            #[trigger] self.files(other, j) && self.entries@[j].node@
                == before.entries@[i].node@ by {
            assert(self.files(other, i));
        }
        assert forall|other: Seq<i8>, j: int|
            other != key && self.files(other, j) implies exists|i: int| #[trigger]
            before.files(other, i) by {
            assert(before.files(other, j));
        }
        self.same_but(before, key, self.entries@[at].node@);
    }

    /// Counts one more visit that took `action` at the node filed under
    /// `key`, and returns the visits of that action and of the node
    /// afterwards. A table without such a node is left as it is.
    pub fn record_visit(&mut self, key: &[i8; 75], action: usize) -> (counts: Option<(u32, u32)>)
        requires
            old(self).wf(),
            action < 162,
        ensures
            final(self).wf(),
            match counts {
                Some(c) => {
                    &&& old(self)@.dom().contains(key@)
                    &&& final(self)@ == old(self)@.insert(
                        key@,
                        old(self)@[key@].recorded(action as int),
                    )
                    &&& c.0 == final(self)@[key@].edge_visits[action as int]
                    &&& c.1 == final(self)@[key@].total_visits
                },
                None => !old(self)@.dom().contains(key@) && final(self)@ == old(self)@,
            },
    {
        match self.slot(key) {
            Some(i) => {
                self.entries[i].node.record_visit(action);
                proof {
                    self.same_but_slot(old(self), i as int);
                }
                Some((self.entries[i].node.edge_visits[action], self.entries[i].node.total_visits))
            },
            None => None,
        }
    }

    /// Attaches `values` to the node filed under `key`, in place of what
    /// was attached before. Returns whether there is such a node.
    pub fn set_values(&mut self, key: &[i8; 75], values: S) -> (present: bool)
        requires
            old(self).wf(),
        ensures
            final(self).wf(),
            present == old(self)@.dom().contains(key@),
            present ==> final(self)@ == old(self)@.insert(
                key@,
                old(self)@[key@].with_values(Some(values)),
            ),
            !present ==> final(self)@ == old(self)@,
    {
        match self.slot(key) {
            Some(i) => {
                self.entries[i].node.values = Some(values);
                proof {
                    self.same_but_slot(old(self), i as int);
                }
                true
            },
            None => false,
        }
    }

    /// Drops every node that was made before round `threshold`.
    pub fn retain_since(&mut self, threshold: u16)
        requires
            old(self).wf(),
        ensures
            final(self).wf(),
            final(self)@ == kept_since(old(self)@, threshold as nat),
    {
        let mut rest: Vec<Entry<S>> = Vec::new();
        core::mem::swap(&mut self.entries, &mut rest);
        let ghost orig: Seq<Entry<S>> = rest@;
        let ghost mut source: Seq<int> = Seq::empty();
        while rest.len() > 0
            invariant
                rest@.len() <= orig.len(),
                rest@ == orig.take(rest@.len() as int),
                source.len() == self.entries@.len(),
                forall|p: int|
                    0 <= p < source.len() ==> {
                        &&& rest@.len() <= #[trigger] source[p] < orig.len()
                        &&& self.entries@[p] == orig[source[p]]
                        &&& orig[source[p]].node.round >= threshold
                    },
                forall|p: int, q: int| 0 <= p < q < source.len() ==> source[p] > source[q],
                forall|i: int|
                    rest@.len() <= i < orig.len() && (#[trigger] orig[i]).node.round >= threshold
                        ==> exists|p: int| 0 <= p < source.len() && source[p] == i,
            decreases rest@.len(),
        {
            let ghost before_source: Seq<int> = source;
            let popped: Option<Entry<S>> = rest.pop();
            match popped {
                Some(entry) => {
                    if entry.node.round >= threshold {
                        self.entries.push(entry);
                        proof {
                            source = source.push(rest@.len() as int);
                            assert forall|i: int|
                                rest@.len() <= i < orig.len() && (#[trigger] orig[i]).node.round
                                    >= threshold implies exists|p: int|
                                0 <= p < source.len() && source[p] == i by {
                                if i == rest@.len() {
                                    assert(source[before_source.len() as int] == i);
                                } else {
                                    let p: int = choose|p: int|
                                        0 <= p < before_source.len() && before_source[p] == i;
                                    assert(source[p] == i);
                                }
                            }
                        }
                    }
                },
                None => {},
            }
        }
        proof {
            let before: &TranspositionTable<S> = old(self);
            assert(before.entries@ == orig);
            assert(self.wf()) by {
                assert forall|a: int, b: int| 0 <= a < b < self.entries@.len() implies (
                #[trigger] self.entries@[a]).key@ != (#[trigger] self.entries@[b]).key@ by {
                    assert(source[a] > source[b]);
                    assert(orig[source[b]].key@ != orig[source[a]].key@);
                }
            }
            let target: Map<Seq<i8>, NodeView<S>> = kept_since(before@, threshold as nat);
            assert forall|k: Seq<i8>| self@.dom().contains(k) <==> target.dom().contains(k) by {
                if self@.dom().contains(k) {
                    let p: int = choose|p: int| self.files(k, p);
                    assert(before.files(k, source[p]));
                    before.filed_is_mapped(k, source[p]);
                }
                if target.dom().contains(k) {
                    let i: int = choose|i: int| before.files(k, i);
                    before.filed_is_mapped(k, i);
                    assert(orig[i].node.round >= threshold);
                    let p: int = choose|p: int| 0 <= p < source.len() && source[p] == i;
                    assert(self.files(k, p));
                }
            }
            assert forall|k: Seq<i8>| self@.dom().contains(k) implies self@[k] == target[k] by {
                let p: int = choose|p: int| self.files(k, p);
                self.filed_is_mapped(k, p);
                assert(before.files(k, source[p]));
                before.filed_is_mapped(k, source[p]);
            }
            assert(self@ =~= target);
        }
    }
}

/// The nodes of `table` that were made in round `threshold` or later.
pub open spec fn kept_since<S>(table: Map<Seq<i8>, NodeView<S>>, threshold: nat) -> Map<
    Seq<i8>,
    NodeView<S>,
> {
    Map::new(
        |key: Seq<i8>| table.dom().contains(key) && table[key].round >= threshold,
        |key: Seq<i8>| table[key],
    )
}

} // verus!
