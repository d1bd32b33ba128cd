use vstd::prelude::*;
use crate::messages::{Block, Digest};

verus! {

/// What the synchronizer asks of the node around it.
#[derive(Clone, Copy, Debug)]
pub enum Action {
    /// Ask the network for the block with this digest, and start waiting until
    /// the store holds it.
    SyncRequest(Digest),
    /// Hand the block to the consensus core.
    Deliver(Block),
}

/// One outstanding wait: the missing ancestor, and the blocks to deliver once
/// the store holds it, in the order in which they came.
pub struct Wait {
    pub ancestor: Digest,
    pub blocks: Vec<Block>,
}

/// The state of the synchronizer's background task: the outstanding waits,
/// one for each missing ancestor. Its view lists each wait as the pair of the
/// ancestor and the blocks held back behind it.
pub struct Synchronizer {
    waits: Vec<Wait>,
}

/// A model of the outstanding waits.
pub type Waits = Seq<(Digest, Seq<Block>)>;

/// `d` is a missing ancestor that a wait is outstanding for.
pub open spec fn is_pending(ws: Waits, d: Digest) -> bool {
    exists|i: int| 0 <= i < ws.len() && ws[i].0 == d
}

/// The place of the wait for `d`.
pub open spec fn slot(ws: Waits, d: Digest) -> int {
    choose|i: int| 0 <= i < ws.len() && ws[i].0 == d
}

/// At most one wait for each ancestor; each holds back at least one block,
/// no block twice, and only blocks whose parent is that ancestor.
pub open spec fn waits_wf(ws: Waits) -> bool {
    &&& forall|i: int, j: int| #![trigger ws[i], ws[j]] 0 <= i < j < ws.len() ==> ws[i].0 != ws[j].0
    &&& forall|i: int| 0 <= i < ws.len() ==> ws[i].1.len() > 0
    &&& forall|i: int, k: int, l: int|
        0 <= i < ws.len() && 0 <= k < l < ws[i].1.len() ==> ws[i].1[k] != ws[i].1[l]
    &&& forall|i: int, k: int|
        0 <= i < ws.len() && 0 <= k < ws[i].1.len() ==> #[trigger] ws[i].1[k].qc.hash == ws[i].0
}

/// A block comes in. With its parent stored it goes straight to the core.
/// Otherwise it is held back behind its parent: a parent already waited for is
/// not requested again, and a block already held back is not held twice.
pub open spec fn enqueue_spec(ws: Waits, b: Block, parent_stored: bool) -> (Waits, Seq<Action>) {
    let p = b.previous_spec();
    if parent_stored {
        (ws, seq![Action::Deliver(b)])
    } else if is_pending(ws, p) {
        let i = slot(ws, p);
        if ws[i].1.contains(b) {
            (ws, seq![])
        } else {
            (ws.update(i, (p, ws[i].1.push(b))), seq![])
        }
    } else {
        (ws.push((p, seq![b])), seq![Action::SyncRequest(p)])
    }
}

/// The deliveries of `bs`, in order.
pub open spec fn deliveries(bs: Seq<Block>) -> Seq<Action> {
    bs.map_values(|b: Block| Action::Deliver(b))
}

/// The store now holds `d`: the blocks held back behind it go to the core, in
/// the order in which they came, and the wait ends.
pub open spec fn written_spec(ws: Waits, d: Digest) -> (Waits, Seq<Action>) {
    if is_pending(ws, d) {
        let i = slot(ws, d);
        (ws.remove(i), deliveries(ws[i].1))
    } else {
        (ws, seq![])
    }
}

/// Waiting for `d` failed: the wait ends and the blocks held back behind it are
/// dropped, so that a later block with the same parent requests it again.
pub open spec fn failed_spec(ws: Waits, d: Digest) -> (Waits, Seq<Block>) {
    if is_pending(ws, d) {
        let i = slot(ws, d);
        (ws.remove(i), ws[i].1)
    } else {
        (ws, seq![])
    }
}

impl View for Synchronizer {
    type V = Waits;

    closed spec fn view(&self) -> Waits {
        Seq::new(self.waits@.len(), |i: int| (self.waits@[i].ancestor, self.waits@[i].blocks@))
    }
}

impl Synchronizer {
    pub open spec fn wf(&self) -> bool {
        waits_wf(self@)
    }

    /// A synchronizer with no outstanding wait.
    pub fn new() -> (r: Synchronizer)
        ensures
            r.wf(),
            r@ == Seq::<(Digest, Seq<Block>)>::empty(),
    {
        let r = Synchronizer { waits: Vec::new() };
        assert(r@ =~= Seq::<(Digest, Seq<Block>)>::empty());
        r
    }

    /// The place of the wait for `d`, if one is outstanding.
    fn find(&self, d: Digest) -> (r: Option<usize>)
        requires
            self.wf(),
        ensures
            match r {
                Some(i) => is_pending(self@, d) && i == slot(self@, d),
                None => !is_pending(self@, d),
            },
    {
        let mut i: usize = 0;
        while i < self.waits.len()
            invariant
                self.wf(),
                i <= self.waits@.len(),
                forall|j: int| 0 <= j < i ==> self@[j].0 != d,
            decreases self.waits@.len() - i,
        {
            if self.waits[i].ancestor == d {
                proof {
                    lemma_slot(self@, d, i as int);
                }
                return Some(i);
            }
            i = i + 1;
        }
        None
    }

    /// Whether a wait for `d` is outstanding.
    pub fn is_waiting_on(&self, d: Digest) -> (r: bool)
        requires
            self.wf(),
        ensures
            r == is_pending(self@, d),
    {
        self.find(d).is_some()
    }

    /// Handles a block that came in; `parent_stored` tells whether the store
    /// already holds its parent.
    pub fn enqueue(&mut self, block: Block, parent_stored: bool) -> (r: Vec<Action>)
        requires
            old(self).wf(),
        ensures
            final(self).wf(),
            (final(self)@, r@) == enqueue_spec(old(self)@, block, parent_stored),
    {
        let p = block.previous();
        if parent_stored {
            return vec![Action::Deliver(block)];
        }
        match self.find(p) {
            Some(i) => {
                let ghost ws = self@;
                if contains(&self.waits[i].blocks, &block) {
                    return Vec::new();
                }
                let mut w = self.waits.remove(i);
                w.blocks.push(block);
                self.waits.insert(i, w);
                assert(self@ =~= ws.update(i as int, (p, ws[i as int].1.push(block))));
                proof {
                    let nb = ws[i as int].1.push(block);
                    assert forall|k: int, l: int| 0 <= k < l < nb.len() implies nb[k] != nb[l] by {
                        if l == nb.len() - 1 {
                            assert(ws[i as int].1[k] == nb[k]);
                        }
                    }
                }
                Vec::new()
            },
            None => {
                let ghost ws = self@;
                let w = Wait { ancestor: p, blocks: vec![block] };
                assert(w.blocks@ =~= seq![block]);
                self.waits.push(w);
                assert(self@ =~= ws.push((p, seq![block])));
                vec![Action::SyncRequest(p)]
            },
        }
    }

    /// Handles the store's report that it now holds `d`.
    pub fn written(&mut self, d: Digest) -> (r: Vec<Action>)
        requires
            old(self).wf(),
        ensures
            final(self).wf(),
            (final(self)@, r@) == written_spec(old(self)@, d),
    {
        match self.find(d) {
            Some(i) => {
                let ghost ws = self@;
                let w = self.waits.remove(i);
                assert(self@ =~= ws.remove(i as int));
                let mut r: Vec<Action> = Vec::new();
                let mut k: usize = 0;
                while k < w.blocks.len()
                    invariant
                        k <= w.blocks@.len(),
                        r@.len() == k,
                        forall|j: int| 0 <= j < k ==> r@[j] == Action::Deliver(w.blocks@[j]),
                    decreases w.blocks@.len() - k,
                {
                    r.push(Action::Deliver(w.blocks[k]));
                    k = k + 1;
                }
                assert(r@ =~= deliveries(ws[i as int].1));
                r
            },
            None => Vec::new(),
        }
    }

    /// Handles the store's report that waiting for `d` failed; returns the
    /// blocks that are dropped.
    pub fn failed(&mut self, d: Digest) -> (r: Vec<Block>)
        requires
            old(self).wf(),
        ensures
            final(self).wf(),
            (final(self)@, r@) == failed_spec(old(self)@, d),
    {
        match self.find(d) {
            Some(i) => {
                let ghost ws = self@;
                let w = self.waits.remove(i);
                assert(self@ =~= ws.remove(i as int));
                w.blocks
            },
            None => Vec::new(),
        }
    }
}

/// The wait for `d` is the one at `i`.
proof fn lemma_slot(ws: Waits, d: Digest, i: int)
    requires
        waits_wf(ws),
        0 <= i < ws.len(),
        ws[i].0 == d,
    ensures
        is_pending(ws, d),
        slot(ws, d) == i,
{
    let c = slot(ws, d);
    assert(ws[c].0 == d);
    if c < i {
        assert(ws[c].0 != ws[i].0);
    } else if c > i {
        assert(ws[i].0 != ws[c].0);
    }
}

/// Every step keeps the outstanding waits well formed.
pub proof fn lemma_steps_keep_wf(ws: Waits, b: Block, parent_stored: bool, d: Digest)
    requires
        waits_wf(ws),
    ensures
        waits_wf(enqueue_spec(ws, b, parent_stored).0),
        waits_wf(written_spec(ws, d).0),
        waits_wf(failed_spec(ws, d).0),
{
    let p = b.previous_spec();
    if !parent_stored && is_pending(ws, p) {
        let i = slot(ws, p);
        if !ws[i].1.contains(b) {
            let nb = ws[i].1.push(b);
            let n = ws.update(i, (p, nb));
            assert forall|k: int, l: int| 0 <= k < l < nb.len() implies nb[k] != nb[l] by {
                if l == nb.len() - 1 {
                    assert(ws[i].1[k] == nb[k]);
                }
            }
            assert forall|j: int, k: int| 0 <= j < n.len() && 0 <= k < n[j].1.len()
                implies #[trigger] n[j].1[k].qc.hash == n[j].0 by {
                if j == i && k < ws[i].1.len() {
                    assert(ws[i].1[k] == n[j].1[k]);
                }
            }
        }
    }
    if is_pending(ws, d) {
        let i = slot(ws, d);
        let n = ws.remove(i);
        assert forall|j: int, k: int| #![trigger n[j], n[k]] 0 <= j < k < n.len() implies n[j].0 != n[k].0 by {
            let oj = if j < i { j } else { j + 1 };
            let ok = if k < i { k } else { k + 1 };
            assert(n[j] == ws[oj] && n[k] == ws[ok]);
        }
    }
}

/// A block whose parent is stored goes to the core at once, and nothing is
/// requested.
pub proof fn lemma_immediate_delivery(ws: Waits, b: Block)
    requires
        waits_wf(ws),
    ensures
        enqueue_spec(ws, b, true) == (ws, seq![Action::Deliver(b)]),
{
}

/// A block whose parent is not stored, and not yet requested, gives exactly
/// one request for the parent and no delivery. No other store write delivers
/// it; the write of the parent delivers it exactly once and ends the wait.
pub proof fn lemma_deferred_delivery(ws: Waits, b: Block, d: Digest)
    requires
        waits_wf(ws),
        !is_pending(ws, b.previous_spec()),
        d != b.previous_spec(),
    ensures
        enqueue_spec(ws, b, false).1 == seq![Action::SyncRequest(b.previous_spec())],
        !written_spec(enqueue_spec(ws, b, false).0, d).1.contains(Action::Deliver(b)),
        written_spec(enqueue_spec(ws, b, false).0, b.previous_spec()).1 == seq![Action::Deliver(b)],
        !is_pending(written_spec(enqueue_spec(ws, b, false).0, b.previous_spec()).0, b.previous_spec()),
{
    let p = b.previous_spec();
    let ws1 = enqueue_spec(ws, b, false).0;
    assert(ws1 == ws.push((p, seq![b])));
    lemma_steps_keep_wf(ws, b, false, d);
    lemma_slot(ws1, p, ws.len() as int);
    assert(deliveries(seq![b]) =~= seq![Action::Deliver(b)]);
    if is_pending(ws1, d) {
        let i = slot(ws1, d);
        if written_spec(ws1, d).1.contains(Action::Deliver(b)) {
            let k = choose|k: int| 0 <= k < ws1[i].1.len() && deliveries(ws1[i].1)[k] == Action::Deliver(b);
            assert(ws1[i].1[k].qc.hash == ws1[i].0);
        }
    }
    let ws2 = ws1.remove(ws.len() as int);
    assert(ws2 =~= ws);
}

/// Two distinct blocks with the same missing parent give one request for it,
/// not two; the write of the parent then delivers both, in the order in which
/// they came.
pub proof fn lemma_one_request_per_parent(ws: Waits, b1: Block, b2: Block)
    requires
        waits_wf(ws),
        b1 != b2,
        b1.previous_spec() == b2.previous_spec(),
        !is_pending(ws, b1.previous_spec()),
    ensures
        enqueue_spec(ws, b1, false).1 + enqueue_spec(enqueue_spec(ws, b1, false).0, b2, false).1
            == seq![Action::SyncRequest(b1.previous_spec())],
        written_spec(enqueue_spec(enqueue_spec(ws, b1, false).0, b2, false).0, b1.previous_spec()).1
            == seq![Action::Deliver(b1), Action::Deliver(b2)],
{
    let p = b1.previous_spec();
    let ws1 = enqueue_spec(ws, b1, false).0;
    assert(ws1 == ws.push((p, seq![b1])));
    lemma_steps_keep_wf(ws, b1, false, p);
    lemma_slot(ws1, p, ws.len() as int);
    assert(!seq![b1].contains(b2)) by {
        if seq![b1].contains(b2) {
            assert(seq![b1][0] == b2);
        }
    }
    let ws2 = enqueue_spec(ws1, b2, false).0;
    assert(ws2 == ws1.update(ws.len() as int, (p, seq![b1].push(b2))));
    lemma_steps_keep_wf(ws1, b2, false, p);
    lemma_slot(ws2, p, ws.len() as int);
    assert(seq![b1].push(b2) =~= seq![b1, b2]);
    assert(deliveries(seq![b1, b2]) =~= seq![Action::Deliver(b1), Action::Deliver(b2)]);
    assert(seq![Action::SyncRequest(p)] + Seq::<Action>::empty() =~= seq![Action::SyncRequest(p)]);
}

/// A block reaches the core only once its parent is stored: from `enqueue`
/// only where the caller found the parent stored, and from the store's report
/// of a write only where the written digest is the block's parent.
pub proof fn lemma_delivery_follows_parent_write(ws: Waits, b: Block, parent_stored: bool, d: Digest)
    requires
        waits_wf(ws),
    ensures
        forall|x: Block| #[trigger] enqueue_spec(ws, b, parent_stored).1.contains(Action::Deliver(x))
            ==> parent_stored && x == b,
        forall|x: Block| #[trigger] written_spec(ws, d).1.contains(Action::Deliver(x))
            ==> x.previous_spec() == d,
{
    assert forall|x: Block| #[trigger] enqueue_spec(ws, b, parent_stored).1.contains(Action::Deliver(x))
        implies parent_stored && x == b by {
        let a = enqueue_spec(ws, b, parent_stored).1;
        let k = choose|k: int| 0 <= k < a.len() && a[k] == Action::Deliver(x);
    }
    assert forall|x: Block| #[trigger] written_spec(ws, d).1.contains(Action::Deliver(x))
        implies x.previous_spec() == d by {
        let i = slot(ws, d);
        let k = choose|k: int| 0 <= k < ws[i].1.len() && deliveries(ws[i].1)[k] == Action::Deliver(x);
        assert(ws[i].1[k].qc.hash == ws[i].0);
    }
}

/// Whether `b` is among `bs`.
fn contains(bs: &Vec<Block>, b: &Block) -> (r: bool)
    ensures
        r == bs@.contains(*b),
{
    let mut i: usize = 0;
    while i < bs.len()
        invariant
            i <= bs@.len(),
            forall|j: int| 0 <= j < i ==> bs@[j] != *b,
        decreases bs@.len() - i,
    {
        if bs[i] == *b {
            assert(bs@[i as int] == *b);
            return true;
        }
        i = i + 1;
    }
    false
}

} // verus!
