//! The model of bounded undo and redo.
//!
//! A history holds the current document and two stacks of earlier and
//! later documents. A checkpoint saves the current document on the undo
//! stack and forgets what could be redone; beyond a fixed depth the oldest
//! saved document is dropped.

use vstd::prelude::*;

verus! {

/// How many documents the undo stack holds at most.
pub const HISTORY_CAP: usize = 50;

/// The current document with what can be undone and redone. The last
/// element of each stack is its top.
pub struct Timeline<D> {
    pub doc: D,
    pub undo: Seq<D>,
    pub redo: Seq<D>,
}

/// The newest `HISTORY_CAP` elements of a stack.
pub open spec fn recent<D>(s: Seq<D>) -> Seq<D> {
    if s.len() > HISTORY_CAP {
        s.subrange(s.len() - HISTORY_CAP, s.len() as int)
    } else {
        s
    }
}

impl<D> Timeline<D> {
    /// The history after a checkpoint.
    pub open spec fn checkpointed(self) -> Timeline<D> {
        Timeline { doc: self.doc, undo: recent(self.undo.push(self.doc)), redo: Seq::empty() }
    }

    /// The history with another current document.
    pub open spec fn replaced(self, doc: D) -> Timeline<D> {
        Timeline { doc, undo: self.undo, redo: self.redo }
    }

    /// The history after an undo: nothing changes where nothing can be
    /// undone.
    pub open spec fn undone(self) -> Timeline<D> {
        if self.undo.len() == 0 {
            self
        } else {
            Timeline {
                doc: self.undo.last(),
                undo: self.undo.drop_last(),
                redo: self.redo.push(self.doc),
            }
        }
    }

    /// The history after a redo: nothing changes where nothing can be
    /// redone.
    pub open spec fn redone(self) -> Timeline<D> {
        if self.redo.len() == 0 {
            self
        } else {
            Timeline {
                doc: self.redo.last(),
                undo: self.undo.push(self.doc),
                redo: self.redo.drop_last(),
            }
        }
    }

    /// The history after a series of checkpointed mutations, the `i`-th of
    /// which leaves the document `docs[i]`.
    pub open spec fn edited(self, docs: Seq<D>) -> Timeline<D>
        decreases docs.len(),
    {
        if docs.len() == 0 {
            self
        } else {
            self.edited(docs.drop_last()).checkpointed().replaced(docs.last())
        }
    }

    /// The history after `n` undos.
    pub open spec fn undone_times(self, n: nat) -> Timeline<D>
        decreases n,
    {
        if n == 0 {
            self
        } else {
            self.undone_times((n - 1) as nat).undone()
        }
    }

    /// The history after `n` redos.
    pub open spec fn redone_times(self, n: nat) -> Timeline<D>
        decreases n,
    {
        if n == 0 {
            self
        } else {
            self.redone_times((n - 1) as nat).redone()
        }
    }
}

/// The document before a series of mutations, followed by the documents
/// that the mutations leave.
pub open spec fn states<D>(first: D, docs: Seq<D>) -> Seq<D> {
    seq![first] + docs
}

/// The last `k` of the first `m + 1` states, the latest first: what `k`
/// undos put on the redo stack.
pub open spec fn unwound<D>(s: Seq<D>, m: int, k: nat) -> Seq<D> {
    Seq::new(k, |i: int| s[m - i])
}

/// After a series of checkpointed mutations that the undo stack has room
/// for, the undo stack holds the earlier stack and every document before
/// the last, and nothing can be redone.
pub proof fn edited_without_eviction<D>(h: Timeline<D>, docs: Seq<D>)
    requires
        docs.len() > 0,
        h.undo.len() + docs.len() <= HISTORY_CAP,
    ensures
        h.edited(docs).doc == docs.last(),
        h.edited(docs).undo == h.undo + states(h.doc, docs).subrange(0, docs.len() as int),
        h.edited(docs).redo == Seq::<D>::empty(),
    decreases docs.len(),
{
    let s = states(h.doc, docs);
    let n = docs.len() as int;
    let earlier = docs.drop_last();
    let before = h.edited(earlier);
    if earlier.len() == 0 {
        assert(before == h);
        assert(h.undo.push(h.doc) =~= h.undo + s.subrange(0, n));
    } else {
        edited_without_eviction(h, earlier);
        let t = states(h.doc, earlier);
        assert(before.doc == s[n - 1]);
        assert(before.undo.push(before.doc) =~= h.undo + s.subrange(0, n)) by {
            assert(t.subrange(0, n - 1) =~= s.subrange(0, n - 1));
        }
    }
}

/// Undoing `k` times walks back through the saved states.
proof fn undo_walks_back<D>(x: Timeline<D>, older: Seq<D>, s: Seq<D>, m: int, k: nat)
    requires
        0 <= k <= m < s.len(),
        x.undo == older + s.subrange(0, m),
        x.doc == s[m],
    ensures
        x.undone_times(k).undo == older + s.subrange(0, m - k),
        x.undone_times(k).doc == s[m - k],
        x.undone_times(k).redo == x.redo + unwound(s, m, k),
    decreases k,
{
    if k == 0 {
        assert(x.redo + unwound(s, m, 0) =~= x.redo);
    } else {
        undo_walks_back(x, older, s, m, (k - 1) as nat);
        let y = x.undone_times((k - 1) as nat);
        let u = older + s.subrange(0, m - k + 1);
        assert(u.last() == s[m - k]);
        assert(u.drop_last() =~= older + s.subrange(0, m - k));
        assert(y.redo.push(y.doc) =~= x.redo + unwound(s, m, k));
    }
}

/// Redoing `k` times walks forward again through what was undone.
proof fn redo_walks_forward<D>(
    y: Timeline<D>,
    older: Seq<D>,
    later: Seq<D>,
    s: Seq<D>,
    m: int,
    k: nat,
    j: nat,
)
    requires
        0 <= j <= k <= m < s.len(),
        y.undo == older + s.subrange(0, m - k),
        y.doc == s[m - k],
        y.redo == later + unwound(s, m, k),
    ensures
        y.redone_times(j).undo == older + s.subrange(0, m - k + j),
        y.redone_times(j).doc == s[m - k + j],
        y.redone_times(j).redo == later + unwound(s, m, (k - j) as nat),
    decreases j,
{
    if j > 0 {
        redo_walks_forward(y, older, later, s, m, k, (j - 1) as nat);
        let z = y.redone_times((j - 1) as nat);
        let r = later + unwound(s, m, (k - j + 1) as nat);
        assert(r.last() == s[m - k + j]);
        assert(r.drop_last() =~= later + unwound(s, m, (k - j) as nat));
        assert(z.undo.push(z.doc) =~= older + s.subrange(0, m - k + j));
    }
}

/// After `n` checkpointed mutations that the undo stack has room for, `n`
/// undos bring back the document and the undo stack from before the first
/// of them, and `n` redos after that bring back the state after the last.
pub proof fn undo_redo_round_trip<D>(h: Timeline<D>, docs: Seq<D>)
    requires
        h.undo.len() + docs.len() <= HISTORY_CAP,
    ensures
        h.edited(docs).undone_times(docs.len()).doc == h.doc,
        h.edited(docs).undone_times(docs.len()).undo == h.undo,
        h.edited(docs).undone_times(docs.len()).redone_times(docs.len()) == h.edited(docs),
{
    let n = docs.len();
    if n > 0 {
        let e = h.edited(docs);
        let s = states(h.doc, docs);
        edited_without_eviction(h, docs);
        undo_walks_back(e, h.undo, s, n as int, n);
        let back = e.undone_times(n);
        assert(h.undo + s.subrange(0, 0) =~= h.undo);
        assert(back.redo =~= Seq::<D>::empty() + unwound(s, n as int, n));
        redo_walks_forward(back, h.undo, Seq::empty(), s, n as int, n, n);
        let again = back.redone_times(n);
        assert(again.redo =~= e.redo);
        assert(again.undo == e.undo);
        assert(again.doc == e.doc);
    }
}

/// The undo stack never holds more than `HISTORY_CAP` documents after a
/// checkpoint, and holds the newest of what was saved.
pub proof fn checkpoint_keeps_recent<D>(h: Timeline<D>)
    ensures
        h.checkpointed().undo.len() <= HISTORY_CAP,
        h.checkpointed().undo.len() > 0,
        h.checkpointed().undo.last() == h.doc,
        h.undo.len() < HISTORY_CAP ==> h.checkpointed().undo == h.undo.push(h.doc),
{
}

/// Keeping the newest after every push keeps the newest of all.
proof fn recent_of_pushed<D>(s: Seq<D>, d: D)
    ensures
        recent(recent(s).push(d)) == recent(s.push(d)),
{
    assert(recent(recent(s).push(d)) =~= recent(s.push(d)));
}

/// After any series of checkpointed mutations, the undo stack holds the
/// newest `HISTORY_CAP` of all the documents saved: of the earlier stack
/// and of every document before the last. Older ones are gone.
pub proof fn history_is_capped<D>(h: Timeline<D>, docs: Seq<D>)
    requires
        docs.len() > 0,
    ensures
        h.edited(docs).undo == recent(
            h.undo + states(h.doc, docs).subrange(0, docs.len() as int),
        ),
        h.edited(docs).undo.len() <= HISTORY_CAP,
    decreases docs.len(),
{
    let s = states(h.doc, docs);
    let n = docs.len() as int;
    let earlier = docs.drop_last();
    let before = h.edited(earlier);
    if earlier.len() == 0 {
        assert(before == h);
        assert(h.undo.push(h.doc) =~= h.undo + s.subrange(0, n));
    } else {
        history_is_capped(h, earlier);
        let t = states(h.doc, earlier);
        let all = h.undo + t.subrange(0, n - 1);
        assert(before.doc == earlier.last());
        assert(before.doc == s[n - 1]);
        recent_of_pushed(all, before.doc);
        assert(all.push(before.doc) =~= h.undo + s.subrange(0, n)) by {
            assert(t.subrange(0, n - 1) =~= s.subrange(0, n - 1));
        }
    }
}

} // verus!
