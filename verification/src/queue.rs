//! The playback queue: a permutation over the active playlist's tracks.
//!
//! `order` always holds exactly one occurrence of every position in
//! `0..tracks.len()`; linear playback uses the identity permutation and
//! shuffled playback a random one. Turning shuffle on keeps the playing
//! track first (its real index moves to `order[0]` and `index` resets to 0);
//! turning it off restores the identity permutation and points `index` at
//! the playing track's real position, so neither toggle jumps the playhead.
//!
//! Wrap policy at the queue's ends, for `next` and `prev` alike: the index
//! wraps around only while repeat is on; with repeat off it stops at the
//! boundary.

use vstd::prelude::*;
use vstd::seq_lib::group_to_multiset_ensures;
use vstd::set_lib::lemma_subset_equality;
use vstd::set_lib::range_set_properties;

use crate::track::TrackId;

verus! {

/// `order` holds each position of `0..len` exactly once.
pub open spec fn is_permutation(order: Seq<usize>, len: nat) -> bool {
    &&& order.len() == len
    &&& order.no_duplicates()
    &&& forall|i: int| 0 <= i < order.len() ==> (#[trigger] order[i] as nat) < len
}

/// The identity permutation of `0..len`.
pub open spec fn identity_order(len: nat) -> Seq<usize> {
    Seq::new(len, |i: int| i as usize)
}

/// A permutation leaves out no position: every value below `len` occurs.
pub proof fn lemma_permutation_onto(order: Seq<usize>, len: nat)
    requires
        is_permutation(order, len),
        len <= usize::MAX,
    ensures
        forall|v: usize| (v as nat) < len ==> order.contains(v),
{
    broadcast use range_set_properties;

    if len > 0 {
        order.unique_seq_to_set();
        assert(len as usize as nat == len);
        let range = Set::<usize>::range(0, len as usize);
        assert(order.to_set().subset_of(range)) by {
            assert forall|v: usize| order.to_set().contains(v) implies range.contains(v) by {
                let i = choose|i: int| 0 <= i < order.len() && order[i] == v;
                assert((order[i] as nat) < len);
            }
        }
        assert(range.len() == len);
        lemma_subset_equality(order.to_set(), range);
        assert forall|v: usize| (v as nat) < len implies order.contains(v) by {
            assert(range.contains(v));
            assert(order.to_set().contains(v));
        }
    }
}

/// Whatever reorders a sequence without changing its contents keeps it a
/// permutation.
pub proof fn lemma_multiset_eq_preserves_permutation(a: Seq<usize>, b: Seq<usize>, len: nat)
    requires
        is_permutation(a, len),
        a.to_multiset() == b.to_multiset(),
    ensures
        is_permutation(b, len),
{
    broadcast use group_to_multiset_ensures;

    assert(a.len() == a.to_multiset().len());
    assert(b.len() == b.to_multiset().len());
    assert(b.len() == len);
    a.lemma_multiset_has_no_duplicates();
    b.lemma_multiset_has_no_duplicates_conv();
    assert forall|i: int| 0 <= i < b.len() implies (#[trigger] b[i] as nat) < len by {
        assert(b.contains(b[i]));
        assert(b.to_multiset().count(b[i]) > 0);
        assert(a.contains(b[i]));
        let j = choose|j: int| 0 <= j < a.len() && a[j] == b[i];
        assert((a[j] as nat) < len);
    }
}

/// Relies on rand::seq::SliceRandom::shuffle: it permutes the slice in
/// place, so the contents are unchanged up to order. Which permutation comes
/// out is random and nothing here depends on it.
#[verifier::external_body]
fn shuffle_in_place(v: &mut Vec<usize>)
    ensures
        final(v)@.to_multiset() == old(v)@.to_multiset(),
{
    rand::seq::SliceRandom::shuffle(v.as_mut_slice(), &mut rand::rng());
}

/// Build the identity permutation of `0..len`.
pub fn make_identity_order(len: usize) -> (r: Vec<usize>)
    ensures
        r@ == identity_order(len as nat),
        is_permutation(r@, len as nat),
{
    let mut r: Vec<usize> = Vec::new();
    let mut i: usize = 0;
    while i < len
        invariant
            i <= len,
            r@ == identity_order(i as nat),
        decreases len - i,
    {
        r.push(i);
        assert(r@ =~= identity_order((i + 1) as nat));
        i = i + 1;
    }
    r
}

/// The playback queue over the active playlist: the track ids in playlist
/// order, the permutation that playback follows, and the position within it.
#[derive(Clone, Debug)]
pub struct QueueState {
    pub tracks: Vec<TrackId>,
    pub order: Vec<usize>,
    pub index: usize,
}

impl QueueState {
    /// Number of tracks in the queue.
    pub open spec fn spec_len(self) -> nat {
        self.tracks@.len()
    }

    /// `order` is a permutation of `0..len` and `index` points inside it
    /// (or at 0 when the queue is empty).
    pub open spec fn wf(self) -> bool {
        &&& is_permutation(self.order@, self.spec_len())
        &&& if self.spec_len() == 0 {
            self.index == 0
        } else {
            (self.index as nat) < self.spec_len()
        }
    }

    /// The real playlist position of the entry playback stands on.
    pub open spec fn spec_real_index(self) -> usize {
        self.order@[self.index as int]
    }

    /// An empty queue: no tracks, the empty permutation.
    pub fn new() -> (r: QueueState)
        ensures
            r.wf(),
            r.spec_len() == 0,
            r.index == 0,
    {
        QueueState { tracks: Vec::new(), order: Vec::new(), index: 0 }
    }

    /// Replace the queue's contents with a new track list, in the identity
    /// order, pointing at the first entry.
    pub fn reset(&mut self, tracks: Vec<TrackId>)
        ensures
            final(self).wf(),
            final(self).tracks@ == tracks@,
            final(self).order@ == identity_order(tracks@.len()),
            final(self).index == 0,
    {
        let len = tracks.len();
        self.order = make_identity_order(len);
        self.tracks = tracks;
        self.index = 0;
    }

    /// The real playlist index of the current entry, if the queue is not
    /// empty.
    pub fn current(&self) -> (r: Option<usize>)
        requires
            self.wf(),
        ensures
            self.spec_len() == 0 ==> r is None,
            self.spec_len() > 0 ==> r == Some(self.spec_real_index()),
    {
        if self.tracks.len() == 0 {
            None
        } else {
            Some(self.order[self.index])
        }
    }

    /// Find the queue position that maps to real index `k`.
    fn position_of(&self, k: usize) -> (pos: usize)
        requires
            self.order@.contains(k),
        ensures
            (pos as nat) < self.order@.len(),
            self.order@[pos as int] == k,
    {
        let mut pos: usize = 0;
        loop
            invariant
                self.order@.contains(k),
                pos <= self.order@.len(),
                forall|j: int| 0 <= j < pos ==> self.order@[j] != k,
            decreases self.order@.len() - pos,
        {
            if pos >= self.order.len() {
                proof {
                    let w = choose|w: int| 0 <= w < self.order@.len() && self.order@[w] == k;
                    assert(self.order@[w] != k);
                }
                return vstd::pervasive::unreached();
            }
            if self.order[pos] == k {
                return pos;
            }
            pos = pos + 1;
        }
    }

    /// Turn shuffle on: draw a random permutation, then move the entry of
    /// the playing track (real index `k`) to the front, so playback goes on
    /// from the same track while everything behind it is shuffled.
    pub fn shuffle_on(&mut self)
        requires
            old(self).wf(),
        ensures
            final(self).wf(),
            final(self).tracks@ == old(self).tracks@,
            final(self).index == 0,
            old(self).spec_len() > 0 ==> final(self).spec_real_index() == old(
                self,
            ).spec_real_index(),
            old(self).spec_len() > 0 ==> final(self).order@[0] == old(self).spec_real_index(),
    {
        let len = self.tracks.len();
        if len == 0 {
            self.index = 0;
            return ;
        }
        let k = self.order[self.index];
        assert((k as nat) < self.spec_len());
        let mut fresh = make_identity_order(len);
        shuffle_in_place(&mut fresh);
        proof {
            lemma_multiset_eq_preserves_permutation(
                identity_order(len as nat),
                fresh@,
                len as nat,
            );
            lemma_permutation_onto(fresh@, len as nat);
            assert(fresh@.contains(k));
        }
        self.order = fresh;
        let pos = self.position_of(k);
        let front = self.order[0];
        self.order[0] = k;
        self.order[pos] = front;
        assert(self.order@ =~= fresh@.update(0, k).update(pos as int, front));
        assert(is_permutation(self.order@, len as nat)) by {
            let o = self.order@;
            assert forall|i: int, j: int|
                0 <= i < o.len() && 0 <= j < o.len() && i != j implies o[i] != o[j] by {
                assert(fresh@.no_duplicates());
            }
        }
        self.index = 0;
    }

    /// Turn shuffle off: restore the identity permutation and point `index`
    /// at the real position of the playing track, so the playhead stays put.
    pub fn shuffle_off(&mut self)
        requires
            old(self).wf(),
        ensures
            final(self).wf(),
            final(self).tracks@ == old(self).tracks@,
            final(self).order@ == identity_order(old(self).spec_len()),
            old(self).spec_len() > 0 ==> final(self).index == old(self).spec_real_index(),
            old(self).spec_len() > 0 ==> final(self).spec_real_index() == old(
                self,
            ).spec_real_index(),
            old(self).spec_len() == 0 ==> final(self).index == 0,
    {
        let len = self.tracks.len();
        if len == 0 {
            self.order = make_identity_order(len);
            self.index = 0;
            return ;
        }
        let k = self.order[self.index];
        assert((k as nat) < self.spec_len());
        self.order = make_identity_order(len);
        self.index = k;
    }

    /// Step to the next queue position. Wraps to the front only while
    /// `repeat` is on; with repeat off the index stays at the last entry.
    /// Returns whether the position changed.
    pub fn next(&mut self, repeat: bool) -> (moved: bool)
        requires
            old(self).wf(),
        ensures
            final(self).wf(),
            final(self).tracks@ == old(self).tracks@,
            final(self).order@ == old(self).order@,
            old(self).spec_len() == 0 ==> !moved && final(self).index == old(self).index,
            old(self).spec_len() > 0 ==> {
                if ((old(self).index + 1) as nat) < old(self).spec_len() {
                    moved && final(self).index == old(self).index + 1
                } else if repeat {
                    moved && final(self).index == 0
                } else {
                    !moved && final(self).index == old(self).index
                }
            },
    {
        let len = self.tracks.len();
        if len == 0 {
            return false;
        }
        if self.index + 1 < len {
            self.index = self.index + 1;
            true
        } else if repeat {
            self.index = 0;
            true
        } else {
            false
        }
    }

    /// Step to the previous queue position. Wraps to the back only while
    /// `repeat` is on; with repeat off the index stays at the first entry.
    /// Returns whether the position changed.
    pub fn prev(&mut self, repeat: bool) -> (moved: bool)
        requires
            old(self).wf(),
        ensures
            final(self).wf(),
            final(self).tracks@ == old(self).tracks@,
            final(self).order@ == old(self).order@,
            old(self).spec_len() == 0 ==> !moved && final(self).index == old(self).index,
            old(self).spec_len() > 0 ==> {
                if old(self).index > 0 {
                    moved && final(self).index == old(self).index - 1
                } else if repeat {
                    moved && final(self).index == old(self).spec_len() - 1
                } else {
                    !moved && final(self).index == old(self).index
                }
            },
    {
        let len = self.tracks.len();
        if len == 0 {
            return false;
        }
        if self.index > 0 {
            self.index = self.index - 1;
            true
        } else if repeat {
            self.index = len - 1;
            true
        } else {
            false
        }
    }
}

/// With repeat on, stepping forward from position `i` lands on
/// `(i + 1) % len`: the queue cycles, reaching the front again exactly once
/// every `len` steps.
pub proof fn lemma_next_cycles_with_repeat(q1: QueueState, q2: QueueState)
    requires
        q1.wf(),
        q1.spec_len() > 0,
        q1.spec_len() <= usize::MAX,
        q2.tracks@ == q1.tracks@,
        q2.order@ == q1.order@,
        q2.index == if ((q1.index + 1) as nat) < q1.spec_len() {
            (q1.index + 1) as usize
        } else {
            0usize
        },
    ensures
        q2.index as nat == ((q1.index + 1) as nat) % q1.spec_len(),
{
    if ((q1.index + 1) as nat) < q1.spec_len() {
        vstd::arithmetic::div_mod::lemma_small_mod((q1.index + 1) as nat, q1.spec_len());
    } else {
        assert((q1.index + 1) as nat == q1.spec_len());
        vstd::arithmetic::div_mod::lemma_mod_self_0(q1.spec_len() as int);
    }
}

} // verus!
