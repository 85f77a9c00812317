//! The order and focus of the surfaces on the compositor's strip.
//!
//! Surfaces live on an infinite horizontal strip, left to right by their
//! order. New surfaces append to the right with the next order; a restored
//! surface is placed by the order its image records; removing a surface
//! closes the gap and renumbers the rest. At most one surface has focus, and
//! focus only ever names a surface on the strip. The strip's geometry (sizes,
//! scrolling, hit testing) is floating-point and stays with the program,
//! carried per surface as `G`.
use vstd::prelude::*;
use crate::wire::{surface_id_eq, SurfaceId};

verus! {

/// One surface on the strip.
pub struct StripItem<G> {
    pub id: SurfaceId,
    /// Strip position, left to right, starting at 0.
    pub order: u32,
    /// Timestamp of the most recently received frame, if any.
    pub last_pts: Option<u64>,
    /// Count of frames received on the content channel.
    pub frames_received: u64,
    /// The surface's geometry and description, held by the program.
    pub geom: G,
}

/// The surfaces of a strip, in strip order, and its focus.
pub struct StripCore<G> {
    items: Vec<StripItem<G>>,
    focus: Option<SurfaceId>,
}

/// The model of an optional surface id.
pub open spec fn focus_view(f: Option<SurfaceId>) -> Option<Seq<u8>> {
    match f {
        Some(id) => Some(id@),
        None => None,
    }
}

/// Whether a surface with id `id` is among `items`.
pub open spec fn holds_id<G>(items: Seq<StripItem<G>>, id: Seq<u8>) -> bool {
    exists|i: int| 0 <= i < items.len() && (#[trigger] items[i]).id@ == id
}

/// The position of the first surface with id `id`, if any.
pub open spec fn index_of<G>(items: Seq<StripItem<G>>, id: Seq<u8>) -> Option<int> {
    if holds_id(items, id) {
        Some(
            choose|i: int|
                0 <= i < items.len() && items[i].id@ == id && forall|j: int|
                    0 <= j < i ==> (#[trigger] items[j]).id@ != id,
        )
    } else {
        None
    }
}

/// Whether `later` is `earlier` with the surface at `k` taken out and the
/// rest renumbered 0, 1, 2, … in their order.
pub open spec fn removed_and_renumbered<G>(
    earlier: Seq<StripItem<G>>,
    k: int,
    later: Seq<StripItem<G>>,
) -> bool {
    &&& later.len() == earlier.len() - 1
    &&& forall|i: int|
        0 <= i < later.len() ==> {
            let e = if i < k {
                earlier[i]
            } else {
                earlier[i + 1]
            };
            &&& (#[trigger] later[i]).order == i as u32
            &&& later[i].id == e.id
            &&& later[i].last_pts == e.last_pts
            &&& later[i].frames_received == e.frames_received
            &&& later[i].geom == e.geom
        }
}

/// Inserts `x` after the last item whose order is at most its own.
pub open spec fn insert_ordered_spec<G>(sorted: Seq<StripItem<G>>, x: StripItem<G>) -> Seq<StripItem<G>>
    decreases sorted.len(),
{
    if sorted.len() == 0 {
        seq![x]
    } else if sorted.last().order <= x.order {
        sorted.push(x)
    } else {
        insert_ordered_spec(sorted.drop_last(), x).push(sorted.last())
    }
}

/// The items sorted by order, equal orders keeping their relative order
/// (a stable sort by key).
pub open spec fn sort_items<G>(s: Seq<StripItem<G>>) -> Seq<StripItem<G>>
    decreases s.len(),
{
    if s.len() == 0 {
        Seq::empty()
    } else {
        insert_ordered_spec(sort_items(s.drop_last()), s.last())
    }
}

impl<G> StripCore<G> {
    /// Focus names a surface on the strip, if any.
    #[verifier::type_invariant]
    closed spec fn focus_on_strip(self) -> bool {
        match self.focus {
            Some(f) => holds_id(self.items@, f@),
            None => true,
        }
    }

    /// The surfaces, in strip order.
    pub closed spec fn items_spec(&self) -> Seq<StripItem<G>> {
        self.items@
    }

    /// The focused surface's id, if any.
    pub closed spec fn focus_spec(&self) -> Option<Seq<u8>> {
        focus_view(self.focus)
    }

    /// An empty strip with nothing focused.
    pub fn new() -> (out: StripCore<G>)
        ensures
            out.items_spec().len() == 0,
            out.focus_spec() is None,
    {
        StripCore { items: Vec::new(), focus: None }
    }

    /// The surfaces, in strip order.
    pub fn items(&self) -> (out: &Vec<StripItem<G>>)
        ensures
            out@ == self.items_spec(),
    {
        &self.items
    }

    /// The focused surface, if any; it is always a surface on the strip.
    pub fn focus(&self) -> (out: Option<SurfaceId>)
        ensures
            focus_view(out) == self.focus_spec(),
            out matches Some(f) ==> holds_id(self.items_spec(), f@),
    {
        proof {
            use_type_invariant(self);
        }
        self.focus
    }

    /// How many surfaces are on the strip.
    pub fn len(&self) -> (n: usize)
        ensures
            n == self.items_spec().len(),
    {
        self.items.len()
    }

    /// Whether the strip has no surfaces.
    pub fn is_empty(&self) -> (r: bool)
        ensures
            r == (self.items_spec().len() == 0),
    {
        self.items.len() == 0
    }

    /// The position of the first surface with id `id`.
    pub fn position(&self, id: &SurfaceId) -> (r: Option<usize>)
        ensures
            match r {
                Some(i) => index_of(self.items_spec(), id@) == Some(i as int),
                None => index_of(self.items_spec(), id@) is None,
            },
    {
        let n = self.items.len();
        let mut i: usize = 0;
        while i < n
            invariant
                n == self.items@.len(),
                i <= n,
                forall|j: int| 0 <= j < i ==> (#[trigger] self.items@[j]).id@ != id@,
            decreases n - i,
        {
            if surface_id_eq(&self.items[i].id, id) {
                proof {
                    let s = self.items@;
                    assert(holds_id(s, id@)) by {
                        assert(s[i as int].id@ == id@);
                    }
                    let k = choose|k: int|
                        0 <= k < s.len() && s[k].id@ == id@ && forall|j: int|
                            0 <= j < k ==> (#[trigger] s[j]).id@ != id@;
                    if k < i {
                        assert(s[k].id@ != id@);
                    } else if k > i {
                        assert(s[i as int].id@ != id@);
                    }
                }
                return Some(i);
            }
            i = i + 1;
        }
        None
    }

    /// The first surface with id `id`, if any.
    pub fn get(&self, id: &SurfaceId) -> (r: Option<&StripItem<G>>)
        ensures
            match r {
                Some(item) => index_of(self.items_spec(), id@) matches Some(i) && *item
                    == self.items_spec()[i],
                None => !holds_id(self.items_spec(), id@),
            },
    {
        match self.position(id) {
            Some(i) => {
                proof {
                    lemma_index_of(self.items@, id@);
                }
                Some(&self.items[i])
            },
            None => None,
        }
    }

    /// Takes the strip out, leaving an empty one.
    fn take(&mut self) -> (out: StripCore<G>)
        ensures
            out.items_spec() == old(self).items_spec(),
            out.focus_spec() == old(self).focus_spec(),
            out.focus matches Some(f) ==> holds_id(out.items@, f@),
    {
        let mut core = StripCore { items: Vec::new(), focus: None };
        std::mem::swap(self, &mut core);
        proof {
            use_type_invariant(&core);
        }
        core
    }

    /// Append a surface at the right end; it takes the next order (the
    /// number of surfaces before it, as a `u32`), which is returned.
    pub fn append(&mut self, id: SurfaceId, geom: G) -> (order: u32)
        ensures
            order == old(self).items_spec().len() as u32,
            final(self).items_spec() == old(self).items_spec().push(
                StripItem { id, order, last_pts: None, frames_received: 0, geom },
            ),
            final(self).focus_spec() == old(self).focus_spec(),
    {
        let core = self.take();
        let StripCore { items, focus } = core;
        let ghost before = items@;
        let order = items.len() as u32;
        let mut items = items;
        items.push(StripItem { id, order, last_pts: None, frames_received: 0, geom });
        proof {
            if let Some(f) = focus {
                let k = choose|k: int| 0 <= k < before.len() && (#[trigger] before[k]).id@ == f@;
                assert(items@[k] == before[k]);
            }
        }
        *self = StripCore { items, focus };
        order
    }

    /// Place a surface by the order it records (as when restoring a
    /// session image): the surfaces are sorted by order, equal orders
    /// keeping their relative order, with the new one after those before it.
    pub fn insert_ordered(&mut self, item: StripItem<G>)
        ensures
            final(self).items_spec() == sort_items(old(self).items_spec().push(item)),
            final(self).focus_spec() == old(self).focus_spec(),
    {
        let core = self.take();
        let StripCore { items, focus } = core;
        let ghost old_items = items@;
        let ghost all = items@.push(item);
        let mut pending = items;
        pending.push(item);
        let mut sorted: Vec<StripItem<G>> = Vec::new();
        let n = pending.len();
        let mut taken: usize = 0;
        proof {
            assert(all.take(0) =~= Seq::<StripItem<G>>::empty());
            assert(pending@ =~= all.skip(0));
        }
        while taken < n
            invariant
                n == all.len(),
                taken <= n,
                pending@ == all.skip(taken as int),
                sorted@ == sort_items(all.take(taken as int)),
            decreases n - taken,
        {
            let x = pending.remove(0);
            proof {
                assert(all.take(taken + 1).drop_last() =~= all.take(taken as int));
                assert(all.take(taken + 1).last() == x);
                assert(pending@ =~= all.skip(taken + 1));
            }
            insert_item_ordered(&mut sorted, x);
            taken = taken + 1;
        }
        proof {
            assert(all.take(n as int) =~= all);
            if let Some(f) = focus {
                let k = choose|k: int| 0 <= k < old_items.len() && (#[trigger] old_items[k]).id@ == f@;
                assert(all[k] == old_items[k]);
                lemma_sort_keeps(all, k);
            }
        }
        *self = StripCore { items: sorted, focus };
    }

    /// Remove the first surface with id `id`. The rest keep their relative
    /// order and are renumbered 0, 1, 2, … so the strip closes the gap;
    /// focus on the removed surface is cleared. Returns the removed surface.
    pub fn remove(&mut self, id: &SurfaceId) -> (r: Option<StripItem<G>>)
        ensures
            match index_of(old(self).items_spec(), id@) {
                None => r is None && final(self).items_spec() == old(self).items_spec()
                    && final(self).focus_spec() == old(self).focus_spec(),
                Some(k) => {
                    &&& r == Some(old(self).items_spec()[k])
                    &&& removed_and_renumbered(old(self).items_spec(), k, final(self).items_spec())
                    &&& final(self).focus_spec() == if old(self).focus_spec() == Some(id@) {
                        None
                    } else {
                        old(self).focus_spec()
                    }
                },
            },
    {
        let k = match self.position(id) {
            Some(k) => k,
            None => {
                return None;
            },
        };
        let core = self.take();
        let StripCore { items, focus } = core;
        let ghost before = items@;
        proof {
            lemma_index_of(before, id@);
        }
        let mut items = items;
        let removed = items.remove(k);
        let n = items.len();
        let mut i: usize = 0;
        while i < n
            invariant
                n == items@.len(),
                n == before.len() - 1,
                0 <= k < before.len(),
                i <= n,
                forall|j: int|
                    0 <= j < n ==> {
                        let e = if j < k {
                            before[j]
                        } else {
                            before[j + 1]
                        };
                        &&& (#[trigger] items@[j]).id == e.id
                        &&& items@[j].last_pts == e.last_pts
                        &&& items@[j].frames_received == e.frames_received
                        &&& items@[j].geom == e.geom
                        &&& j < i ==> items@[j].order == j as u32
                        &&& j >= i ==> items@[j].order == e.order
                    },
            decreases n - i,
        {
            let mut it = items.remove(i);
            it.order = i as u32;
            items.insert(i, it);
            i = i + 1;
        }
        let clear = match &focus {
            Some(f) => surface_id_eq(f, id),
            None => false,
        };
        let new_focus = if clear {
            None
        } else {
            focus
        };
        proof {
            if let Some(f) = new_focus {
                let j = choose|j: int| 0 <= j < before.len() && (#[trigger] before[j]).id@ == f@;
                assert(f@ != id@);
                assert(j != k);
                let j2 = if j < k {
                    j
                } else {
                    j - 1
                };
                assert(items@[j2].id == before[j].id);
                assert(holds_id(items@, f@));
            }
        }
        *self = StripCore { items, focus: new_focus };
        Some(removed)
    }

    /// Record that a frame with timestamp `pts` arrived for the first
    /// surface with id `id`: its last timestamp becomes `pts` and its frame
    /// count goes up by one (wrapping at `u64::MAX`).
    pub fn note_frame(&mut self, id: &SurfaceId, pts: u64)
        ensures
            final(self).focus_spec() == old(self).focus_spec(),
            match index_of(old(self).items_spec(), id@) {
                None => final(self).items_spec() == old(self).items_spec(),
                Some(k) => final(self).items_spec() == old(self).items_spec().update(
                    k,
                    StripItem {
                        last_pts: Some(pts),
                        frames_received: if old(self).items_spec()[k].frames_received == u64::MAX {
                            0
                        } else {
                            (old(self).items_spec()[k].frames_received + 1) as u64
                        },
                        ..old(self).items_spec()[k]
                    },
                ),
            },
    {
        let k = match self.position(id) {
            Some(k) => k,
            None => {
                return ;
            },
        };
        let core = self.take();
        let StripCore { items, focus } = core;
        let ghost before = items@;
        proof {
            lemma_index_of(before, id@);
        }
        let mut items = items;
        let mut it = items.remove(k);
        it.last_pts = Some(pts);
        it.frames_received = if it.frames_received == u64::MAX {
            0
        } else {
            it.frames_received + 1
        };
        items.insert(k, it);
        proof {
            assert(items@ =~= before.update(k as int, it));
            if let Some(f) = focus {
                let j = choose|j: int| 0 <= j < before.len() && (#[trigger] before[j]).id@ == f@;
                assert(items@[j].id == before[j].id);
            }
        }
        *self = StripCore { items, focus };
    }

    /// Focus the surface with id `id` if it is on the strip; says whether it
    /// is.
    pub fn set_focus(&mut self, id: SurfaceId) -> (r: bool)
        ensures
            r == holds_id(old(self).items_spec(), id@),
            final(self).items_spec() == old(self).items_spec(),
            final(self).focus_spec() == if r {
                Some(id@)
            } else {
                old(self).focus_spec()
            },
    {
        match self.position(&id) {
            Some(k) => {
                proof {
                    lemma_index_of(self.items@, id@);
                }
                self.focus = Some(id);
                true
            },
            None => false,
        }
    }

    /// Focus `id` if it names a surface on the strip, else nothing.
    pub fn set_focus_opt(&mut self, id: Option<SurfaceId>)
        ensures
            final(self).items_spec() == old(self).items_spec(),
            final(self).focus_spec() == match id {
                Some(f) => if holds_id(old(self).items_spec(), f@) {
                    Some(f@)
                } else {
                    None
                },
                None => None,
            },
    {
        match id {
            Some(f) => {
                match self.position(&f) {
                    Some(k) => {
                        proof {
                            lemma_index_of(self.items@, f@);
                        }
                        self.focus = Some(f);
                    },
                    None => {
                        self.focus = None;
                    },
                }
            },
            None => {
                self.focus = None;
            },
        }
    }
}

proof fn lemma_first_exists<G>(s: Seq<StripItem<G>>, id: Seq<u8>, i: int)
    requires
        0 <= i < s.len(),
        s[i].id@ == id,
    ensures
        exists|k: int|
            0 <= k < s.len() && s[k].id@ == id && forall|j: int|
                0 <= j < k ==> (#[trigger] s[j]).id@ != id,
    decreases i,
{
    if exists|j: int| 0 <= j < i && s[j].id@ == id {
        let j = choose|j: int| 0 <= j < i && s[j].id@ == id;
        lemma_first_exists(s, id, j);
    } else {
        assert(forall|j: int| 0 <= j < i ==> (#[trigger] s[j]).id@ != id);
    }
}

proof fn lemma_index_of<G>(s: Seq<StripItem<G>>, id: Seq<u8>)
    ensures
        index_of(s, id) matches Some(k) ==> 0 <= k < s.len() && s[k].id@ == id && forall|j: int|
            0 <= j < k ==> (#[trigger] s[j]).id@ != id,
        index_of(s, id) is None <==> !holds_id(s, id),
{
    if holds_id(s, id) {
        let i = choose|i: int| 0 <= i < s.len() && (#[trigger] s[i]).id@ == id;
        lemma_first_exists(s, id, i);
    }
}

/// Inserts `x` after the last item whose order is at most its own.
fn insert_item_ordered<G>(v: &mut Vec<StripItem<G>>, x: StripItem<G>)
    ensures
        final(v)@ == insert_ordered_spec(old(v)@, x),
{
    let mut p: usize = v.len();
    while p > 0 && v[p - 1].order > x.order
        invariant
            p <= v@.len(),
            forall|j: int| p <= j < v@.len() ==> (#[trigger] v@[j]).order > x.order,
        decreases p,
    {
        p = p - 1;
    }
    proof {
        lemma_insert_ordered_at(v@, x, p as int);
    }
    v.insert(p, x);
}

proof fn lemma_insert_ordered_at<G>(s: Seq<StripItem<G>>, x: StripItem<G>, p: int)
    requires
        0 <= p <= s.len(),
        forall|j: int| p <= j < s.len() ==> (#[trigger] s[j]).order > x.order,
        p > 0 ==> s[p - 1].order <= x.order,
    ensures
        insert_ordered_spec(s, x) == s.insert(p, x),
    decreases s.len(),
{
    if s.len() == 0 {
        assert(insert_ordered_spec(s, x) =~= s.insert(p, x));
    } else if s.last().order <= x.order {
        assert(p == s.len());
        assert(insert_ordered_spec(s, x) =~= s.insert(p, x));
    } else {
        let d = s.drop_last();
        assert forall|j: int| p <= j < d.len() implies (#[trigger] d[j]).order > x.order by {
            assert(d[j] == s[j]);
        }
        lemma_insert_ordered_at(d, x, p);
        assert(insert_ordered_spec(s, x) =~= s.insert(p, x));
    }
}

proof fn lemma_insert_keeps<G>(s: Seq<StripItem<G>>, x: StripItem<G>, k: int)
    requires
        0 <= k < s.len(),
    ensures
        holds_id(insert_ordered_spec(s, x), s[k].id@),
        holds_id(insert_ordered_spec(s, x), x.id@),
    decreases s.len(),
{
    let r = insert_ordered_spec(s, x);
    if s.last().order <= x.order {
        assert(r[k] == s[k]);
        assert(r[s.len() as int] == x);
    } else {
        let d = s.drop_last();
        let rd = insert_ordered_spec(d, x);
        if k < d.len() {
            lemma_insert_keeps(d, x, k);
            let j = choose|j: int| 0 <= j < rd.len() && (#[trigger] rd[j]).id@ == s[k].id@;
            assert(r[j] == rd[j]);
        } else {
            assert(r[rd.len() as int] == s.last());
        }
        if d.len() == 0 {
            assert(rd[0] == x);
            assert(r[0] == x);
        } else {
            lemma_insert_keeps(d, x, 0);
            let j = choose|j: int| 0 <= j < rd.len() && (#[trigger] rd[j]).id@ == x.id@;
            assert(r[j] == rd[j]);
        }
    }
}

/// Sorting keeps every surface.
proof fn lemma_sort_keeps<G>(s: Seq<StripItem<G>>, k: int)
    requires
        0 <= k < s.len(),
    ensures
        holds_id(sort_items(s), s[k].id@),
    decreases s.len(),
{
    let d = s.drop_last();
    let sd = sort_items(d);
    if k == s.len() - 1 {
        if sd.len() == 0 {
            assert(sort_items(s) =~= seq![s.last()]);
            assert(sort_items(s)[0] == s.last());
        } else {
            lemma_insert_keeps(sd, s.last(), 0);
        }
    } else {
        lemma_sort_keeps(d, k);
        assert(d[k] == s[k]);
        let j = choose|j: int| 0 <= j < sd.len() && (#[trigger] sd[j]).id@ == d[k].id@;
        lemma_insert_keeps(sd, s.last(), j);
    }
}

} // verus!
