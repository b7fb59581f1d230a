//! The hitbox table: an immutable lookup from object type id to the local
//! bounding box that objects of that type carry. The decoder consults it for
//! every record; it is built once at startup (from a side resource the host
//! reads) and threaded through the decoder explicitly.

use vstd::prelude::*;
use crate::geometry::AxisBoundingBox;
use crate::object::{local_box_wf, LOCAL_BOX_BOUND};

verus! {

/// Maps an object type id to its local bounding box. Later entries for the
/// same id override earlier ones, as repeated insertion into a keyed table
/// would.
pub struct HitboxTable {
    pub entries: Vec<(i32, AxisBoundingBox)>,
}

/// The box associated with `id` by `entries`, scanning later entries first.
pub open spec fn spec_lookup(entries: Seq<(i32, AxisBoundingBox)>, id: i32) -> Option<
    AxisBoundingBox,
>
    decreases entries.len(),
{
    if entries.len() == 0 {
        None
    } else if entries.last().0 == id {
        Some(entries.last().1)
    } else {
        spec_lookup(entries.drop_last(), id)
    }
}

impl HitboxTable {
    /// The table as a value: the id-to-box association.
    pub open spec fn view(self) -> Seq<(i32, AxisBoundingBox)> {
        self.entries@
    }

    /// Validity: every stored box is a valid local box.
    pub open spec fn wf(self) -> bool {
        forall|i: int| 0 <= i < self.entries@.len() ==> local_box_wf(#[trigger] self.entries@[i].1)
    }

    /// The box the table gives for `id`.
    pub open spec fn spec_get(self, id: i32) -> Option<AxisBoundingBox> {
        spec_lookup(self.entries@, id)
    }

    /// An empty table.
    pub fn new() -> (r: Self)
        ensures
            r@ == Seq::<(i32, AxisBoundingBox)>::empty(),
            r.wf(),
    {
        Self { entries: Vec::new() }
    }

    /// Records that objects of type `id` carry a local box of extent
    /// `width x height` whose top-left corner is offset by `(x, -y)` from
    /// the object position: the vertical offset's sign is inverted relative
    /// to the source representation of the table.
    pub fn insert(&mut self, id: i32, x: i64, y: i64, width: i64, height: i64)
        requires
            old(self).wf(),
            -LOCAL_BOX_BOUND <= x <= LOCAL_BOX_BOUND,
            -LOCAL_BOX_BOUND <= y <= LOCAL_BOX_BOUND,
            0 <= width <= LOCAL_BOX_BOUND,
            0 <= height <= LOCAL_BOX_BOUND,
        ensures
            final (self)@ == old(self)@.push(
                (id, AxisBoundingBox { x, y: (-y) as i64, width, height }),
            ),
            final (self).wf(),
    {
        self.entries.push((id, AxisBoundingBox { x, y: -y, width, height }));
    }

    /// Looks `id` up, returning the box of the latest entry for it.
    pub fn get(&self, id: i32) -> (r: Option<AxisBoundingBox>)
        ensures
            r == self.spec_get(id),
    {
        let n = self.entries.len();
        proof {
            assert(self.entries@.take(n as int) =~= self.entries@);
        }
        let mut i: usize = n;
        while i > 0
            invariant
                i <= n,
                n == self.entries@.len(),
                spec_lookup(self.entries@.take(i as int), id) == self.spec_get(id),
            decreases i,
        {
            i = i - 1;
            let e = self.entries[i];
            proof {
                assert(self.entries@.take(i + 1).last() == self.entries@[i as int]);
                assert(self.entries@.take(i + 1).drop_last() =~= self.entries@.take(i as int));
            }
            if e.0 == id {
                return Some(e.1);
            }
        }
        proof {
            assert(self.entries@.take(0) =~= Seq::<(i32, AxisBoundingBox)>::empty());
        }
        None
    }
}

/// A box a valid table returns is a valid local box.
pub proof fn lemma_lookup_wf(entries: Seq<(i32, AxisBoundingBox)>, id: i32)
    requires
        forall|i: int| 0 <= i < entries.len() ==> local_box_wf(#[trigger] entries[i].1),
        spec_lookup(entries, id) is Some,
    ensures
        local_box_wf(spec_lookup(entries, id)->Some_0),
    decreases entries.len(),
{
    if entries.len() > 0 && entries.last().0 != id {
        lemma_lookup_wf(entries.drop_last(), id);
    }
}

} // verus!
