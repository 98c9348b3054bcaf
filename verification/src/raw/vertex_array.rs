//! Vertex-array objects: creation, binding and attribute configuration.
use vstd::prelude::*;

use crate::context::AttributeRecord;
use crate::context::Context;
use crate::context::VertexArrayObject;

verus! {

/// How many components one vertex attribute has.
#[derive(Clone, Copy, Debug)]
pub enum Component {
    Dot,
    Line,
    Triangle,
    Square,
}

/// The component datatype of one vertex attribute.
#[derive(Clone, Copy, Debug)]
pub enum Data {
    SignedByte,
    UnsignedByte,
    SignedShort,
    UnsignedShort,
    SignedInt,
    UnsignedInt,
    HalfFloat,
    Float,
    Fixed,
    IntA2B10G10R10,
    UnsignedIntA2B10G10R10,
    UnsignedIntB10fG11fR11f,
}

impl Component {
    /// The component count this value maps to.
    pub open spec fn spec_to_gl(self) -> i32 {
        match self {
            Component::Dot => 1,
            Component::Line => 2,
            Component::Triangle => 3,
            Component::Square => 4,
        }
    }

    /// Maps this value to its component count; total and deterministic.
    pub fn to_gl(self) -> (r: i32)
        ensures
            r == self.spec_to_gl(),
    {
        match self {
            Component::Dot => 1,
            Component::Line => 2,
            Component::Triangle => 3,
            Component::Square => 4,
        }
    }
}

impl Data {
    /// The native constant this datatype maps to.
    pub open spec fn spec_to_gl(self) -> u32 {
        match self {
            Data::SignedByte => 0x1400,
            Data::UnsignedByte => 0x1401,
            Data::SignedShort => 0x1402,
            Data::UnsignedShort => 0x1403,
            Data::SignedInt => 0x1404,
            Data::UnsignedInt => 0x1405,
            Data::HalfFloat => 0x140B,
            Data::Float => 0x1406,
            Data::Fixed => 0x140C,
            Data::IntA2B10G10R10 => 0x8D9F,
            Data::UnsignedIntA2B10G10R10 => 0x8368,
            Data::UnsignedIntB10fG11fR11f => 0x8C3B,
        }
    }

    /// Maps this datatype to its native constant; total and deterministic.
    pub fn to_gl(self) -> (r: u32)
        ensures
            r == self.spec_to_gl(),
    {
        match self {
            Data::SignedByte => 0x1400,
            Data::UnsignedByte => 0x1401,
            Data::SignedShort => 0x1402,
            Data::UnsignedShort => 0x1403,
            Data::SignedInt => 0x1404,
            Data::UnsignedInt => 0x1405,
            Data::HalfFloat => 0x140B,
            Data::Float => 0x1406,
            Data::Fixed => 0x140C,
            Data::IntA2B10G10R10 => 0x8D9F,
            Data::UnsignedIntA2B10G10R10 => 0x8368,
            Data::UnsignedIntB10fG11fR11f => 0x8C3B,
        }
    }
}

/// The vertex-array objects of `s` whose handles are not listed in `ids`,
/// in order.
pub open spec fn spec_kept(s: Seq<VertexArrayObject>, ids: Seq<u32>) -> Seq<VertexArrayObject>
    decreases s.len(),
{
    if s.len() == 0 {
        s
    } else if ids.contains(s.last().id) {
        spec_kept(s.drop_last(), ids)
    } else {
        spec_kept(s.drop_last(), ids).push(s.last())
    }
}

/// Every kept object comes from `s`, none is listed in `ids`, and any
/// unlisted object of `s` is kept.
pub proof fn lemma_kept(s: Seq<VertexArrayObject>, ids: Seq<u32>)
    ensures
        spec_kept(s, ids).len() <= s.len(),
        forall|j: int|
            0 <= j < spec_kept(s, ids).len() ==> {
                &&& !ids.contains((#[trigger] spec_kept(s, ids)[j]).id)
                &&& exists|i: int| 0 <= i < s.len() && spec_kept(s, ids)[j] == #[trigger] s[i]
            },
        forall|i: int|
            0 <= i < s.len() && !ids.contains((#[trigger] s[i]).id) ==> exists|j: int|
                0 <= j < spec_kept(s, ids).len() && s[i] == #[trigger] spec_kept(s, ids)[j],
    decreases s.len(),
{
    if s.len() > 0 {
        lemma_kept(s.drop_last(), ids);
        assert forall|i: int| 0 <= i < s.len() - 1 implies s.drop_last()[i] == s[i] by {}
        assert(s.last() == s[s.len() - 1]);
        let kept = spec_kept(s, ids);
        let kd = spec_kept(s.drop_last(), ids);
        if !ids.contains(s.last().id) {
            assert(kept == kd.push(s.last()));
            assert forall|j: int| 0 <= j < kd.len() implies kept[j] == kd[j] by {}
            assert(kept[kept.len() - 1] == s[s.len() - 1]);
        } else {
            assert(kept == kd);
        }
    }
}

/// Allocates a fresh vertex-array handle. Creation always succeeds and
/// never touches the error flag; the new object has no attribute records
/// and no enabled indices.
pub fn create(ctx: &mut Context) -> (id: u32)
    requires
        old(ctx).wf(),
        old(ctx).next_id < u32::MAX,
    ensures
        final(ctx).wf(),
        id == old(ctx).next_id,
        id != 0,
        !old(ctx).has_vertex_array(id),
        final(ctx).has_vertex_array(id),
        final(ctx).vertex_array_idx(id) == old(ctx).vertex_arrays@.len(),
        final(ctx).vertex_arrays@ == old(ctx).vertex_arrays@.push(
            final(ctx).vertex_array_obj(id),
        ),
        final(ctx).vertex_array_obj(id).id == id,
        final(ctx).vertex_array_obj(id).attributes@.len() == 0,
        final(ctx).vertex_array_obj(id).enabled@.len() == 0,
        final(ctx).next_id == old(ctx).next_id + 1,
        final(ctx).same_objects_except_vertex_arrays(*old(ctx)),
        final(ctx).same_slots(*old(ctx)),
        final(ctx).error == old(ctx).error,
        final(ctx).draws == old(ctx).draws,
{
    let id = ctx.next_id;
    proof {
        ctx.lemma_vertex_array_idx(id);
        if ctx.has_vertex_array(id) {
            assert(ctx.vertex_arrays@[ctx.vertex_array_idx(id)].id == id);
        }
    }
    let ghost pre = *ctx;
    let obj = VertexArrayObject { id, attributes: Vec::new(), enabled: Vec::new() };
    ctx.vertex_arrays.push(obj);
    ctx.next_id = ctx.next_id + 1;
    proof {
        Context::lemma_vertex_array_push_keeps(pre, *ctx, ctx.vertex_arrays@.last());
        ctx.lemma_vertex_array_idx_unique(id, pre.vertex_arrays@.len() as int);
    }
    id
}

/// Deletes the listed vertex-array handles in one batch: each listed live
/// object is removed and the binding slot reverts to empty if it held one.
/// Unknown handles and the reserved handle `0` are silently tolerated, an
/// empty batch is a no-op, and the error flag is never touched.
#[verifier::rlimit(100)]
pub fn delete(ctx: &mut Context, ids: &[u32])
    requires
        old(ctx).wf(),
    ensures
        final(ctx).wf(),
        final(ctx).vertex_arrays@ == spec_kept(old(ctx).vertex_arrays@, ids@),
        forall|v: u32|
            final(ctx).has_vertex_array(v) <==> old(ctx).has_vertex_array(v) && !ids@.contains(v),
        final(ctx).bound_vertex_array == (
        if ids@.contains(old(ctx).bound_vertex_array) {
            0u32
        } else {
            old(ctx).bound_vertex_array
        }),
        final(ctx).same_objects_except_vertex_arrays(*old(ctx)),
        final(ctx).same_slots_except_vertex_array(*old(ctx)),
        final(ctx).next_id == old(ctx).next_id,
        final(ctx).error == old(ctx).error,
        final(ctx).draws == old(ctx).draws,
{
    let ghost pre = *ctx;
    let n = ctx.vertex_arrays.len();
    let mut i: usize = 0;
    let ghost p: int = 0;
    proof {
        assert(pre.vertex_arrays@.take(0) =~= Seq::<VertexArrayObject>::empty());
        assert(pre.vertex_arrays@.skip(0) =~= pre.vertex_arrays@);
    }
    while i < ctx.vertex_arrays.len()
        invariant
            0 <= p <= pre.vertex_arrays@.len(),
            pre == *old(ctx),
            i == spec_kept(pre.vertex_arrays@.take(p), ids@).len(),
            ctx.vertex_arrays@ == spec_kept(pre.vertex_arrays@.take(p), ids@)
                + pre.vertex_arrays@.skip(p),
            ctx.same_objects_except_vertex_arrays(pre),
            ctx.same_slots(pre),
            ctx.next_id == pre.next_id,
            ctx.error == pre.error,
            ctx.draws == pre.draws,
        decreases pre.vertex_arrays@.len() - p,
    {
        proof {
            assert(ctx.vertex_arrays@.len() == i + pre.vertex_arrays@.len() - p);
            assert(p < pre.vertex_arrays@.len());
            assert(ctx.vertex_arrays@[i as int] == pre.vertex_arrays@.skip(p)[0]);
            assert(pre.vertex_arrays@.skip(p)[0] == pre.vertex_arrays@[p]);
            assert(pre.vertex_arrays@.take(p + 1).drop_last() =~= pre.vertex_arrays@.take(p));
            assert(pre.vertex_arrays@.take(p + 1).last() == pre.vertex_arrays@[p]);
        }
        let cur = ctx.vertex_arrays[i].id;
        if crate::raw::buffer::contains_id(ids, cur) {
            ctx.vertex_arrays.remove(i);
            proof {
                assert(ctx.vertex_arrays@ =~= spec_kept(pre.vertex_arrays@.take(p + 1), ids@)
                    + pre.vertex_arrays@.skip(p + 1));
            }
        } else {
            i = i + 1;
            proof {
                assert(ctx.vertex_arrays@ =~= spec_kept(pre.vertex_arrays@.take(p + 1), ids@)
                    + pre.vertex_arrays@.skip(p + 1));
            }
        }
        proof {
            p = p + 1;
        }
    }
    proof {
        assert(p == pre.vertex_arrays@.len()) by {
            assert(ctx.vertex_arrays@.len() == i + pre.vertex_arrays@.len() - p);
        }
        assert(pre.vertex_arrays@.take(p) =~= pre.vertex_arrays@);
        assert(pre.vertex_arrays@.skip(p) =~= Seq::<VertexArrayObject>::empty());
        assert(ctx.vertex_arrays@ =~= spec_kept(pre.vertex_arrays@, ids@));
    }
    if crate::raw::buffer::contains_id(ids, ctx.bound_vertex_array) {
        ctx.bound_vertex_array = 0;
    }
    proof {
        lemma_delete_restores(pre, *ctx, ids@);
    }
}

/// After a batch delete of vertex arrays, well-formedness holds again and
/// exactly the unlisted old handles are live.
#[verifier::rlimit(100)]
proof fn lemma_delete_restores(pre: Context, post: Context, ids: Seq<u32>)
    requires
        pre.wf(),
        post.vertex_arrays@ == spec_kept(pre.vertex_arrays@, ids),
        post.bound_vertex_array == (
        if ids.contains(pre.bound_vertex_array) {
            0u32
        } else {
            pre.bound_vertex_array
        }),
        post.same_objects_except_vertex_arrays(pre),
        post.same_slots_except_vertex_array(pre),
        post.next_id == pre.next_id,
        post.error == pre.error,
        post.draws == pre.draws,
    ensures
        post.wf(),
        forall|v: u32| post.has_vertex_array(v) <==> pre.has_vertex_array(v) && !ids.contains(v),
{
    lemma_kept(pre.vertex_arrays@, ids);
    assert forall|v: u32|
        post.has_vertex_array(v) <==> (pre.has_vertex_array(v) && !ids.contains(v)) by {
        post.lemma_vertex_array_idx(v);
        pre.lemma_vertex_array_idx(v);
        if post.has_vertex_array(v) {
            let j = post.vertex_array_idx(v);
            assert(!ids.contains(post.vertex_arrays@[j].id));
            let i2 = choose|i2: int|
                0 <= i2 < pre.vertex_arrays@.len() && post.vertex_arrays@[j]
                    == pre.vertex_arrays@[i2];
            assert(pre.vertex_arrays@[i2].id == v);
            if !pre.has_vertex_array(v) {
                assert(pre.vertex_arrays@[i2].id != v);
            }
        }
        if pre.has_vertex_array(v) && !ids.contains(v) {
            let i2 = pre.vertex_array_idx(v);
            assert(!ids.contains(pre.vertex_arrays@[i2].id));
            let j = choose|j: int|
                0 <= j < post.vertex_arrays@.len() && pre.vertex_arrays@[i2]
                    == post.vertex_arrays@[j];
            assert(post.vertex_arrays@[j].id == v);
            if !post.has_vertex_array(v) {
                assert(post.vertex_arrays@[j].id != v);
            }
        }
    }
    assert forall|j: int| 0 <= j < post.vertex_arrays@.len() implies {
        &&& (#[trigger] post.vertex_arrays@[j]).id != 0
        &&& post.vertex_arrays@[j].id < post.next_id
    } by {
        let i2 = choose|i2: int|
            0 <= i2 < pre.vertex_arrays@.len() && post.vertex_arrays@[j]
                == pre.vertex_arrays@[i2];
        assert(pre.vertex_arrays@[i2].id != 0);
        assert(pre.vertex_arrays@[i2].id < pre.next_id);
    }
    assert forall|j1: int, j2: int|
        0 <= j1 < j2 < post.vertex_arrays@.len() implies (#[trigger] post.vertex_arrays@[
    j1]).id != (#[trigger] post.vertex_arrays@[j2]).id by {
        let w1 = post.vertex_arrays@[j1];
        let w2 = post.vertex_arrays@[j2];
        if w1.id == w2.id {
            let i1 = choose|i1: int|
                0 <= i1 < pre.vertex_arrays@.len() && w1 == pre.vertex_arrays@[i1];
            let i2 = choose|i2: int|
                0 <= i2 < pre.vertex_arrays@.len() && w2 == pre.vertex_arrays@[i2];
            if i1 != i2 {
                assert(pre.vertex_arrays@[i1].id != pre.vertex_arrays@[i2].id);
            } else {
                lemma_kept_distinct_positions(pre.vertex_arrays@, ids, j1, j2);
            }
        }
    }
}

/// One old object occupies at most one position of the kept table.
proof fn lemma_kept_distinct_positions(s: Seq<VertexArrayObject>, ids: Seq<u32>, j1: int, j2: int)
    requires
        forall|i1: int, i2: int|
            0 <= i1 < i2 < s.len() ==> (#[trigger] s[i1]).id != (#[trigger] s[i2]).id,
        0 <= j1 < j2 < spec_kept(s, ids).len(),
    ensures
        spec_kept(s, ids)[j1] != spec_kept(s, ids)[j2],
    decreases s.len(),
{
    if s.len() > 0 {
        assert forall|i: int| 0 <= i < s.len() - 1 implies s.drop_last()[i] == s[i] by {}
        let kept = spec_kept(s, ids);
        let kd = spec_kept(s.drop_last(), ids);
        if !ids.contains(s.last().id) && j2 == kept.len() - 1 {
            lemma_kept(s.drop_last(), ids);
            let i1 = choose|i1: int|
                0 <= i1 < s.drop_last().len() && kd[j1] == #[trigger] s.drop_last()[i1];
            assert(s[i1].id != s[s.len() - 1].id);
        } else {
            lemma_kept_distinct_positions(s.drop_last(), ids, j1, j2);
        }
    }
}

/// Binds a vertex array into the context's single vertex-array slot.
/// Binding the reserved handle `0` empties the slot; binding a live handle
/// fills it; binding a handle the context never created records an
/// invalid-operation error and leaves the slot as it was.
pub fn bind(ctx: &mut Context, id: u32)
    requires
        old(ctx).wf(),
    ensures
        final(ctx).wf(),
        id == 0 || old(ctx).has_vertex_array(id) ==> {
            &&& final(ctx).bound_vertex_array == id
            &&& final(ctx).error == old(ctx).error
        },
        id != 0 && !old(ctx).has_vertex_array(id) ==> {
            &&& final(ctx).bound_vertex_array == old(ctx).bound_vertex_array
            &&& final(ctx).error == crate::raw::error::INVALID_OPERATION
        },
        final(ctx).same_objects(*old(ctx)),
        final(ctx).same_slots_except_vertex_array(*old(ctx)),
        final(ctx).next_id == old(ctx).next_id,
        final(ctx).draws == old(ctx).draws,
{
    if id == 0 || ctx.find_vertex_array(id).is_some() {
        ctx.bound_vertex_array = id;
    } else {
        ctx.error = crate::raw::error::INVALID_OPERATION;
    }
}

/// Captures one attribute configuration into the bound vertex array,
/// together with the buffer bound to the array target at this moment:
/// changing either binding afterwards does not touch the captured record.
/// The records accumulate in call order; the latest record for an index
/// governs the attribute. With no vertex array bound the call records an
/// invalid-operation error.
pub fn configure_attribute(
    ctx: &mut Context,
    index: u32,
    component: Component,
    data: Data,
    normalise: bool,
    stride: u32,
    offset: u32,
)
    requires
        old(ctx).wf(),
        stride <= 0x7FFF_FFFF,
    ensures
        final(ctx).wf(),
        old(ctx).bound_vertex_array == 0 ==> {
            &&& final(ctx).same_objects(*old(ctx))
            &&& final(ctx).error == crate::raw::error::INVALID_OPERATION
        },
        old(ctx).bound_vertex_array != 0 ==> {
            &&& final(ctx).vertex_arrays@ == old(ctx).vertex_arrays@.update(
                old(ctx).vertex_array_idx(old(ctx).bound_vertex_array),
                final(ctx).vertex_array_obj(old(ctx).bound_vertex_array),
            )
            &&& final(ctx).vertex_array_obj(old(ctx).bound_vertex_array).attributes@ == old(
                ctx,
            ).vertex_array_obj(old(ctx).bound_vertex_array).attributes@.push(
                AttributeRecord {
                    index,
                    component,
                    data,
                    normalise,
                    stride,
                    offset,
                    buffer: old(ctx).bound_buffers@[crate::raw::buffer::Target::Array.spec_slot()],
                },
            )
            &&& final(ctx).vertex_array_obj(old(ctx).bound_vertex_array).enabled == old(
                ctx,
            ).vertex_array_obj(old(ctx).bound_vertex_array).enabled
            &&& final(ctx).vertex_array_obj(old(ctx).bound_vertex_array).id == old(
                ctx,
            ).bound_vertex_array
            &&& final(ctx).error == old(ctx).error
        },
        final(ctx).same_objects_except_vertex_arrays(*old(ctx)),
        final(ctx).same_slots(*old(ctx)),
        final(ctx).next_id == old(ctx).next_id,
        final(ctx).draws == old(ctx).draws,
{
    let ghost pre = *ctx;
    let bound = ctx.bound_vertex_array;
    if bound == 0 {
        ctx.error = crate::raw::error::INVALID_OPERATION;
        return;
    }
    proof {
        pre.lemma_vertex_array_idx(bound);
    }
    let idx = match ctx.find_vertex_array(bound) {
        Some(i) => i,
        None => 0,
    };
    let buffer = ctx.bound_buffers[crate::raw::buffer::Target::Array.slot()];
    let entry = &mut ctx.vertex_arrays[idx];
    entry.attributes.push(
        AttributeRecord { index, component, data, normalise, stride, offset, buffer },
    );
    proof {
        Context::lemma_vertex_array_update_keeps(
            pre,
            *ctx,
            idx as int,
            ctx.vertex_arrays@[idx as int],
        );
        ctx.lemma_vertex_array_idx_unique(bound, idx as int);
    }
}

/// Enables one attribute index of the bound vertex array; enabling an index
/// twice leaves one entry. With no vertex array bound the call records an
/// invalid-operation error.
pub fn enable(ctx: &mut Context, index: u32)
    requires
        old(ctx).wf(),
    ensures
        final(ctx).wf(),
        old(ctx).bound_vertex_array == 0 ==> {
            &&& final(ctx).same_objects(*old(ctx))
            &&& final(ctx).error == crate::raw::error::INVALID_OPERATION
        },
        old(ctx).bound_vertex_array != 0 ==> {
            &&& final(ctx).vertex_arrays@ == old(ctx).vertex_arrays@.update(
                old(ctx).vertex_array_idx(old(ctx).bound_vertex_array),
                final(ctx).vertex_array_obj(old(ctx).bound_vertex_array),
            )
            &&& final(ctx).vertex_array_obj(old(ctx).bound_vertex_array).enabled@.contains(index)
            &&& (old(ctx).vertex_array_obj(old(ctx).bound_vertex_array).enabled@.contains(index)
                ==> final(ctx).vertex_array_obj(old(ctx).bound_vertex_array).enabled == old(
                ctx,
            ).vertex_array_obj(old(ctx).bound_vertex_array).enabled)
            &&& (!old(ctx).vertex_array_obj(old(ctx).bound_vertex_array).enabled@.contains(index)
                ==> final(ctx).vertex_array_obj(old(ctx).bound_vertex_array).enabled@ == old(
                ctx,
            ).vertex_array_obj(old(ctx).bound_vertex_array).enabled@.push(index))
            &&& final(ctx).vertex_array_obj(old(ctx).bound_vertex_array).attributes == old(
                ctx,
            ).vertex_array_obj(old(ctx).bound_vertex_array).attributes
            &&& final(ctx).error == old(ctx).error
        },
        final(ctx).same_objects_except_vertex_arrays(*old(ctx)),
        final(ctx).same_slots(*old(ctx)),
        final(ctx).next_id == old(ctx).next_id,
        final(ctx).draws == old(ctx).draws,
{
    let ghost pre = *ctx;
    let bound = ctx.bound_vertex_array;
    if bound == 0 {
        ctx.error = crate::raw::error::INVALID_OPERATION;
        return;
    }
    proof {
        pre.lemma_vertex_array_idx(bound);
    }
    let idx = match ctx.find_vertex_array(bound) {
        Some(i) => i,
        None => 0,
    };
    // test idempotence first
    let m = ctx.vertex_arrays[idx].enabled.len();
    let mut k: usize = 0;
    let mut present = false;
    while k < m
        invariant
            k <= m,
            *ctx == pre,
            idx < ctx.vertex_arrays@.len(),
            m == ctx.vertex_arrays@[idx as int].enabled@.len(),
            present == (exists|j: int|
                0 <= j < k && ctx.vertex_arrays@[idx as int].enabled@[j] == index),
        decreases m - k,
    {
        if ctx.vertex_arrays[idx].enabled[k] == index {
            present = true;
        }
        k = k + 1;
    }
    proof {
        if present {
            let j = choose|j: int|
                0 <= j < m && ctx.vertex_arrays@[idx as int].enabled@[j] == index;
            assert(ctx.vertex_arrays@[idx as int].enabled@.contains(index));
        }
        if ctx.vertex_arrays@[idx as int].enabled@.contains(index) {
            let j = choose|j: int|
                0 <= j < ctx.vertex_arrays@[idx as int].enabled@.len() && ctx.vertex_arrays@[
                    idx as int
                ].enabled@[j] == index;
            assert(present);
        }
    }
    if !present {
        let entry = &mut ctx.vertex_arrays[idx];
        entry.enabled.push(index);
        proof {
            assert(ctx.vertex_arrays@[idx as int].enabled@.last() == index);
            assert(ctx.vertex_arrays@[idx as int].enabled@.contains(index));
        }
    }
    proof {
        if *ctx != pre {
            Context::lemma_vertex_array_update_keeps(
                pre,
                *ctx,
                idx as int,
                ctx.vertex_arrays@[idx as int],
            );
        }
        assert(ctx.vertex_arrays@ == pre.vertex_arrays@.update(
            idx as int,
            ctx.vertex_arrays@[idx as int],
        )) by {
            assert(ctx.vertex_arrays@ =~= pre.vertex_arrays@.update(
                idx as int,
                ctx.vertex_arrays@[idx as int],
            ));
        }
        Context::lemma_vertex_array_update_keeps(
            pre,
            *ctx,
            idx as int,
            ctx.vertex_arrays@[idx as int],
        );
        ctx.lemma_vertex_array_idx_unique(bound, idx as int);
    }
}

} // verus!
