//! Buffer objects: creation, deletion, binding slots and data upload.
use vstd::prelude::*;

use crate::context::BufferObject;
use crate::context::Context;

verus! {

/// How many buffer binding slots the context keeps, one per [`Target`].
pub const TARGET_SLOTS: usize = 14;

/// A buffer binding target; each target names one binding slot of the context.
#[derive(Clone, Copy, Debug)]
pub enum Target {
    Array,
    AtomicCounter,
    CopyRead,
    CopyWrite,
    DispatchIndirect,
    DrawIndirect,
    ElementArray,
    PixelPack,
    PixelUnpack,
    Query,
    ShaderStorage,
    Texture,
    TransformFeedback,
    Uniform,
}

/// The usage hint handed to the driver together with uploaded data.
#[derive(Clone, Copy, Debug)]
pub enum Usage {
    StreamDraw,
    StreamRead,
    StreamCopy,
    StaticDraw,
    StaticRead,
    StaticCopy,
    DynamicDraw,
    DynamicRead,
    DynamicCopy,
}

impl Target {
    /// The native constant this target maps to.
    pub open spec fn spec_to_gl(self) -> u32 {
        match self {
            Target::Array => 0x8892,
            Target::AtomicCounter => 0x92C0,
            Target::CopyRead => 0x8F36,
            Target::CopyWrite => 0x8F37,
            Target::DispatchIndirect => 0x90EE,
            Target::DrawIndirect => 0x8F3F,
            Target::ElementArray => 0x8893,
            Target::PixelPack => 0x88EB,
            Target::PixelUnpack => 0x88EC,
            Target::Query => 0x9192,
            Target::ShaderStorage => 0x90D2,
            Target::Texture => 0x8C2A,
            Target::TransformFeedback => 0x8C8E,
            Target::Uniform => 0x8A11,
        }
    }

    /// Maps this target to its native constant; total and deterministic.
    pub fn to_gl(self) -> (r: u32)
        ensures
            r == self.spec_to_gl(),
    {
        match self {
            Target::Array => 0x8892,
            Target::AtomicCounter => 0x92C0,
            Target::CopyRead => 0x8F36,
            Target::CopyWrite => 0x8F37,
            Target::DispatchIndirect => 0x90EE,
            Target::DrawIndirect => 0x8F3F,
            Target::ElementArray => 0x8893,
            Target::PixelPack => 0x88EB,
            Target::PixelUnpack => 0x88EC,
            Target::Query => 0x9192,
            Target::ShaderStorage => 0x90D2,
            Target::Texture => 0x8C2A,
            Target::TransformFeedback => 0x8C8E,
            Target::Uniform => 0x8A11,
        }
    }

    /// The index of the binding slot this target names.
    pub open spec fn spec_slot(self) -> int {
        match self {
            Target::Array => 0,
            Target::AtomicCounter => 1,
            Target::CopyRead => 2,
            Target::CopyWrite => 3,
            Target::DispatchIndirect => 4,
            Target::DrawIndirect => 5,
            Target::ElementArray => 6,
            Target::PixelPack => 7,
            Target::PixelUnpack => 8,
            Target::Query => 9,
            Target::ShaderStorage => 10,
            Target::Texture => 11,
            Target::TransformFeedback => 12,
            Target::Uniform => 13,
        }
    }

    /// Returns the binding-slot index for this target.
    pub fn slot(self) -> (r: usize)
        ensures
            r == self.spec_slot(),
            r < TARGET_SLOTS,
    {
        match self {
            Target::Array => 0,
            Target::AtomicCounter => 1,
            Target::CopyRead => 2,
            Target::CopyWrite => 3,
            Target::DispatchIndirect => 4,
            Target::DrawIndirect => 5,
            Target::ElementArray => 6,
            Target::PixelPack => 7,
            Target::PixelUnpack => 8,
            Target::Query => 9,
            Target::ShaderStorage => 10,
            Target::Texture => 11,
            Target::TransformFeedback => 12,
            Target::Uniform => 13,
        }
    }
}

impl Usage {
    /// The native constant this usage hint maps to.
    pub open spec fn spec_to_gl(self) -> u32 {
        match self {
            Usage::StreamDraw => 0x88E0,
            Usage::StreamRead => 0x88E1,
            Usage::StreamCopy => 0x88E2,
            Usage::StaticDraw => 0x88E4,
            Usage::StaticRead => 0x88E5,
            Usage::StaticCopy => 0x88E6,
            Usage::DynamicDraw => 0x88E8,
            Usage::DynamicRead => 0x88E9,
            Usage::DynamicCopy => 0x88EA,
        }
    }

    /// Maps this usage hint to its native constant; total and deterministic.
    pub fn to_gl(self) -> (r: u32)
        ensures
            r == self.spec_to_gl(),
    {
        match self {
            Usage::StreamDraw => 0x88E0,
            Usage::StreamRead => 0x88E1,
            Usage::StreamCopy => 0x88E2,
            Usage::StaticDraw => 0x88E4,
            Usage::StaticRead => 0x88E5,
            Usage::StaticCopy => 0x88E6,
            Usage::DynamicDraw => 0x88E8,
            Usage::DynamicRead => 0x88E9,
            Usage::DynamicCopy => 0x88EA,
        }
    }
}

/// Two distinct targets never share a native constant.
pub proof fn lemma_target_to_gl_injective(a: Target, b: Target)
    requires
        a.spec_to_gl() == b.spec_to_gl(),
    ensures
        a == b,
{
}

/// Whether `ids` holds `id`.
pub fn contains_id(ids: &[u32], id: u32) -> (r: bool)
    ensures
        r == ids@.contains(id),
{
    let n = ids.len();
    let mut i: usize = 0;
    while i < n
        invariant
            i <= n,
            n == ids@.len(),
            forall|j: int| 0 <= j < i ==> ids@[j] != id,
        decreases n - i,
    {
        if ids[i] == id {
            return true;
        }
        i = i + 1;
    }
    false
}

/// The buffer objects of `s` whose handles are not listed in `ids`, in
/// order.
pub open spec fn spec_kept(s: Seq<BufferObject>, ids: Seq<u32>) -> Seq<BufferObject>
    decreases s.len(),
{
    if s.len() == 0 {
        s
    } else if ids.contains(s.last().id) {
        spec_kept(s.drop_last(), ids)
    } else {
        spec_kept(s.drop_last(), ids).push(s.last())
    }
}

/// Every kept object comes from `s`, none is listed in `ids`, and any
/// unlisted object of `s` is kept.
pub proof fn lemma_kept(s: Seq<BufferObject>, ids: Seq<u32>)
    ensures
        spec_kept(s, ids).len() <= s.len(),
        forall|j: int|
            0 <= j < spec_kept(s, ids).len() ==> {
                &&& !ids.contains((#[trigger] spec_kept(s, ids)[j]).id)
                &&& exists|i: int| 0 <= i < s.len() && spec_kept(s, ids)[j] == #[trigger] s[i]
            },
        forall|i: int|
            0 <= i < s.len() && !ids.contains((#[trigger] s[i]).id) ==> exists|j: int|
                0 <= j < spec_kept(s, ids).len() && s[i] == #[trigger] spec_kept(s, ids)[j],
    decreases s.len(),
{
    if s.len() > 0 {
        lemma_kept(s.drop_last(), ids);
        assert forall|i: int| 0 <= i < s.len() - 1 implies s.drop_last()[i] == s[i] by {}
        assert(s.last() == s[s.len() - 1]);
        let kept = spec_kept(s, ids);
        let kd = spec_kept(s.drop_last(), ids);
        if !ids.contains(s.last().id) {
            assert(kept == kd.push(s.last()));
            assert forall|j: int| 0 <= j < kd.len() implies kept[j] == kd[j] by {}
            assert(kept[kept.len() - 1] == s[s.len() - 1]);
        } else {
            assert(kept == kd);
        }
    }
}

/// Allocates a fresh buffer handle. Creation always succeeds and never
/// touches the error flag.
pub fn create(ctx: &mut Context) -> (id: u32)
    requires
        old(ctx).wf(),
        old(ctx).next_id < u32::MAX,
    ensures
        final(ctx).wf(),
        id == old(ctx).next_id,
        id != 0,
        !old(ctx).has_buffer(id),
        final(ctx).has_buffer(id),
        final(ctx).buffers@ == old(ctx).buffers@.push(
            BufferObject { id, data_len: 0, usage: None },
        ),
        final(ctx).next_id == old(ctx).next_id + 1,
        final(ctx).same_objects_except_buffers(*old(ctx)),
        final(ctx).same_slots(*old(ctx)),
        final(ctx).error == old(ctx).error,
        final(ctx).draws == old(ctx).draws,
{
    let id = ctx.next_id;
    proof {
        ctx.lemma_buffer_idx(id);
        if ctx.has_buffer(id) {
            assert(ctx.buffers@[ctx.buffer_idx(id)].id == id);
        }
    }
    let ghost pre = *ctx;
    ctx.buffers.push(BufferObject { id, data_len: 0, usage: None });
    ctx.next_id = ctx.next_id + 1;
    proof {
        Context::lemma_buffer_push_keeps(pre, *ctx, BufferObject { id, data_len: 0, usage: None });
        ctx.lemma_buffer_idx(id);
        if !ctx.has_buffer(id) {
            assert(ctx.buffers@[pre.buffers@.len() as int].id != id);
        }
    }
    id
}

/// Deletes the listed buffer handles in one batch: each listed live buffer
/// is removed and any binding slot holding it reverts to empty. Unknown
/// handles and the reserved handle `0` are silently tolerated, an empty
/// batch is a no-op, and the error flag is never touched.
#[verifier::rlimit(100)]
pub fn delete(ctx: &mut Context, ids: &[u32])
    requires
        old(ctx).wf(),
    ensures
        final(ctx).wf(),
        final(ctx).buffers@ == spec_kept(old(ctx).buffers@, ids@),
        forall|v: u32| final(ctx).has_buffer(v) <==> old(ctx).has_buffer(v) && !ids@.contains(v),
        final(ctx).bound_buffers@.len() == old(ctx).bound_buffers@.len(),
        forall|i: int|
            0 <= i < old(ctx).bound_buffers@.len() ==> final(ctx).bound_buffers@[i] == (
            if ids@.contains(#[trigger] old(ctx).bound_buffers@[i]) {
                0u32
            } else {
                old(ctx).bound_buffers@[i]
            }),
        final(ctx).same_objects_except_buffers(*old(ctx)),
        final(ctx).same_slots_except_buffers(*old(ctx)),
        final(ctx).next_id == old(ctx).next_id,
        final(ctx).error == old(ctx).error,
        final(ctx).draws == old(ctx).draws,
{
    let ghost pre = *ctx;
    let n = ctx.buffers.len();
    let mut kept: Vec<BufferObject> = Vec::new();
    let mut i: usize = 0;
    while i < n
        invariant
            i <= n,
            n == pre.buffers@.len(),
            *ctx == pre,
            kept@ == spec_kept(pre.buffers@.take(i as int), ids@),
        decreases n - i,
    {
        proof {
            assert(pre.buffers@.take(i + 1 as int).drop_last() =~= pre.buffers@.take(i as int));
            assert(pre.buffers@.take(i + 1 as int).last() == pre.buffers@[i as int]);
        }
        let b = ctx.buffers[i];
        if !contains_id(ids, b.id) {
            kept.push(b);
        }
        i = i + 1;
    }
    proof {
        assert(pre.buffers@.take(n as int) =~= pre.buffers@);
    }
    ctx.buffers = kept;
    // unbind every slot that held a deleted handle
    let slots = ctx.bound_buffers.len();
    let mut k: usize = 0;
    while k < slots
        invariant
            k <= slots,
            slots == pre.bound_buffers@.len(),
            ctx.bound_buffers@.len() == slots,
            ctx.buffers@ == spec_kept(pre.buffers@, ids@),
            ctx.same_objects_except_buffers(pre),
            ctx.same_slots_except_buffers(pre),
            ctx.next_id == pre.next_id,
            ctx.error == pre.error,
            ctx.draws == pre.draws,
            forall|j: int|
                k <= j < slots ==> ctx.bound_buffers@[j] == #[trigger] pre.bound_buffers@[j],
            forall|j: int|
                0 <= j < k ==> ctx.bound_buffers@[j] == (
                if ids@.contains(#[trigger] pre.bound_buffers@[j]) {
                    0u32
                } else {
                    pre.bound_buffers@[j]
                }),
        decreases slots - k,
    {
        let v = ctx.bound_buffers[k];
        if contains_id(ids, v) {
            let slot = &mut ctx.bound_buffers[k];
            *slot = 0;
        }
        k = k + 1;
    }
    proof {
        lemma_delete_post(pre, *ctx, ids@);
    }
}

/// After a batch delete the kept table holds exactly the unlisted live
/// handles, stays well-bounded and distinct, and any still-filled slot
/// holds a surviving handle.
#[verifier::rlimit(100)]
proof fn lemma_delete_post(pre: Context, post: Context, ids: Seq<u32>)
    requires
        pre.wf(),
        post.buffers@ == spec_kept(pre.buffers@, ids),
        post.next_id == pre.next_id,
        post.bound_buffers@.len() == pre.bound_buffers@.len(),
        forall|j: int|
            0 <= j < pre.bound_buffers@.len() ==> post.bound_buffers@[j] == (
            if ids.contains(#[trigger] pre.bound_buffers@[j]) {
                0u32
            } else {
                pre.bound_buffers@[j]
            }),
    ensures
        forall|v: u32| post.has_buffer(v) <==> pre.has_buffer(v) && !ids.contains(v),
        forall|j: int|
            0 <= j < post.buffers@.len() ==> {
                &&& (#[trigger] post.buffers@[j]).id != 0
                &&& post.buffers@[j].id < post.next_id
            },
        forall|j1: int, j2: int|
            0 <= j1 < j2 < post.buffers@.len() ==> (#[trigger] post.buffers@[j1]).id != (
            #[trigger] post.buffers@[j2]).id,
        forall|i: int|
            0 <= i < post.bound_buffers@.len() ==> {
                #[trigger] post.bound_buffers@[i] == 0 || post.has_buffer(post.bound_buffers@[i])
            },
{
    lemma_kept(pre.buffers@, ids);
    // liveness after the batch: exactly the unlisted old handles
    assert forall|v: u32|
        post.has_buffer(v) <==> (pre.has_buffer(v) && !ids.contains(v)) by {
        post.lemma_buffer_idx(v);
        pre.lemma_buffer_idx(v);
        if post.has_buffer(v) {
            let j = post.buffer_idx(v);
            assert(!ids.contains(post.buffers@[j].id));
            let i2 = choose|i2: int|
                0 <= i2 < pre.buffers@.len() && post.buffers@[j] == pre.buffers@[i2];
            assert(pre.buffers@[i2].id == v);
            if !pre.has_buffer(v) {
                assert(pre.buffers@[i2].id != v);
            }
        }
        if pre.has_buffer(v) && !ids.contains(v) {
            let i2 = pre.buffer_idx(v);
            assert(!ids.contains(pre.buffers@[i2].id));
            let j = choose|j: int|
                0 <= j < post.buffers@.len() && pre.buffers@[i2] == post.buffers@[j];
            assert(post.buffers@[j].id == v);
            if !post.has_buffer(v) {
                assert(post.buffers@[j].id != v);
            }
        }
    }
    // distinctness and bounds carry over from the old table
    assert forall|j: int| 0 <= j < post.buffers@.len() implies {
        &&& (#[trigger] post.buffers@[j]).id != 0
        &&& post.buffers@[j].id < post.next_id
    } by {
        let i2 = choose|i2: int|
            0 <= i2 < pre.buffers@.len() && post.buffers@[j] == pre.buffers@[i2];
        assert(pre.buffers@[i2].id != 0);
        assert(pre.buffers@[i2].id < pre.next_id);
    }
    assert forall|j1: int, j2: int|
        0 <= j1 < j2 < post.buffers@.len() implies (#[trigger] post.buffers@[j1]).id != (
    #[trigger] post.buffers@[j2]).id by {
        let w1 = post.buffers@[j1];
        let w2 = post.buffers@[j2];
        if w1.id == w2.id {
            let i1 = choose|i1: int| 0 <= i1 < pre.buffers@.len() && w1 == pre.buffers@[i1];
            let i2 = choose|i2: int| 0 <= i2 < pre.buffers@.len() && w2 == pre.buffers@[i2];
            if i1 != i2 {
                assert(pre.buffers@[i1].id != pre.buffers@[i2].id);
            } else {
                // one old object cannot stand at two kept positions
                lemma_kept_distinct_positions(pre.buffers@, ids, j1, j2);
            }
        }
    }
    // every still-filled slot holds a surviving handle
    assert forall|i: int| 0 <= i < post.bound_buffers@.len() implies (
    #[trigger] post.bound_buffers@[i] == 0 || post.has_buffer(post.bound_buffers@[i])) by {
        let v0 = pre.bound_buffers@[i];
        if !ids.contains(v0) && v0 != 0 {
            assert(pre.has_buffer(v0));
            assert(post.has_buffer(v0));
        }
    }
}

/// A table none of whose handles are listed is kept whole.
proof fn lemma_kept_none_listed(s: Seq<BufferObject>, ids: Seq<u32>)
    requires
        forall|i: int| 0 <= i < s.len() ==> !ids.contains((#[trigger] s[i]).id),
    ensures
        spec_kept(s, ids) == s,
    decreases s.len(),
{
    if s.len() > 0 {
        assert forall|i: int|
            0 <= i < s.drop_last().len() implies !ids.contains(
            (#[trigger] s.drop_last()[i]).id,
        ) by {
            assert(s.drop_last()[i] == s[i]);
        }
        lemma_kept_none_listed(s.drop_last(), ids);
        assert(!ids.contains(s.last().id)) by {
            assert(s.last() == s[s.len() - 1]);
        }
        assert(spec_kept(s, ids) =~= s);
    }
}

/// Appending objects whose handles are all listed leaves exactly the
/// unlisted prefix.
proof fn lemma_kept_listed_suffix(s: Seq<BufferObject>, t: Seq<BufferObject>, ids: Seq<u32>)
    requires
        forall|i: int| 0 <= i < s.len() ==> !ids.contains((#[trigger] s[i]).id),
        forall|i: int| 0 <= i < t.len() ==> ids.contains((#[trigger] t[i]).id),
    ensures
        spec_kept(s + t, ids) == s,
    decreases t.len(),
{
    if t.len() == 0 {
        assert(s + t =~= s);
        lemma_kept_none_listed(s, ids);
    } else {
        assert((s + t).last() == t.last()) by {
            assert((s + t)[s.len() + t.len() - 1] == t[t.len() - 1]);
        }
        assert(ids.contains(t.last().id)) by {
            assert(t.last() == t[t.len() - 1]);
        }
        assert((s + t).drop_last() =~= s + t.drop_last());
        assert forall|i: int|
            0 <= i < t.drop_last().len() implies ids.contains(
            (#[trigger] t.drop_last()[i]).id,
        ) by {
            assert(t.drop_last()[i] == t[i]);
        }
        lemma_kept_listed_suffix(s, t.drop_last(), ids);
        assert(spec_kept(s + t, ids) == spec_kept((s + t).drop_last(), ids));
    }
}

/// Round trip: allocating a batch of fresh buffer handles and then deleting
/// exactly that batch restores the buffer table and the buffer binding
/// slots, and never touches the error probe — clear before, clear after.
/// The spent handles are not reused, so only the allocator mark advances.
pub fn create_delete_round_trip(ctx: &mut Context, n: u32) -> (ids: Vec<u32>)
    requires
        old(ctx).wf(),
        old(ctx).next_id + n <= u32::MAX,
    ensures
        final(ctx).wf(),
        ids@.len() == n,
        final(ctx).buffers@ == old(ctx).buffers@,
        final(ctx).bound_buffers@ == old(ctx).bound_buffers@,
        final(ctx).same_objects_except_buffers(*old(ctx)),
        final(ctx).same_slots_except_buffers(*old(ctx)),
        final(ctx).next_id == old(ctx).next_id + n,
        final(ctx).error == old(ctx).error,
        final(ctx).draws == old(ctx).draws,
{
    let ghost pre = *ctx;
    let mut ids: Vec<u32> = Vec::new();
    let mut i: u32 = 0;
    while i < n
        invariant
            i <= n,
            pre.wf(),
            ctx.wf(),
            pre.next_id + n <= u32::MAX,
            ids@.len() == i,
            ctx.next_id == pre.next_id + i,
            ctx.buffers@.len() == pre.buffers@.len() + i,
            forall|j: int|
                0 <= j < pre.buffers@.len() ==> #[trigger] ctx.buffers@[j] == pre.buffers@[j],
            forall|j: int| 0 <= j < i ==> #[trigger] ids@[j] == pre.next_id + j,
            forall|j: int|
                0 <= j < i ==> #[trigger] ctx.buffers@[pre.buffers@.len() + j] == (BufferObject {
                    id: (pre.next_id + j) as u32,
                    data_len: 0,
                    usage: None,
                }),
            ctx.same_objects_except_buffers(pre),
            ctx.same_slots(pre),
            ctx.error == pre.error,
            ctx.draws == pre.draws,
        decreases n - i,
    {
        let id = create(ctx);
        ids.push(id);
        i = i + 1;
    }
    let ghost mid = *ctx;
    proof {
        // the batch lists every fresh handle and no pre-existing one
        let news = mid.buffers@.subrange(pre.buffers@.len() as int, mid.buffers@.len() as int);
        assert(mid.buffers@ =~= pre.buffers@ + news);
        assert forall|j: int| 0 <= j < news.len() implies ids@.contains((#[trigger] news[j]).id) by {
            assert(news[j] == mid.buffers@[pre.buffers@.len() + j]);
            assert(news[j].id == pre.next_id + j);
            assert(ids@[j] == pre.next_id + j);
        }
        assert forall|j: int|
            0 <= j < pre.buffers@.len() implies !ids@.contains((#[trigger] pre.buffers@[j]).id) by {
            if ids@.contains(pre.buffers@[j].id) {
                let k = choose|k: int| 0 <= k < ids@.len() && ids@[k] == pre.buffers@[j].id;
                assert(ids@[k] == pre.next_id + k);
                assert(pre.buffers@[j].id < pre.next_id);
            }
        }
        lemma_kept_listed_suffix(pre.buffers@, news, ids@);
        assert(spec_kept(mid.buffers@, ids@) == pre.buffers@);
    }
    delete(ctx, ids.as_slice());
    proof {
        // no binding slot held a fresh handle, so every slot survives
        assert forall|k: int|
            0 <= k < pre.bound_buffers@.len() implies ctx.bound_buffers@[k]
            == #[trigger] pre.bound_buffers@[k] by {
            let v = pre.bound_buffers@[k];
            if ids@.contains(v) {
                let j = choose|j: int| 0 <= j < ids@.len() && ids@[j] == v;
                assert(v == pre.next_id + j);
                assert(v != 0);
                assert(pre.has_buffer(v));
                pre.lemma_buffer_idx(v);
                assert(pre.buffer_obj(v).id < pre.next_id);
            }
        }
        assert(ctx.bound_buffers@ =~= pre.bound_buffers@);
    }
    ids
}

/// One old object occupies at most one position of the kept table.
proof fn lemma_kept_distinct_positions(s: Seq<BufferObject>, ids: Seq<u32>, j1: int, j2: int)
    requires
        forall|i1: int, i2: int|
            0 <= i1 < i2 < s.len() ==> (#[trigger] s[i1]).id != (#[trigger] s[i2]).id,
        0 <= j1 < j2 < spec_kept(s, ids).len(),
    ensures
        spec_kept(s, ids)[j1] != spec_kept(s, ids)[j2],
    decreases s.len(),
{
    if s.len() > 0 {
        assert forall|i: int| 0 <= i < s.len() - 1 implies s.drop_last()[i] == s[i] by {}
        let kept = spec_kept(s, ids);
        let kd = spec_kept(s.drop_last(), ids);
        if !ids.contains(s.last().id) && j2 == kept.len() - 1 {
            // the last kept object is the old last, whose handle no earlier
            // kept object shares
            lemma_kept(s.drop_last(), ids);
            let i1 = choose|i1: int|
                0 <= i1 < s.drop_last().len() && kd[j1] == #[trigger] s.drop_last()[i1];
            assert(s[i1].id != s[s.len() - 1].id);
        } else {
            lemma_kept_distinct_positions(s.drop_last(), ids, j1, j2);
        }
    }
}

/// Binds a buffer to the slot the target names. Binding the reserved handle
/// `0` empties the slot; binding a live handle fills it; binding a handle
/// the context never created records an invalid-operation error and leaves
/// every slot as it was.
pub fn bind(ctx: &mut Context, target: Target, id: u32)
    requires
        old(ctx).wf(),
    ensures
        final(ctx).wf(),
        id == 0 || old(ctx).has_buffer(id) ==> {
            &&& final(ctx).bound_buffers@ == old(ctx).bound_buffers@.update(
                target.spec_slot(),
                id,
            )
            &&& final(ctx).error == old(ctx).error
        },
        id != 0 && !old(ctx).has_buffer(id) ==> {
            &&& final(ctx).bound_buffers@ == old(ctx).bound_buffers@
            &&& final(ctx).error == crate::raw::error::INVALID_OPERATION
        },
        final(ctx).same_objects(*old(ctx)),
        final(ctx).same_slots_except_buffers(*old(ctx)),
        final(ctx).next_id == old(ctx).next_id,
        final(ctx).draws == old(ctx).draws,
{
    if id == 0 || ctx.find_buffer(id).is_some() {
        let s = target.slot();
        let slot = &mut ctx.bound_buffers[s];
        *slot = id;
    } else {
        ctx.error = crate::raw::error::INVALID_OPERATION;
        proof {
            assert(ctx.bound_buffers@ =~= old(ctx).bound_buffers@);
        }
    }
}

/// Uploads `data` to the buffer bound to `target`, recording its length and
/// the usage hint. The caller must have bound a buffer to the target first:
/// with the slot empty the upload's effect is undefined, so the contract
/// forbids it.
pub fn set_bound_data(ctx: &mut Context, target: Target, data: &[u8], usage: Usage)
    requires
        old(ctx).wf(),
        old(ctx).bound_buffers@[target.spec_slot()] != 0,
    ensures
        final(ctx).wf(),
        final(ctx).buffers@ == old(ctx).buffers@.update(
            old(ctx).buffer_idx(old(ctx).bound_buffers@[target.spec_slot()]),
            BufferObject {
                id: old(ctx).bound_buffers@[target.spec_slot()],
                data_len: data@.len() as usize,
                usage: Some(usage),
            },
        ),
        final(ctx).same_objects_except_buffers(*old(ctx)),
        final(ctx).same_slots(*old(ctx)),
        final(ctx).next_id == old(ctx).next_id,
        final(ctx).error == old(ctx).error,
        final(ctx).draws == old(ctx).draws,
{
    let ghost pre = *ctx;
    let s = target.slot();
    let id = ctx.bound_buffers[s];
    let idx = match ctx.find_buffer(id) {
        Some(i) => i,
        None => {
            // unreachable: a nonempty slot always holds a live handle
            proof {
                assert(pre.has_buffer(id));
            }
            0
        },
    };
    proof {
        pre.lemma_buffer_idx(id);
    }
    let len = data.len();
    let entry = &mut ctx.buffers[idx];
    *entry = BufferObject { id, data_len: len, usage: Some(usage) };
    proof {
        Context::lemma_buffer_update_keeps(
            pre,
            *ctx,
            idx as int,
            BufferObject { id, data_len: len, usage: Some(usage) },
        );
        pre.lemma_buffer_idx(id);
    }
}

} // verus!
