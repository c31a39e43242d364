use vstd::prelude::*;

verus! {

/// One resource binding that a shader declares: descriptor set, binding
/// within the set, descriptor kind (the API's raw descriptor-type value)
/// and array length.
#[derive(Clone, Copy, Debug, PartialEq, Eq)]
pub struct DescriptorBinding {
    pub set: u32,
    pub binding: u32,
    pub kind: i32,
    pub count: u32,
}

/// What a shader declares about itself: entry point, stage (the API's raw
/// shader-stage bit) and the bindings it uses.
#[derive(Debug)]
pub struct ShaderMetadata {
    pub entry: String,
    pub stage: u32,
    pub descriptors: Vec<DescriptorBinding>,
}

/// One binding of a merged descriptor-set layout: the stages of every
/// shader that declares it, with the kind and count they agree on.
#[derive(Clone, Copy, Debug, PartialEq, Eq)]
pub struct LayoutBinding {
    pub set: u32,
    pub binding: u32,
    pub kind: i32,
    pub count: u32,
    pub stages: u32,
}

/// Number of descriptors of one kind that a pool must hold.
#[derive(Clone, Copy, Debug, PartialEq, Eq)]
pub struct PoolSize {
    pub kind: i32,
    pub descriptor_count: u64,
}

/// The merged layouts: how many sets there are, every binding ordered by
/// (set, binding), and the pool sizes per descriptor kind.
#[derive(Debug)]
pub struct DescriptorLayouts {
    pub set_count: u64,
    pub bindings: Vec<LayoutBinding>,
    pub pool_sizes: Vec<PoolSize>,
}

/// Two shaders declare the binding (`set`, `binding`) with different kinds
/// or counts.
#[derive(Clone, Copy, Debug, PartialEq, Eq)]
pub struct ConflictingDescriptor {
    pub set: u32,
    pub binding: u32,
}

/// Every declaration of `shaders`, each with the stage of its shader, in
/// registration order.
pub open spec fn decls(shaders: Seq<ShaderMetadata>) -> Seq<(u32, DescriptorBinding)>
    decreases shaders.len(),
{
    if shaders.len() == 0 {
        Seq::empty()
    } else {
        decls(shaders.drop_last()) + tagged(shaders.last().stage, shaders.last().descriptors@)
    }
}

pub open spec fn tagged(stage: u32, ds: Seq<DescriptorBinding>) -> Seq<(u32, DescriptorBinding)> {
    Seq::new(ds.len(), |k: int| (stage, ds[k]))
}

pub open spec fn at_slot(d: DescriptorBinding, set: u32, binding: u32) -> bool {
    d.set == set && d.binding == binding
}

/// Position of (`set`, `binding`) in the order of the merged bindings.
pub open spec fn slot_key(set: u32, binding: u32) -> int {
    set as int * 0x1_0000_0000 + binding as int
}

pub open spec fn declared(es: Seq<(u32, DescriptorBinding)>, set: u32, binding: u32) -> bool {
    exists|t: int| 0 <= t < es.len() && #[trigger] at_slot(es[t].1, set, binding)
}

/// Two declarations of (`set`, `binding`) disagree on kind or count.
pub open spec fn conflict_at(es: Seq<(u32, DescriptorBinding)>, set: u32, binding: u32) -> bool {
    exists|t: int, u: int|
        0 <= t < es.len() && 0 <= u < es.len() && #[trigger] at_slot(es[t].1, set, binding)
            && #[trigger] at_slot(es[u].1, set, binding) && (es[t].1.kind != es[u].1.kind
            || es[t].1.count != es[u].1.count)
}

pub open spec fn has_conflict(es: Seq<(u32, DescriptorBinding)>) -> bool {
    exists|set: u32, binding: u32| #[trigger] conflict_at(es, set, binding)
}

/// Union of the stages of every declaration of (`set`, `binding`).
pub open spec fn stages_of(es: Seq<(u32, DescriptorBinding)>, set: u32, binding: u32) -> u32
    decreases es.len(),
{
    if es.len() == 0 {
        0
    } else if at_slot(es.last().1, set, binding) {
        stages_of(es.drop_last(), set, binding) | es.last().0
    } else {
        stages_of(es.drop_last(), set, binding)
    }
}

/// Highest set index declared (zero when nothing is declared).
pub open spec fn top_set(es: Seq<(u32, DescriptorBinding)>) -> int
    decreases es.len(),
{
    if es.len() == 0 {
        0
    } else {
        let rest = top_set(es.drop_last());
        if es.last().1.set as int > rest {
            es.last().1.set as int
        } else {
            rest
        }
    }
}

pub open spec fn sorted_by_slot(bs: Seq<LayoutBinding>) -> bool {
    forall|i: int, j: int|
        0 <= i < j < bs.len() ==> slot_key(bs[i].set, bs[i].binding) < slot_key(bs[j].set, bs[j].binding)
}

/// Pool sizes for `bs`: one entry per kind, in the order kinds first occur,
/// counting every descriptor of that kind.
pub open spec fn pool_sizes_of(bs: Seq<LayoutBinding>) -> Seq<PoolSize>
    decreases bs.len(),
{
    if bs.len() == 0 {
        Seq::empty()
    } else {
        add_to_pool(pool_sizes_of(bs.drop_last()), bs.last().kind, bs.last().count as int)
    }
}

pub open spec fn add_to_pool(pool: Seq<PoolSize>, kind: i32, count: int) -> Seq<PoolSize> {
    if exists|p: int| 0 <= p < pool.len() && pool[p].kind == kind {
        let p = choose|p: int| 0 <= p < pool.len() && pool[p].kind == kind;
        pool.update(p, PoolSize { kind, descriptor_count: (pool[p].descriptor_count + count) as u64 })
    } else {
        pool.push(PoolSize { kind, descriptor_count: count as u64 })
    }
}

/// The merged binding a layout holds for (`set`, `binding`) of `es`.
pub open spec fn merged_binding(es: Seq<(u32, DescriptorBinding)>, b: LayoutBinding) -> bool {
    &&& declared(es, b.set, b.binding)
    &&& b.stages == stages_of(es, b.set, b.binding)
    &&& forall|t: int|
        0 <= t < es.len() && #[trigger] at_slot(es[t].1, b.set, b.binding) ==> es[t].1.kind == b.kind
            && es[t].1.count == b.count
}

/// Some binding of `bs` is at the slot of `d`.
pub open spec fn has_slot(bs: Seq<LayoutBinding>, d: DescriptorBinding) -> bool {
    exists|i: int| 0 <= i < bs.len() && bs[i].set == d.set && bs[i].binding == d.binding
}

/// (`set`, `binding`) is where the first conflict in registration order
/// shows: declaration `n` holds it and disagrees with an earlier one, and
/// the declarations before `n` do not conflict.
pub open spec fn first_conflict_at(es: Seq<(u32, DescriptorBinding)>, set: u32, binding: u32) -> bool {
    exists|n: int|
        0 <= n < es.len() && #[trigger] at_slot(es[n].1, set, binding) && !has_conflict(es.take(n))
            && conflict_at(es.take(n + 1), set, binding)
}

/// What merging the declarations `es` yields when they do not conflict.
pub open spec fn is_merge(es: Seq<(u32, DescriptorBinding)>, r: DescriptorLayouts) -> bool {
    &&& r.set_count == top_set(es) + 1
    &&& sorted_by_slot(r.bindings@)
    &&& forall|i: int| 0 <= i < r.bindings@.len() ==> merged_binding(es, #[trigger] r.bindings@[i])
    &&& forall|t: int| 0 <= t < es.len() ==> has_slot(r.bindings@, #[trigger] es[t].1)
    &&& r.pool_sizes@ == pool_sizes_of(r.bindings@)
}


proof fn lemma_stages_undeclared(es: Seq<(u32, DescriptorBinding)>, set: u32, binding: u32)
    requires
        !declared(es, set, binding),
    ensures
        stages_of(es, set, binding) == 0,
    decreases es.len(),
{
    if es.len() > 0 {
        assert(!at_slot(es[es.len() - 1].1, set, binding));
        assert forall|t: int| 0 <= t < es.drop_last().len() implies !#[trigger] at_slot(
            es.drop_last()[t].1,
            set,
            binding,
        ) by {
            assert(es.drop_last()[t] == es[t]);
        }
        lemma_stages_undeclared(es.drop_last(), set, binding);
    }
}

proof fn lemma_decls_step(s: Seq<ShaderMetadata>, i: int)
    requires
        0 <= i < s.len(),
    ensures
        decls(s.take(i + 1)) == decls(s.take(i)) + tagged(s[i].stage, s[i].descriptors@),
{
    assert(s.take(i + 1).drop_last() == s.take(i));
    assert(s.take(i + 1).last() == s[i]);
}

proof fn lemma_decls_prefix(s: Seq<ShaderMetadata>, n: int)
    requires
        0 <= n <= s.len(),
    ensures
        decls(s.take(n)).len() <= decls(s).len(),
        forall|k: int| 0 <= k < decls(s.take(n)).len() ==> decls(s.take(n))[k] == decls(s)[k],
    decreases s.len(),
{
    if n == s.len() {
        assert(s.take(n) == s);
    } else {
        assert(s.drop_last().take(n) == s.take(n));
        lemma_decls_prefix(s.drop_last(), n);
    }
}

/// What the merge keeps true of the bindings merged so far, `acc`, and the
/// declarations seen so far, `seen`.
pub open spec fn merge_inv(acc: Seq<LayoutBinding>, seen: Seq<(u32, DescriptorBinding)>) -> bool {
    &&& sorted_by_slot(acc)
    &&& forall|x: int| 0 <= x < acc.len() ==> merged_binding(seen, #[trigger] acc[x])
    &&& forall|t: int| 0 <= t < seen.len() ==> has_slot(acc, #[trigger] seen[t].1)
    &&& !has_conflict(seen)
    &&& acc.len() <= seen.len()
}

proof fn lemma_merge_into_existing(
    acc: Seq<LayoutBinding>,
    seen: Seq<(u32, DescriptorBinding)>,
    p: int,
    stage: u32,
    d: DescriptorBinding,
)
    requires
        merge_inv(acc, seen),
        0 <= p < acc.len(),
        at_slot(d, acc[p].set, acc[p].binding),
        acc[p].kind == d.kind && acc[p].count == d.count,
    ensures
        merge_inv(acc.update(p, LayoutBinding { stages: acc[p].stages | stage, ..acc[p] }), seen.push((stage, d))),
{
    let old = acc[p];
    let nacc = acc.update(p, LayoutBinding { stages: old.stages | stage, ..old });
    let nseen = seen.push((stage, d));
    assert(nseen.drop_last() == seen);
    assert forall|x: int| 0 <= x < nacc.len() implies merged_binding(nseen, #[trigger] nacc[x]) by {
        let b = nacc[x];
        assert(merged_binding(seen, acc[x]));
        let w = choose|t: int| 0 <= t < seen.len() && #[trigger] at_slot(seen[t].1, b.set, b.binding);
        assert(nseen[w] == seen[w]);
        assert(at_slot(nseen[w].1, b.set, b.binding));
        if x != p {
            assert(slot_key(b.set, b.binding) != slot_key(d.set, d.binding));
        }
        assert forall|t: int| 0 <= t < nseen.len() && #[trigger] at_slot(nseen[t].1, b.set, b.binding)
            implies nseen[t].1.kind == b.kind && nseen[t].1.count == b.count by {
            if t < seen.len() {
                assert(nseen[t] == seen[t]);
            }
        }
    }
    assert forall|t: int| 0 <= t < nseen.len() implies has_slot(nacc, #[trigger] nseen[t].1) by {
        if t < seen.len() {
            assert(nseen[t] == seen[t]);
            assert(has_slot(acc, seen[t].1));
            let q = choose|q: int| 0 <= q < acc.len() && acc[q].set == seen[t].1.set && acc[q].binding == seen[t].1.binding;
            assert(nacc[q].set == acc[q].set && nacc[q].binding == acc[q].binding);
        } else {
            assert(nacc[p].set == d.set);
        }
    }
    assert forall|st: u32, bi: u32| !#[trigger] conflict_at(nseen, st, bi) by {
        if conflict_at(nseen, st, bi) {
            let (t, u) = choose|t: int, u: int|
                0 <= t < nseen.len() && 0 <= u < nseen.len() && #[trigger] at_slot(nseen[t].1, st, bi)
                    && #[trigger] at_slot(nseen[u].1, st, bi) && (nseen[t].1.kind != nseen[u].1.kind
                    || nseen[t].1.count != nseen[u].1.count);
            assert(merged_binding(seen, old));
            if t < seen.len() && u < seen.len() {
                assert(nseen[t] == seen[t] && nseen[u] == seen[u]);
                assert(conflict_at(seen, st, bi));
            } else if t < seen.len() {
                assert(nseen[t] == seen[t]);
            } else if u < seen.len() {
                assert(nseen[u] == seen[u]);
            }
        }
    }
    assert(sorted_by_slot(nacc));
}

proof fn lemma_merge_as_new(
    acc: Seq<LayoutBinding>,
    seen: Seq<(u32, DescriptorBinding)>,
    p: int,
    stage: u32,
    d: DescriptorBinding,
)
    requires
        merge_inv(acc, seen),
        0 <= p <= acc.len(),
        forall|x: int| 0 <= x < p ==> slot_key(acc[x].set, acc[x].binding) < slot_key(d.set, d.binding),
        p < acc.len() ==> !at_slot(d, acc[p].set, acc[p].binding),
        p < acc.len() ==> slot_key(d.set, d.binding) <= slot_key(acc[p].set, acc[p].binding),
    ensures
        merge_inv(
            acc.insert(p, LayoutBinding { set: d.set, binding: d.binding, kind: d.kind, count: d.count, stages: stage }),
            seen.push((stage, d)),
        ),
{
    let nb = LayoutBinding { set: d.set, binding: d.binding, kind: d.kind, count: d.count, stages: stage };
    let nacc = acc.insert(p, nb);
    let nseen = seen.push((stage, d));
    assert(nseen.drop_last() == seen);
    assert(!declared(seen, d.set, d.binding)) by {
        if declared(seen, d.set, d.binding) {
            let t = choose|t: int| 0 <= t < seen.len() && #[trigger] at_slot(seen[t].1, d.set, d.binding);
            assert(has_slot(acc, seen[t].1));
            let q = choose|q: int| 0 <= q < acc.len() && acc[q].set == seen[t].1.set && acc[q].binding == seen[t].1.binding;
            if q >= p {
                assert(slot_key(acc[q].set, acc[q].binding) == slot_key(d.set, d.binding));
                if q > p {
                    assert(slot_key(acc[p].set, acc[p].binding) < slot_key(acc[q].set, acc[q].binding));
                }
            }
        }
    }
    lemma_stages_undeclared(seen, d.set, d.binding);
    assert(0u32 | stage == stage) by (bit_vector);
    assert forall|x: int| 0 <= x < nacc.len() implies merged_binding(nseen, #[trigger] nacc[x]) by {
        let b = nacc[x];
        if x == p {
            assert(at_slot(nseen[seen.len() as int].1, b.set, b.binding));
            assert forall|t: int| 0 <= t < nseen.len() && #[trigger] at_slot(nseen[t].1, b.set, b.binding)
                implies nseen[t].1.kind == b.kind && nseen[t].1.count == b.count by {
                if t < seen.len() {
                    assert(nseen[t] == seen[t]);
                }
            }
        } else {
            let y = if x < p { x } else { x - 1 };
            assert(b == acc[y]);
            assert(merged_binding(seen, acc[y]));
            let w = choose|t: int| 0 <= t < seen.len() && #[trigger] at_slot(seen[t].1, b.set, b.binding);
            assert(nseen[w] == seen[w]);
            assert(at_slot(nseen[w].1, b.set, b.binding));
            assert(!at_slot(d, b.set, b.binding)) by {
                if at_slot(d, b.set, b.binding) {
                    assert(at_slot(seen[w].1, d.set, d.binding));
                }
            }
            assert forall|t: int| 0 <= t < nseen.len() && #[trigger] at_slot(nseen[t].1, b.set, b.binding)
                implies nseen[t].1.kind == b.kind && nseen[t].1.count == b.count by {
                if t < seen.len() {
                    assert(nseen[t] == seen[t]);
                }
            }
        }
    }
    assert forall|t: int| 0 <= t < nseen.len() implies has_slot(nacc, #[trigger] nseen[t].1) by {
        if t < seen.len() {
            assert(nseen[t] == seen[t]);
            assert(has_slot(acc, seen[t].1));
            let q = choose|q: int| 0 <= q < acc.len() && acc[q].set == seen[t].1.set && acc[q].binding == seen[t].1.binding;
            if q < p {
                assert(nacc[q] == acc[q]);
            } else {
                assert(nacc[q + 1] == acc[q]);
            }
        } else {
            assert(nacc[p] == nb);
        }
    }
    assert forall|st: u32, bi: u32| !#[trigger] conflict_at(nseen, st, bi) by {
        if conflict_at(nseen, st, bi) {
            let (t, u) = choose|t: int, u: int|
                0 <= t < nseen.len() && 0 <= u < nseen.len() && #[trigger] at_slot(nseen[t].1, st, bi)
                    && #[trigger] at_slot(nseen[u].1, st, bi) && (nseen[t].1.kind != nseen[u].1.kind
                    || nseen[t].1.count != nseen[u].1.count);
            if t < seen.len() && u < seen.len() {
                assert(nseen[t] == seen[t] && nseen[u] == seen[u]);
                assert(conflict_at(seen, st, bi));
            } else if t < seen.len() {
                assert(nseen[t] == seen[t]);
                assert(at_slot(seen[t].1, d.set, d.binding));
            } else if u < seen.len() {
                assert(nseen[u] == seen[u]);
                assert(at_slot(seen[u].1, d.set, d.binding));
            }
        }
    }
    assert forall|a: int, b: int| 0 <= a < b < nacc.len() implies slot_key(nacc[a].set, nacc[a].binding)
        < slot_key(nacc[b].set, nacc[b].binding) by {
        if a < p && b < p {
            assert(nacc[a] == acc[a] && nacc[b] == acc[b]);
        } else if a < p && b == p {
            assert(nacc[a] == acc[a]);
        } else if a < p {
            assert(nacc[a] == acc[a] && nacc[b] == acc[b - 1]);
        } else if a == p {
            assert(nacc[b] == acc[b - 1]);
            if b - 1 > p {
                assert(slot_key(acc[p].set, acc[p].binding) < slot_key(acc[b - 1].set, acc[b - 1].binding));
            }
        } else {
            assert(nacc[a] == acc[a - 1] && nacc[b] == acc[b - 1]);
        }
    }
}

/// Adds declaration `d` of a shader of stage `stage` to the merged
/// bindings; `false` when a declaration seen before holds the same slot with
/// another kind or count.
fn merge_declaration(
    acc: &mut Vec<LayoutBinding>,
    seen: Ghost<Seq<(u32, DescriptorBinding)>>,
    stage: u32,
    d: DescriptorBinding,
) -> (ok: bool)
    requires
        merge_inv(old(acc)@, seen@),
    ensures
        ok ==> merge_inv(final(acc)@, seen@.push((stage, d))),
        !ok ==> exists|u: int|
            0 <= u < seen@.len() && #[trigger] at_slot(seen@[u].1, d.set, d.binding) && (seen@[u].1.kind
                != d.kind || seen@[u].1.count != d.count),
{
    let mut p: usize = 0;
    while p < acc.len() && (acc[p].set < d.set || (acc[p].set == d.set && acc[p].binding < d.binding))
        invariant
            0 <= p <= acc@.len(),
            forall|x: int| 0 <= x < p ==> slot_key(acc@[x].set, acc@[x].binding) < slot_key(d.set, d.binding),
        decreases acc@.len() - p,
    {
        p = p + 1;
    }
    if p < acc.len() && acc[p].set == d.set && acc[p].binding == d.binding {
        let old = acc[p];
        if old.kind != d.kind || old.count != d.count {
            proof {
                assert(merged_binding(seen@, old));
                let u = choose|u: int| 0 <= u < seen@.len() && #[trigger] at_slot(seen@[u].1, d.set, d.binding);
                assert(at_slot(seen@[u].1, old.set, old.binding));
            }
            return false;
        }
        proof {
            lemma_merge_into_existing(acc@, seen@, p as int, stage, d);
        }
        acc.set(p, LayoutBinding { stages: old.stages | stage, ..old });
    } else {
        proof {
            lemma_merge_as_new(acc@, seen@, p as int, stage, d);
        }
        acc.insert(p, LayoutBinding { set: d.set, binding: d.binding, kind: d.kind, count: d.count, stages: stage });
    }
    true
}

/// Pool sizes for merged bindings `bindings`.
fn pool_sizes(bindings: &Vec<LayoutBinding>) -> (r: Vec<PoolSize>)
    requires
        bindings@.len() <= u32::MAX,
    ensures
        r@ == pool_sizes_of(bindings@),
{
    let mut pool: Vec<PoolSize> = Vec::new();
    let mut x: usize = 0;
    while x < bindings.len()
        invariant
            0 <= x <= bindings@.len(),
            bindings@.len() <= u32::MAX,
            pool@ == pool_sizes_of(bindings@.take(x as int)),
            forall|a: int, b: int| 0 <= a < pool@.len() && 0 <= b < pool@.len() && a != b ==> pool@[a].kind != pool@[b].kind,
            forall|a: int| 0 <= a < pool@.len() ==> pool@[a].descriptor_count <= x * 0xFFFF_FFFFu64,
        decreases bindings@.len() - x,
    {
        let b = bindings[x];
        proof {
            assert(bindings@.take(x + 1).drop_last() == bindings@.take(x as int));
            assert(bindings@.take(x + 1).last() == b);
            assert(x * 0xFFFF_FFFFu64 <= (x + 1) * 0xFFFF_FFFFu64) by (nonlinear_arith);
        }
        let mut q: usize = 0;
        while q < pool.len() && pool[q].kind != b.kind
            invariant
                0 <= q <= pool@.len(),
                forall|a: int| 0 <= a < q ==> pool@[a].kind != b.kind,
            decreases pool@.len() - q,
        {
            q = q + 1;
        }
        if q < pool.len() {
            let old = pool[q];
            proof {
                assert(old.descriptor_count + b.count <= (x + 1) * 0xFFFF_FFFFu64) by (nonlinear_arith)
                    requires
                        old.descriptor_count <= x * 0xFFFF_FFFFu64,
                        b.count <= 0xFFFF_FFFFu64,
                ;
                assert((x + 1) * 0xFFFF_FFFFu64 <= 0xFFFF_FFFFu64 * 0xFFFF_FFFFu64) by (nonlinear_arith)
                    requires
                        x < 0xFFFF_FFFFu64,
                ;
                let c = choose|c: int| 0 <= c < pool@.len() && pool@[c].kind == b.kind;
                assert(c == q);
            }
            pool.set(q, PoolSize { kind: old.kind, descriptor_count: old.descriptor_count + b.count as u64 });
        } else {
            pool.push(PoolSize { kind: b.kind, descriptor_count: b.count as u64 });
        }
        x = x + 1;
    }
    proof {
        assert(bindings@.take(x as int) == bindings@);
    }
    pool
}

/// Merges the bindings that `shaders` declare into descriptor-set layouts.
/// Every (set, binding) declared by any shader becomes one binding whose
/// stages are those of every shader declaring it; all declarations of one
/// (set, binding) must agree on kind and count.
pub fn create_descriptor_set_layouts(shaders: &Vec<ShaderMetadata>) -> (r: Result<
    DescriptorLayouts,
    ConflictingDescriptor,
>)
    requires
        decls(shaders@).len() <= u32::MAX,
    ensures
        match r {
            Ok(l) => !has_conflict(decls(shaders@)) && is_merge(decls(shaders@), l),
            Err(c) => conflict_at(decls(shaders@), c.set, c.binding) && first_conflict_at(
                decls(shaders@),
                c.set,
                c.binding,
            ),
        },
{
    let mut acc: Vec<LayoutBinding> = Vec::new();
    let mut top: u32 = 0;
    let ghost mut seen: Seq<(u32, DescriptorBinding)> = Seq::empty();
    let mut i: usize = 0;
    proof {
        assert(shaders@.take(0) =~= Seq::<ShaderMetadata>::empty());
    }
    while i < shaders.len()
        invariant
            0 <= i <= shaders@.len(),
            decls(shaders@).len() <= u32::MAX,
            seen == decls(shaders@.take(i as int)),
            merge_inv(acc@, seen),
            top as int == top_set(seen),
        decreases shaders@.len() - i,
    {
        let shader = &shaders[i];
        let stage = shader.stage;
        let mut j: usize = 0;
        proof {
            lemma_decls_prefix(shaders@, i + 1);
            lemma_decls_step(shaders@, i as int);
            assert(tagged(stage, shader.descriptors@.take(0)) =~= Seq::empty());
            assert(seen + tagged(stage, shader.descriptors@.take(0)) =~= seen);
        }
        while j < shader.descriptors.len()
            invariant
                0 <= i < shaders@.len(),
                shader == shaders@[i as int],
                stage == shader.stage,
                0 <= j <= shader.descriptors@.len(),
                decls(shaders@).len() <= u32::MAX,
                decls(shaders@.take(i + 1)) == decls(shaders@.take(i as int)) + tagged(stage, shader.descriptors@),
                decls(shaders@.take(i + 1)).len() <= decls(shaders@).len(),
                forall|k: int|
                    0 <= k < decls(shaders@.take(i + 1)).len() ==> decls(shaders@.take(i + 1))[k]
                        == decls(shaders@)[k],
                seen == decls(shaders@.take(i as int)) + tagged(stage, shader.descriptors@.take(j as int)),
                merge_inv(acc@, seen),
                top as int == top_set(seen),
            decreases shader.descriptors@.len() - j,
        {
            let d = shader.descriptors[j];
            let ghost old_seen = seen;
            proof {
                seen = seen.push((stage, d));
                assert(tagged(stage, shader.descriptors@.take(j + 1)) =~= tagged(
                    stage,
                    shader.descriptors@.take(j as int),
                ).push((stage, d)));
                assert(seen =~= decls(shaders@.take(i as int)) + tagged(stage, shader.descriptors@.take(j + 1)));
                assert(seen.drop_last() == old_seen);
                assert forall|k: int| 0 <= k < seen.len() implies seen[k] == decls(shaders@)[k] by {
                    assert(seen[k] == decls(shaders@.take(i + 1))[k]);
                }
            }
            if !merge_declaration(&mut acc, Ghost(old_seen), stage, d) {
                proof {
                    let u = choose|u: int|
                        0 <= u < old_seen.len() && #[trigger] at_slot(old_seen[u].1, d.set, d.binding) && (old_seen[u].1.kind
                            != d.kind || old_seen[u].1.count != d.count);
                    let n = old_seen.len() as int;
                    assert(old_seen[u] == seen[u] && seen[u] == decls(shaders@)[u]);
                    assert(seen[n] == decls(shaders@)[n]);
                    assert(at_slot(decls(shaders@)[n].1, d.set, d.binding));
                    assert(at_slot(decls(shaders@)[u].1, d.set, d.binding));
                    let all = decls(shaders@);
                    assert(all.take(n) =~= old_seen);
                    assert(all.take(n + 1)[u] == all[u] && all.take(n + 1)[n] == all[n]);
                    assert(conflict_at(all.take(n + 1), d.set, d.binding));
                    assert(first_conflict_at(all, d.set, d.binding));
                }
                return Err(ConflictingDescriptor { set: d.set, binding: d.binding });
            }
            if d.set > top {
                top = d.set;
            }
            j = j + 1;
        }
        proof {
            assert(shader.descriptors@.take(j as int) == shader.descriptors@);
        }
        i = i + 1;
    }
    proof {
        assert(shaders@.take(i as int) == shaders@);
    }
    let pool = pool_sizes(&acc);
    Ok(DescriptorLayouts { set_count: top as u64 + 1, bindings: acc, pool_sizes: pool })
}


/// Some shader of `shaders` declares `x.1` and has stage `x.0`.
pub open spec fn declares(shaders: Seq<ShaderMetadata>, x: (u32, DescriptorBinding)) -> bool {
    exists|i: int, j: int|
        0 <= i < shaders.len() && 0 <= j < shaders[i].descriptors@.len() && x == (
            shaders[i].stage,
            #[trigger] shaders[i].descriptors@[j],
        )
}

proof fn lemma_decls_contains(shaders: Seq<ShaderMetadata>, x: (u32, DescriptorBinding))
    ensures
        decls(shaders).contains(x) <==> declares(shaders, x),
    decreases shaders.len(),
{
    if shaders.len() > 0 {
        let rest = shaders.drop_last();
        let last = shaders.last();
        let tl = tagged(last.stage, last.descriptors@);
        lemma_decls_contains(rest, x);
        let es = decls(shaders);
        assert(es == decls(rest) + tl);
        if es.contains(x) {
            let t = choose|t: int| 0 <= t < es.len() && es[t] == x;
            if t < decls(rest).len() {
                assert(decls(rest)[t] == x);
                assert(decls(rest).contains(x));
                let (i, j) = choose|i: int, j: int|
                    0 <= i < rest.len() && 0 <= j < rest[i].descriptors@.len() && x == (
                        rest[i].stage,
                        #[trigger] rest[i].descriptors@[j],
                    );
                assert(shaders[i] == rest[i]);
            } else {
                let j = t - decls(rest).len();
                assert(tl[j] == x);
                assert(shaders[shaders.len() - 1] == last);
                assert(x == (shaders[shaders.len() - 1].stage, shaders[shaders.len() - 1].descriptors@[j]));
            }
        }
        if declares(shaders, x) {
            let (i, j) = choose|i: int, j: int|
                0 <= i < shaders.len() && 0 <= j < shaders[i].descriptors@.len() && x == (
                    shaders[i].stage,
                    #[trigger] shaders[i].descriptors@[j],
                );
            if i < shaders.len() - 1 {
                assert(rest[i] == shaders[i]);
                assert(declares(rest, x));
                let t = choose|t: int| 0 <= t < decls(rest).len() && decls(rest)[t] == x;
                assert(es[t] == x);
            } else {
                assert(tl[j] == x);
                assert(es[decls(rest).len() + j] == x);
            }
        }
    }
}

/// `es1` and `es2` hold the same declarations, whatever their order or
/// repeats.
pub open spec fn same_entries(es1: Seq<(u32, DescriptorBinding)>, es2: Seq<(u32, DescriptorBinding)>) -> bool {
    forall|x: (u32, DescriptorBinding)| es1.contains(x) <==> es2.contains(x)
}

proof fn lemma_top_set_bounds(es: Seq<(u32, DescriptorBinding)>)
    ensures
        top_set(es) >= 0,
        forall|t: int| 0 <= t < es.len() ==> es[t].1.set <= top_set(es),
        es.len() > 0 ==> exists|t: int| 0 <= t < es.len() && es[t].1.set == top_set(es),
    decreases es.len(),
{
    if es.len() > 0 {
        let rest = es.drop_last();
        lemma_top_set_bounds(rest);
        assert forall|t: int| 0 <= t < es.len() implies es[t].1.set <= top_set(es) by {
            if t < rest.len() {
                assert(es[t] == rest[t]);
            }
        }
        if es.last().1.set as int > top_set(rest) {
            assert(es[es.len() - 1].1.set == top_set(es));
        } else if rest.len() > 0 {
            let t = choose|t: int| 0 <= t < rest.len() && rest[t].1.set == top_set(rest);
            assert(es[t] == rest[t]);
        } else {
            assert(es[0].1.set == top_set(es));
        }
    }
}

proof fn lemma_top_set_same(es1: Seq<(u32, DescriptorBinding)>, es2: Seq<(u32, DescriptorBinding)>)
    requires
        same_entries(es1, es2),
    ensures
        top_set(es1) == top_set(es2),
{
    lemma_top_set_bounds(es1);
    lemma_top_set_bounds(es2);
    if es1.len() > 0 {
        assert(es1.contains(es1[0]));
        let t = choose|t: int| 0 <= t < es1.len() && es1[t].1.set == top_set(es1);
        assert(es1.contains(es1[t]));
        let u = choose|u: int| 0 <= u < es2.len() && es2[u] == es1[t];
        let v = choose|v: int| 0 <= v < es2.len() && es2[v].1.set == top_set(es2);
        assert(es2.contains(es2[v]));
        let w = choose|w: int| 0 <= w < es1.len() && es1[w] == es2[v];
    } else if es2.len() > 0 {
        assert(es2.contains(es2[0]));
    }
}

/// `r` is the least stage mask that includes the stage of every declaration
/// of (`set`, `binding`) in `es`.
pub open spec fn least_cover(es: Seq<(u32, DescriptorBinding)>, set: u32, binding: u32, r: u32) -> bool {
    &&& forall|t: int| 0 <= t < es.len() && #[trigger] at_slot(es[t].1, set, binding) ==> es[t].0 & r == es[t].0
    &&& forall|m: u32|
        (forall|t: int| 0 <= t < es.len() && #[trigger] at_slot(es[t].1, set, binding) ==> es[t].0 & m == es[t].0)
            ==> #[trigger] (r & m) == r
}

proof fn lemma_stages_least_cover(es: Seq<(u32, DescriptorBinding)>, set: u32, binding: u32)
    ensures
        least_cover(es, set, binding, stages_of(es, set, binding)),
    decreases es.len(),
{
    if es.len() == 0 {
        assert forall|m: u32| #[trigger] (0u32 & m) == 0u32 by {
            assert(0u32 & m == 0u32) by (bit_vector);
        }
    } else {
        let rest = es.drop_last();
        lemma_stages_least_cover(rest, set, binding);
        let r = stages_of(rest, set, binding);
        let x = es.last().0;
        if at_slot(es.last().1, set, binding) {
            assert forall|t: int| 0 <= t < es.len() && #[trigger] at_slot(es[t].1, set, binding) implies es[t].0 & (r | x)
                == es[t].0 by {
                let e = es[t].0;
                if t < rest.len() {
                    assert(es[t] == rest[t]);
                    assert(e & r == e);
                    assert(e & r == e ==> e & (r | x) == e) by (bit_vector);
                } else {
                    assert(x & (r | x) == x) by (bit_vector);
                }
            }
            assert forall|m: u32|
                (forall|t: int| 0 <= t < es.len() && #[trigger] at_slot(es[t].1, set, binding) ==> es[t].0 & m == es[t].0)
                    implies #[trigger] ((r | x) & m) == (r | x) by {
                assert forall|t: int| 0 <= t < rest.len() && #[trigger] at_slot(rest[t].1, set, binding) implies rest[t].0 & m
                    == rest[t].0 by {
                    assert(es[t] == rest[t]);
                }
                assert(r & m == r);
                assert(at_slot(es[es.len() - 1].1, set, binding));
                assert(x & m == x);
                assert(r & m == r && x & m == x ==> (r | x) & m == (r | x)) by (bit_vector);
            }
        } else {
            assert forall|t: int| 0 <= t < es.len() && #[trigger] at_slot(es[t].1, set, binding) implies es[t].0 & r
                == es[t].0 by {
                assert(t < rest.len());
                assert(es[t] == rest[t]);
            }
            assert forall|m: u32|
                (forall|t: int| 0 <= t < es.len() && #[trigger] at_slot(es[t].1, set, binding) ==> es[t].0 & m == es[t].0)
                    implies #[trigger] (r & m) == r by {
                assert forall|t: int| 0 <= t < rest.len() && #[trigger] at_slot(rest[t].1, set, binding) implies rest[t].0 & m
                    == rest[t].0 by {
                    assert(es[t] == rest[t]);
                }
            }
        }
    }
}

proof fn lemma_least_cover_unique(
    es1: Seq<(u32, DescriptorBinding)>,
    es2: Seq<(u32, DescriptorBinding)>,
    set: u32,
    binding: u32,
    r1: u32,
    r2: u32,
)
    requires
        same_entries(es1, es2),
        least_cover(es1, set, binding, r1),
        least_cover(es2, set, binding, r2),
    ensures
        r1 == r2,
{
    assert forall|t: int| 0 <= t < es1.len() && #[trigger] at_slot(es1[t].1, set, binding) implies es1[t].0 & r2
        == es1[t].0 by {
        assert(es1.contains(es1[t]));
        let u = choose|u: int| 0 <= u < es2.len() && es2[u] == es1[t];
        assert(at_slot(es2[u].1, set, binding));
    }
    assert(r1 & r2 == r1);
    assert forall|t: int| 0 <= t < es2.len() && #[trigger] at_slot(es2[t].1, set, binding) implies es2[t].0 & r1
        == es2[t].0 by {
        assert(es2.contains(es2[t]));
        let u = choose|u: int| 0 <= u < es1.len() && es1[u] == es2[t];
        assert(at_slot(es1[u].1, set, binding));
    }
    assert(r2 & r1 == r2);
    assert(r1 & r2 == r1 && r2 & r1 == r2 ==> r1 == r2) by (bit_vector);
}

proof fn lemma_sorted_same_elements(s1: Seq<LayoutBinding>, s2: Seq<LayoutBinding>)
    requires
        sorted_by_slot(s1),
        sorted_by_slot(s2),
        forall|x: int| 0 <= x < s1.len() ==> s2.contains(#[trigger] s1[x]),
        forall|y: int| 0 <= y < s2.len() ==> s1.contains(#[trigger] s2[y]),
    ensures
        s1 == s2,
    decreases s1.len() + s2.len(),
{
    if s1.len() == 0 {
        if s2.len() > 0 {
            assert(s1.contains(s2[0]));
        }
        assert(s1 =~= s2);
    } else if s2.len() == 0 {
        assert(s2.contains(s1[0]));
    } else {
        assert(s2.contains(s1[0]));
        let u = choose|u: int| 0 <= u < s2.len() && s2[u] == s1[0];
        assert(s1.contains(s2[0]));
        let v = choose|v: int| 0 <= v < s1.len() && s1[v] == s2[0];
        if u > 0 {
            assert(slot_key(s2[0].set, s2[0].binding) < slot_key(s2[u].set, s2[u].binding));
            if v > 0 {
                assert(slot_key(s1[0].set, s1[0].binding) < slot_key(s1[v].set, s1[v].binding));
            }
        }
        if v > 0 {
            assert(slot_key(s1[0].set, s1[0].binding) < slot_key(s1[v].set, s1[v].binding));
        }
        assert(s1[0] == s2[0]);
        let t1 = s1.subrange(1, s1.len() as int);
        let t2 = s2.subrange(1, s2.len() as int);
        assert forall|x: int| 0 <= x < t1.len() implies t2.contains(#[trigger] t1[x]) by {
            assert(s1[x + 1] == t1[x]);
            assert(s2.contains(s1[x + 1]));
            let y = choose|y: int| 0 <= y < s2.len() && s2[y] == s1[x + 1];
            assert(slot_key(s1[0].set, s1[0].binding) < slot_key(s1[x + 1].set, s1[x + 1].binding));
            assert(y != 0);
            assert(t2[y - 1] == s2[y]);
        }
        assert forall|y: int| 0 <= y < t2.len() implies t1.contains(#[trigger] t2[y]) by {
            assert(s2[y + 1] == t2[y]);
            assert(s1.contains(s2[y + 1]));
            let x = choose|x: int| 0 <= x < s1.len() && s1[x] == s2[y + 1];
            assert(slot_key(s2[0].set, s2[0].binding) < slot_key(s2[y + 1].set, s2[y + 1].binding));
            assert(x != 0);
            assert(t1[x - 1] == s1[x]);
        }
        lemma_sorted_same_elements(t1, t2);
        assert(s1 =~= seq![s1[0]] + t1);
        assert(s2 =~= seq![s2[0]] + t2);
    }
}

proof fn lemma_merges_agree(
    es1: Seq<(u32, DescriptorBinding)>,
    es2: Seq<(u32, DescriptorBinding)>,
    l1: DescriptorLayouts,
    l2: DescriptorLayouts,
)
    requires
        same_entries(es1, es2),
        is_merge(es1, l1),
        is_merge(es2, l2),
    ensures
        forall|x: int| 0 <= x < l1.bindings@.len() ==> l2.bindings@.contains(#[trigger] l1.bindings@[x]),
{
    assert forall|x: int| 0 <= x < l1.bindings@.len() implies l2.bindings@.contains(#[trigger] l1.bindings@[x]) by {
        let b = l1.bindings@[x];
        assert(merged_binding(es1, b));
        let t = choose|t: int| 0 <= t < es1.len() && #[trigger] at_slot(es1[t].1, b.set, b.binding);
        assert(es1.contains(es1[t]));
        let u = choose|u: int| 0 <= u < es2.len() && es2[u] == es1[t];
        assert(has_slot(l2.bindings@, es2[u].1));
        let y = choose|y: int| 0 <= y < l2.bindings@.len() && l2.bindings@[y].set == es2[u].1.set && l2.bindings@[y].binding == es2[u].1.binding;
        let c = l2.bindings@[y];
        assert(merged_binding(es2, c));
        assert(at_slot(es2[u].1, c.set, c.binding));
        lemma_stages_least_cover(es1, b.set, b.binding);
        lemma_stages_least_cover(es2, b.set, b.binding);
        lemma_least_cover_unique(es1, es2, b.set, b.binding, b.stages, c.stages);
        assert(b == c);
    }
}

/// Registering the same shaders in another order, or some of them more than
/// once, does not change the merge: both merges report a conflict or
/// neither does, and two successful merges have the same set count,
/// bindings and pool sizes.
pub proof fn lemma_merge_order_independent(
    a: Seq<ShaderMetadata>,
    b: Seq<ShaderMetadata>,
    la: DescriptorLayouts,
    lb: DescriptorLayouts,
)
    requires
        forall|s: ShaderMetadata| a.contains(s) <==> b.contains(s),
    ensures
        has_conflict(decls(a)) <==> has_conflict(decls(b)),
        is_merge(decls(a), la) && is_merge(decls(b), lb) ==> la.set_count == lb.set_count && la.bindings@
            == lb.bindings@ && la.pool_sizes@ == lb.pool_sizes@,
{
    let es1 = decls(a);
    let es2 = decls(b);
    assert forall|x: (u32, DescriptorBinding)| es1.contains(x) <==> es2.contains(x) by {
        lemma_decls_contains(a, x);
        lemma_decls_contains(b, x);
        if declares(a, x) {
            let (i, j) = choose|i: int, j: int|
                0 <= i < a.len() && 0 <= j < a[i].descriptors@.len() && x == (a[i].stage, #[trigger] a[i].descriptors@[j]);
            assert(a.contains(a[i]));
            let k = choose|k: int| 0 <= k < b.len() && b[k] == a[i];
            assert(x == (b[k].stage, b[k].descriptors@[j]));
        }
        if declares(b, x) {
            let (i, j) = choose|i: int, j: int|
                0 <= i < b.len() && 0 <= j < b[i].descriptors@.len() && x == (b[i].stage, #[trigger] b[i].descriptors@[j]);
            assert(b.contains(b[i]));
            let k = choose|k: int| 0 <= k < a.len() && a[k] == b[i];
            assert(x == (a[k].stage, a[k].descriptors@[j]));
        }
    }
    assert forall|st: u32, bi: u32| #[trigger] conflict_at(es1, st, bi) <==> conflict_at(es2, st, bi) by {
        if conflict_at(es1, st, bi) {
            let (t, u) = choose|t: int, u: int|
                0 <= t < es1.len() && 0 <= u < es1.len() && #[trigger] at_slot(es1[t].1, st, bi)
                    && #[trigger] at_slot(es1[u].1, st, bi) && (es1[t].1.kind != es1[u].1.kind
                    || es1[t].1.count != es1[u].1.count);
            assert(es1.contains(es1[t]) && es1.contains(es1[u]));
            let t2 = choose|t2: int| 0 <= t2 < es2.len() && es2[t2] == es1[t];
            let u2 = choose|u2: int| 0 <= u2 < es2.len() && es2[u2] == es1[u];
            assert(at_slot(es2[t2].1, st, bi) && at_slot(es2[u2].1, st, bi));
        }
        if conflict_at(es2, st, bi) {
            let (t, u) = choose|t: int, u: int|
                0 <= t < es2.len() && 0 <= u < es2.len() && #[trigger] at_slot(es2[t].1, st, bi)
                    && #[trigger] at_slot(es2[u].1, st, bi) && (es2[t].1.kind != es2[u].1.kind
                    || es2[t].1.count != es2[u].1.count);
            assert(es2.contains(es2[t]) && es2.contains(es2[u]));
            let t2 = choose|t2: int| 0 <= t2 < es1.len() && es1[t2] == es2[t];
            let u2 = choose|u2: int| 0 <= u2 < es1.len() && es1[u2] == es2[u];
            assert(at_slot(es1[t2].1, st, bi) && at_slot(es1[u2].1, st, bi));
        }
    }
    if has_conflict(es1) {
        let (st, bi) = choose|st: u32, bi: u32| #[trigger] conflict_at(es1, st, bi);
        assert(conflict_at(es2, st, bi));
    }
    if has_conflict(es2) {
        let (st, bi) = choose|st: u32, bi: u32| #[trigger] conflict_at(es2, st, bi);
        assert(conflict_at(es1, st, bi));
    }
    if is_merge(es1, la) && is_merge(es2, lb) {
        lemma_top_set_same(es1, es2);
        lemma_merges_agree(es1, es2, la, lb);
        lemma_merges_agree(es2, es1, lb, la);
        lemma_sorted_same_elements(la.bindings@, lb.bindings@);
    }
}

/// Two shaders that both declare one (set, binding): with different kinds
/// or counts the merge finds a conflict there; when the merge succeeds, that
/// binding's stages are the union of both shaders' stages.
pub proof fn lemma_merge_two_shaders(
    a: ShaderMetadata,
    b: ShaderMetadata,
    ia: int,
    ib: int,
    l: DescriptorLayouts,
)
    requires
        0 <= ia < a.descriptors@.len(),
        0 <= ib < b.descriptors@.len(),
        at_slot(b.descriptors@[ib], a.descriptors@[ia].set, a.descriptors@[ia].binding),
    ensures
        (a.descriptors@[ia].kind != b.descriptors@[ib].kind || a.descriptors@[ia].count
            != b.descriptors@[ib].count) ==> conflict_at(
            decls(seq![a, b]),
            a.descriptors@[ia].set,
            a.descriptors@[ia].binding,
        ),
        is_merge(decls(seq![a, b]), l) ==> exists|x: int|
            0 <= x < l.bindings@.len() && #[trigger] at_slot(
                a.descriptors@[ia],
                l.bindings@[x].set,
                l.bindings@[x].binding,
            ) && l.bindings@[x].stages == a.stage | b.stage,
{
    let shaders = seq![a, b];
    let es = decls(shaders);
    let da = a.descriptors@[ia];
    let db = b.descriptors@[ib];
    assert(shaders[0] == a && shaders[1] == b);
    lemma_decls_contains(shaders, (a.stage, da));
    lemma_decls_contains(shaders, (b.stage, db));
    assert(es.contains((a.stage, da)));
    assert(es.contains((b.stage, db)));
    let ta = choose|t: int| 0 <= t < es.len() && es[t] == (a.stage, da);
    let tb = choose|t: int| 0 <= t < es.len() && es[t] == (b.stage, db);
    assert(at_slot(es[ta].1, da.set, da.binding) && at_slot(es[tb].1, da.set, da.binding));
    if is_merge(es, l) {
        assert(has_slot(l.bindings@, es[ta].1));
        let x = choose|x: int| 0 <= x < l.bindings@.len() && l.bindings@[x].set == es[ta].1.set && l.bindings@[x].binding == es[ta].1.binding;
        let c = l.bindings@[x];
        assert(merged_binding(es, c));
        lemma_stages_least_cover(es, da.set, da.binding);
        let r = c.stages;
        let u = a.stage | b.stage;
        assert forall|t: int| 0 <= t < es.len() && #[trigger] at_slot(es[t].1, da.set, da.binding) implies es[t].0 & u
            == es[t].0 by {
            assert(es.contains(es[t]));
            lemma_decls_contains(shaders, es[t]);
            let (i, j) = choose|i: int, j: int|
                0 <= i < shaders.len() && 0 <= j < shaders[i].descriptors@.len() && es[t] == (
                    shaders[i].stage,
                    #[trigger] shaders[i].descriptors@[j],
                );
            let sa = a.stage;
            let sb = b.stage;
            assert(sa & (sa | sb) == sa && sb & (sa | sb) == sb) by (bit_vector);
        }
        assert(r & u == r);
        assert(a.stage & r == a.stage);
        assert(b.stage & r == b.stage);
        let sa = a.stage;
        let sb = b.stage;
        assert(r & (sa | sb) == r && sa & r == sa && sb & r == sb ==> r == sa | sb) by (bit_vector);
        assert(at_slot(da, c.set, c.binding));
    }
}


/// Names a shader registered with a `ShaderRegistry`.
#[derive(Clone, Copy, Debug, PartialEq, Eq, Structural)]
pub struct ShaderHandle(pub usize);

/// The shaders registered so far, in registration order. The
/// descriptor-set layouts are derived from all of them.
pub struct ShaderRegistry {
    shaders: Vec<ShaderMetadata>,
}

impl View for ShaderRegistry {
    type V = Seq<ShaderMetadata>;

    closed spec fn view(&self) -> Seq<ShaderMetadata> {
        self.shaders@
    }
}

impl ShaderRegistry {
    pub fn new() -> (r: Self)
        ensures
            r@ == Seq::<ShaderMetadata>::empty(),
    {
        ShaderRegistry { shaders: Vec::new() }
    }

    /// Registers `shader`; the handle names it from now on.
    pub fn register_shader(&mut self, shader: ShaderMetadata) -> (h: ShaderHandle)
        ensures
            final(self)@ == old(self)@.push(shader),
            h.0 == old(self)@.len(),
    {
        self.shaders.push(shader);
        ShaderHandle(self.shaders.len() - 1)
    }

    pub fn len(&self) -> (r: usize)
        ensures
            r == self@.len(),
    {
        self.shaders.len()
    }

    /// The shader that `h` names.
    pub fn shader(&self, h: ShaderHandle) -> (r: &ShaderMetadata)
        requires
            h.0 < self@.len(),
        ensures
            *r == self@[h.0 as int],
    {
        &self.shaders[h.0]
    }

    /// The layouts merged from every registered shader.
    pub fn descriptor_set_layouts(&self) -> (r: Result<DescriptorLayouts, ConflictingDescriptor>)
        requires
            decls(self@).len() <= u32::MAX,
        ensures
            match r {
                Ok(l) => !has_conflict(decls(self@)) && is_merge(decls(self@), l),
                Err(c) => conflict_at(decls(self@), c.set, c.binding) && first_conflict_at(
                    decls(self@),
                    c.set,
                    c.binding,
                ),
            },
    {
        create_descriptor_set_layouts(&self.shaders)
    }
}

} // verus!
