use vstd::prelude::*;

use crate::hashing;
use crate::types::{
    AdfEnumView, AdfFile, AdfFileView, AdfInstance, AdfInstanceView, AdfMemberView, AdfTypeView,
};

verus! {

// Reference pools: the deduplicating string pool that a write builds while
// it emits types and instance records, and the name-hash lookup used to
// resolve instance references. Both are stated over sequences so that the
// writer's and the reader's contracts can share them.

/// First position at or after `j` where `s` occurs in `p`; `p.len()` if none.
pub open spec fn spec_index_of_from(p: Seq<Seq<u8>>, s: Seq<u8>, j: int) -> int
    decreases p.len() - j,
{
    if j < 0 || j >= p.len() {
        p.len() as int
    } else if p[j] == s {
        j
    } else {
        spec_index_of_from(p, s, j + 1)
    }
}

pub open spec fn spec_pool_has(p: Seq<Seq<u8>>, s: Seq<u8>) -> bool {
    spec_index_of_from(p, s, 0) < p.len()
}

/// The on-disk identity of a pooled string: its first position in the pool.
pub open spec fn spec_pool_index(p: Seq<Seq<u8>>, s: Seq<u8>) -> int {
    spec_index_of_from(p, s, 0)
}

/// Deduplicating insertion: a string already present keeps its position.
pub open spec fn spec_pool_add(p: Seq<Seq<u8>>, s: Seq<u8>) -> Seq<Seq<u8>> {
    if spec_pool_has(p, s) {
        p
    } else {
        p.push(s)
    }
}

pub open spec fn spec_pool_add_members(p: Seq<Seq<u8>>, ms: Seq<AdfMemberView>, i: int) -> Seq<
    Seq<u8>,
>
    decreases ms.len() - i,
{
    if i < 0 || i >= ms.len() {
        p
    } else {
        spec_pool_add_members(spec_pool_add(p, ms[i].name), ms, i + 1)
    }
}

pub open spec fn spec_pool_add_enums(
    p: Seq<Seq<u8>>,
    es: Seq<crate::types::AdfEnumView>,
    i: int,
) -> Seq<Seq<u8>>
    decreases es.len() - i,
{
    if i < 0 || i >= es.len() {
        p
    } else {
        spec_pool_add_enums(spec_pool_add(p, es[i].name), es, i + 1)
    }
}

/// The strings one type record interns, in emission order: the type's own
/// name, then each member's name, then each enumeration entry's name.
pub open spec fn spec_pool_add_type(p: Seq<Seq<u8>>, t: AdfTypeView) -> Seq<Seq<u8>> {
    spec_pool_add_enums(spec_pool_add_members(spec_pool_add(p, t.name), t.members, 0), t.enumerations, 0)
}

pub open spec fn spec_pool_add_types(p: Seq<Seq<u8>>, ts: Seq<AdfTypeView>, i: int) -> Seq<Seq<u8>>
    decreases ts.len() - i,
{
    if i < 0 || i >= ts.len() {
        p
    } else {
        spec_pool_add_types(spec_pool_add_type(p, ts[i]), ts, i + 1)
    }
}

pub open spec fn spec_pool_add_instances(
    p: Seq<Seq<u8>>,
    insts: Seq<AdfInstanceView>,
    i: int,
) -> Seq<Seq<u8>>
    decreases insts.len() - i,
{
    if i < 0 || i >= insts.len() {
        p
    } else {
        spec_pool_add_instances(spec_pool_add(p, insts[i].name), insts, i + 1)
    }
}

/// The full string pool a write of `f` builds: all type-table strings in
/// emission order, then the instance names.
pub open spec fn spec_pool_of_file(f: AdfFileView) -> Seq<Seq<u8>> {
    spec_pool_add_instances(spec_pool_add_types(Seq::empty(), f.types, 0), f.instances, 0)
}

pub open spec fn spec_view_pool(p: Seq<Vec<u8>>) -> Seq<Seq<u8>> {
    p.map_values(|v: Vec<u8>| v@)
}

pub proof fn lemma_has_push(p: Seq<Seq<u8>>, x: Seq<u8>, s: Seq<u8>, j: int)
    requires
        0 <= j <= p.len(),
    ensures
        (spec_index_of_from(p.push(x), s, j) < p.push(x).len()) == (spec_index_of_from(p, s, j)
            < p.len() || x == s),
    decreases p.len() - j,
{
    if j < p.len() {
        assert(p.push(x)[j] == p[j]);
        lemma_has_push(p, x, s, j + 1);
        if p[j] == s {
            assert(spec_index_of_from(p.push(x), s, j) == j);
            assert(spec_index_of_from(p, s, j) == j);
        } else {
            assert(spec_index_of_from(p.push(x), s, j) == spec_index_of_from(p.push(x), s, j + 1));
            assert(spec_index_of_from(p, s, j) == spec_index_of_from(p, s, j + 1));
        }
    } else {
        assert(p.push(x)[j] == x);
        if x == s {
            assert(spec_index_of_from(p.push(x), s, j) == j);
        } else {
            assert(spec_index_of_from(p.push(x), s, j) == spec_index_of_from(p.push(x), s, j + 1));
            assert(spec_index_of_from(p.push(x), s, j + 1) == p.push(x).len());
        }
        assert(spec_index_of_from(p, s, j) == p.len());
    }
}

/// A found position really holds the string searched for.
pub proof fn lemma_index_of_found(p: Seq<Seq<u8>>, s: Seq<u8>, j: int)
    requires
        0 <= j,
        spec_index_of_from(p, s, j) < p.len(),
    ensures
        j <= spec_index_of_from(p, s, j),
        p[spec_index_of_from(p, s, j)] == s,
    decreases p.len() - j,
{
    if j < p.len() && p[j] != s {
        lemma_index_of_found(p, s, j + 1);
    }
}

/// Adding a string keeps everything already pooled and pools the string.
pub proof fn lemma_has_add(p: Seq<Seq<u8>>, x: Seq<u8>, s: Seq<u8>)
    ensures
        spec_pool_has(spec_pool_add(p, x), s) == (spec_pool_has(p, s) || x == s),
{
    if !spec_pool_has(p, x) {
        lemma_has_push(p, x, s, 0);
    }
}

pub proof fn lemma_add_members_mono(p: Seq<Seq<u8>>, ms: Seq<AdfMemberView>, i: int, s: Seq<u8>)
    requires
        spec_pool_has(p, s),
    ensures
        spec_pool_has(spec_pool_add_members(p, ms, i), s),
    decreases ms.len() - i,
{
    if 0 <= i < ms.len() {
        lemma_has_add(p, ms[i].name, s);
        lemma_add_members_mono(spec_pool_add(p, ms[i].name), ms, i + 1, s);
    }
}

pub proof fn lemma_add_members_complete(p: Seq<Seq<u8>>, ms: Seq<AdfMemberView>, i: int, k: int)
    requires
        0 <= i <= k < ms.len(),
    ensures
        spec_pool_has(spec_pool_add_members(p, ms, i), ms[k].name),
    decreases ms.len() - i,
{
    let p1 = spec_pool_add(p, ms[i].name);
    lemma_has_add(p, ms[i].name, ms[i].name);
    if i == k {
        lemma_add_members_mono(p1, ms, i + 1, ms[k].name);
    } else {
        lemma_add_members_complete(p1, ms, i + 1, k);
    }
}

pub proof fn lemma_add_enums_mono(p: Seq<Seq<u8>>, es: Seq<AdfEnumView>, i: int, s: Seq<u8>)
    requires
        spec_pool_has(p, s),
    ensures
        spec_pool_has(spec_pool_add_enums(p, es, i), s),
    decreases es.len() - i,
{
    if 0 <= i < es.len() {
        lemma_has_add(p, es[i].name, s);
        lemma_add_enums_mono(spec_pool_add(p, es[i].name), es, i + 1, s);
    }
}

pub proof fn lemma_add_enums_complete(p: Seq<Seq<u8>>, es: Seq<AdfEnumView>, i: int, k: int)
    requires
        0 <= i <= k < es.len(),
    ensures
        spec_pool_has(spec_pool_add_enums(p, es, i), es[k].name),
    decreases es.len() - i,
{
    let p1 = spec_pool_add(p, es[i].name);
    lemma_has_add(p, es[i].name, es[i].name);
    if i == k {
        lemma_add_enums_mono(p1, es, i + 1, es[k].name);
    } else {
        lemma_add_enums_complete(p1, es, i + 1, k);
    }
}

pub proof fn lemma_add_type_mono(p: Seq<Seq<u8>>, t: AdfTypeView, s: Seq<u8>)
    requires
        spec_pool_has(p, s),
    ensures
        spec_pool_has(spec_pool_add_type(p, t), s),
{
    lemma_has_add(p, t.name, s);
    lemma_add_members_mono(spec_pool_add(p, t.name), t.members, 0, s);
    lemma_add_enums_mono(
        spec_pool_add_members(spec_pool_add(p, t.name), t.members, 0),
        t.enumerations,
        0,
        s,
    );
}

/// After one type is pooled, its name and all its member and entry names are.
pub proof fn lemma_add_type_complete(p: Seq<Seq<u8>>, t: AdfTypeView)
    ensures
        spec_pool_has(spec_pool_add_type(p, t), t.name),
        forall|j: int|
            0 <= j < t.members.len() ==> spec_pool_has(
                spec_pool_add_type(p, t),
                (#[trigger] t.members[j]).name,
            ),
        forall|j: int|
            0 <= j < t.enumerations.len() ==> spec_pool_has(
                spec_pool_add_type(p, t),
                (#[trigger] t.enumerations[j]).name,
            ),
{
    let p1 = spec_pool_add(p, t.name);
    let p2 = spec_pool_add_members(p1, t.members, 0);
    lemma_has_add(p, t.name, t.name);
    lemma_add_members_mono(p1, t.members, 0, t.name);
    lemma_add_enums_mono(p2, t.enumerations, 0, t.name);
    assert forall|j: int| 0 <= j < t.members.len() implies spec_pool_has(
        spec_pool_add_type(p, t),
        (#[trigger] t.members[j]).name,
    ) by {
        lemma_add_members_complete(p1, t.members, 0, j);
        lemma_add_enums_mono(p2, t.enumerations, 0, t.members[j].name);
    }
    assert forall|j: int| 0 <= j < t.enumerations.len() implies spec_pool_has(
        spec_pool_add_type(p, t),
        (#[trigger] t.enumerations[j]).name,
    ) by {
        lemma_add_enums_complete(p2, t.enumerations, 0, j);
    }
}

pub proof fn lemma_add_types_mono(p: Seq<Seq<u8>>, ts: Seq<AdfTypeView>, i: int, s: Seq<u8>)
    requires
        spec_pool_has(p, s),
    ensures
        spec_pool_has(spec_pool_add_types(p, ts, i), s),
    decreases ts.len() - i,
{
    if 0 <= i < ts.len() {
        lemma_add_type_mono(p, ts[i], s);
        lemma_add_types_mono(spec_pool_add_type(p, ts[i]), ts, i + 1, s);
    }
}

pub proof fn lemma_add_types_complete(p: Seq<Seq<u8>>, ts: Seq<AdfTypeView>, i: int, k: int)
    requires
        0 <= i <= k < ts.len(),
    ensures
        spec_pool_has(spec_pool_add_types(p, ts, i), ts[k].name),
        forall|j: int|
            0 <= j < ts[k].members.len() ==> spec_pool_has(
                spec_pool_add_types(p, ts, i),
                (#[trigger] ts[k].members[j]).name,
            ),
        forall|j: int|
            0 <= j < ts[k].enumerations.len() ==> spec_pool_has(
                spec_pool_add_types(p, ts, i),
                (#[trigger] ts[k].enumerations[j]).name,
            ),
    decreases ts.len() - i,
{
    let p1 = spec_pool_add_type(p, ts[i]);
    if i == k {
        lemma_add_type_complete(p, ts[i]);
        assert forall|j: int| 0 <= j < ts[k].members.len() implies spec_pool_has(
            spec_pool_add_types(p, ts, i),
            (#[trigger] ts[k].members[j]).name,
        ) by {
            lemma_add_types_mono(p1, ts, i + 1, ts[k].members[j].name);
        }
        assert forall|j: int| 0 <= j < ts[k].enumerations.len() implies spec_pool_has(
            spec_pool_add_types(p, ts, i),
            (#[trigger] ts[k].enumerations[j]).name,
        ) by {
            lemma_add_types_mono(p1, ts, i + 1, ts[k].enumerations[j].name);
        }
        lemma_add_types_mono(p1, ts, i + 1, ts[k].name);
    } else {
        lemma_add_types_complete(p1, ts, i + 1, k);
    }
}

pub proof fn lemma_add_instances_mono(
    p: Seq<Seq<u8>>,
    insts: Seq<AdfInstanceView>,
    i: int,
    s: Seq<u8>,
)
    requires
        spec_pool_has(p, s),
    ensures
        spec_pool_has(spec_pool_add_instances(p, insts, i), s),
    decreases insts.len() - i,
{
    if 0 <= i < insts.len() {
        lemma_has_add(p, insts[i].name, s);
        lemma_add_instances_mono(spec_pool_add(p, insts[i].name), insts, i + 1, s);
    }
}

pub proof fn lemma_add_instances_complete(
    p: Seq<Seq<u8>>,
    insts: Seq<AdfInstanceView>,
    i: int,
    k: int,
)
    requires
        0 <= i <= k < insts.len(),
    ensures
        spec_pool_has(spec_pool_add_instances(p, insts, i), insts[k].name),
    decreases insts.len() - i,
{
    let p1 = spec_pool_add(p, insts[i].name);
    lemma_has_add(p, insts[i].name, insts[i].name);
    if i == k {
        lemma_add_instances_mono(p1, insts, i + 1, insts[k].name);
    } else {
        lemma_add_instances_complete(p1, insts, i + 1, k);
    }
}

/// The pool a write of `f` builds holds every name the tables reference.
pub proof fn lemma_pool_complete(f: AdfFileView)
    ensures
        forall|k: int|
            0 <= k < f.types.len() ==> spec_pool_has(
                spec_pool_of_file(f),
                (#[trigger] f.types[k]).name,
            ),
        forall|k: int, j: int|
            0 <= k < f.types.len() && 0 <= j < f.types[k].members.len() ==> spec_pool_has(
                spec_pool_of_file(f),
                (#[trigger] f.types[k].members[j]).name,
            ),
        forall|k: int, j: int|
            0 <= k < f.types.len() && 0 <= j < f.types[k].enumerations.len() ==> spec_pool_has(
                spec_pool_of_file(f),
                (#[trigger] f.types[k].enumerations[j]).name,
            ),
        forall|k: int|
            0 <= k < f.instances.len() ==> spec_pool_has(
                spec_pool_of_file(f),
                (#[trigger] f.instances[k]).name,
            ),
{
    let pt = spec_pool_add_types(Seq::empty(), f.types, 0);
    assert forall|k: int| 0 <= k < f.types.len() implies spec_pool_has(
        spec_pool_of_file(f),
        (#[trigger] f.types[k]).name,
    ) by {
        lemma_add_types_complete(Seq::empty(), f.types, 0, k);
        lemma_add_instances_mono(pt, f.instances, 0, f.types[k].name);
    }
    assert forall|k: int, j: int|
        0 <= k < f.types.len() && 0 <= j < f.types[k].members.len() implies spec_pool_has(
        spec_pool_of_file(f),
        (#[trigger] f.types[k].members[j]).name,
    ) by {
        lemma_add_types_complete(Seq::empty(), f.types, 0, k);
        lemma_add_instances_mono(pt, f.instances, 0, f.types[k].members[j].name);
    }
    assert forall|k: int, j: int|
        0 <= k < f.types.len() && 0 <= j < f.types[k].enumerations.len() implies spec_pool_has(
        spec_pool_of_file(f),
        (#[trigger] f.types[k].enumerations[j]).name,
    ) by {
        lemma_add_types_complete(Seq::empty(), f.types, 0, k);
        lemma_add_instances_mono(pt, f.instances, 0, f.types[k].enumerations[j].name);
    }
    assert forall|k: int| 0 <= k < f.instances.len() implies spec_pool_has(
        spec_pool_of_file(f),
        (#[trigger] f.instances[k]).name,
    ) by {
        lemma_add_instances_complete(pt, f.instances, 0, k);
    }
}

/// Build the string pool a write of `f` uses: every type-table string in
/// emission order, then the instance names, deduplicated.
pub fn build_file_pool(f: &AdfFile) -> (pool: Vec<Vec<u8>>)
    ensures
        spec_view_pool(pool@) == spec_pool_of_file(f@),
{
    let ghost ts = f@.types;
    let ghost ivs = f@.instances;
    let mut pool: Vec<Vec<u8>> = Vec::new();
    assert(spec_view_pool(pool@) =~= Seq::<Seq<u8>>::empty());
    let nt = f.types.len();
    let mut i: usize = 0;
    while i < nt
        invariant
            i <= nt,
            nt == f.types@.len(),
            ts == f@.types,
            ivs == f@.instances,
            spec_pool_add_types(spec_view_pool(pool@), ts, i as int) == spec_pool_add_types(
                Seq::empty(),
                ts,
                0,
            ),
        decreases nt - i,
    {
        let ghost p_before = spec_view_pool(pool@);
        let t = &f.types[i];
        assert(ts[i as int] == t@);
        pool_intern(&mut pool, t.name.as_slice());
        let ghost p0 = spec_view_pool(pool@);
        assert(p0 == spec_pool_add(p_before, t@.name));
        let nm = t.members.len();
        let mut j: usize = 0;
        while j < nm
            invariant
                j <= nm,
                nm == t.members@.len(),
                spec_pool_add_members(spec_view_pool(pool@), t@.members, j as int)
                    == spec_pool_add_members(p0, t@.members, 0),
            decreases nm - j,
        {
            assert(t@.members[j as int] == t.members@[j as int]@);
            pool_intern(&mut pool, t.members[j].name.as_slice());
            j = j + 1;
        }
        let ghost p1 = spec_view_pool(pool@);
        assert(p1 == spec_pool_add_members(p0, t@.members, 0));
        let ne = t.enumerations.len();
        let mut k: usize = 0;
        while k < ne
            invariant
                k <= ne,
                ne == t.enumerations@.len(),
                spec_pool_add_enums(spec_view_pool(pool@), t@.enumerations, k as int)
                    == spec_pool_add_enums(p1, t@.enumerations, 0),
            decreases ne - k,
        {
            assert(t@.enumerations[k as int] == t.enumerations@[k as int]@);
            pool_intern(&mut pool, t.enumerations[k].name.as_slice());
            k = k + 1;
        }
        assert(spec_view_pool(pool@) == spec_pool_add_type(p_before, ts[i as int]));
        i = i + 1;
    }
    assert(spec_view_pool(pool@) == spec_pool_add_types(Seq::empty(), ts, 0));
    let ni = f.instances.len();
    let mut i2: usize = 0;
    while i2 < ni
        invariant
            i2 <= ni,
            ni == f.instances@.len(),
            ivs == f@.instances,
            spec_pool_add_instances(spec_view_pool(pool@), ivs, i2 as int)
                == spec_pool_add_instances(spec_pool_add_types(Seq::empty(), ts, 0), ivs, 0),
        decreases ni - i2,
    {
        assert(ivs[i2 as int] == f.instances@[i2 as int]@);
        pool_intern(&mut pool, f.instances[i2].name.as_slice());
        i2 = i2 + 1;
    }
    pool
}

/// First instance at or after `j` whose name hashes to `h`; `insts.len()` if none.
pub open spec fn spec_find_instance_from(insts: Seq<AdfInstanceView>, h: u32, j: int) -> int
    decreases insts.len() - j,
{
    if j < 0 || j >= insts.len() {
        insts.len() as int
    } else if hashing::spec_hash_little32(insts[j].name) == h {
        j
    } else {
        spec_find_instance_from(insts, h, j + 1)
    }
}

pub fn bytes_eq(a: &[u8], b: &[u8]) -> (r: bool)
    ensures
        r == (a@ =~= b@),
{
    if a.len() != b.len() {
        return false;
    }
    let n = a.len();
    let mut k: usize = 0;
    while k < n
        invariant
            k <= n,
            n == a@.len(),
            n == b@.len(),
            forall|j: int| 0 <= j < k ==> a@[j] == b@[j],
        decreases n - k,
    {
        if a[k] != b[k] {
            return false;
        }
        k = k + 1;
    }
    assert(a@ =~= b@);
    true
}

/// Position of `s` in the pool, or the pool's length if it is not there.
pub fn pool_find(pool: &Vec<Vec<u8>>, s: &[u8]) -> (r: usize)
    ensures
        r == spec_index_of_from(spec_view_pool(pool@), s@, 0),
        r <= pool@.len(),
{
    let n = pool.len();
    let mut j: usize = 0;
    while j < n
        invariant
            j <= n,
            n == pool@.len(),
            spec_index_of_from(spec_view_pool(pool@), s@, 0) == spec_index_of_from(
                spec_view_pool(pool@),
                s@,
                j as int,
            ),
        decreases n - j,
    {
        if bytes_eq(pool[j].as_slice(), s) {
            return j;
        }
        j = j + 1;
    }
    j
}

/// Deduplicating insertion; the pool afterwards holds `s`.
pub fn pool_intern(pool: &mut Vec<Vec<u8>>, s: &[u8])
    ensures
        spec_view_pool(final(pool)@) =~= spec_pool_add(spec_view_pool(old(pool)@), s@),
{
    let j = pool_find(pool, s);
    if j == pool.len() {
        let mut copy: Vec<u8> = Vec::new();
        crate::bytes::push_bytes(&mut copy, s);
        pool.push(copy);
        assert(spec_view_pool(pool@) =~= spec_view_pool(old(pool)@).push(s@));
    }
}

/// First instance whose name hashes to `h`, or `insts.len()` if none does.
pub fn find_instance_by_hash(insts: &Vec<AdfInstance>, h: u32) -> (r: usize)
    ensures
        r == spec_find_instance_from(insts@.map_values(|x: AdfInstance| x@), h, 0),
        r <= insts@.len(),
{
    let ghost iv = insts@.map_values(|x: AdfInstance| x@);
    let n = insts.len();
    let mut j: usize = 0;
    while j < n
        invariant
            j <= n,
            n == insts@.len(),
            iv == insts@.map_values(|x: AdfInstance| x@),
            spec_find_instance_from(iv, h, 0) == spec_find_instance_from(iv, h, j as int),
        decreases n - j,
    {
        if hashing::hash_little32(insts[j].name.as_slice()) == h {
            return j;
        }
        j = j + 1;
    }
    j
}

} // verus!
