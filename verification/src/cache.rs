use vstd::prelude::*;
use crate::classify::lemma_contains_push;
use crate::topology::{Cpu, Topology};

verus! {

/// One "set cache sibling" configuration call for the decision engine:
/// at cache level `lvl`, `cpu` and `sibling` share a cache.
#[derive(Clone, Copy, Debug, PartialEq, Eq, Structural)]
pub struct SiblingPush {
    pub lvl: i32,
    pub cpu: i32,
    pub sibling: i32,
}

/// The CPUs sharing one cache-group identifier at one cache level.
pub struct CacheGroup {
    pub cache_id: usize,
    pub cpus: Vec<usize>,
}

/// The cache-group identifier of a CPU at the given cache level (2 or 3).
pub open spec fn cache_id_of(c: Cpu, lvl: usize) -> usize {
    if lvl == 2 {
        c.l2_id
    } else {
        c.l3_id
    }
}

/// Some CPU of the snapshot has this id and sits in cache group `gid` at
/// the given level.
pub open spec fn in_cache_group(cpus: Seq<Cpu>, lvl: usize, gid: usize, id: usize) -> bool {
    exists|j: int|
        0 <= j < cpus.len() && (#[trigger] cpus[j]).id == id && cache_id_of(cpus[j], lvl) == gid
}

/// Two CPU ids are cache siblings at the given level: each belongs to
/// some CPU of the snapshot and both report the same cache-group
/// identifier there.
pub open spec fn siblings(cpus: Seq<Cpu>, lvl: usize, c: usize, s: usize) -> bool {
    exists|j: int, k: int|
        0 <= j < cpus.len() && 0 <= k < cpus.len() && (#[trigger] cpus[j]).id == c
            && (#[trigger] cpus[k]).id == s && cache_id_of(cpus[j], lvl) == cache_id_of(
            cpus[k],
            lvl,
        )
}

/// Cache grouping is reflexive and symmetric: every CPU of the snapshot
/// is a sibling of itself, and siblinghood does not depend on the order
/// of the pair.
pub proof fn lemma_sibling_reflexive_symmetric(cpus: Seq<Cpu>, lvl: usize, c: usize, s: usize)
    ensures
        (exists|j: int| 0 <= j < cpus.len() && (#[trigger] cpus[j]).id == c) ==> siblings(
            cpus,
            lvl,
            c,
            c,
        ),
        siblings(cpus, lvl, c, s) ==> siblings(cpus, lvl, s, c),
{
    if exists|j: int| 0 <= j < cpus.len() && (#[trigger] cpus[j]).id == c {
        let j = choose|j: int| 0 <= j < cpus.len() && (#[trigger] cpus[j]).id == c;
        assert(cpus[j].id == c && cache_id_of(cpus[j], lvl) == cache_id_of(cpus[j], lvl));
    }
    if siblings(cpus, lvl, c, s) {
        let (j, k) = choose|j: int, k: int|
            0 <= j < cpus.len() && 0 <= k < cpus.len() && (#[trigger] cpus[j]).id == c
                && (#[trigger] cpus[k]).id == s && cache_id_of(cpus[j], lvl) == cache_id_of(
                cpus[k],
                lvl,
            );
        assert(cpus[k].id == s && cpus[j].id == c && cache_id_of(cpus[k], lvl) == cache_id_of(
            cpus[j],
            lvl,
        ));
    }
}

/// Some group of the list carries the cache-group identifier of the
/// CPU at position `j` of the snapshot, and holds that CPU's id.
pub open spec fn groups_cover(r: Seq<CacheGroup>, cpus: Seq<Cpu>, lvl: usize, j: int) -> bool {
    exists|g: int|
        0 <= g < r.len() && (#[trigger] r[g]).cache_id == cache_id_of(cpus[j], lvl)
            && r[g].cpus@.contains(cpus[j].id)
}

/// A plan item is sound for a snapshot and level: it names that level
/// and some actual sibling pair of the snapshot.
pub open spec fn plan_item_sound(cpus: Seq<Cpu>, lvl: usize, item: SiblingPush) -> bool {
    item.lvl == lvl as i32 && exists|c: usize, s: usize|
        siblings(cpus, lvl, c, s) && item.cpu == c as i32 && item.sibling == s as i32
}

/// What the sibling batch of one cache level looks like: every item
/// names that level and an actual sibling pair, every ordered sibling
/// pair of the snapshot — self-pairs included — appears, and no call is
/// issued twice.
pub open spec fn cache_plan_ok(plan: Seq<SiblingPush>, cpus: Seq<Cpu>, lvl: usize) -> bool {
    &&& forall|t: int| 0 <= t < plan.len() ==> plan_item_sound(cpus, lvl, #[trigger] plan[t])
    &&& forall|c: usize, s: usize|
        siblings(cpus, lvl, c, s) ==> plan.contains(
            (SiblingPush { lvl: lvl as i32, cpu: c as i32, sibling: s as i32 }),
        )
    &&& plan.no_duplicates()
}

/// The id belongs to a CPU among the first `bound` entries of the
/// snapshot whose cache group at this level is `key`.
pub open spec fn member_from(cpus: Seq<Cpu>, lvl: usize, key: usize, bound: int, id: usize) -> bool {
    exists|a: int|
        0 <= a < bound && (#[trigger] cpus[a]).id == id && cache_id_of(cpus[a], lvl) == key
}

/// With distinct CPU identifiers, an id sits in only one cache group.
proof fn lemma_id_single_group(cpus: Seq<Cpu>, lvl: usize, gid1: usize, gid2: usize, id: usize)
    requires
        forall|j1: int, j2: int|
            0 <= j1 < j2 < cpus.len() ==> (#[trigger] cpus[j1]).id != (#[trigger] cpus[j2]).id,
        in_cache_group(cpus, lvl, gid1, id),
        in_cache_group(cpus, lvl, gid2, id),
    ensures
        gid1 == gid2,
{
    let j1 = choose|j: int|
        0 <= j < cpus.len() && (#[trigger] cpus[j]).id == id && cache_id_of(cpus[j], lvl) == gid1;
    let j2 = choose|j: int|
        0 <= j < cpus.len() && (#[trigger] cpus[j]).id == id && cache_id_of(cpus[j], lvl) == gid2;
    assert(j1 == j2);
}

/// Group the CPU ids of the snapshot by their cache-group identifier at
/// the given cache level: one entry per distinct identifier, holding
/// every CPU id that reports it.
pub fn build_cache_id_map(topo: &Topology, cache_lvl: usize) -> (r: Vec<CacheGroup>)
    requires
        topo.wf(),
        cache_lvl == 2 || cache_lvl == 3,
    ensures
        forall|g1: int, g2: int|
            0 <= g1 < g2 < r@.len() ==> (#[trigger] r@[g1]).cache_id != (#[trigger] r@[g2]).cache_id,
        forall|g: int| 0 <= g < r@.len() ==> (#[trigger] r@[g]).cpus@.no_duplicates(),
        forall|g: int, m: int|
            0 <= g < r@.len() && 0 <= m < r@[g].cpus@.len() ==> in_cache_group(
                topo.cpus@,
                cache_lvl,
                r@[g].cache_id,
                #[trigger] r@[g].cpus@[m],
            ),
        forall|j: int|
            0 <= j < topo.cpus@.len() ==> #[trigger] groups_cover(r@, topo.cpus@, cache_lvl, j),
{
    let cpus = &topo.cpus;
    let n: usize = cpus.len();

    // First pass: the distinct cache-group identifiers, in first-seen
    // order. A vector with distinct keys stands in for a map keyed by
    // the identifier.
    let mut keys: Vec<usize> = Vec::new();
    let mut j: usize = 0;
    while j < n
        invariant
            0 <= j <= n,
            n == cpus@.len(),
            cache_lvl == 2 || cache_lvl == 3,
            forall|a: int, b: int| 0 <= a < b < keys@.len() ==> keys@[a] != keys@[b],
            forall|jj: int|
                0 <= jj < j ==> keys@.contains(cache_id_of(#[trigger] cpus@[jj], cache_lvl)),
        decreases n - j,
    {
        let c = cpus[j];
        let cid: usize = if cache_lvl == 2 {
            c.l2_id
        } else {
            c.l3_id
        };
        let mut found = false;
        let mut g: usize = 0;
        let nk: usize = keys.len();
        while g < nk && !found
            invariant
                0 <= g <= nk,
                nk == keys@.len(),
                !found ==> forall|a: int| 0 <= a < g ==> keys@[a] != cid,
                found ==> keys@.contains(cid),
            decreases nk - g,
        {
            if keys[g] == cid {
                found = true;
                proof {
                    assert(keys@[g as int] == cid);
                }
            }
            g = g + 1;
        }
        if !found {
            let ghost old_keys = keys@;
            keys.push(cid);
            proof {
                assert(keys@[old_keys.len() as int] == cid);
                assert forall|a: int, b: int|
                    0 <= a < b < keys@.len() implies keys@[a] != keys@[b] by {
                    assert(keys@[a] == old_keys[a]);
                    if b < old_keys.len() {
                        assert(keys@[b] == old_keys[b]);
                    } else {
                        assert(keys@[b] == cid);
                    }
                }
                assert forall|jj: int|
                    0 <= jj < j + 1 implies keys@.contains(
                    cache_id_of(#[trigger] cpus@[jj], cache_lvl),
                ) by {
                    lemma_contains_push(old_keys, cid, cache_id_of(cpus@[jj], cache_lvl));
                }
            }
        }
        proof {
            assert(keys@.contains(cache_id_of(cpus@[j as int], cache_lvl)));
        }
        j = j + 1;
    }

    // Second pass: for each identifier, collect every CPU id that
    // reports it.
    let mut r: Vec<CacheGroup> = Vec::new();
    let nk: usize = keys.len();
    let mut g: usize = 0;
    while g < nk
        invariant
            0 <= g <= nk,
            n == cpus@.len(),
            nk == keys@.len(),
            cache_lvl == 2 || cache_lvl == 3,
            forall|a: int, b: int| 0 <= a < b < nk ==> keys@[a] != keys@[b],
            forall|jj: int|
                0 <= jj < n ==> keys@.contains(cache_id_of(#[trigger] cpus@[jj], cache_lvl)),
            topo.cpus@ == cpus@,
            topo.wf(),
            r@.len() == g,
            forall|a: int| 0 <= a < g ==> (#[trigger] r@[a]).cache_id == keys@[a]
                && r@[a].cpus@.no_duplicates(),
            forall|a: int, m: int|
                0 <= a < g && 0 <= m < r@[a].cpus@.len() ==> in_cache_group(
                    cpus@,
                    cache_lvl,
                    r@[a].cache_id,
                    #[trigger] r@[a].cpus@[m],
                ),
            forall|a: int, jj: int|
                0 <= a < g && 0 <= jj < n && cache_id_of(#[trigger] cpus@[jj], cache_lvl)
                    == (#[trigger] r@[a]).cache_id ==> r@[a].cpus@.contains(cpus@[jj].id),
        decreases nk - g,
    {
        let key: usize = keys[g];
        let mut members: Vec<usize> = Vec::new();
        let mut jj: usize = 0;
        while jj < n
            invariant
                0 <= jj <= n,
                n == cpus@.len(),
                cache_lvl == 2 || cache_lvl == 3,
                topo.cpus@ == cpus@,
                topo.wf(),
                members@.no_duplicates(),
                forall|m: int|
                    0 <= m < members@.len() ==> member_from(
                        cpus@,
                        cache_lvl,
                        key,
                        jj as int,
                        #[trigger] members@[m],
                    ),
                forall|m: int|
                    0 <= m < members@.len() ==> in_cache_group(
                        cpus@,
                        cache_lvl,
                        key,
                        #[trigger] members@[m],
                    ),
                forall|a: int|
                    0 <= a < jj && cache_id_of(#[trigger] cpus@[a], cache_lvl) == key
                        ==> members@.contains(cpus@[a].id),
            decreases n - jj,
        {
            let c = cpus[jj];
            let cid: usize = if cache_lvl == 2 {
                c.l2_id
            } else {
                c.l3_id
            };
            if cid == key {
                let ghost old_members = members@;
                members.push(c.id);
                proof {
                    assert(in_cache_group(cpus@, cache_lvl, key, cpus@[jj as int].id));
                    assert forall|a: int|
                        0 <= a < jj + 1 && cache_id_of(#[trigger] cpus@[a], cache_lvl)
                            == key implies members@.contains(cpus@[a].id) by {
                        lemma_contains_push(old_members, cpus@[jj as int].id, cpus@[a].id);
                    }
                    // The pushed id is fresh: an earlier member with the
                    // same id would name a second snapshot entry with it.
                    if old_members.contains(cpus@[jj as int].id) {
                        let m = choose|m: int|
                            0 <= m < old_members.len() && old_members[m] == cpus@[jj as int].id;
                        assert(member_from(
                            cpus@,
                            cache_lvl,
                            key,
                            jj as int,
                            old_members[m],
                        ));
                        let a = choose|a: int|
                            0 <= a < jj && (#[trigger] cpus@[a]).id == old_members[m]
                                && cache_id_of(cpus@[a], cache_lvl) == key;
                        assert(cpus@[a].id == cpus@[jj as int].id);
                        assert(false);
                    }
                    assert(!old_members.contains(cpus@[jj as int].id));
                    assert forall|m1: int, m2: int|
                        0 <= m1 < members@.len() && 0 <= m2 < members@.len() && m1
                            != m2 implies members@[m1] != members@[m2] by {
                        if m1 < old_members.len() && m2 < old_members.len() {
                            assert(members@[m1] == old_members[m1]);
                            assert(members@[m2] == old_members[m2]);
                        } else if m2 == old_members.len() {
                            assert(old_members.contains(old_members[m1]));
                        } else {
                            assert(old_members.contains(old_members[m2]));
                        }
                    }
                    assert forall|m: int|
                        0 <= m < members@.len() implies member_from(
                        cpus@,
                        cache_lvl,
                        key,
                        jj + 1,
                        #[trigger] members@[m],
                    ) by {
                        if m < old_members.len() {
                            assert(member_from(
                                cpus@,
                                cache_lvl,
                                key,
                                jj as int,
                                members@[m],
                            ));
                            let a = choose|a: int|
                                0 <= a < jj && (#[trigger] cpus@[a]).id == members@[m]
                                    && cache_id_of(cpus@[a], cache_lvl) == key;
                            assert(0 <= a < jj + 1 && cpus@[a].id == members@[m]);
                        } else {
                            assert(members@[m] == cpus@[jj as int].id);
                            assert(0 <= jj < jj + 1 && cpus@[jj as int].id == members@[m]);
                        }
                    }
                }
            } else {
                proof {
                    assert forall|m: int|
                        0 <= m < members@.len() implies member_from(
                        cpus@,
                        cache_lvl,
                        key,
                        jj + 1,
                        #[trigger] members@[m],
                    ) by {
                        let a = choose|a: int|
                            0 <= a < jj && (#[trigger] cpus@[a]).id == members@[m]
                                && cache_id_of(cpus@[a], cache_lvl) == key;
                        assert(0 <= a < jj + 1 && cpus@[a].id == members@[m]);
                    }
                }
                proof {
                    assert forall|a: int|
                        0 <= a < jj + 1 && cache_id_of(#[trigger] cpus@[a], cache_lvl)
                            == key implies members@.contains(cpus@[a].id) by {}
                }
            }
            jj = jj + 1;
        }
        r.push(CacheGroup { cache_id: key, cpus: members });
        g = g + 1;
    }
    proof {
        assert forall|j2: int|
            0 <= j2 < topo.cpus@.len() implies groups_cover(r@, topo.cpus@, cache_lvl, j2) by {
            let cid = cache_id_of(cpus@[j2], cache_lvl);
            assert(keys@.contains(cid));
            let a = choose|a: int| 0 <= a < keys@.len() && keys@[a] == cid;
            assert(0 <= a < r@.len() && (r@[a]).cache_id == cache_id_of(topo.cpus@[j2], cache_lvl)
                && r@[a].cpus@.contains(topo.cpus@[j2].id));
        }
    }
    r
}

/// The plan item is the ordered pair `(ma, mb)` of group `a`.
pub open spec fn pair_of_group(
    groups: Seq<CacheGroup>,
    lvl: usize,
    a: int,
    ma: int,
    mb: int,
    item: SiblingPush,
) -> bool {
    &&& 0 <= a < groups.len()
    &&& 0 <= ma < groups[a].cpus@.len()
    &&& 0 <= mb < groups[a].cpus@.len()
    &&& item == (SiblingPush {
        lvl: lvl as i32,
        cpu: groups[a].cpus@[ma] as i32,
        sibling: groups[a].cpus@[mb] as i32,
    })
}

/// The plan item comes from a pair that the group-by-group, row-by-row
/// emission has already visited.
spec fn item_before(
    groups: Seq<CacheGroup>,
    lvl: usize,
    item: SiblingPush,
    g: int,
    m1: int,
    m2: int,
) -> bool {
    exists|a: int, ma: int, mb: int|
        #[trigger] pair_of_group(groups, lvl, a, ma, mb, item) && (a < g || (a == g && (ma < m1 || (
        ma == m1 && mb < m2))))
}

/// A member of a cache group carries a CPU id of the snapshot, which the
/// well-formedness bound keeps within the engine's signed range.
proof fn lemma_member_bound(cpus: Seq<Cpu>, lvl: usize, gid: usize, id: usize)
    requires
        forall|j: int|
            0 <= j < cpus.len() ==> (#[trigger] cpus[j]).id <= 0x7fff_ffff && cpus[j].id
                <= usize::MAX / 8,
        in_cache_group(cpus, lvl, gid, id),
    ensures
        id <= 0x7fff_ffff,
{
    let j = choose|j: int|
        0 <= j < cpus.len() && (#[trigger] cpus[j]).id == id && cache_id_of(cpus[j], lvl) == gid;
}

/// The full batch of sibling configuration calls for one cache level:
/// for every ordered pair of CPU ids sharing a cache group at that level
/// — pairs of a CPU with itself included — exactly one call, and
/// nothing else.
pub fn init_cache_domains(topo: &Topology, cache_lvl: usize) -> (plan: Vec<SiblingPush>)
    requires
        topo.wf(),
        cache_lvl == 2 || cache_lvl == 3,
    ensures
        cache_plan_ok(plan@, topo.cpus@, cache_lvl),
{
    let groups = build_cache_id_map(topo, cache_lvl);
    let cpus = Ghost(topo.cpus@);
    let ng: usize = groups.len();
    let mut plan: Vec<SiblingPush> = Vec::new();
    let mut g: usize = 0;
    while g < ng
        invariant
            0 <= g <= ng,
            cpus@ == topo.cpus@,
            topo.wf(),
            cache_lvl == 2 || cache_lvl == 3,
            ng == groups@.len(),
            forall|g1: int, g2: int|
                0 <= g1 < g2 < ng ==> (#[trigger] groups@[g1]).cache_id
                    != (#[trigger] groups@[g2]).cache_id,
            forall|j: int|
                0 <= j < cpus@.len() ==> #[trigger] groups_cover(groups@, cpus@, cache_lvl, j),
            forall|a: int, m: int|
                0 <= a < ng && 0 <= m < groups@[a].cpus@.len() ==> in_cache_group(
                    cpus@,
                    cache_lvl,
                    groups@[a].cache_id,
                    #[trigger] groups@[a].cpus@[m],
                ),
            forall|a: int| 0 <= a < ng ==> (#[trigger] groups@[a]).cpus@.no_duplicates(),
            plan@.no_duplicates(),
            forall|t: int|
                0 <= t < plan@.len() ==> item_before(
                    groups@,
                    cache_lvl,
                    #[trigger] plan@[t],
                    g as int,
                    0,
                    0,
                ),
            forall|t: int|
                0 <= t < plan@.len() ==> plan_item_sound(cpus@, cache_lvl, #[trigger] plan@[t]),
            forall|a: int, m1: int, m2: int|
                0 <= a < g && 0 <= m1 < groups@[a].cpus@.len() && 0 <= m2
                    < groups@[a].cpus@.len() ==> #[trigger] plan@.contains(
                    (SiblingPush {
                        lvl: cache_lvl as i32,
                        cpu: groups@[a].cpus@[m1] as i32,
                        sibling: groups@[a].cpus@[m2] as i32,
                    }),
                ),
        decreases ng - g,
    {
        let nm: usize = groups[g].cpus.len();
        let mut m1: usize = 0;
        while m1 < nm
            invariant
                0 <= m1 <= nm,
                0 <= g < ng,
                cpus@ == topo.cpus@,
                topo.wf(),
                cache_lvl == 2 || cache_lvl == 3,
                ng == groups@.len(),
                nm == groups@[g as int].cpus@.len(),
                forall|g1: int, g2: int|
                    0 <= g1 < g2 < ng ==> (#[trigger] groups@[g1]).cache_id
                        != (#[trigger] groups@[g2]).cache_id,
                forall|a: int, m: int|
                    0 <= a < ng && 0 <= m < groups@[a].cpus@.len() ==> in_cache_group(
                        cpus@,
                        cache_lvl,
                        groups@[a].cache_id,
                        groups@[a].cpus@[m],
                    ),
                forall|a: int| 0 <= a < ng ==> (#[trigger] groups@[a]).cpus@.no_duplicates(),
                plan@.no_duplicates(),
                forall|t: int|
                    0 <= t < plan@.len() ==> item_before(
                        groups@,
                        cache_lvl,
                        #[trigger] plan@[t],
                        g as int,
                        m1 as int,
                        0,
                    ),
                forall|t: int|
                    0 <= t < plan@.len() ==> plan_item_sound(cpus@, cache_lvl, #[trigger] plan@[t]),
                forall|a: int, ma: int, mb: int|
                    0 <= a < g && 0 <= ma < groups@[a].cpus@.len() && 0 <= mb
                        < groups@[a].cpus@.len() ==> #[trigger] plan@.contains(
                        (SiblingPush {
                            lvl: cache_lvl as i32,
                            cpu: groups@[a].cpus@[ma] as i32,
                            sibling: groups@[a].cpus@[mb] as i32,
                        }),
                    ),
                forall|ma: int, mb: int|
                    0 <= ma < m1 && 0 <= mb < nm ==> #[trigger] plan@.contains(
                        (SiblingPush {
                            lvl: cache_lvl as i32,
                            cpu: groups@[g as int].cpus@[ma] as i32,
                            sibling: groups@[g as int].cpus@[mb] as i32,
                        }),
                    ),
            decreases nm - m1,
        {
            let cpu_id: usize = groups[g].cpus[m1];
            let mut m2: usize = 0;
            while m2 < nm
                invariant
                    0 <= m2 <= nm,
                    0 <= m1 < nm,
                    0 <= g < ng,
                    cpus@ == topo.cpus@,
                    topo.wf(),
                    cache_lvl == 2 || cache_lvl == 3,
                    ng == groups@.len(),
                    nm == groups@[g as int].cpus@.len(),
                    cpu_id == groups@[g as int].cpus@[m1 as int],
                    forall|g1: int, g2: int|
                        0 <= g1 < g2 < ng ==> (#[trigger] groups@[g1]).cache_id
                            != (#[trigger] groups@[g2]).cache_id,
                    forall|a: int, m: int|
                        0 <= a < ng && 0 <= m < groups@[a].cpus@.len()
                            ==> in_cache_group(
                            cpus@,
                            cache_lvl,
                            groups@[a].cache_id,
                            #[trigger] groups@[a].cpus@[m],
                        ),
                    forall|a: int| 0 <= a < ng ==> (#[trigger] groups@[a]).cpus@.no_duplicates(),
                    plan@.no_duplicates(),
                    forall|t: int|
                        0 <= t < plan@.len() ==> item_before(
                            groups@,
                            cache_lvl,
                            #[trigger] plan@[t],
                            g as int,
                            m1 as int,
                            m2 as int,
                        ),
                    forall|t: int|
                        0 <= t < plan@.len() ==> plan_item_sound(cpus@, cache_lvl, #[trigger] plan@[t]),
                    forall|a: int, ma: int, mb: int|
                        0 <= a < g && 0 <= ma < groups@[a].cpus@.len() && 0 <= mb
                            < groups@[a].cpus@.len() ==> #[trigger] plan@.contains(
                            (SiblingPush {
                                lvl: cache_lvl as i32,
                                cpu: groups@[a].cpus@[ma] as i32,
                                sibling: groups@[a].cpus@[mb] as i32,
                            }),
                        ),
                    forall|ma: int, mb: int|
                        0 <= ma < m1 && 0 <= mb < nm ==> #[trigger] plan@.contains(
                            (SiblingPush {
                                lvl: cache_lvl as i32,
                                cpu: groups@[g as int].cpus@[ma] as i32,
                                sibling: groups@[g as int].cpus@[mb] as i32,
                            }),
                        ),
                    forall|mb: int|
                        0 <= mb < m2 ==> plan@.contains(
                            (SiblingPush {
                                lvl: cache_lvl as i32,
                                cpu: cpu_id as i32,
                                sibling: groups@[g as int].cpus@[mb] as i32,
                            }),
                        ),
                decreases nm - m2,
            {
                let sib_id: usize = groups[g].cpus[m2];
                let ghost old_plan = plan@;
                let push = SiblingPush {
                    lvl: cache_lvl as i32,
                    cpu: cpu_id as i32,
                    sibling: sib_id as i32,
                };
                proof {
                    let gi = g as int;
                    assert(in_cache_group(cpus@, cache_lvl, groups@[gi].cache_id, cpu_id));
                    assert(in_cache_group(cpus@, cache_lvl, groups@[gi].cache_id, sib_id));
                    let j = choose|j: int|
                        0 <= j < cpus@.len() && (#[trigger] cpus@[j]).id == cpu_id && cache_id_of(
                            cpus@[j],
                            cache_lvl,
                        ) == groups@[gi].cache_id;
                    let k = choose|k: int|
                        0 <= k < cpus@.len() && (#[trigger] cpus@[k]).id == sib_id && cache_id_of(
                            cpus@[k],
                            cache_lvl,
                        ) == groups@[gi].cache_id;
                    assert(siblings(cpus@, cache_lvl, cpu_id, sib_id));
                    assert(plan_item_sound(cpus@, cache_lvl, push));
                }
                plan.push(push);
                proof {
                    assert forall|x: SiblingPush| #[trigger]
                        plan@.contains(x) == (old_plan.contains(x) || x == push) by {
                        lemma_contains_push(old_plan, push, x);
                    }
                    let gi = g as int;
                    // This exact call was never issued before: an equal
                    // earlier item would name the same ordered pair of the
                    // same group at an already-visited position.
                    if old_plan.contains(push) {
                        let t = choose|t: int| 0 <= t < old_plan.len() && old_plan[t] == push;
                        assert(item_before(
                            groups@,
                            cache_lvl,
                            push,
                            gi,
                            m1 as int,
                            m2 as int,
                        ));
                        let (a, ma, mb) = choose|a: int, ma: int, mb: int|
                            #[trigger] pair_of_group(groups@, cache_lvl, a, ma, mb, push) && (a < gi
                                || (a == gi && (ma < m1 || (ma == m1 && mb < m2))));
                        let ca = groups@[a].cpus@[ma];
                        let sa = groups@[a].cpus@[mb];
                        assert(in_cache_group(cpus@, cache_lvl, groups@[a].cache_id, ca));
                        assert(in_cache_group(cpus@, cache_lvl, groups@[a].cache_id, sa));
                        assert(in_cache_group(cpus@, cache_lvl, groups@[gi].cache_id, cpu_id));
                        assert(in_cache_group(cpus@, cache_lvl, groups@[gi].cache_id, sib_id));
                        lemma_member_bound(cpus@, cache_lvl, groups@[a].cache_id, ca);
                        lemma_member_bound(cpus@, cache_lvl, groups@[a].cache_id, sa);
                        lemma_member_bound(cpus@, cache_lvl, groups@[gi].cache_id, cpu_id);
                        lemma_member_bound(cpus@, cache_lvl, groups@[gi].cache_id, sib_id);
                        assert(ca as i32 == cpu_id as i32);
                        assert(ca == cpu_id);
                        assert(sa as i32 == sib_id as i32);
                        assert(sa == sib_id);
                        lemma_id_single_group(
                            cpus@,
                            cache_lvl,
                            groups@[a].cache_id,
                            groups@[gi].cache_id,
                            ca,
                        );
                        assert(a == gi);
                        assert(groups@[gi].cpus@.no_duplicates());
                        assert(ma == m1);
                        assert(mb == m2);
                        assert(false);
                    }
                    assert(!old_plan.contains(push));
                    assert forall|t1: int, t2: int|
                        0 <= t1 < plan@.len() && 0 <= t2 < plan@.len() && t1 != t2 implies plan@[t1]
                        != plan@[t2] by {
                        if t1 < old_plan.len() && t2 < old_plan.len() {
                            assert(plan@[t1] == old_plan[t1]);
                            assert(plan@[t2] == old_plan[t2]);
                        } else if t2 == old_plan.len() {
                            assert(old_plan.contains(old_plan[t1]));
                        } else {
                            assert(old_plan.contains(old_plan[t2]));
                        }
                    }
                    assert forall|t2: int| 0 <= t2 < plan@.len() implies item_before(
                        groups@,
                        cache_lvl,
                        #[trigger] plan@[t2],
                        gi,
                        m1 as int,
                        m2 + 1,
                    ) by {
                        if t2 < old_plan.len() {
                            assert(item_before(
                                groups@,
                                cache_lvl,
                                plan@[t2],
                                gi,
                                m1 as int,
                                m2 as int,
                            ));
                            let (a, ma, mb) = choose|a: int, ma: int, mb: int|
                                #[trigger] pair_of_group(groups@, cache_lvl, a, ma, mb, plan@[t2])
                                    && (a < gi || (a == gi && (ma < m1 || (ma == m1 && mb < m2))));
                            assert(pair_of_group(groups@, cache_lvl, a, ma, mb, plan@[t2]) && (a
                                < gi || (a == gi && (ma < m1 || (ma == m1 && mb < m2 + 1)))));
                        } else {
                            assert(plan@[t2] == push);
                            assert(pair_of_group(
                                groups@,
                                cache_lvl,
                                gi,
                                m1 as int,
                                m2 as int,
                                push,
                            ) && (gi == gi && m1 == m1 && m2 < m2 + 1));
                        }
                    }
                }
                m2 = m2 + 1;
            }
            proof {
                assert forall|t2: int| 0 <= t2 < plan@.len() implies item_before(
                    groups@,
                    cache_lvl,
                    #[trigger] plan@[t2],
                    g as int,
                    m1 + 1,
                    0,
                ) by {
                    assert(item_before(
                        groups@,
                        cache_lvl,
                        plan@[t2],
                        g as int,
                        m1 as int,
                        nm as int,
                    ));
                    let (a, ma, mb) = choose|a: int, ma: int, mb: int|
                        #[trigger] pair_of_group(groups@, cache_lvl, a, ma, mb, plan@[t2]) && (a < g
                            || (a == g && (ma < m1 || (ma == m1 && mb < nm))));
                    assert(pair_of_group(groups@, cache_lvl, a, ma, mb, plan@[t2]) && (a < g || (a
                        == g && ma < m1 + 1)));
                }
            }
            m1 = m1 + 1;
        }
        proof {
            assert forall|t2: int| 0 <= t2 < plan@.len() implies item_before(
                groups@,
                cache_lvl,
                #[trigger] plan@[t2],
                g + 1,
                0,
                0,
            ) by {
                assert(item_before(groups@, cache_lvl, plan@[t2], g as int, nm as int, 0));
                let (a, ma, mb) = choose|a: int, ma: int, mb: int|
                    #[trigger] pair_of_group(groups@, cache_lvl, a, ma, mb, plan@[t2]) && (a < g || (
                    a == g && (ma < nm || (ma == nm && mb < 0))));
                assert(pair_of_group(groups@, cache_lvl, a, ma, mb, plan@[t2]) && a < g + 1);
            }
        }
        g = g + 1;
    }
    proof {
        assert forall|c: usize, s: usize|
            siblings(cpus@, cache_lvl, c, s) implies plan@.contains(
            (SiblingPush { lvl: cache_lvl as i32, cpu: c as i32, sibling: s as i32 }),
        ) by {
            let (j, k) = choose|j: int, k: int|
                0 <= j < cpus@.len() && 0 <= k < cpus@.len() && (#[trigger] cpus@[j]).id == c
                    && (#[trigger] cpus@[k]).id == s && cache_id_of(cpus@[j], cache_lvl)
                    == cache_id_of(cpus@[k], cache_lvl);
            assert(groups_cover(groups@, cpus@, cache_lvl, j));
            assert(groups_cover(groups@, cpus@, cache_lvl, k));
            let gj = choose|gj: int|
                0 <= gj < groups@.len() && (#[trigger] groups@[gj]).cache_id == cache_id_of(
                    cpus@[j],
                    cache_lvl,
                ) && groups@[gj].cpus@.contains(cpus@[j].id);
            let gk = choose|gk: int|
                0 <= gk < groups@.len() && (#[trigger] groups@[gk]).cache_id == cache_id_of(
                    cpus@[k],
                    cache_lvl,
                ) && groups@[gk].cpus@.contains(cpus@[k].id);
            assert(gj == gk);
            let ma = choose|ma: int|
                0 <= ma < groups@[gj].cpus@.len() && groups@[gj].cpus@[ma] == c;
            let mb = choose|mb: int|
                0 <= mb < groups@[gj].cpus@.len() && groups@[gj].cpus@[mb] == s;
            assert(plan@.contains(
                (SiblingPush {
                    lvl: cache_lvl as i32,
                    cpu: groups@[gj].cpus@[ma] as i32,
                    sibling: groups@[gj].cpus@[mb] as i32,
                }),
            ));
        }
    }
    plan
}

/// The sibling batch for the L2 cache level.
pub fn init_l2_cache_domains(topo: &Topology) -> (plan: Vec<SiblingPush>)
    requires
        topo.wf(),
    ensures
        cache_plan_ok(plan@, topo.cpus@, 2),
{
    init_cache_domains(topo, 2)
}

/// The sibling batch for the L3 cache level.
pub fn init_l3_cache_domains(topo: &Topology) -> (plan: Vec<SiblingPush>)
    requires
        topo.wf(),
    ensures
        cache_plan_ok(plan@, topo.cpus@, 3),
{
    init_cache_domains(topo, 3)
}

} // verus!
