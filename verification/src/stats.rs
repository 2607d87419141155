//! Accumulated usage statistics: the per-extent stat triple, the aggregate
//! record merged across workers, and the accounting rule that credits one
//! classified extent to an aggregate.
//!
//! The laws of the accounting live here too: every reference is counted
//! whatever the deduplication state; a physical id is credited exactly
//! once per run; and merging partial aggregates is commutative and
//! associative, so workers may combine their results in any order.

use vstd::prelude::*;

use crate::dedup::{dedup_ids, DedupSet};
use crate::extent::{Compression, ExtentKey, ExtentType};

verus! {

/// Usage of one extent in bytes: physical bytes occupied, logical size
/// before compression, and logical bytes referenced by the file range
/// that points at the extent.
#[derive(Clone, Copy, Debug, PartialEq, Eq, Hash, Structural)]
pub struct ExtentStat {
    pub disk: u64,
    pub uncomp: u64,
    pub refd: u64,
}

/// `ExtentStat` lifted to unbounded integers, for stating laws about
/// accumulation without overflow side conditions.
pub struct StatModel {
    pub disk: int,
    pub uncomp: int,
    pub refd: int,
}

impl ExtentStat {
    pub open spec fn model(self) -> StatModel {
        StatModel { disk: self.disk as int, uncomp: self.uncomp as int, refd: self.refd as int }
    }

    pub open spec fn spec_is_empty(self) -> bool {
        self.disk == 0 && self.uncomp == 0 && self.refd == 0
    }

    /// Field-wise accumulation; statistics are only ever added, never
    /// overwritten.
    pub fn merge(&mut self, rhs: Self)
        requires
            old(self).disk + rhs.disk <= u64::MAX,
            old(self).uncomp + rhs.uncomp <= u64::MAX,
            old(self).refd + rhs.refd <= u64::MAX,
        ensures
            final(self).model() == merge_stat_model(old(self).model(), rhs.model()),
    {
        self.disk = self.disk + rhs.disk;
        self.uncomp = self.uncomp + rhs.uncomp;
        self.refd = self.refd + rhs.refd;
    }

    pub fn is_empty(&self) -> (r: bool)
        ensures
            r == self.spec_is_empty(),
    {
        self.disk == 0 && self.uncomp == 0 && self.refd == 0
    }

    /// Percentage of the uncompressed size that the physical bytes occupy.
    /// The caller must rule out an empty uncompressed total: the quotient is
    /// undefined there and a renderer has to guard, not divide.
    pub fn get_percent(&self) -> (r: u64)
        requires
            self.uncomp > 0,
            self.disk * 100 <= u64::MAX,
        ensures
            r == self.disk * 100 / (self.uncomp as int),
    {
        self.disk * 100 / self.uncomp
    }
}

/// Field-wise sum of two stat triples over unbounded integers.
pub open spec fn merge_stat_model(a: StatModel, b: StatModel) -> StatModel {
    StatModel { disk: a.disk + b.disk, uncomp: a.uncomp + b.uncomp, refd: a.refd + b.refd }
}

/// The aggregate of one run (or one worker's share of it): file and extent
/// counters, one stat bucket per compression algorithm, and a separate
/// bucket for preallocated extents, whose reserved space is not yet
/// meaningfully compressed and must not be mixed into the compression
/// buckets.
#[derive(Clone, Copy, Debug, PartialEq, Eq)]
pub struct CompsizeStat {
    pub nfile: u64,
    pub ninline: u64,
    pub nref: u64,
    pub nextent: u64,
    pub prealloc: ExtentStat,
    pub stat: [ExtentStat; 4],
}

/// `CompsizeStat` lifted to unbounded integers.
#[verifier::ext_equal]
pub struct CompsizeModel {
    pub nfile: int,
    pub ninline: int,
    pub nref: int,
    pub nextent: int,
    pub prealloc: StatModel,
    pub by_comp: Seq<StatModel>,
}

/// A well-formed aggregate model holds one bucket per compression
/// algorithm.
pub open spec fn model_wf(c: CompsizeModel) -> bool {
    c.by_comp.len() == 4
}

impl CompsizeStat {
    pub open spec fn model(self) -> CompsizeModel {
        CompsizeModel {
            nfile: self.nfile as int,
            ninline: self.ninline as int,
            nref: self.nref as int,
            nextent: self.nextent as int,
            prealloc: self.prealloc.model(),
            by_comp: Seq::new(4, |i: int| self.stat[i].model()),
        }
    }

    /// The zeroed aggregate that every worker starts from.
    pub fn zero() -> (r: Self)
        ensures
            r.model() == zero_model(),
    {
        let z = ExtentStat { disk: 0, uncomp: 0, refd: 0 };
        let r = CompsizeStat { nfile: 0, ninline: 0, nref: 0, nextent: 0, prealloc: z, stat: [z, z, z, z] };
        proof {
            assert(r.model() =~= zero_model());
        }
        r
    }

    /// Fold another worker's aggregate into this one, field by field.
    pub fn merge(&mut self, rhs: Self)
        requires
            merge_fits(*old(self), rhs),
        ensures
            final(self).model() == merge_model(old(self).model(), rhs.model()),
    {
        self.nfile = self.nfile + rhs.nfile;
        self.ninline = self.ninline + rhs.ninline;
        self.nref = self.nref + rhs.nref;
        self.nextent = self.nextent + rhs.nextent;
        self.prealloc.merge(rhs.prealloc);
        let mut i: usize = 0;
        while i < 4
            invariant
                i <= 4,
                merge_fits(*old(self), rhs),
                self.nfile == old(self).nfile + rhs.nfile,
                self.ninline == old(self).ninline + rhs.ninline,
                self.nref == old(self).nref + rhs.nref,
                self.nextent == old(self).nextent + rhs.nextent,
                self.prealloc.model() == merge_stat_model(
                    old(self).prealloc.model(),
                    rhs.prealloc.model(),
                ),
                forall|j: int|
                    0 <= j < i ==> self.stat[j].model() == merge_stat_model(
                        old(self).stat[j].model(),
                        rhs.stat[j].model(),
                    ),
                forall|j: int| i <= j < 4 ==> self.stat[j] == old(self).stat[j],
            decreases 4 - i,
        {
            self.stat[i].disk = self.stat[i].disk + rhs.stat[i].disk;
            self.stat[i].uncomp = self.stat[i].uncomp + rhs.stat[i].uncomp;
            self.stat[i].refd = self.stat[i].refd + rhs.stat[i].refd;
            i = i + 1;
        }
        proof {
            assert(self.model() =~= merge_model(old(self).model(), rhs.model()));
        }
    }
}

/// The all-zero aggregate model.
pub open spec fn zero_model() -> CompsizeModel {
    CompsizeModel {
        nfile: 0,
        ninline: 0,
        nref: 0,
        nextent: 0,
        prealloc: StatModel { disk: 0, uncomp: 0, refd: 0 },
        by_comp: Seq::new(4, |i: int| StatModel { disk: 0, uncomp: 0, refd: 0 }),
    }
}

/// Whether the field-wise sums of two aggregates stay within the machine
/// word; forced by the fixed-width counters, not by the accounting itself.
pub open spec fn merge_fits(a: CompsizeStat, b: CompsizeStat) -> bool {
    &&& a.nfile + b.nfile <= u64::MAX
    &&& a.ninline + b.ninline <= u64::MAX
    &&& a.nref + b.nref <= u64::MAX
    &&& a.nextent + b.nextent <= u64::MAX
    &&& a.prealloc.disk + b.prealloc.disk <= u64::MAX
    &&& a.prealloc.uncomp + b.prealloc.uncomp <= u64::MAX
    &&& a.prealloc.refd + b.prealloc.refd <= u64::MAX
    &&& forall|i: int|
        0 <= i < 4 ==> a.stat[i].disk + b.stat[i].disk <= u64::MAX && a.stat[i].uncomp
            + b.stat[i].uncomp <= u64::MAX && a.stat[i].refd + b.stat[i].refd <= u64::MAX
}

/// Field-wise sum of two aggregate models.
pub open spec fn merge_model(a: CompsizeModel, b: CompsizeModel) -> CompsizeModel {
    CompsizeModel {
        nfile: a.nfile + b.nfile,
        ninline: a.ninline + b.ninline,
        nref: a.nref + b.nref,
        nextent: a.nextent + b.nextent,
        prealloc: merge_stat_model(a.prealloc, b.prealloc),
        by_comp: Seq::new(a.by_comp.len(), |i: int| merge_stat_model(a.by_comp[i], b.by_comp[i])),
    }
}

/// Merging partial aggregates is commutative: the final totals do not
/// depend on which of two workers' results is folded into which.
pub proof fn lemma_merge_model_commutative(a: CompsizeModel, b: CompsizeModel)
    requires
        model_wf(a),
        model_wf(b),
    ensures
        merge_model(a, b) == merge_model(b, a),
{
    assert(merge_model(a, b) =~= merge_model(b, a));
}

/// Merging partial aggregates is associative: any grouping of the workers'
/// results yields identical final totals.  Together with commutativity,
/// aggregates may be merged in any order and any grouping.
pub proof fn lemma_merge_model_associative(a: CompsizeModel, b: CompsizeModel, c: CompsizeModel)
    requires
        model_wf(a),
        model_wf(b),
        model_wf(c),
    ensures
        merge_model(merge_model(a, b), c) == merge_model(a, merge_model(b, c)),
{
    assert(merge_model(merge_model(a, b), c) =~= merge_model(a, merge_model(b, c)));
}

/// A stat triple with only its referenced count raised: what a shared
/// extent contributes on every sight after the first.
pub open spec fn add_refd_model(s: StatModel, refd: int) -> StatModel {
    StatModel { refd: s.refd + refd, ..s }
}

/// The accounting rule for one classified extent, over the aggregate model
/// and the abstract set of already-credited ids.
///
/// An inline extent is counted and credited unconditionally; a regular or
/// preallocated extent is always counted as a reference and always adds
/// its referenced bytes, but its disk and uncompressed bytes are credited,
/// and the distinct-extent counter raised, only on the first-ever sight of
/// its physical id.
pub open spec fn account_model(
    c: CompsizeModel,
    seen: Set<u64>,
    key: ExtentKey,
    comp: Compression,
    st: StatModel,
) -> (CompsizeModel, Set<u64>) {
    let ci = comp.as_int();
    match key.extent_type {
        ExtentType::Inline => (
            CompsizeModel {
                ninline: c.ninline + 1,
                by_comp: c.by_comp.update(ci, merge_stat_model(c.by_comp[ci], st)),
                ..c
            },
            seen,
        ),
        ExtentType::Regular => if seen.contains(key.key) {
            (
                CompsizeModel {
                    nref: c.nref + 1,
                    by_comp: c.by_comp.update(ci, add_refd_model(c.by_comp[ci], st.refd)),
                    ..c
                },
                seen,
            )
        } else {
            (
                CompsizeModel {
                    nref: c.nref + 1,
                    nextent: c.nextent + 1,
                    by_comp: c.by_comp.update(ci, merge_stat_model(c.by_comp[ci], st)),
                    ..c
                },
                seen.insert(key.key),
            )
        },
        ExtentType::Prealloc => if seen.contains(key.key) {
            (
                CompsizeModel { nref: c.nref + 1, prealloc: add_refd_model(c.prealloc, st.refd), ..c },
                seen,
            )
        } else {
            (
                CompsizeModel {
                    nref: c.nref + 1,
                    nextent: c.nextent + 1,
                    prealloc: merge_stat_model(c.prealloc, st),
                    ..c
                },
                seen.insert(key.key),
            )
        },
    }
}

/// Whether crediting one extent stays within the machine word, whatever
/// the deduplication outcome; forced by the fixed-width counters.
pub open spec fn account_fits(
    c: CompsizeStat,
    key: ExtentKey,
    comp: Compression,
    st: ExtentStat,
) -> bool {
    let ci = comp.as_int();
    match key.extent_type {
        ExtentType::Inline => {
            &&& c.ninline + 1 <= u64::MAX
            &&& c.stat[ci].disk + st.disk <= u64::MAX
            &&& c.stat[ci].uncomp + st.uncomp <= u64::MAX
            &&& c.stat[ci].refd + st.refd <= u64::MAX
        },
        ExtentType::Regular => {
            &&& c.nref + 1 <= u64::MAX
            &&& c.nextent + 1 <= u64::MAX
            &&& c.stat[ci].disk + st.disk <= u64::MAX
            &&& c.stat[ci].uncomp + st.uncomp <= u64::MAX
            &&& c.stat[ci].refd + st.refd <= u64::MAX
        },
        ExtentType::Prealloc => {
            &&& c.nref + 1 <= u64::MAX
            &&& c.nextent + 1 <= u64::MAX
            &&& c.prealloc.disk + st.disk <= u64::MAX
            &&& c.prealloc.uncomp + st.uncomp <= u64::MAX
            &&& c.prealloc.refd + st.refd <= u64::MAX
        },
    }
}

/// Credit one classified extent to the aggregate, consulting (and, on the
/// first sight of a physical id, extending) the shared deduplication set.
///
/// Inline extents are never looked up in the set; regular and preallocated
/// extents add their referenced bytes on every sight, their disk and
/// uncompressed bytes only when the id was newly inserted.
/// The accounting rule folded over a whole sequence of classified extents,
/// starting from an aggregate and a set of already-credited ids.
pub open spec fn account_seq_model(
    c: CompsizeModel,
    seen: Set<u64>,
    recs: Seq<(ExtentKey, Compression, StatModel)>,
) -> (CompsizeModel, Set<u64>)
    decreases recs.len(),
{
    if recs.len() == 0 {
        (c, seen)
    } else {
        let step = account_model(c, seen, recs[0].0, recs[0].1, recs[0].2);
        account_seq_model(step.0, step.1, recs.drop_first())
    }
}

/// Referenced bytes carried by a sequence of classified extents.
pub open spec fn sum_refd(recs: Seq<(ExtentKey, Compression, StatModel)>) -> int
    decreases recs.len(),
{
    if recs.len() == 0 {
        0
    } else {
        recs[0].2.refd + sum_refd(recs.drop_first())
    }
}

/// Referenced bytes accumulated over every bucket of an aggregate.
pub open spec fn total_refd(c: CompsizeModel) -> int {
    c.prealloc.refd + c.by_comp[0].refd + c.by_comp[1].refd + c.by_comp[2].refd
        + c.by_comp[3].refd
}

/// The physical ids that a sequence of classified extents subjects to
/// deduplication: the keys of its regular and preallocated extents.
/// Inline extents are never looked up in the set.
pub open spec fn dedup_keys(recs: Seq<(ExtentKey, Compression, StatModel)>) -> Set<u64>
    decreases recs.len(),
{
    if recs.len() == 0 {
        Set::<u64>::empty()
    } else {
        let rest = dedup_keys(recs.drop_first());
        if recs[0].0.extent_type is Inline {
            rest
        } else {
            rest.insert(recs[0].0.key)
        }
    }
}

proof fn lemma_dedup_keys_finite(recs: Seq<(ExtentKey, Compression, StatModel)>)
    ensures
        dedup_keys(recs).finite(),
    decreases recs.len(),
{
    broadcast use vstd::set::group_set_axioms;

    if recs.len() == 0 {
    } else {
        lemma_dedup_keys_finite(recs.drop_first());
    }
}

/// How one accounting step moves the aggregate and the id set: the
/// referenced total always rises by the record's referenced bytes, the id
/// set absorbs the key of a non-inline record, and the distinct-extent
/// counter rises exactly when that key is new.
proof fn lemma_account_model_step(
    c: CompsizeModel,
    seen: Set<u64>,
    key: ExtentKey,
    comp: Compression,
    st: StatModel,
)
    requires
        model_wf(c),
    ensures
        model_wf(account_model(c, seen, key, comp, st).0),
        total_refd(account_model(c, seen, key, comp, st).0) == total_refd(c) + st.refd,
        account_model(c, seen, key, comp, st).1 == (if key.extent_type is Inline {
            seen
        } else {
            seen.insert(key.key)
        }),
        account_model(c, seen, key, comp, st).0.nextent == c.nextent + (
        if key.extent_type is Inline || seen.contains(key.key) {
            0int
        } else {
            1int
        }),
{
    let step = account_model(c, seen, key, comp, st);
    let ci = comp.as_int();
    assert(0 <= ci < 4);
    if !(key.extent_type is Inline) && seen.contains(key.key) {
        assert(seen.insert(key.key) =~= seen);
    }
}

/// Law: feeding any sequence of classified extents through the accounting
/// adds every record's referenced bytes to the aggregate's referenced
/// totals, whatever ids the deduplication set held beforehand.
/// Deduplication only ever gates disk and uncompressed bytes.
pub proof fn lemma_refd_counts_every_reference(
    c: CompsizeModel,
    seen: Set<u64>,
    recs: Seq<(ExtentKey, Compression, StatModel)>,
)
    requires
        model_wf(c),
    ensures
        total_refd(account_seq_model(c, seen, recs).0) == total_refd(c) + sum_refd(recs),
    decreases recs.len(),
{
    if recs.len() == 0 {
    } else {
        let step = account_model(c, seen, recs[0].0, recs[0].1, recs[0].2);
        lemma_account_model_step(c, seen, recs[0].0, recs[0].1, recs[0].2);
        lemma_refd_counts_every_reference(step.0, step.1, recs.drop_first());
    }
}

/// Law: once an id is in the deduplication set, inserting it again leaves
/// the set unchanged, and the insertion can never again report the id as
/// new.
pub proof fn lemma_insert_idempotent(seen: Set<u64>, id: u64)
    ensures
        seen.insert(id).contains(id),
        seen.insert(id).insert(id) == seen.insert(id),
{
    assert(seen.insert(id).insert(id) =~= seen.insert(id));
}

/// Law: across any sequence of classified extents, the deduplication set
/// ends up holding exactly the ids it started with plus the sequence's
/// non-inline keys, and the distinct-extent counter rises exactly once per
/// id not already seen — however often, and from however many files, the
/// same physical extent is referenced.
pub proof fn lemma_extent_counted_once(
    c: CompsizeModel,
    seen: Set<u64>,
    recs: Seq<(ExtentKey, Compression, StatModel)>,
)
    requires
        model_wf(c),
        seen.finite(),
    ensures
        account_seq_model(c, seen, recs).1 == seen.union(dedup_keys(recs)),
        account_seq_model(c, seen, recs).0.nextent == c.nextent + dedup_keys(recs).difference(
            seen,
        ).len(),
    decreases recs.len(),
{
    broadcast use vstd::set::group_set_axioms;

    if recs.len() == 0 {
        assert(seen.union(dedup_keys(recs)) =~= seen);
        assert(dedup_keys(recs).difference(seen) =~= Set::<u64>::empty());
    } else {
        let key = recs[0].0;
        let comp = recs[0].1;
        let st = recs[0].2;
        let tail = recs.drop_first();
        let step = account_model(c, seen, key, comp, st);
        lemma_account_model_step(c, seen, key, comp, st);
        lemma_dedup_keys_finite(tail);
        if key.extent_type is Inline {
            lemma_extent_counted_once(step.0, seen, tail);
            assert(seen.union(dedup_keys(recs)) =~= seen.union(dedup_keys(tail)));
            assert(dedup_keys(recs).difference(seen) =~= dedup_keys(tail).difference(seen));
        } else {
            let k = key.key;
            let seen1 = seen.insert(k);
            lemma_extent_counted_once(step.0, seen1, tail);
            assert(account_seq_model(c, seen, recs).1 =~= seen.union(dedup_keys(recs)));
            let a = dedup_keys(tail).difference(seen);
            if seen.contains(k) {
                assert(seen1 =~= seen);
                assert(dedup_keys(recs).difference(seen) =~= a);
            } else {
                // One new id: the counter absorbs it here, and the tail can
                // no longer count it.
                assert(dedup_keys(recs).difference(seen) =~= a.insert(k));
                assert(dedup_keys(tail).difference(seen1) =~= a.remove(k));
                assert(a.insert(k).len() == a.remove(k).len() + 1);
            }
        }
    }
}

/// Law: a regular extent referenced any number of times is credited its
/// disk and uncompressed bytes exactly once — on the first sight of its
/// physical id, and not at all if the id was already seen — while every
/// reference adds its referenced bytes and raises the reference counter.
pub proof fn lemma_shared_extent_credited_once(
    c: CompsizeModel,
    seen: Set<u64>,
    key: ExtentKey,
    comp: Compression,
    st: StatModel,
    n: nat,
)
    requires
        model_wf(c),
        key.extent_type is Regular,
        n > 0,
    ensures
        ({
            let ci = comp.as_int();
            let out = account_seq_model(c, seen, Seq::new(n, |i: int| (key, comp, st))).0;
            &&& out.by_comp[ci].disk == c.by_comp[ci].disk + (if seen.contains(key.key) {
                0int
            } else {
                st.disk
            })
            &&& out.by_comp[ci].uncomp == c.by_comp[ci].uncomp + (if seen.contains(key.key) {
                0int
            } else {
                st.uncomp
            })
            &&& out.by_comp[ci].refd == c.by_comp[ci].refd + n * st.refd
            &&& out.nref == c.nref + n
        }),
    decreases n,
{
    let ci = comp.as_int();
    let recs = Seq::new(n, |i: int| (key, comp, st));
    assert(recs[0] == (key, comp, st));
    let step = account_model(c, seen, key, comp, st);
    assert(account_seq_model(c, seen, recs) == account_seq_model(step.0, step.1, recs.drop_first()));
    lemma_account_model_step(c, seen, key, comp, st);
    if n == 1 {
        assert(recs.drop_first() =~= Seq::<(ExtentKey, Compression, StatModel)>::empty());
        assert(account_seq_model(c, seen, recs).0 == step.0);
    } else {
        assert(recs.drop_first() =~= Seq::new((n - 1) as nat, |i: int| (key, comp, st)));
        lemma_shared_extent_credited_once(step.0, step.1, key, comp, st, (n - 1) as nat);
        assert(step.1.contains(key.key));
        assert((n - 1) * st.refd + st.refd == n * st.refd) by (nonlinear_arith);
    }
}

pub fn merge_stat(
    extent_map: &mut DedupSet,
    key: ExtentKey,
    comp: Compression,
    stat: ExtentStat,
    ret: &mut CompsizeStat,
)
    requires
        account_fits(*old(ret), key, comp, stat),
    ensures
        final(ret).model() == account_model(
            old(ret).model(),
            dedup_ids(*old(extent_map)),
            key,
            comp,
            stat.model(),
        ).0,
        dedup_ids(*final(extent_map)) == account_model(
            old(ret).model(),
            dedup_ids(*old(extent_map)),
            key,
            comp,
            stat.model(),
        ).1,
{
    let ghost seen0 = dedup_ids(*extent_map);
    let i = comp.as_usize();
    match key.extent_type() {
        ExtentType::Inline => {
            ret.ninline = ret.ninline + 1;
            ret.stat[i].disk = ret.stat[i].disk + stat.disk;
            ret.stat[i].uncomp = ret.stat[i].uncomp + stat.uncomp;
            ret.stat[i].refd = ret.stat[i].refd + stat.refd;
            proof {
                assert(ret.model().by_comp =~= old(ret).model().by_comp.update(
                    i as int,
                    merge_stat_model(old(ret).model().by_comp[i as int], stat.model()),
                ));
                assert(ret.model() =~= account_model(
                    old(ret).model(),
                    seen0,
                    key,
                    comp,
                    stat.model(),
                ).0);
            }
        },
        ExtentType::Regular => {
            ret.nref = ret.nref + 1;
            if extent_map.insert(key.key()) {
                ret.nextent = ret.nextent + 1;
                ret.stat[i].disk = ret.stat[i].disk + stat.disk;
                ret.stat[i].uncomp = ret.stat[i].uncomp + stat.uncomp;
            }
            ret.stat[i].refd = ret.stat[i].refd + stat.refd;
            proof {
                if seen0.contains(key.key) {
                    assert(dedup_ids(*extent_map) =~= seen0);
                    assert(ret.model().by_comp =~= old(ret).model().by_comp.update(
                        i as int,
                        add_refd_model(old(ret).model().by_comp[i as int], stat.model().refd),
                    ));
                } else {
                    assert(ret.model().by_comp =~= old(ret).model().by_comp.update(
                        i as int,
                        merge_stat_model(old(ret).model().by_comp[i as int], stat.model()),
                    ));
                }
                assert(ret.model() =~= account_model(
                    old(ret).model(),
                    seen0,
                    key,
                    comp,
                    stat.model(),
                ).0);
            }
        },
        ExtentType::Prealloc => {
            ret.nref = ret.nref + 1;
            if extent_map.insert(key.key()) {
                ret.nextent = ret.nextent + 1;
                ret.prealloc.disk = ret.prealloc.disk + stat.disk;
                ret.prealloc.uncomp = ret.prealloc.uncomp + stat.uncomp;
            }
            ret.prealloc.refd = ret.prealloc.refd + stat.refd;
            proof {
                if seen0.contains(key.key) {
                    assert(dedup_ids(*extent_map) =~= seen0);
                }
                assert(ret.model().by_comp =~= old(ret).model().by_comp);
                assert(ret.model() =~= account_model(
                    old(ret).model(),
                    seen0,
                    key,
                    comp,
                    stat.model(),
                ).0);
            }
        },
    }
}

} // verus!
