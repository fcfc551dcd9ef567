//! Allocation of kernel virtual address space, and the kernel memory map.
//!
//! The free virtual pages are kept as a sorted list of disjoint, non-adjacent
//! page ranges.

use vstd::prelude::*;

use crate::canon::{canon_half_pages, ends_ok, high_half_page, canon_page, higher_half_vpn, is_canon_kernel_page_range, valid_levels};
use crate::errno::{EResult, Errno};
use crate::pagetable::{PageTable, PtMem, PTE, distinct_links, lemma_distinct_leaf_entries, table_span, pack_spec, unpack_spec, reach, path_changes, tables_kept, invalid_kept, lemma_reach_kept, lemma_walk_via, lemma_reach_props, lemma_walk_level, lemma_invalid_walk};
use crate::pmm::{domain, PAGE_SIZE, PPN, Pmm};
use crate::prot;

verus! {

/// Virtual page number.
pub type VPN = usize;

/// A half-open range of virtual pages, `start..end`.
#[derive(Clone, Copy, Debug, PartialEq, Eq, Structural)]
pub struct VpnRange {
    /// First page of the range.
    pub start: VPN,
    /// First page after the range.
    pub end: VPN,
}

/// Number of pages in a range.
pub open spec fn rlen(r: VpnRange) -> int {
    r.end - r.start
}

/// Whether page `p` lies in range `r`.
pub open spec fn in_range(r: VpnRange, p: int) -> bool {
    r.start <= p < r.end
}

/// Whether page `p` lies in some range of `s`.
pub open spec fn covered(s: Seq<VpnRange>, p: int) -> bool {
    exists|i: int| 0 <= i < s.len() && in_range(#[trigger] s[i], p)
}

/// The set of pages that lie in the ranges of `s`.
pub open spec fn page_set(s: Seq<VpnRange>) -> Set<int> {
    Set::new(|p: int| covered(s, p))
}

/// The set of pages `lo..hi`.
pub open spec fn span(lo: int, hi: int) -> Set<int> {
    Set::new(|p: int| lo <= p < hi)
}

/// Total number of pages in the ranges of `s`.
pub open spec fn total(s: Seq<VpnRange>) -> int
    decreases s.len(),
{
    if s.len() == 0 {
        0
    } else {
        total(s.drop_last()) + rlen(s.last())
    }
}

/// The ranges of `s` are non-empty, in ascending order, and neither overlap
/// nor touch.
pub open spec fn well_sorted(s: Seq<VpnRange>) -> bool {
    &&& forall|i: int| 0 <= i < s.len() ==> (#[trigger] s[i]).start < s[i].end
    &&& forall|i: int, j: int| 0 <= i < j < s.len() ==> (#[trigger] s[i]).end < (#[trigger] s[j]).start
}

/// Every range of `s` lies within `lo..hi`.
pub open spec fn within(s: Seq<VpnRange>, lo: int, hi: int) -> bool {
    forall|i: int| 0 <= i < s.len() ==> lo <= (#[trigger] s[i]).start && s[i].end <= hi
}

/// Index of the first range of `s` that holds at least `need` pages, or
/// the length of `s` when there is none.
pub open spec fn first_fit(s: Seq<VpnRange>, need: int) -> int
    decreases s.len(),
{
    if s.len() == 0 {
        0
    } else if rlen(s[0]) >= need {
        0
    } else {
        1 + first_fit(s.drop_first(), need)
    }
}

/// Totals add up over concatenation.
pub proof fn lemma_total_concat(a: Seq<VpnRange>, b: Seq<VpnRange>)
    ensures
        total(a + b) == total(a) + total(b),
    decreases b.len(),
{
    if b.len() == 0 {
        assert(a + b =~= a);
    } else {
        lemma_total_concat(a, b.drop_last());
        assert((a + b).drop_last() =~= a + b.drop_last());
    }
}

/// How the total changes when one range is replaced, removed or inserted.
pub proof fn lemma_total_edit(s: Seq<VpnRange>, i: int, x: VpnRange)
    requires
        0 <= i < s.len(),
    ensures
        total(s.update(i, x)) == total(s) - rlen(s[i]) + rlen(x),
        total(s.remove(i)) == total(s) - rlen(s[i]),
        total(s.insert(i, x)) == total(s) + rlen(x),
{
    let pre = s.subrange(0, i);
    let post = s.subrange(i + 1, s.len() as int);
    assert(s =~= pre + seq![s[i]] + post);
    assert(s.update(i, x) =~= pre + seq![x] + post);
    assert(s.remove(i) =~= pre + post);
    assert(s.insert(i, x) =~= pre + seq![x] + seq![s[i]] + post);
    lemma_total_concat(pre + seq![s[i]], post);
    lemma_total_concat(pre, seq![s[i]]);
    lemma_total_concat(pre + seq![x], post);
    lemma_total_concat(pre, seq![x]);
    lemma_total_concat(pre, post);
    lemma_total_concat(pre + seq![x] + seq![s[i]], post);
    lemma_total_concat(pre + seq![x], seq![s[i]]);
    lemma_total_single(x);
    lemma_total_single(s[i]);
}

/// The total of a single range is its length.
pub proof fn lemma_total_single(x: VpnRange)
    ensures
        total(seq![x]) == rlen(x),
{
    assert(seq![x].drop_last() =~= Seq::<VpnRange>::empty());
    assert(total(Seq::<VpnRange>::empty()) == 0);
}

/// Inserting at the end of a sequence is pushing.
pub proof fn lemma_total_insert_end(s: Seq<VpnRange>, x: VpnRange)
    ensures
        total(s.insert(s.len() as int, x)) == total(s) + rlen(x),
{
    assert(s.insert(s.len() as int, x) =~= s.push(x));
    assert(s.push(x).drop_last() =~= s);
}

/// Sorted ranges hold no more pages than the span from the first start to the last end.
pub proof fn lemma_total_bound(s: Seq<VpnRange>)
    requires
        well_sorted(s),
        s.len() > 0,
    ensures
        0 <= total(s) <= s.last().end - s[0].start,
    decreases s.len(),
{
    if s.len() > 1 {
        let t = s.drop_last();
        assert(well_sorted(t)) by {
            assert forall|i: int, j: int| 0 <= i < j < t.len() implies (#[trigger] t[i]).end < (#[trigger] t[j]).start by {
                assert(s[i].end < s[j].start);
            }
        }
        lemma_total_bound(t);
        assert(t.last() == s[s.len() - 2]);
        assert(t[0] == s[0]);
        assert(s[s.len() - 2].end < s[s.len() - 1].start);
        assert(s[s.len() - 1].start < s[s.len() - 1].end);
    } else {
        assert(s.drop_last() =~= Seq::<VpnRange>::empty());
        assert(total(s.drop_last()) == 0);
        assert(s[0].start < s[0].end);
    }
}

/// Sorted ranges within `lo..hi` hold no more than `hi - lo` pages.
pub proof fn lemma_total_within(s: Seq<VpnRange>, lo: int, hi: int)
    requires
        well_sorted(s),
        within(s, lo, hi),
    ensures
        0 <= total(s),
        s.len() > 0 ==> total(s) <= hi - lo,
{
    if s.len() > 0 {
        lemma_total_bound(s);
    }
}

/// A page is covered by a concatenation when it is covered by either part.
pub proof fn lemma_covered_concat(a: Seq<VpnRange>, b: Seq<VpnRange>, p: int)
    ensures
        covered(a + b, p) <==> covered(a, p) || covered(b, p),
{
    if covered(a + b, p) {
        let i = choose|i: int| 0 <= i < (a + b).len() && in_range(#[trigger] (a + b)[i], p);
        if i < a.len() {
            assert(in_range(a[i], p));
        } else {
            assert(in_range(b[i - a.len()], p));
        }
    }
    if covered(a, p) {
        let i = choose|i: int| 0 <= i < a.len() && in_range(#[trigger] a[i], p);
        assert(in_range((a + b)[i], p));
    }
    if covered(b, p) {
        let i = choose|i: int| 0 <= i < b.len() && in_range(#[trigger] b[i], p);
        assert(in_range((a + b)[a.len() + i], p));
    }
}

/// A page is covered by a one-range sequence when it lies in that range.
pub proof fn lemma_covered_single(x: VpnRange, p: int)
    ensures
        covered(seq![x], p) <==> in_range(x, p),
{
    if in_range(x, p) {
        assert(in_range(seq![x][0], p));
    }
}

/// Splitting a sequence around one element, for coverage.
pub proof fn lemma_covered_split(s: Seq<VpnRange>, i: int, p: int)
    requires
        0 <= i < s.len(),
    ensures
        covered(s, p) <==> covered(s.subrange(0, i), p) || in_range(s[i], p) || covered(
            s.subrange(i + 1, s.len() as int),
            p,
        ),
{
    let pre = s.subrange(0, i);
    let post = s.subrange(i + 1, s.len() as int);
    assert(s =~= pre + seq![s[i]] + post);
    lemma_covered_concat(pre + seq![s[i]], post, p);
    lemma_covered_concat(pre, seq![s[i]], p);
    lemma_covered_single(s[i], p);
}

/// Allocator for virtual address ranges.
pub struct VmaAlloc {
    /// Any pages before this will never be marked free.
    range_start: VPN,
    /// Any pages at or after this will never be marked free.
    range_end: VPN,
    /// Number of free virtual pages.
    free_page_count: VPN,
    /// Free ranges in ascending order.
    free_list: Vec<VpnRange>,
}

impl VmaAlloc {
    /// Padding implicitly placed before and after any range allocated by [`Self::alloc_pages`].
    pub const PADDING: VPN = 16;

    /// The free ranges, in ascending order.
    pub closed spec fn ranges(&self) -> Seq<VpnRange> {
        self.free_list@
    }

    /// The free pages.
    pub open spec fn pages(&self) -> Set<int> {
        page_set(self.ranges())
    }

    /// Pages before this are never free.
    pub closed spec fn lo(&self) -> int {
        self.range_start as int
    }

    /// Pages at or after this are never free.
    pub closed spec fn hi(&self) -> int {
        self.range_end as int
    }

    /// The allocator's invariant.
    pub closed spec fn wf(&self) -> bool {
        &&& well_sorted(self.free_list@)
        &&& within(self.free_list@, self.range_start as int, self.range_end as int)
        &&& self.free_page_count == total(self.free_list@)
    }

    /// What the invariant tells of the free ranges.
    pub proof fn lemma_wf(&self)
        requires
            self.wf(),
        ensures
            well_sorted(self.ranges()),
            within(self.ranges(), self.lo(), self.hi()),
    {
    }

    /// Create an allocator whose free pages are `page_range`.
    pub fn new(page_range: VpnRange) -> (r: EResult<Self>)
        ensures
            r is Ok,
            r->Ok_0.wf(),
            r->Ok_0.lo() == page_range.start,
            r->Ok_0.hi() == page_range.end,
            r->Ok_0.pages() == span(page_range.start as int, page_range.end as int),
    {
        let mut tmp = Self {
            range_start: page_range.start,
            range_end: page_range.end,
            free_page_count: 0,
            free_list: Vec::new(),
        };
        proof {
            assert(total(tmp.free_list@) == 0);
        }
        tmp.free(page_range);
        proof {
            assert(tmp.pages() =~= span(page_range.start as int, page_range.end as int));
        }
        Ok(tmp)
    }

    /// The amount of free pages of virtual memory left in total.
    pub fn _free_page_count(&self) -> (r: VPN)
        requires
            self.wf(),
        ensures
            r == total(self.ranges()),
    {
        self.free_page_count
    }

    /// Remove the pages `ps..pe` from the free ranges, trimming or splitting
    /// the ranges that overlap them. Returns where a range starting at `ps`
    /// would be inserted.
    #[verifier::spinoff_prover]
    #[verifier::rlimit(60)]
    fn steal_impl(&mut self, ps: VPN, pe: VPN) -> (idx: usize)
        requires
            old(self).wf(),
            ps < pe,
        ensures
            final(self).wf(),
            final(self).range_start == old(self).range_start,
            final(self).range_end == old(self).range_end,
            forall|p: int| #[trigger] covered(final(self).free_list@, p) <==> covered(old(self).free_list@, p) && !(ps <= p < pe),
            idx <= final(self).free_list@.len(),
            forall|k: int| 0 <= k < idx ==> (#[trigger] final(self).free_list@[k]).end <= ps,
            forall|k: int| idx <= k < final(self).free_list@.len() ==> (#[trigger] final(self).free_list@[k]).start >= pe,
    {
        let ghost old_list = self.free_list@;
        let mut i: usize = 0;
        let ghost mut j: int = 0;
        loop
            invariant_except_break
                0 <= j <= old_list.len(),
                self.free_list@.subrange(i as int, self.free_list@.len() as int) =~= old_list.subrange(
                    j,
                    old_list.len() as int,
                ),
                forall|p: int|
                    #[trigger] covered(self.free_list@.subrange(0, i as int), p) <==> covered(old_list.subrange(0, j), p)
                        && !(ps <= p < pe),
            invariant
                well_sorted(self.free_list@),
                within(self.free_list@, self.range_start as int, self.range_end as int),
                self.free_page_count == total(self.free_list@),
                self.range_start == old(self).range_start,
                self.range_end == old(self).range_end,
                old_list == old(self).free_list@,
                well_sorted(old_list),
                ps < pe,
                0 <= i <= self.free_list@.len(),
                forall|k: int| 0 <= k < i ==> (#[trigger] self.free_list@[k]).end <= ps,
            ensures
                well_sorted(self.free_list@),
                within(self.free_list@, self.range_start as int, self.range_end as int),
                self.free_page_count == total(self.free_list@),
                self.range_start == old(self).range_start,
                self.range_end == old(self).range_end,
                forall|p: int| #[trigger] covered(self.free_list@, p) <==> covered(old_list, p) && !(ps <= p < pe),
                i <= self.free_list@.len(),
                forall|k: int| 0 <= k < i ==> (#[trigger] self.free_list@[k]).end <= ps,
                forall|k: int| i <= k < self.free_list@.len() ==> (#[trigger] self.free_list@[k]).start >= pe,
            decreases self.free_list@.len() - i, old_list.len() - j,
        {
            let ghost cur = self.free_list@;
            if i >= self.free_list.len() {
                proof {
                    assert(j == old_list.len()) by {
                        assert(cur.subrange(i as int, cur.len() as int).len() == 0);
                    }
                    assert(cur.subrange(0, i as int) =~= cur);
                    assert(old_list.subrange(0, j) =~= old_list);
                }
                break;
            }
            let e = self.free_list[i];
            proof {
                assert(cur.subrange(i as int, cur.len() as int)[0] == e);
                assert(old_list[j] == e);
                assert(cur =~= cur.subrange(0, i as int) + cur.subrange(i as int, cur.len() as int));
                assert(old_list =~= old_list.subrange(0, j) + old_list.subrange(j, old_list.len() as int));
                assert(old_list.subrange(0, j + 1) =~= old_list.subrange(0, j) + seq![e]);
                assert forall|p: int| #[trigger] covered(old_list.subrange(0, j + 1), p) <==> covered(old_list.subrange(0, j), p)
                    || in_range(e, p) by {
                    lemma_covered_concat(old_list.subrange(0, j), seq![e], p);
                    lemma_covered_single(e, p);
                }
            }
            if e.end <= ps {
                // Entirely before the stolen pages.
                proof {
                    assert(cur.subrange(0, i + 1) =~= cur.subrange(0, i as int) + seq![e]);
                    assert forall|p: int| #[trigger] covered(cur.subrange(0, i + 1), p) <==> covered(old_list.subrange(0, j + 1), p)
                        && !(ps <= p < pe) by {
                        lemma_covered_concat(cur.subrange(0, i as int), seq![e], p);
                        lemma_covered_single(e, p);
                    }
                    assert(cur.subrange(i + 1, cur.len() as int) =~= old_list.subrange(j + 1, old_list.len() as int));
                    j = j + 1;
                }
                i = i + 1;
            } else if e.start >= pe {
                // First range after the stolen pages.
                proof {
                    assert forall|k: int| i <= k < cur.len() implies (#[trigger] cur[k]).start >= pe by {
                        if k > i {
                            assert(cur[i as int].end < cur[k].start);
                        }
                    }
                    assert forall|p: int| #[trigger] covered(cur, p) <==> covered(old_list, p) && !(ps <= p < pe) by {
                        lemma_covered_concat(cur.subrange(0, i as int), cur.subrange(i as int, cur.len() as int), p);
                        lemma_covered_concat(old_list.subrange(0, j), old_list.subrange(j, old_list.len() as int), p);
                        if covered(old_list.subrange(j, old_list.len() as int), p) {
                            let t = choose|t: int|
                                0 <= t < old_list.subrange(j, old_list.len() as int).len() && in_range(
                                    #[trigger] old_list.subrange(j, old_list.len() as int)[t],
                                    p,
                                );
                            assert(cur[i + t].start >= pe);
                        }
                    }
                }
                break;
            } else if e.start >= ps && e.end <= pe {
                // Entirely within the stolen pages.
                let removed = self.free_list.remove(i);
                proof {
                    lemma_total_edit(cur, i as int, e);
                    lemma_remove_sorted(cur, i as int);
                    lemma_total_within(self.free_list@, self.range_start as int, self.range_end as int);
                    assert(self.free_list@.subrange(0, i as int) =~= cur.subrange(0, i as int));
                    assert(self.free_list@.subrange(i as int, self.free_list@.len() as int) =~= old_list.subrange(
                        j + 1,
                        old_list.len() as int,
                    ));
                    j = j + 1;
                }
                self.free_page_count = self.free_page_count - (e.end - e.start);
            } else if e.start < ps && e.end > pe {
                // Strictly covers the stolen pages: split it in two.
                let left = VpnRange { start: e.start, end: ps };
                let right = VpnRange { start: pe, end: e.end };
                self.free_list.set(i, left);
                self.free_list.insert(i + 1, right);
                proof {
                    lemma_total_edit(cur, i as int, left);
                    let c1 = cur.update(i as int, left);
                    if i + 1 < c1.len() {
                        lemma_total_edit(c1, i + 1, right);
                    } else {
                        lemma_total_insert_end(c1, right);
                    }
                    let nl = self.free_list@;
                    assert(nl =~= cur.subrange(0, i as int) + seq![left, right] + cur.subrange(i + 1, cur.len() as int));
                    assert forall|a: int, b: int| 0 <= a < b < nl.len() implies (#[trigger] nl[a]).end < (#[trigger] nl[b]).start by {
                        let oa = if a <= i { a } else { a - 1 };
                        let ob = if b <= i { b } else { b - 1 };
                        if oa < ob {
                            assert(cur[oa].end < cur[ob].start);
                        }
                    }
                    assert forall|p: int| #[trigger] covered(nl, p) <==> covered(old_list, p) && !(ps <= p < pe) by {
                        lemma_covered_concat(cur.subrange(0, i as int) + seq![left, right], cur.subrange(i + 1, cur.len() as int), p);
                        lemma_covered_concat(cur.subrange(0, i as int), seq![left, right], p);
                        assert(seq![left, right] =~= seq![left] + seq![right]);
                        lemma_covered_concat(seq![left], seq![right], p);
                        lemma_covered_single(left, p);
                        lemma_covered_single(right, p);
                        lemma_covered_split(old_list, j, p);
                        assert(old_list.subrange(j + 1, old_list.len() as int) =~= cur.subrange(i + 1, cur.len() as int));
                    }
                    assert forall|k: int| i + 1 <= k < nl.len() implies (#[trigger] nl[k]).start >= pe by {
                        if k > i + 1 {
                            assert(cur[i as int].end < cur[k - 1].start);
                        }
                    }
                    assert forall|k: int| 0 <= k < nl.len() implies self.range_start <= (#[trigger] nl[k]).start
                        && nl[k].end <= self.range_end by {
                        let ok = if k <= i { k } else { k - 1 };
                        assert(cur[ok].start >= self.range_start && cur[ok].end <= self.range_end);
                    }
                    lemma_total_within(nl, self.range_start as int, self.range_end as int);
                }
                self.free_page_count = self.free_page_count - (pe - ps);
                i = i + 1;
                break;
            } else if e.start < ps {
                // Its end lies within the stolen pages: trim it.
                let left = VpnRange { start: e.start, end: ps };
                self.free_list.set(i, left);
                proof {
                    lemma_total_edit(cur, i as int, left);
                    let nl = self.free_list@;
                    assert forall|a: int, b: int| 0 <= a < b < nl.len() implies (#[trigger] nl[a]).end < (#[trigger] nl[b]).start by {
                        assert(cur[a].end < cur[b].start);
                    }
                    assert(nl.subrange(0, i + 1) =~= cur.subrange(0, i as int) + seq![left]);
                    assert forall|p: int| #[trigger] covered(nl.subrange(0, i + 1), p) <==> covered(old_list.subrange(0, j + 1), p)
                        && !(ps <= p < pe) by {
                        lemma_covered_concat(cur.subrange(0, i as int), seq![left], p);
                        lemma_covered_single(left, p);
                    }
                    assert(nl.subrange(i + 1, nl.len() as int) =~= old_list.subrange(j + 1, old_list.len() as int));
                    j = j + 1;
                    assert(within(nl, self.range_start as int, self.range_end as int));
                    lemma_total_within(nl, self.range_start as int, self.range_end as int);
                }
                self.free_page_count = self.free_page_count - (e.end - ps);
                i = i + 1;
            } else {
                // Its start lies within the stolen pages: trim it.
                let right = VpnRange { start: pe, end: e.end };
                self.free_list.set(i, right);
                proof {
                    lemma_total_edit(cur, i as int, right);
                    let nl = self.free_list@;
                    assert forall|a: int, b: int| 0 <= a < b < nl.len() implies (#[trigger] nl[a]).end < (#[trigger] nl[b]).start by {
                        assert(cur[a].end < cur[b].start);
                    }
                    assert forall|k: int| i <= k < nl.len() implies (#[trigger] nl[k]).start >= pe by {
                        if k > i {
                            assert(cur[i as int].end < cur[k].start);
                        }
                    }
                    assert forall|p: int| #[trigger] covered(nl, p) <==> covered(old_list, p) && !(ps <= p < pe) by {
                        lemma_covered_split(nl, i as int, p);
                        lemma_covered_split(old_list, j, p);
                        assert(nl.subrange(0, i as int) =~= cur.subrange(0, i as int));
                        assert(nl.subrange(i + 1, nl.len() as int) =~= old_list.subrange(j + 1, old_list.len() as int));
                    }
                    assert(within(nl, self.range_start as int, self.range_end as int));
                    lemma_total_within(nl, self.range_start as int, self.range_end as int);
                }
                self.free_page_count = self.free_page_count - (pe - e.start);
                break;
            }
        }
        i
    }

    /// Mark a new region as free; pages outside the allocator's bounds are ignored.
    #[verifier::spinoff_prover]
    #[verifier::rlimit(100)]
    pub fn free(&mut self, pages: VpnRange)
        requires
            old(self).wf(),
        ensures
            final(self).wf(),
            final(self).lo() == old(self).lo(),
            final(self).hi() == old(self).hi(),
            final(self).pages() == old(self).pages().union(
                span(vstd::math::max(pages.start as int, old(self).lo()), vstd::math::min(pages.end as int, old(self).hi())),
            ),
    {
        let ps = if pages.start > self.range_start { pages.start } else { self.range_start };
        let pe = if pages.end < self.range_end { pages.end } else { self.range_end };
        let ghost old_list = self.free_list@;
        if ps >= pe {
            proof {
                assert(self.pages() =~= old(self).pages().union(span(ps as int, pe as int)));
            }
            return;
        }
        let m0 = VpnRange { start: ps, end: pe };
        if self.free_list.len() == 0 {
            self.free_list.push(m0);
            proof {
                assert(self.free_list@ =~= merge_at(old_list, 0, ps as int, pe as int));
                lemma_merge_at(old_list, 0, ps as int, pe as int, self.range_start as int, self.range_end as int);
                lemma_total_within(self.free_list@, self.range_start as int, self.range_end as int);
                assert(self.pages() =~= old(self).pages().union(span(ps as int, pe as int)));
            }
            self.free_page_count = self.free_page_count + (pe - ps);
            return;
        }
        let idx = self.steal_impl(ps, pe);
        let ghost l = self.free_list@;
        insert_merged(&mut self.free_list, idx, ps, pe);
        proof {
            lemma_merge_at(l, idx as int, ps as int, pe as int, self.range_start as int, self.range_end as int);
            lemma_total_within(self.free_list@, self.range_start as int, self.range_end as int);
            assert(self.pages() =~= old(self).pages().union(span(ps as int, pe as int)));
        }
        self.free_page_count = self.free_page_count + (pe - ps);
    }

    /// Mark a specific range as in use.
    pub fn steal(&mut self, pages: VpnRange)
        requires
            old(self).wf(),
        ensures
            final(self).wf(),
            final(self).lo() == old(self).lo(),
            final(self).hi() == old(self).hi(),
            final(self).pages() == old(self).pages().difference(span(pages.start as int, pages.end as int)),
    {
        if pages.start >= pages.end {
            proof {
                assert(self.pages() =~= old(self).pages().difference(span(pages.start as int, pages.end as int)));
            }
            return;
        }
        self.steal_impl(pages.start, pages.end);
        proof {
            assert(self.pages() =~= old(self).pages().difference(span(pages.start as int, pages.end as int)));
        }
    }

    /// Allocate a range of pages: the first free range that holds the pages
    /// and the padding on either side gives up that many pages from its
    /// start, and the page after the leading padding is returned.
    pub fn alloc_pages(&mut self, amount: VPN) -> (r: EResult<VPN>)
        requires
            old(self).wf(),
            amount <= usize::MAX - 2 * Self::PADDING,
        ensures
            final(self).wf(),
            final(self).lo() == old(self).lo(),
            final(self).hi() == old(self).hi(),
            amount == 0 ==> r == Err::<VPN, Errno>(Errno::EINVAL),
            amount > 0 ==> ({
                let need = amount + 2 * Self::PADDING;
                let i = first_fit(old(self).ranges(), need);
                if i == old(self).ranges().len() {
                    r == Err::<VPN, Errno>(Errno::ENOMEM)
                } else {
                    &&& r == Ok::<VPN, Errno>((old(self).ranges()[i].start + Self::PADDING) as VPN)
                    &&& final(self).pages() == old(self).pages().difference(
                        span(old(self).ranges()[i].start as int, old(self).ranges()[i].start + need),
                    )
                }
            }),
            r is Err ==> final(self).pages() == old(self).pages(),
            r matches Ok(v) ==> old(self).lo() <= v && v + amount + Self::PADDING <= old(self).hi(),
    {
        if amount == 0 {
            return Err(Errno::EINVAL);
        }
        let need = amount + 2 * Self::PADDING;
        let ghost s = self.free_list@;
        let mut i: usize = 0;
        proof {
            assert(s.subrange(0, s.len() as int) =~= s);
        }
        while i < self.free_list.len()
            invariant
                self.wf(),
                self.free_list@ == s,
                s == old(self).free_list@,
                self.range_start == old(self).range_start,
                self.range_end == old(self).range_end,
                need == amount + 2 * Self::PADDING,
                amount > 0,
                i <= s.len(),
                first_fit(s, need as int) == i + first_fit(s.subrange(i as int, s.len() as int), need as int),
            decreases s.len() - i,
        {
            let e = self.free_list[i];
            proof {
                assert(within(s, self.range_start as int, self.range_end as int));
                assert(self.range_start <= s[i as int].start && s[i as int].end <= self.range_end);
                let t = s.subrange(i as int, s.len() as int);
                assert(t[0] == e);
                assert(t.drop_first() =~= s.subrange(i + 1, s.len() as int));
            }
            if e.end - e.start == need {
                self.free_list.remove(i);
                proof {
                    lemma_total_edit(s, i as int, e);
                    lemma_remove_sorted(s, i as int);
                    lemma_total_within(self.free_list@, self.range_start as int, self.range_end as int);
                    let nl = self.free_list@;
                    assert forall|a: int, b: int| 0 <= a < b < nl.len() implies (#[trigger] nl[a]).end < (#[trigger] nl[b]).start by {
                        let oa = if a < i { a } else { a + 1 };
                        let ob = if b < i { b } else { b + 1 };
                        assert(s[oa].end < s[ob].start);
                    }
                    assert forall|k: int| 0 <= k < nl.len() implies (#[trigger] nl[k]).start < nl[k].end by {
                        let ok = if k < i { k } else { k + 1 };
                        assert(nl[k] == s[ok]);
                    }
                    assert forall|k: int| 0 <= k < nl.len() implies self.range_start <= (#[trigger] nl[k]).start
                        && nl[k].end <= self.range_end by {
                        let ok = if k < i { k } else { k + 1 };
                        assert(nl[k] == s[ok]);
                    }
                    assert forall|p: int| #[trigger] self.pages().contains(p) <==> old(self).pages().difference(
                        span(e.start as int, e.start + need),
                    ).contains(p) by {
                        lemma_covered_split(s, i as int, p);
                        lemma_covered_concat(s.subrange(0, i as int), s.subrange(i + 1, s.len() as int), p);
                        assert(nl =~= s.subrange(0, i as int) + s.subrange(i + 1, s.len() as int));
                        if in_range(s[i as int], p) {
                            lemma_not_covered_elsewhere(s, i as int, p);
                        }
                    }
                    assert(self.pages() =~= old(self).pages().difference(span(e.start as int, e.start + need)));
                }
                self.free_page_count = self.free_page_count - need;
                return Ok(e.start + Self::PADDING);
            } else if e.end - e.start > need {
                let rest = VpnRange { start: e.start + need, end: e.end };
                self.free_list.set(i, rest);
                proof {
                    lemma_total_edit(s, i as int, rest);
                    let nl = self.free_list@;
                    assert forall|a: int, b: int| 0 <= a < b < nl.len() implies (#[trigger] nl[a]).end < (#[trigger] nl[b]).start by {
                        assert(s[a].end < s[b].start);
                    }
                    assert forall|p: int| #[trigger] self.pages().contains(p) <==> old(self).pages().difference(
                        span(e.start as int, e.start + need),
                    ).contains(p) by {
                        lemma_covered_split(s, i as int, p);
                        lemma_covered_split(nl, i as int, p);
                        assert(nl.subrange(0, i as int) =~= s.subrange(0, i as int));
                        assert(nl.subrange(i + 1, nl.len() as int) =~= s.subrange(i + 1, s.len() as int));
                        if in_range(s[i as int], p) {
                            lemma_not_covered_elsewhere(s, i as int, p);
                        }
                    }
                    assert(self.pages() =~= old(self).pages().difference(span(e.start as int, e.start + need)));
                    assert(nl[i as int].start < nl[i as int].end);
                    assert(within(nl, self.range_start as int, self.range_end as int));
                    lemma_total_within(nl, self.range_start as int, self.range_end as int);
                }
                self.free_page_count = self.free_page_count - need;
                return Ok(e.start + Self::PADDING);
            }
            i = i + 1;
        }
        proof {
            assert(s.subrange(i as int, s.len() as int).len() == 0);
        }
        Err(Errno::ENOMEM)
    }
}

/// Insert the range `ps..pe` at `idx`, joined with a neighbour that touches it.
fn insert_merged(list: &mut Vec<VpnRange>, idx: usize, ps: VPN, pe: VPN)
    requires
        idx <= old(list)@.len(),
    ensures
        final(list)@ == merge_at(old(list)@, idx as int, ps as int, pe as int),
{
    let ghost l = list@;
    let mut m = VpnRange { start: ps, end: pe };
    let mut at = idx;
    if idx < list.len() && list[idx].start == pe {
        let b = list.remove(idx);
        m = VpnRange { start: m.start, end: b.end };
    }
    if idx > 0 && list[idx - 1].end == ps {
        let a = list.remove(idx - 1);
        m = VpnRange { start: a.start, end: m.end };
        at = idx - 1;
    }
    let ghost l2 = list@;
    list.insert(at, m);
    proof {
        let b_m = idx < l.len() && l[idx as int].start == pe;
        let a_m = idx > 0 && l[idx - 1].end == ps;
        let a_part = if a_m { l.subrange(0, idx - 1) } else { l.subrange(0, idx as int) };
        let b_part = if b_m { l.subrange(idx + 1, l.len() as int) } else { l.subrange(idx as int, l.len() as int) };
        assert(l2 =~= a_part + b_part);
        assert(list@ =~= merge_at(l, idx as int, ps as int, pe as int));
    }
}

/// The free ranges after inserting `ps..pe` at `idx` into `l` and joining
/// it with a neighbour that touches it.
pub open spec fn merge_at(l: Seq<VpnRange>, idx: int, ps: int, pe: int) -> Seq<VpnRange> {
    let b_m = idx < l.len() && l[idx].start == pe;
    let a_m = idx > 0 && l[idx - 1].end == ps;
    let m = VpnRange {
        start: if a_m { l[idx - 1].start } else { ps as usize },
        end: if b_m { l[idx].end } else { pe as usize },
    };
    let a_part = if a_m { l.subrange(0, idx - 1) } else { l.subrange(0, idx) };
    let b_part = if b_m { l.subrange(idx + 1, l.len() as int) } else { l.subrange(idx, l.len() as int) };
    a_part + seq![m] + b_part
}

/// What inserting and joining a range keeps and changes.
#[verifier::spinoff_prover]
pub proof fn lemma_merge_at(l: Seq<VpnRange>, idx: int, ps: int, pe: int, lo: int, hi: int)
    requires
        well_sorted(l),
        within(l, lo, hi),
        0 <= lo <= ps < pe <= hi,
        pe <= usize::MAX,
        0 <= idx <= l.len(),
        forall|k: int| 0 <= k < idx ==> (#[trigger] l[k]).end <= ps,
        forall|k: int| idx <= k < l.len() ==> (#[trigger] l[k]).start >= pe,
    ensures
        well_sorted(merge_at(l, idx, ps, pe)),
        within(merge_at(l, idx, ps, pe), lo, hi),
        total(merge_at(l, idx, ps, pe)) == total(l) + (pe - ps),
        forall|p: int| #[trigger] covered(merge_at(l, idx, ps, pe), p) <==> covered(l, p) || ps <= p < pe,
{
    lemma_merge_sorted(l, idx, ps, pe, lo, hi);
    lemma_merge_total(l, idx, ps, pe);
    assert forall|p: int| #[trigger] covered(merge_at(l, idx, ps, pe), p) <==> covered(l, p) || ps <= p < pe by {
        lemma_merge_covered(l, idx, ps, pe, p);
    }
}

/// Inserting and joining keeps the ranges sorted and within bounds.
proof fn lemma_merge_sorted(l: Seq<VpnRange>, idx: int, ps: int, pe: int, lo: int, hi: int)
    requires
        well_sorted(l),
        within(l, lo, hi),
        0 <= lo <= ps < pe <= hi,
        pe <= usize::MAX,
        0 <= idx <= l.len(),
        forall|k: int| 0 <= k < idx ==> (#[trigger] l[k]).end <= ps,
        forall|k: int| idx <= k < l.len() ==> (#[trigger] l[k]).start >= pe,
    ensures
        well_sorted(merge_at(l, idx, ps, pe)),
        within(merge_at(l, idx, ps, pe), lo, hi),
{
    let b_m = idx < l.len() && l[idx].start == pe;
    let a_m = idx > 0 && l[idx - 1].end == ps;
    let na = if a_m { idx - 1 } else { idx };
    let nb = if b_m { idx + 1 } else { idx };
    let nl = merge_at(l, idx, ps, pe);
    let m = nl[na];
    assert(nl.len() == na + 1 + (l.len() - nb));
    assert forall|k: int| 0 <= k < nl.len() implies (if k < na { nl[k] == l[k] } else if k > na {
        nl[k] == l[k - na - 1 + nb]
    } else {
        true
    }) by {}
    assert(m.start == (if a_m { l[idx - 1].start as int } else { ps }));
    assert(m.end == (if b_m { l[idx].end as int } else { pe }));
    assert forall|k: int| 0 <= k < nl.len() implies (#[trigger] nl[k]).start < nl[k].end by {
        if k < na {
            assert(nl[k] == l[k]);
        } else if k > na {
            assert(nl[k] == l[k - na - 1 + nb]);
        } else if a_m {
            assert(l[idx - 1].start < l[idx - 1].end);
        }
    }
    assert forall|x: int, y: int| 0 <= x < y < nl.len() implies (#[trigger] nl[x]).end < (#[trigger] nl[y]).start by {
        if y < na {
            assert(l[x].end < l[y].start);
        } else if y == na {
            assert(nl[x] == l[x]);
            if a_m {
                assert(l[x].end < l[idx - 1].start);
            } else {
                assert(l[x].end <= ps);
                if x < idx - 1 {
                    assert(l[x].end < l[idx - 1].start);
                    assert(l[idx - 1].end <= ps);
                    assert(l[idx - 1].start < l[idx - 1].end);
                } else {
                    assert(l[x].end != ps);
                }
            }
        } else if x == na {
            let oy = y - na - 1 + nb;
            assert(nl[y] == l[oy]);
            if b_m {
                assert(l[idx].end < l[oy].start);
            } else {
                assert(l[oy].start >= pe);
                if oy > idx {
                    assert(l[idx].end < l[oy].start);
                    assert(l[idx].start >= pe);
                    assert(l[idx].start < l[idx].end);
                } else {
                    assert(l[oy].start != pe);
                }
            }
        } else if x < na {
            let oy = y - na - 1 + nb;
            assert(nl[y] == l[oy]);
            assert(nl[x] == l[x]);
            assert(l[x].end < l[oy].start);
        } else {
            let ox = x - na - 1 + nb;
            let oy = y - na - 1 + nb;
            assert(nl[x] == l[ox]);
            assert(nl[y] == l[oy]);
            assert(l[ox].end < l[oy].start);
        }
    }
    assert forall|k: int| 0 <= k < nl.len() implies lo <= (#[trigger] nl[k]).start && nl[k].end <= hi by {
        if k < na {
            assert(nl[k] == l[k]);
        } else if k > na {
            assert(nl[k] == l[k - na - 1 + nb]);
        } else {
            if a_m {
                assert(lo <= l[idx - 1].start);
            }
            if b_m {
                assert(l[idx].end <= hi);
            }
        }
    }
}

/// Inserting and joining adds the inserted pages to the total.
proof fn lemma_merge_total(l: Seq<VpnRange>, idx: int, ps: int, pe: int)
    requires
        0 <= idx <= l.len(),
        0 <= ps < pe <= usize::MAX,
        forall|k: int| 0 <= k < idx ==> (#[trigger] l[k]).end <= ps,
        forall|k: int| idx <= k < l.len() ==> (#[trigger] l[k]).start >= pe,
    ensures
        total(merge_at(l, idx, ps, pe)) == total(l) + (pe - ps),
{
    let b_m = idx < l.len() && l[idx].start == pe;
    let a_m = idx > 0 && l[idx - 1].end == ps;
    let a_part = if a_m { l.subrange(0, idx - 1) } else { l.subrange(0, idx) };
    let b_part = if b_m { l.subrange(idx + 1, l.len() as int) } else { l.subrange(idx, l.len() as int) };
    let m = VpnRange {
        start: if a_m { l[idx - 1].start } else { ps as usize },
        end: if b_m { l[idx].end } else { pe as usize },
    };
    lemma_total_concat(a_part + seq![m], b_part);
    lemma_total_concat(a_part, seq![m]);
    lemma_total_single(m);
    let ap = l.subrange(0, idx);
    let bp = l.subrange(idx, l.len() as int);
    assert(l =~= ap + bp);
    lemma_total_concat(ap, bp);
    if a_m {
        assert(ap =~= a_part + seq![l[idx - 1]]);
        lemma_total_concat(a_part, seq![l[idx - 1]]);
        lemma_total_single(l[idx - 1]);
    } else {
        assert(ap =~= a_part);
    }
    if b_m {
        assert(bp =~= seq![l[idx]] + b_part);
        lemma_total_concat(seq![l[idx]], b_part);
        lemma_total_single(l[idx]);
    } else {
        assert(bp =~= b_part);
    }
}

/// Inserting and joining adds exactly the inserted pages.
proof fn lemma_merge_covered(l: Seq<VpnRange>, idx: int, ps: int, pe: int, p: int)
    requires
        well_sorted(l),
        0 <= idx <= l.len(),
        0 <= ps < pe <= usize::MAX,
    ensures
        covered(merge_at(l, idx, ps, pe), p) <==> covered(l, p) || ps <= p < pe,
{
    let b_m = idx < l.len() && l[idx].start == pe;
    let a_m = idx > 0 && l[idx - 1].end == ps;
    let a_part = if a_m { l.subrange(0, idx - 1) } else { l.subrange(0, idx) };
    let b_part = if b_m { l.subrange(idx + 1, l.len() as int) } else { l.subrange(idx, l.len() as int) };
    let m = VpnRange {
        start: if a_m { l[idx - 1].start } else { ps as usize },
        end: if b_m { l[idx].end } else { pe as usize },
    };
    assert(merge_at(l, idx, ps, pe) == a_part + seq![m] + b_part);
    assert(m.start as int == (if a_m { l[idx - 1].start as int } else { ps }));
    assert(m.end as int == (if b_m { l[idx].end as int } else { pe }));
    lemma_covered_concat(a_part + seq![m], b_part, p);
    lemma_covered_concat(a_part, seq![m], p);
    lemma_covered_single(m, p);
    let ap = l.subrange(0, idx);
    let bp = l.subrange(idx, l.len() as int);
    assert(l =~= ap + bp);
    lemma_covered_concat(ap, bp, p);
    if a_m {
        assert(ap =~= a_part + seq![l[idx - 1]]);
        lemma_covered_concat(a_part, seq![l[idx - 1]], p);
        lemma_covered_single(l[idx - 1], p);
    } else {
        assert(ap =~= a_part);
    }
    if b_m {
        assert(bp =~= seq![l[idx]] + b_part);
        lemma_covered_concat(seq![l[idx]], b_part, p);
        lemma_covered_single(l[idx], p);
    } else {
        assert(bp =~= b_part);
    }
}

/// Removing a range keeps the ranges sorted and within bounds.
pub proof fn lemma_remove_sorted(s: Seq<VpnRange>, i: int)
    requires
        well_sorted(s),
        0 <= i < s.len(),
    ensures
        well_sorted(s.remove(i)),
        forall|lo: int, hi: int| within(s, lo, hi) ==> within(s.remove(i), lo, hi),
{
    let nl = s.remove(i);
    assert forall|a: int, b: int| 0 <= a < b < nl.len() implies (#[trigger] nl[a]).end < (#[trigger] nl[b]).start by {
        let oa = if a < i { a } else { a + 1 };
        let ob = if b < i { b } else { b + 1 };
        assert(s[oa].end < s[ob].start);
    }
    assert forall|k: int| 0 <= k < nl.len() implies (#[trigger] nl[k]).start < nl[k].end by {
        let ok = if k < i { k } else { k + 1 };
        assert(nl[k] == s[ok]);
    }
    assert forall|lo: int, hi: int| within(s, lo, hi) implies within(nl, lo, hi) by {
        assert forall|k: int| 0 <= k < nl.len() implies lo <= (#[trigger] nl[k]).start && nl[k].end <= hi by {
            let ok = if k < i { k } else { k + 1 };
            assert(nl[k] == s[ok]);
        }
    }
}

/// In sorted ranges, a page of range `i` lies in no other range.
pub proof fn lemma_not_covered_elsewhere(s: Seq<VpnRange>, i: int, p: int)
    requires
        well_sorted(s),
        0 <= i < s.len(),
        in_range(s[i], p),
    ensures
        !covered(s.subrange(0, i), p),
        !covered(s.subrange(i + 1, s.len() as int), p),
{
    if covered(s.subrange(0, i), p) {
        let t = choose|t: int| 0 <= t < s.subrange(0, i).len() && in_range(#[trigger] s.subrange(0, i)[t], p);
        assert(s[t].end < s[i].start);
    }
    if covered(s.subrange(i + 1, s.len() as int), p) {
        let t = choose|t: int|
            0 <= t < s.subrange(i + 1, s.len() as int).len() && in_range(
                #[trigger] s.subrange(i + 1, s.len() as int)[t],
                p,
            );
        assert(s[i].end < s[i + 1 + t].start);
    }
}

/// The range that `first_fit` picks holds the pages asked for.
proof fn lemma_first_fit(s: Seq<VpnRange>, need: int)
    ensures
        0 <= first_fit(s, need) <= s.len(),
        first_fit(s, need) < s.len() ==> rlen(s[first_fit(s, need)]) >= need,
    decreases s.len(),
{
    if s.len() > 0 && rlen(s[0]) < need {
        lemma_first_fit(s.drop_first(), need);
        let i = first_fit(s.drop_first(), need);
        if i < s.len() - 1 {
            assert(s.drop_first()[i] == s[i + 1]);
        }
    }
}

/// The pages at the start of the range that `first_fit` picks are free.
proof fn lemma_fit_is_free(s: Seq<VpnRange>, need: int)
    requires
        first_fit(s, need) < s.len(),
    ensures
        forall|p: int|
            s[first_fit(s, need)].start <= p < s[first_fit(s, need)].start + need ==> #[trigger] page_set(s).contains(p),
{
    lemma_first_fit(s, need);
    let i = first_fit(s, need);
    assert forall|p: int| s[i].start <= p < s[i].start + need implies #[trigger] page_set(s).contains(p) by {
        assert(in_range(s[i], p));
    }
}

/// Freeing the pages that `alloc_pages` handed out, with the padding on
/// either side, gives back the free pages from before.
pub proof fn lemma_free_undoes_alloc_pages(a0: VmaAlloc, a1: VmaAlloc, a2: VmaAlloc, amount: int)
    requires
        a0.wf(),
        amount > 0,
        first_fit(a0.ranges(), amount + 2 * VmaAlloc::PADDING) < a0.ranges().len(),
        a1.pages() == a0.pages().difference(
            span(
                a0.ranges()[first_fit(a0.ranges(), amount + 2 * VmaAlloc::PADDING)].start as int,
                a0.ranges()[first_fit(a0.ranges(), amount + 2 * VmaAlloc::PADDING)].start + amount + 2
                    * VmaAlloc::PADDING,
            ),
        ),
        a1.lo() == a0.lo(),
        a1.hi() == a0.hi(),
        ({
            let v = a0.ranges()[first_fit(a0.ranges(), amount + 2 * VmaAlloc::PADDING)].start + VmaAlloc::PADDING;
            a2.pages() == a1.pages().union(
                span(
                    vstd::math::max(v - VmaAlloc::PADDING, a1.lo()),
                    vstd::math::min(v + amount + VmaAlloc::PADDING, a1.hi()),
                ),
            )
        }),
    ensures
        a2.pages() == a0.pages(),
{
    let need = amount + 2 * VmaAlloc::PADDING;
    let rs = a0.ranges();
    a0.lemma_wf();
    lemma_first_fit(rs, need);
    let i = first_fit(rs, need);
    let st = rs[i].start as int;
    assert(a0.lo() <= st && st + need <= a0.hi());
    assert forall|p: int| span(st, st + need).contains(p) implies a0.pages().contains(p) by {
        assert(in_range(rs[i], p));
    }
    assert(a2.pages() =~= a0.pages());
}

/// The leaf entry that maps page `ppn` with `flags` at level 0.
pub open spec fn leaf_pte(ppn: int, flags: u32) -> PTE {
    PTE { ppn: ppn as usize, flags, level: 0, valid: true, leaf: true }
}

/// The flags that the kernel maps memory with: the requested protection,
/// global, accessed and dirty.
pub open spec fn kernel_flags(prot: u32) -> u32 {
    prot | prot::G | prot::A | prot::D
}

/// Where the walk towards page `p` reads its level-0 entry: the table it
/// reaches at level 0 and the index in that table.
pub open spec fn page_slot(pt: PageTable, mem: &PtMem, p: VPN) -> (int, int) {
    (reach(mem, pt.root(), p, pt.depth() - 1, 0)->0, crate::pagetable::vpn_index(p, 0) as int)
}

/// Where the walk towards page `v + k` reads its level-0 entry.
pub open spec fn leaf_slot(pt: PageTable, mem: &PtMem, v: int, k: int) -> (int, int) {
    page_slot(pt, mem, (v + k) as usize)
}

/// Whether page `p`, reached down to level 0 in `m0`, is still reached the
/// same way in `m1`, and reads the same entry there unless one of the
/// pages `v..v + n` reads the same entry in `m1`.
pub open spec fn kept_unless_written(pt: PageTable, m0: &PtMem, m1: &PtMem, p: VPN, v: int, n: int) -> bool {
    reach(m0, pt.root(), p, pt.depth() - 1, 0) is Some ==> {
        &&& reach(m1, pt.root(), p, pt.depth() - 1, 0) == reach(m0, pt.root(), p, pt.depth() - 1, 0)
        &&& (forall|k: int| 0 <= k < n ==> #[trigger] leaf_slot(pt, m1, v, k) != page_slot(pt, m1, p)) ==> pt.lookup(
            m1,
            p,
            0,
        ) == pt.lookup(m0, p, 0)
    }
}

/// Writing the level-0 entry of page `q` (what [`PageTable::map`] and
/// [`PageTable::unmap`] do at level 0) leaves every other page that was
/// mapped down to level 0 as it was, unless it reads the same entry: its
/// way down and what a walk gives stay the same.
pub proof fn lemma_map_keeps_other_pages(pt: PageTable, m1: &PtMem, m2: &PtMem, q: VPN, p: VPN)
    requires
        pt.wf(m1),
        pt.wf(m2),
        tables_kept(m1, m2, 0),
        path_changes(m1, m2, pt.root(), q, pt.depth() - 1, 0),
        reach(m1, pt.root(), p, pt.depth() - 1, 0) is Some,
        page_slot(pt, m2, p) != page_slot(pt, m2, q),
    ensures
        reach(m2, pt.root(), p, pt.depth() - 1, 0) == reach(m1, pt.root(), p, pt.depth() - 1, 0),
        pt.lookup(m2, p, 0) == pt.lookup(m1, p, 0),
{
    assert(kept_unless_written(pt, m1, m1, p, q as int, 0));
    lemma_map_frame(pt, m1, m1, m2, q as int, 0, p);
    assert(leaf_slot(pt, m2, q as int, 0) == page_slot(pt, m2, q));
}

/// `m1` is `m0` after a level-0 [`PageTable::map`] or [`PageTable::unmap`]
/// of page `q`, which does not read the entry of page `p`.
pub open spec fn other_page_step(pt: PageTable, m0: PtMem, m1: PtMem, q: VPN, p: VPN) -> bool {
    &&& pt.wf(&m0)
    &&& pt.wf(&m1)
    &&& tables_kept(&m0, &m1, 0)
    &&& path_changes(&m0, &m1, pt.root(), q, pt.depth() - 1, 0)
    &&& page_slot(pt, &m1, p) != page_slot(pt, &m1, q)
}

/// Along a run of level-0 [`PageTable::map`] and [`PageTable::unmap`] calls
/// on pages `qs[i]`, taking `mems[i]` to `mems[i + 1]`, none of which
/// reads the entry of page `p`, a page mapped down to level 0 keeps its way
/// down and what a walk gives: what was mapped last at `p` stays readable.
pub proof fn lemma_walk_kept_along(pt: PageTable, mems: Seq<PtMem>, qs: Seq<VPN>, p: VPN)
    requires
        mems.len() == qs.len() + 1,
        forall|i: int| 0 <= i < qs.len() ==> other_page_step(pt, mems[i], mems[i + 1], #[trigger] qs[i], p),
        reach(&mems[0], pt.root(), p, pt.depth() - 1, 0) is Some,
    ensures
        forall|i: int|
            #![trigger mems[i]]
            0 <= i < mems.len() ==> reach(&mems[i], pt.root(), p, pt.depth() - 1, 0) == reach(
                &mems[0],
                pt.root(),
                p,
                pt.depth() - 1,
                0,
            ) && pt.lookup(&mems[i], p, 0) == pt.lookup(&mems[0], p, 0),
    decreases qs.len(),
{
    if qs.len() > 0 {
        let n = qs.len() - 1;
        let ms = mems.drop_last();
        let q2 = qs.drop_last();
        assert forall|i: int| 0 <= i < q2.len() implies other_page_step(pt, ms[i], ms[i + 1], #[trigger] q2[i], p) by {
            assert(qs[i] == q2[i]);
            assert(ms[i] == mems[i]);
            assert(ms[i + 1] == mems[i + 1]);
            assert(other_page_step(pt, mems[i], mems[i + 1], qs[i], p));
        }
        lemma_walk_kept_along(pt, ms, q2, p);
        assert(other_page_step(pt, mems[n], mems[n + 1], qs[n], p));
        assert(ms[n] == mems[n]);
        assert(reach(&ms[n], pt.root(), p, pt.depth() - 1, 0) == reach(&mems[0], pt.root(), p, pt.depth() - 1, 0));
        lemma_map_keeps_other_pages(pt, &mems[n], &mems[n + 1], qs[n], p);
        assert forall|i: int|
            #![trigger mems[i]]
            0 <= i < mems.len() implies reach(&mems[i], pt.root(), p, pt.depth() - 1, 0) == reach(
            &mems[0],
            pt.root(),
            p,
            pt.depth() - 1,
            0,
        ) && pt.lookup(&mems[i], p, 0) == pt.lookup(&mems[0], p, 0) by {
            if i <= n {
                assert(ms[i] == mems[i]);
            }
        }
    }
}

/// What [`PageTable::map`] wrote at level 0 for page `vpn`, an entry that
/// packing keeps whole, reads back exactly along any later run of level-0
/// map and unmap calls on other pages that do not read its entry.
pub proof fn lemma_mapped_page_reads_back(pt: PageTable, mems: Seq<PtMem>, qs: Seq<VPN>, vpn: VPN, pte: PTE)
    requires
        crate::pagetable::pte_packable(pte),
        pte.level == 0,
        reach(&mems[0], pt.root(), vpn, pt.depth() - 1, 0) is Some,
        pt.lookup(&mems[0], vpn, 0) == unpack_spec(pack_spec(pte), 0),
        mems.len() == qs.len() + 1,
        forall|i: int| 0 <= i < qs.len() ==> other_page_step(pt, mems[i], mems[i + 1], #[trigger] qs[i], vpn),
    ensures
        forall|i: int| #![trigger mems[i]] 0 <= i < mems.len() ==> pt.lookup(&mems[i], vpn, 0) == pte,
{
    crate::pagetable::lemma_unpack_pack(pte);
    lemma_walk_kept_along(pt, mems, qs, vpn);
}

/// After [`PageTable::unmap`] of page `vpn` at level 0, which keeps its way
/// down, a walk of `vpn` reads an invalid entry along any later run of
/// level-0 map and unmap calls on other pages that do not read its entry.
pub proof fn lemma_unmapped_page_stays_invalid(pt: PageTable, mems: Seq<PtMem>, qs: Seq<VPN>, vpn: VPN)
    requires
        reach(&mems[0], pt.root(), vpn, pt.depth() - 1, 0) is Some,
        !pt.lookup(&mems[0], vpn, 0).valid,
        mems.len() == qs.len() + 1,
        forall|i: int| 0 <= i < qs.len() ==> other_page_step(pt, mems[i], mems[i + 1], #[trigger] qs[i], vpn),
    ensures
        forall|i: int| #![trigger mems[i]] 0 <= i < mems.len() ==> !pt.lookup(&mems[i], vpn, 0).valid,
{
    lemma_walk_kept_along(pt, mems, qs, vpn);
}

/// No page of the run `v..v + n` reads the entry that page `w + i` reads.
pub open spec fn run_clear(pt: PageTable, mem: &PtMem, w: int, i: int, v: int, n: int) -> bool {
    forall|k: int| 0 <= k < n ==> #[trigger] leaf_slot(pt, mem, v, k) != leaf_slot(pt, mem, w, i)
}

/// A run of mappings made earlier, in `m0`, outlives mapping the run
/// `v..v + size` that leads to `m1`: its pages keep their way down, and
/// those whose entry no page of the new run reads keep their mapping.
proof fn lemma_run_kept(
    pt: PageTable,
    m0: &PtMem,
    m1: &PtMem,
    w: int,
    q: int,
    n: int,
    flags: u32,
    v: int,
    size: int,
    pre: spec_fn(int) -> bool,
)
    requires
        forall|i: int| 0 <= i < n ==> #[trigger] reach(m0, pt.root(), (w + i) as usize, pt.depth() - 1, 0) is Some,
        forall|i: int| 0 <= i < n && pre(i) ==> #[trigger] mapped_run(pt, m0, w, q, i, n, flags),
        forall|p: VPN| #[trigger] kept_unless_written(pt, m0, m1, p, v, size),
    ensures
        forall|i: int| 0 <= i < n ==> #[trigger] reach(m1, pt.root(), (w + i) as usize, pt.depth() - 1, 0) is Some,
        forall|i: int| 0 <= i < n ==> #[trigger] leaf_slot(pt, m1, w, i) == leaf_slot(pt, m0, w, i),
        forall|i: int|
            0 <= i < n && pre(i) && run_clear(pt, m1, w, i, v, size) ==> #[trigger] mapped_run(pt, m1, w, q, i, n, flags),
{
    assert forall|i: int| 0 <= i < n implies #[trigger] reach(m1, pt.root(), (w + i) as usize, pt.depth() - 1, 0) is Some
        && leaf_slot(pt, m1, w, i) == leaf_slot(pt, m0, w, i) by {
        assert(reach(m0, pt.root(), (w + i) as usize, pt.depth() - 1, 0) is Some);
        assert(kept_unless_written(pt, m0, m1, (w + i) as usize, v, size));
    }
    assert forall|i: int| 0 <= i < n && pre(i) && run_clear(pt, m1, w, i, v, size) implies #[trigger] mapped_run(
        pt,
        m1,
        w,
        q,
        i,
        n,
        flags,
    ) by {
        let p = (w + i) as usize;
        assert(reach(m0, pt.root(), p, pt.depth() - 1, 0) is Some);
        assert(kept_unless_written(pt, m0, m1, p, v, size));
        assert forall|k: int| 0 <= k < size implies #[trigger] leaf_slot(pt, m1, v, k) != page_slot(pt, m1, p) by {
            assert(leaf_slot(pt, m1, v, k) != leaf_slot(pt, m1, w, i));
        }
        assert(pt.lookup(m1, p, 0) == pt.lookup(m0, p, 0));
        assert(mapped_run(pt, m0, w, q, i, n, flags));
        let j = choose|j: int|
            #[trigger] last_writer(pt, m0, w, i, j, n) && pt.lookup(m0, p, 0) == unpack_spec(
                pack_spec(leaf_pte(q + j, flags)),
                0,
            );
        assert(reach(m0, pt.root(), (w + j) as usize, pt.depth() - 1, 0) is Some);
        assert(kept_unless_written(pt, m0, m1, (w + j) as usize, v, size));
        assert forall|k: int| j < k < n implies #[trigger] leaf_slot(pt, m1, w, k) != leaf_slot(pt, m1, w, i) by {
            assert(reach(m0, pt.root(), (w + k) as usize, pt.depth() - 1, 0) is Some);
            assert(kept_unless_written(pt, m0, m1, (w + k) as usize, v, size));
            assert(leaf_slot(pt, m0, w, k) != leaf_slot(pt, m0, w, i));
        }
        assert(last_writer(pt, m1, w, i, j, n));
    }
}

/// Whether the run `v..v + n` reads an entry that page `w + i` reads does
/// not change where none of these pages moves its entry.
proof fn lemma_clear_same(pt: PageTable, ma: &PtMem, mb: &PtMem, w: int, i: int, v: int, n: int)
    requires
        forall|j: int| 0 <= j < n ==> #[trigger] leaf_slot(pt, mb, v, j) == leaf_slot(pt, ma, v, j),
        leaf_slot(pt, mb, w, i) == leaf_slot(pt, ma, w, i),
    ensures
        run_clear(pt, mb, w, i, v, n) == run_clear(pt, ma, w, i, v, n),
{
    if run_clear(pt, ma, w, i, v, n) {
        assert forall|k: int| 0 <= k < n implies #[trigger] leaf_slot(pt, mb, v, k) != leaf_slot(pt, mb, w, i) by {
            assert(leaf_slot(pt, ma, v, k) != leaf_slot(pt, ma, w, i));
        }
    }
    if run_clear(pt, mb, w, i, v, n) {
        assert forall|k: int| 0 <= k < n implies #[trigger] leaf_slot(pt, ma, v, k) != leaf_slot(pt, ma, w, i) by {
            assert(leaf_slot(pt, mb, v, k) != leaf_slot(pt, mb, w, i));
        }
    }
}

/// Mapping page `v + i` after the pages `v..v + i` keeps what
/// [`kept_unless_written`] says of every page.
proof fn lemma_map_frame(pt: PageTable, m0: &PtMem, m1: &PtMem, m2: &PtMem, v: int, i: int, p: VPN)
    requires
        pt.wf(m0),
        pt.wf(m1),
        pt.wf(m2),
        0 <= i,
        v + i <= usize::MAX,
        forall|a: int| 0 <= a < i ==> #[trigger] reach(m1, pt.root(), (v + a) as usize, pt.depth() - 1, 0) is Some,
        kept_unless_written(pt, m0, m1, p, v, i),
        tables_kept(m1, m2, 0),
        path_changes(m1, m2, pt.root(), (v + i) as usize, pt.depth() - 1, 0),
    ensures
        kept_unless_written(pt, m0, m2, p, v, i + 1),
{
    let root = pt.root();
    let top = pt.depth() - 1;
    let vi = (v + i) as usize;
    if reach(m0, root, p, top, 0) is Some {
        lemma_reach_kept(m1, m2, root, p, top, 0);
        if forall|k: int| 0 <= k < i + 1 ==> #[trigger] leaf_slot(pt, m2, v, k) != page_slot(pt, m2, p) {
            assert forall|k: int| 0 <= k < i implies #[trigger] leaf_slot(pt, m1, v, k) != page_slot(pt, m1, p) by {
                let vk = (v + k) as usize;
                assert(reach(m1, root, vk, top, 0) is Some);
                lemma_reach_kept(m1, m2, root, vk, top, 0);
                assert(leaf_slot(pt, m2, v, k) != page_slot(pt, m2, p));
            }
            let t = reach(m1, root, p, top, 0)->0;
            let k = crate::pagetable::vpn_index(p, 0) as int;
            lemma_reach_props(m1, root, p, top, 0);
            lemma_walk_via(m1, root, p, top, 0, 0);
            lemma_walk_via(m2, root, p, top, 0, 0);
            assert(leaf_slot(pt, m2, v, i) != page_slot(pt, m2, p));
            if m2.entry(t, k) != m1.entry(t, k) {
                assert(reach(m2, root, vi, top, 0) == Some(t));
                assert(false);
            }
        }
    }
}

/// Of the pages `v..v + n`, mapped in order, page `v + j` is the last one
/// whose entry is the one that page `v + i` reads.
pub open spec fn last_writer(pt: PageTable, mem: &PtMem, v: int, i: int, j: int, n: int) -> bool {
    &&& i <= j < n
    &&& leaf_slot(pt, mem, v, j) == leaf_slot(pt, mem, v, i)
    &&& forall|k: int| j < k < n ==> #[trigger] leaf_slot(pt, mem, v, k) != leaf_slot(pt, mem, v, i)
}

/// The pages `v..v + n` were mapped in order to `ppn..ppn + n` with
/// `flags`, and page `v + i` is mapped to the page of the last of them
/// that wrote the entry it reads: `ppn + i` itself unless a later page of
/// the run reads the same entry.
pub open spec fn mapped_run(pt: PageTable, mem: &PtMem, v: int, ppn: int, i: int, n: int, flags: u32) -> bool {
    exists|j: int|
        #[trigger] last_writer(pt, mem, v, i, j, n) && pt.lookup(mem, (v + i) as usize, 0) == unpack_spec(
            pack_spec(leaf_pte(ppn + j, flags)),
            0,
        )
}

/// A page of a run whose entry no later page of the run reads is mapped to
/// its own page.
pub proof fn lemma_run_exact(pt: PageTable, mem: &PtMem, v: int, ppn: int, i: int, n: int, flags: u32)
    requires
        mapped_run(pt, mem, v, ppn, i, n, flags),
        forall|k: int| i < k < n ==> #[trigger] leaf_slot(pt, mem, v, k) != leaf_slot(pt, mem, v, i),
    ensures
        pt.lookup(mem, (v + i) as usize, 0) == unpack_spec(pack_spec(leaf_pte(ppn + i, flags)), 0),
{
    let j = choose|j: int|
        #[trigger] last_writer(pt, mem, v, i, j, n) && pt.lookup(mem, (v + i) as usize, 0) == unpack_spec(
            pack_spec(leaf_pte(ppn + j, flags)),
            0,
        );
    if j > i {
        assert(leaf_slot(pt, mem, v, j) != leaf_slot(pt, mem, v, i));
    }
}

/// What mapping page `v + i` to `ppn + i` keeps of the pages `v..v + i`
/// mapped before it: each is mapped to the page of the last page of the run
/// that wrote the entry it reads.
proof fn lemma_map_step(pt: PageTable, m1: &PtMem, m2: &PtMem, v: int, i: int, ppn: int, flags: u32)
    requires
        pt.wf(m1),
        pt.wf(m2),
        0 <= i,
        v + i <= usize::MAX,
        forall|a: int| 0 <= a < i ==> #[trigger] mapped_run(pt, m1, v, ppn, a, i, flags),
        forall|a: int| 0 <= a < i ==> #[trigger] reach(m1, pt.root(), (v + a) as usize, pt.depth() - 1, 0) is Some,
        tables_kept(m1, m2, 0),
        path_changes(m1, m2, pt.root(), (v + i) as usize, pt.depth() - 1, 0),
        pt.lookup(m2, (v + i) as usize, 0) == unpack_spec(pack_spec(leaf_pte(ppn + i, flags)), 0),
    ensures
        forall|a: int| 0 <= a <= i ==> #[trigger] mapped_run(pt, m2, v, ppn, a, i + 1, flags),
        forall|a: int| 0 <= a <= i ==> #[trigger] reach(m2, pt.root(), (v + a) as usize, pt.depth() - 1, 0) is Some,
{
    let root = pt.root();
    let top = pt.depth() - 1;
    let vi = (v + i) as usize;
    lemma_walk_level(m2, root, vi, top);
    lemma_walk_via(m2, root, vi, top, 0, 0);
    assert(reach(m2, root, vi, top, 0) is Some);
    // The pages mapped before keep their way down.
    assert forall|k: int| 0 <= k < i implies #[trigger] leaf_slot(pt, m2, v, k) == leaf_slot(pt, m1, v, k)
        && reach(m2, root, (v + k) as usize, top, 0) is Some by {
        let vk = (v + k) as usize;
        assert(reach(m1, root, vk, top, 0) is Some);
        lemma_reach_kept(m1, m2, root, vk, top, 0);
    }
    assert(last_writer(pt, m2, v, i, i, i + 1));
    assert(mapped_run(pt, m2, v, ppn, i, i + 1, flags));
    assert forall|a: int| 0 <= a < i implies #[trigger] mapped_run(pt, m2, v, ppn, a, i + 1, flags) by {
        let va = (v + a) as usize;
        assert(mapped_run(pt, m1, v, ppn, a, i, flags));
        let j = choose|j: int|
            #[trigger] last_writer(pt, m1, v, a, j, i) && pt.lookup(m1, va, 0) == unpack_spec(
                pack_spec(leaf_pte(ppn + j, flags)),
                0,
            );
        assert(reach(m1, root, va, top, 0) is Some);
        let t = reach(m1, root, va, top, 0)->0;
        lemma_reach_props(m1, root, va, top, 0);
        lemma_reach_kept(m1, m2, root, va, top, 0);
        lemma_walk_via(m1, root, va, top, 0, 0);
        lemma_walk_via(m2, root, va, top, 0, 0);
        let k = crate::pagetable::vpn_index(va, 0) as int;
        assert(leaf_slot(pt, m2, v, a) == leaf_slot(pt, m1, v, a));
        if leaf_slot(pt, m2, v, i) == leaf_slot(pt, m2, v, a) {
            assert(pt.lookup(m2, va, 0) == pt.lookup(m2, vi, 0));
            assert(last_writer(pt, m2, v, a, i, i + 1));
        } else {
            if m2.entry(t, k) != m1.entry(t, k) {
                assert(reach(m2, root, vi, top, 0) == Some(t));
                assert(false);
            }
            assert(pt.lookup(m2, va, 0) == pt.lookup(m1, va, 0));
            assert(leaf_slot(pt, m2, v, j) == leaf_slot(pt, m1, v, j));
            assert forall|k2: int| j < k2 < i + 1 implies #[trigger] leaf_slot(pt, m2, v, k2) != leaf_slot(pt, m2, v, a) by {
                if k2 < i {
                    assert(leaf_slot(pt, m2, v, k2) == leaf_slot(pt, m1, v, k2));
                    assert(leaf_slot(pt, m1, v, k2) != leaf_slot(pt, m1, v, a));
                }
            }
            assert(last_writer(pt, m2, v, a, j, i + 1));
        }
    }
    assert forall|a: int| 0 <= a <= i implies #[trigger] reach(m2, pt.root(), (v + a) as usize, pt.depth() - 1, 0) is Some by {
        if a < i {
            assert(leaf_slot(pt, m2, v, a) == leaf_slot(pt, m1, v, a));
        }
    }
}

/// The kernel memory map: its page table and its allocator of virtual
/// address space.
pub struct KernelMemmap {
    pmap: PageTable,
    vma: VmaAlloc,
}

impl KernelMemmap {
    /// The page table.
    pub closed spec fn table(&self) -> PageTable {
        self.pmap
    }

    /// The virtual address space allocator.
    pub closed spec fn vmas(&self) -> VmaAlloc {
        self.vma
    }

    /// Both parts are well formed.
    pub open spec fn wf(&self, mem: &PtMem) -> bool {
        self.table().wf(mem) && self.vmas().wf()
    }

    /// The page table.
    pub fn page_table(&self) -> (r: &PageTable)
        ensures
            *r == self.table(),
    {
        &self.pmap
    }

    /// A kernel memory map with an empty page table of `levels` levels,
    /// whose allocator hands out the higher half but its first sixteenth.
    pub fn new(mem: &mut PtMem, pmm: &mut Pmm, levels: u8) -> (r: EResult<Self>)
        requires
            old(mem).wf(),
            old(pmm).wf(),
            old(mem).linked(&*old(pmm)),
            3 <= levels <= 5,
        ensures
            final(mem).wf(),
            final(pmm).wf(),
            final(mem).linked(&*final(pmm)),
            final(pmm).pages().dom_start() == old(pmm).pages().dom_start(),
            final(pmm).pages().dom_end() == old(pmm).pages().dom_end(),
            old(mem).keeps(&*final(mem)),
            distinct_links(&*old(mem)) ==> distinct_links(&*final(mem)),
            match r {
                Ok(k) => {
                    let hh = (0x1_0000_0000_0000_0000 - crate::canon::p2((crate::canon::va_bits(levels as u32) - 1) as nat)) / 4096;
                    let half = crate::canon::p2((9 * levels - 1) as nat);
                    &&& k.wf(&*final(mem))
                    &&& k.table().depth() == levels
                    &&& forall|i: int| 0 <= i < 512 ==> #[trigger] final(mem).entry(k.table().root(), i) == 0
                    &&& k.vmas().lo() == (hh + half / 16) as usize
                    &&& k.vmas().hi() == (hh + half) as usize
                    &&& k.vmas().pages() == span((hh + half / 16) as usize as int, (hh + half) as usize as int)
                    &&& old(pmm).pages().has_free_block(0)
                },
                Err(e) => e == Errno::ENOMEM && !old(pmm).pages().has_free_block(0) && *final(pmm) == *old(pmm),
            },
    {
        let hh_start = higher_half_vpn(levels as u32);
        let half = canon_half_pages(levels as u32);
        proof {
            crate::canon::lemma_p2_values(levels as u32);
        }
        let page_range = VpnRange { start: (hh_start + half / 16) as usize, end: (hh_start + half) as usize };
        let pmap = PageTable::new(mem, pmm, levels)?;
        let vma = VmaAlloc::new(page_range)?;
        Ok(KernelMemmap { pmap, vma })
    }

    /// Map `size` pages from physical page `ppn` on, with protection `prot`,
    /// at virtual page `vpn` or, without one, at pages taken from the
    /// allocator, and return the first virtual page.
    #[verifier::loop_isolation(false)]
    pub fn map_pages(&mut self, mem: &mut PtMem, pmm: &mut Pmm, vpn: Option<VPN>, ppn: PPN, size: VPN, prot: u32)
        -> (r: EResult<VPN>)
        requires
            old(self).wf(&*old(mem)),
            old(pmm).wf(),
            old(mem).linked(&*old(pmm)),
            prot & prot::R != 0,
            prot & !(prot::RWX | prot::IO | prot::NC) == 0,
            ppn + size <= usize::MAX,
            vpn matches Some(x) ==> x + size <= usize::MAX && ends_ok(
                x..(x + size) as usize,
                |a: int| canon_page(a, old(self).table().depth() as u32) && high_half_page(a),
            ),
            vpn is None ==> size <= usize::MAX - 2 * VmaAlloc::PADDING,
        ensures
            final(self).wf(&*final(mem)),
            final(self).table() == old(self).table(),
            final(pmm).wf(),
            final(mem).linked(&*final(pmm)),
            final(pmm).pages().dom_start() == old(pmm).pages().dom_start(),
            final(pmm).pages().dom_end() == old(pmm).pages().dom_end(),
            final(self).vmas().lo() == old(self).vmas().lo(),
            final(self).vmas().hi() == old(self).vmas().hi(),
            final(self).vmas().pages().subset_of(old(self).vmas().pages()),
            r matches Ok(v) ==> (vpn is None ==> forall|p: int|
                v <= p < v + size ==> #[trigger] old(self).vmas().pages().contains(p) && !final(self).vmas().pages().contains(p)),
            match vpn {
                Some(x) => {
                    &&& final(self).vmas().pages() == old(self).vmas().pages().difference(span(x as int, x + size))
                    &&& r is Ok ==> r == Ok::<VPN, Errno>(x)
                },
                None => {
                    let need = size + 2 * VmaAlloc::PADDING;
                    let i = first_fit(old(self).vmas().ranges(), need);
                    &&& size == 0 ==> r == Err::<VPN, Errno>(Errno::EINVAL) && final(self).vmas().pages() == old(self).vmas().pages()
                    &&& size > 0 && i == old(self).vmas().ranges().len() ==> r == Err::<VPN, Errno>(Errno::ENOMEM)
                        && final(self).vmas().pages() == old(self).vmas().pages()
                    &&& size > 0 && i < old(self).vmas().ranges().len() ==> {
                        &&& final(self).vmas().pages() == old(self).vmas().pages().difference(
                            span(old(self).vmas().ranges()[i].start as int, old(self).vmas().ranges()[i].start + need),
                        )
                        &&& r is Ok ==> r == Ok::<VPN, Errno>((old(self).vmas().ranges()[i].start + VmaAlloc::PADDING) as VPN)
                    }
                },
            },
            r matches Err(e) ==> e == Errno::EINVAL || e == Errno::ENOMEM,
            r is Err && (vpn is Some || (size > 0 && first_fit(old(self).vmas().ranges(), size + 2 * VmaAlloc::PADDING)
                < old(self).vmas().ranges().len())) ==> !final(pmm).pages().has_free_block(0),
            r matches Ok(v) ==> size > 0 ==> final(self).table().lookup(&*final(mem), (v + size - 1) as usize, 0)
                == unpack_spec(pack_spec(leaf_pte(ppn + size - 1, kernel_flags(prot))), 0),
            r matches Ok(v) ==> forall|i: int|
                0 <= i < size ==> #[trigger] mapped_run(
                    final(self).table(),
                    &*final(mem),
                    v as int,
                    ppn as int,
                    i,
                    size as int,
                    kernel_flags(prot),
                ),
            r matches Ok(v) ==> forall|p: VPN|
                #[trigger] kept_unless_written(final(self).table(), &*old(mem), &*final(mem), p, v as int, size as int),
            r matches Ok(v) ==> forall|i: int|
                0 <= i < size ==> #[trigger] reach(
                    &*final(mem),
                    final(self).table().root(),
                    (v + i) as usize,
                    final(self).table().depth() - 1,
                    0,
                ) is Some,
            r matches Ok(v) ==> forall|i: int|
                0 <= i < size && (forall|k: int| i < k < size ==> #[trigger] leaf_slot(final(self).table(), &*final(mem), v as int, k)
                    != leaf_slot(final(self).table(), &*final(mem), v as int, i)) ==> #[trigger] final(self).table().lookup(
                    &*final(mem),
                    (v + i) as usize,
                    0,
                ) == unpack_spec(pack_spec(leaf_pte(ppn + i, kernel_flags(prot))), 0),
            distinct_links(&*old(mem)) ==> distinct_links(&*final(mem)),
            r matches Ok(v) ==> distinct_links(&*old(mem)) && size <= table_span(final(self).table().depth()) ==> forall|i: int|
                0 <= i < size ==> #[trigger] final(self).table().lookup(&*final(mem), (v + i) as usize, 0) == unpack_spec(
                    pack_spec(leaf_pte(ppn + i, kernel_flags(prot))),
                    0,
                ),
    {
        let v = match vpn {
            Some(x) => {
                self.vma.steal(VpnRange { start: x, end: x + size });
                x
            },
            None => {
                let ghost va0 = self.vma;
                let v = self.vma.alloc_pages(size);
                match v {
                    Ok(v) => {
                        proof {
                            let need = size + 2 * VmaAlloc::PADDING;
                            lemma_first_fit(va0.ranges(), need);
                            lemma_fit_is_free(va0.ranges(), need);
                        }
                        v
                    },
                    Err(e) => {
                        return Err(e);
                    },
                }
            },
        };
        let flags = prot | prot::G | prot::A | prot::D;
        let ghost va1 = self.vma;
        let mut i: usize = 0;
        while i < size
            invariant
                self.wf(&*mem),
                self.pmap == old(self).pmap,
                self.vma == va1,
                pmm.wf(),
                mem.linked(&*pmm),
                pmm.pages().dom_start() == old(pmm).pages().dom_start(),
                pmm.pages().dom_end() == old(pmm).pages().dom_end(),
                i <= size,
                v + size <= usize::MAX,
                ppn + size <= usize::MAX,
                flags == kernel_flags(prot),
                i > 0 ==> self.table().lookup(&*mem, (v + i - 1) as usize, 0) == unpack_spec(
                    pack_spec(leaf_pte(ppn + i - 1, flags)),
                    0,
                ),
                forall|a: int| 0 <= a < i ==> #[trigger] mapped_run(self.table(), &*mem, v as int, ppn as int, a, i as int, flags),
                forall|p: VPN| #[trigger] kept_unless_written(self.table(), &*old(mem), &*mem, p, v as int, i as int),
                forall|a: int| 0 <= a < i ==> #[trigger] reach(&*mem, self.table().root(), (v + a) as usize, self.table().depth() - 1, 0) is Some,
                distinct_links(&*old(mem)) ==> distinct_links(&*mem),
            decreases size - i,
        {
            let pte = PTE { ppn: ppn + i, flags, level: 0, valid: true, leaf: true };
            let ghost m1 = *mem;
            let _ = self.pmap.map(mem, pmm, v + i, pte)?;
            proof {
                assert(pte == leaf_pte(ppn + i, flags));
                lemma_map_step(self.table(), &m1, &*mem, v as int, i as int, ppn as int, flags);
                assert forall|p: VPN| #[trigger] kept_unless_written(self.table(), &*old(mem), &*mem, p, v as int, i + 1) by {
                    assert(kept_unless_written(self.table(), &*old(mem), &m1, p, v as int, i as int));
                    lemma_map_frame(self.table(), &*old(mem), &m1, &*mem, v as int, i as int, p);
                }
            }
            i = i + 1;
        }
        proof {
            assert forall|i: int|
                0 <= i < size && (forall|k: int| i < k < size ==> #[trigger] leaf_slot(self.table(), &*mem, v as int, k)
                    != leaf_slot(self.table(), &*mem, v as int, i)) implies #[trigger] self.table().lookup(
                    &*mem,
                    (v + i) as usize,
                    0,
                ) == unpack_spec(pack_spec(leaf_pte(ppn + i, kernel_flags(prot))), 0) by {
                lemma_run_exact(self.table(), &*mem, v as int, ppn as int, i, size as int, flags);
            }
            if distinct_links(&*old(mem)) && size <= table_span(self.table().depth()) {
                let pt = self.table();
                assert forall|i: int, k: int|
                    0 <= i < k < size implies #[trigger] leaf_slot(pt, &*mem, v as int, k) != #[trigger] leaf_slot(
                    pt,
                    &*mem,
                    v as int,
                    i,
                ) by {
                    assert(reach(&*mem, pt.root(), (v + i) as usize, pt.depth() - 1, 0) is Some);
                    assert(reach(&*mem, pt.root(), (v + k) as usize, pt.depth() - 1, 0) is Some);
                    lemma_distinct_leaf_entries(&*mem, pt.root(), pt.depth() - 1, (v + i) as usize, (v + k) as usize);
                }
            }
        }
        Ok(v)
    }

    /// Unmap `size` pages from virtual page `vpn` on.
    pub fn unmap_pages(&mut self, mem: &mut PtMem, pmm: &mut Pmm, vpn: VPN, size: VPN) -> (r: EResult<()>)
        requires
            old(self).wf(&*old(mem)),
            old(pmm).wf(),
            old(mem).linked(&*old(pmm)),
            vpn + size <= usize::MAX,
            ends_ok(vpn..(vpn + size) as usize, |a: int| canon_page(a, old(self).table().depth() as u32) && high_half_page(a)),
        ensures
            final(self).wf(&*final(mem)),
            *final(self) == *old(self),
            final(pmm).wf(),
            final(mem).linked(&*final(pmm)),
            final(pmm).pages().dom_start() == old(pmm).pages().dom_start(),
            final(pmm).pages().dom_end() == old(pmm).pages().dom_end(),
            r matches Err(e) ==> e == Errno::ENOMEM,
            r is Err ==> !final(pmm).pages().has_free_block(0),
            distinct_links(&*old(mem)) ==> distinct_links(&*final(mem)),
            r is Ok ==> size > 0 ==> !final(self).table().lookup(&*final(mem), (vpn + size - 1) as usize, 0).valid,
            r is Ok ==> forall|i: int|
                0 <= i < size ==> !(#[trigger] final(self).table().lookup(&*final(mem), (vpn + i) as usize, 0)).valid,
    {
        let mut i: usize = 0;
        while i < size
            invariant
                self.wf(&*mem),
                *self == *old(self),
                pmm.wf(),
                mem.linked(&*pmm),
                pmm.pages().dom_start() == old(pmm).pages().dom_start(),
                pmm.pages().dom_end() == old(pmm).pages().dom_end(),
                i <= size,
                vpn + size <= usize::MAX,
                i > 0 ==> !self.table().lookup(&*mem, (vpn + i - 1) as usize, 0).valid,
                forall|a: int| 0 <= a < i ==> !(#[trigger] self.table().lookup(&*mem, (vpn + a) as usize, 0)).valid,
                distinct_links(&*old(mem)) ==> distinct_links(&*mem),
            decreases size - i,
        {
            let ghost m1 = *mem;
            let _ = self.pmap.unmap(mem, pmm, vpn + i, 0)?;
            proof {
                let pt = self.table();
                assert forall|a: int| 0 <= a < i + 1 implies !(#[trigger] pt.lookup(&*mem, (vpn + a) as usize, 0)).valid by {
                    if a < i {
                        assert(!pt.lookup(&m1, (vpn + a) as usize, 0).valid);
                        lemma_invalid_walk(&m1, &*mem, pt.root(), (vpn + a) as usize, pt.depth() - 1);
                    }
                }
            }
            i = i + 1;
        }
        Ok(())
    }

    /// Map `size` bytes of physical memory from `paddr` on, with protection
    /// `prot`, at `vaddr` or, without one, at pages taken from the
    /// allocator: the whole pages that hold them are mapped, and the first
    /// virtual page is returned.
    pub fn map(&mut self, mem: &mut PtMem, pmm: &mut Pmm, vaddr: Option<usize>, paddr: usize, size: usize, prot: u32)
        -> (r: EResult<usize>)
        requires
            old(self).wf(&*old(mem)),
            old(pmm).wf(),
            old(mem).linked(&*old(pmm)),
            prot & prot::R != 0,
            prot & !(prot::RWX | prot::IO | prot::NC) == 0,
            size + paddr % PAGE_SIZE + PAGE_SIZE - 1 <= usize::MAX,
            ({
                let count = (size + paddr % PAGE_SIZE + PAGE_SIZE - 1) / (PAGE_SIZE as int);
                &&& (paddr / PAGE_SIZE) as int + count <= usize::MAX
                &&& vaddr matches Some(x) ==> (x / PAGE_SIZE) as int + count <= usize::MAX && ends_ok(
                    (x / PAGE_SIZE)..(x / PAGE_SIZE + count) as usize,
                    |a: int| canon_page(a, old(self).table().depth() as u32) && high_half_page(a),
                )
                &&& vaddr is None ==> count <= usize::MAX - 2 * VmaAlloc::PADDING
            }),
        ensures
            final(self).wf(&*final(mem)),
            final(self).table() == old(self).table(),
            final(pmm).wf(),
            final(mem).linked(&*final(pmm)),
            final(pmm).pages().dom_start() == old(pmm).pages().dom_start(),
            final(pmm).pages().dom_end() == old(pmm).pages().dom_end(),
            ({
                let count = (size + paddr % PAGE_SIZE + PAGE_SIZE - 1) / (PAGE_SIZE as int);
                let first = (paddr / PAGE_SIZE) as int;
                &&& vaddr matches Some(x) ==> final(self).vmas().pages() == old(self).vmas().pages().difference(
                    span((x / PAGE_SIZE) as int, (x / PAGE_SIZE) as int + count),
                ) && (r is Ok ==> r == Ok::<usize, Errno>(x / PAGE_SIZE))
                &&& vaddr is None ==> {
                    let need = count + 2 * VmaAlloc::PADDING;
                    let i = first_fit(old(self).vmas().ranges(), need);
                    &&& count == 0 ==> r == Err::<usize, Errno>(Errno::EINVAL) && final(self).vmas().pages()
                        == old(self).vmas().pages()
                    &&& count > 0 && i == old(self).vmas().ranges().len() ==> r == Err::<usize, Errno>(Errno::ENOMEM)
                        && final(self).vmas().pages() == old(self).vmas().pages()
                    &&& count > 0 && i < old(self).vmas().ranges().len() ==> {
                        &&& final(self).vmas().pages() == old(self).vmas().pages().difference(
                            span(old(self).vmas().ranges()[i].start as int, old(self).vmas().ranges()[i].start + need),
                        )
                        &&& r is Ok ==> r == Ok::<usize, Errno>((old(self).vmas().ranges()[i].start + VmaAlloc::PADDING) as usize)
                    }
                }
                &&& r matches Ok(v) ==> (vaddr is None ==> forall|p: int|
                    v <= p < v + count ==> #[trigger] old(self).vmas().pages().contains(p) && !final(self).vmas().pages().contains(p))
                &&& r matches Ok(v) ==> count > 0 ==> final(self).table().lookup(&*final(mem), (v + count - 1) as usize, 0)
                    == unpack_spec(pack_spec(leaf_pte(first + count - 1, kernel_flags(prot))), 0)
                &&& r matches Ok(v) ==> forall|i: int|
                    0 <= i < count ==> #[trigger] mapped_run(
                        final(self).table(),
                        &*final(mem),
                        v as int,
                        first,
                        i,
                        count,
                        kernel_flags(prot),
                    )
                &&& r matches Ok(v) ==> forall|i: int|
                    0 <= i < count && (forall|k: int| i < k < count ==> #[trigger] leaf_slot(final(self).table(), &*final(mem), v as int, k)
                        != leaf_slot(final(self).table(), &*final(mem), v as int, i)) ==> #[trigger] final(self).table().lookup(
                        &*final(mem),
                        (v + i) as usize,
                        0,
                    ) == unpack_spec(pack_spec(leaf_pte(first + i, kernel_flags(prot))), 0)
                &&& r matches Ok(v) ==> distinct_links(&*old(mem)) && count <= table_span(final(self).table().depth())
                    ==> forall|i: int|
                    0 <= i < count ==> #[trigger] final(self).table().lookup(&*final(mem), (v + i) as usize, 0)
                        == unpack_spec(pack_spec(leaf_pte(first + i, kernel_flags(prot))), 0)
                &&& r matches Ok(v) ==> forall|p: VPN|
                    #[trigger] kept_unless_written(final(self).table(), &*old(mem), &*final(mem), p, v as int, count)
                &&& r matches Ok(v) ==> forall|i: int|
                    0 <= i < count ==> #[trigger] reach(
                        &*final(mem),
                        final(self).table().root(),
                        (v + i) as usize,
                        final(self).table().depth() - 1,
                        0,
                    ) is Some
            }),
            r matches Err(e) ==> e == Errno::EINVAL || e == Errno::ENOMEM,
            distinct_links(&*old(mem)) ==> distinct_links(&*final(mem)),
            final(self).vmas().pages().subset_of(old(self).vmas().pages()),
            ({
                let count = (size + paddr % PAGE_SIZE + PAGE_SIZE - 1) / (PAGE_SIZE as int);
                r is Err && (vaddr is Some || (count > 0 && first_fit(old(self).vmas().ranges(), count + 2
                    * VmaAlloc::PADDING) < old(self).vmas().ranges().len())) ==> !final(pmm).pages().has_free_block(0)
            }),
    {
        let vpn_start = match vaddr {
            Some(x) => Some(x / PAGE_SIZE),
            None => None,
        };
        let ppn_start = paddr / PAGE_SIZE;
        let off = paddr % PAGE_SIZE;
        let page_count = (size + off + (PAGE_SIZE - 1)) / PAGE_SIZE;
        let r = self.map_pages(mem, pmm, vpn_start, ppn_start, page_count, prot);
        proof {
            let count = (size + paddr % PAGE_SIZE + PAGE_SIZE - 1) / (PAGE_SIZE as int);
            let first = (paddr / PAGE_SIZE) as int;
            assert(page_count == count && ppn_start == first);
            if let Ok(v) = r {
                assert forall|i: int| 0 <= i < count implies #[trigger] mapped_run(
                    self.table(),
                    &*mem,
                    v as int,
                    first,
                    i,
                    count,
                    kernel_flags(prot),
                ) by {
                    assert(mapped_run(self.table(), &*mem, v as int, ppn_start as int, i, page_count as int, kernel_flags(prot)));
                }
                assert forall|i: int|
                    0 <= i < count && (forall|k: int| i < k < count ==> #[trigger] leaf_slot(self.table(), &*mem, v as int, k)
                        != leaf_slot(self.table(), &*mem, v as int, i)) implies #[trigger] self.table().lookup(
                        &*mem,
                        (v + i) as usize,
                        0,
                    ) == unpack_spec(pack_spec(leaf_pte(first + i, kernel_flags(prot))), 0) by {
                    assert(forall|k: int| i < k < page_count ==> #[trigger] leaf_slot(self.table(), &*mem, v as int, k)
                        != leaf_slot(self.table(), &*mem, v as int, i));
                }
                assert forall|p: VPN| #[trigger] kept_unless_written(self.table(), &*old(mem), &*mem, p, v as int, count) by {
                    assert(kept_unless_written(self.table(), &*old(mem), &*mem, p, v as int, page_count as int));
                }
                assert forall|i: int| 0 <= i < count implies #[trigger] reach(
                    &*mem,
                    self.table().root(),
                    (v + i) as usize,
                    self.table().depth() - 1,
                    0,
                ) is Some by {
                    assert(0 <= i < page_count);
                }
            }
        }
        r
    }

    /// Unmap the whole pages that hold `size` bytes from `vaddr` on.
    pub fn unmap(&mut self, mem: &mut PtMem, pmm: &mut Pmm, vaddr: usize, size: usize) -> (r: EResult<()>)
        requires
            old(self).wf(&*old(mem)),
            old(pmm).wf(),
            old(mem).linked(&*old(pmm)),
            size + vaddr % PAGE_SIZE + PAGE_SIZE - 1 <= usize::MAX,
            ({
                let count = (size + vaddr % PAGE_SIZE + PAGE_SIZE - 1) / (PAGE_SIZE as int);
                &&& (vaddr / PAGE_SIZE) as int + count <= usize::MAX
                &&& ends_ok(
                    (vaddr / PAGE_SIZE)..(vaddr / PAGE_SIZE + count) as usize,
                    |a: int| canon_page(a, old(self).table().depth() as u32) && high_half_page(a),
                )
            }),
        ensures
            final(self).wf(&*final(mem)),
            *final(self) == *old(self),
            final(pmm).wf(),
            final(mem).linked(&*final(pmm)),
            final(pmm).pages().dom_start() == old(pmm).pages().dom_start(),
            final(pmm).pages().dom_end() == old(pmm).pages().dom_end(),
            r matches Err(e) ==> e == Errno::ENOMEM,
            r is Err ==> !final(pmm).pages().has_free_block(0),
            ({
                let count = (size + vaddr % PAGE_SIZE + PAGE_SIZE - 1) / (PAGE_SIZE as int);
                &&& r is Ok ==> count > 0 ==> !final(self).table().lookup(
                    &*final(mem),
                    (vaddr / PAGE_SIZE + count - 1) as usize,
                    0,
                ).valid
                &&& r is Ok ==> forall|i: int|
                    0 <= i < count ==> !(#[trigger] final(self).table().lookup(
                        &*final(mem),
                        (vaddr / PAGE_SIZE + i) as usize,
                        0,
                    )).valid
            }),
    {
        let vpn_start = vaddr / PAGE_SIZE;
        let off = vaddr % PAGE_SIZE;
        let page_count = (size + off + (PAGE_SIZE - 1)) / PAGE_SIZE;
        self.unmap_pages(mem, pmm, vpn_start, page_count)
    }
}

/// A part of the kernel image, by virtual address: `start..end`.
#[derive(Clone, Copy, Debug, PartialEq, Eq, Structural)]
pub struct Segment {
    /// First address of the segment.
    pub start: usize,
    /// First address after the segment.
    pub end: usize,
}

/// Where the kernel image lies: the virtual and the physical address it was
/// loaded at, and its code, read-only data and data segments.
#[derive(Clone, Copy, Debug, PartialEq, Eq, Structural)]
pub struct KernelImage {
    /// Virtual address of the image.
    pub vaddr: usize,
    /// Physical address of the image.
    pub paddr: usize,
    /// The code.
    pub text: Segment,
    /// The read-only data.
    pub rodata: Segment,
    /// The writable data.
    pub data: Segment,
}

/// Why the kernel memory map could not be set up.
#[derive(Clone, Copy, Debug, PartialEq, Eq, Structural)]
pub enum VmmInitError {
    /// A region to map does not lie in canonical kernel addresses, or its
    /// addresses do not fit.
    BadRegion,
    /// The kernel's page tables could not be created.
    PageTables,
    /// The higher-half direct map could not be created.
    DirectMap,
    /// The kernel's code could not be mapped.
    Text,
    /// The kernel's read-only data could not be mapped.
    Rodata,
    /// The kernel's data could not be mapped.
    Data,
}

/// Whether the `size` bytes at physical address `paddr` can be mapped at
/// virtual address `vaddr` by [`KernelMemmap::map`] in a page table of
/// `levels` levels: the page counts fit, and the pages are canonical
/// kernel pages.
pub open spec fn map_region_ok(levels: int, vaddr: int, paddr: int, size: int) -> bool {
    let count = (size + paddr % PAGE_SIZE as int + PAGE_SIZE - 1) / (PAGE_SIZE as int);
    &&& 0 <= vaddr <= usize::MAX
    &&& 0 <= paddr <= usize::MAX
    &&& 0 <= size
    &&& size + paddr % PAGE_SIZE as int + PAGE_SIZE - 1 <= usize::MAX
    &&& paddr / PAGE_SIZE as int + count <= usize::MAX
    &&& vaddr / PAGE_SIZE as int + count <= usize::MAX
    &&& ends_ok(
        ((vaddr / PAGE_SIZE as int) as usize)..((vaddr / PAGE_SIZE as int + count) as usize),
        |a: int| canon_page(a, levels as u32) && high_half_page(a),
    )
}

/// Physical address of the start of a segment of the image.
pub open spec fn seg_paddr(image: KernelImage, seg: Segment) -> int {
    seg.start - image.vaddr + image.paddr
}

/// Whether a segment of the image can be mapped.
pub open spec fn segment_ok(levels: int, image: KernelImage, seg: Segment) -> bool {
    &&& image.vaddr <= seg.start <= seg.end
    &&& map_region_ok(levels, seg.start as int, seg_paddr(image, seg), seg.end - seg.start)
}

/// The run of pages that a segment of the image is mapped as: its first
/// virtual page, its first physical page and the number of pages.
pub open spec fn seg_run(image: KernelImage, seg: Segment) -> (int, int, int) {
    let paddr = seg_paddr(image, seg);
    (
        (seg.start / PAGE_SIZE) as int,
        paddr / PAGE_SIZE as int,
        (seg.end - seg.start + paddr % PAGE_SIZE as int + PAGE_SIZE - 1) / (PAGE_SIZE as int),
    )
}

/// Whether the direct map of the pages `ds..de` at `hhdm_offset` can be made.
pub open spec fn direct_map_ok(levels: int, hhdm_offset: int, ds: int, de: int) -> bool {
    let x = ds + hhdm_offset / PAGE_SIZE as int;
    &&& x + (de - ds) <= usize::MAX
    &&& ends_ok((x as usize)..((x + (de - ds)) as usize), |a: int| canon_page(a, levels as u32) && high_half_page(a))
}

/// The protections that the image is mapped with are ones that
/// [`KernelMemmap::map`] takes.
proof fn lemma_image_prots()
    by (bit_vector)
    ensures
        prot::RX & prot::R != 0,
        prot::RX & !(prot::RWX | prot::IO | prot::NC) == 0,
        prot::R & prot::R != 0,
        prot::R & !(prot::RWX | prot::IO | prot::NC) == 0,
        prot::RW & prot::R != 0,
        prot::RW & !(prot::RWX | prot::IO | prot::NC) == 0,
{
}

/// Check a segment of the image.
fn check_segment(levels: u8, image: KernelImage, seg: Segment) -> (r: bool)
    requires
        3 <= levels <= 5,
    ensures
        r == segment_ok(levels as int, image, seg),
{
    if seg.start < image.vaddr || seg.end < seg.start {
        return false;
    }
    let off = seg.start - image.vaddr;
    if image.paddr > usize::MAX - off {
        return false;
    }
    let paddr = off + image.paddr;
    let size = seg.end - seg.start;
    if size > usize::MAX - (paddr % PAGE_SIZE) - (PAGE_SIZE - 1) {
        return false;
    }
    let count = (size + paddr % PAGE_SIZE + (PAGE_SIZE - 1)) / PAGE_SIZE;
    if paddr / PAGE_SIZE > usize::MAX - count || seg.start / PAGE_SIZE > usize::MAX - count {
        return false;
    }
    let first = seg.start / PAGE_SIZE;
    is_canon_kernel_page_range(first..first + count, levels as u32)
}

/// Two calls of [`KernelMemmap::map`] or [`KernelMemmap::map_pages`] with no
/// virtual address, the first taking the allocator from `k0` to `k1` and
/// returning the run of `n1` pages from `v1`, the second from `k1` to `k2`
/// with `n2` pages from `v2`: each run was free before its call and is not
/// after it, so the two runs do not overlap, and neither is free to be
/// handed out again.
pub proof fn lemma_maps_take_disjoint_runs(
    k0: KernelMemmap,
    k1: KernelMemmap,
    k2: KernelMemmap,
    v1: int,
    n1: int,
    v2: int,
    n2: int,
)
    requires
        forall|p: int|
            v1 <= p < v1 + n1 ==> #[trigger] k0.vmas().pages().contains(p) && !k1.vmas().pages().contains(p),
        k1.vmas().pages().subset_of(k0.vmas().pages()),
        forall|p: int|
            v2 <= p < v2 + n2 ==> #[trigger] k1.vmas().pages().contains(p) && !k2.vmas().pages().contains(p),
        k2.vmas().pages().subset_of(k1.vmas().pages()),
    ensures
        span(v1, v1 + n1).disjoint(span(v2, v2 + n2)),
        forall|p: int| v1 <= p < v1 + n1 || v2 <= p < v2 + n2 ==> !#[trigger] k2.vmas().pages().contains(p),
{
    assert forall|p: int| #[trigger] span(v1, v1 + n1).contains(p) implies !span(v2, v2 + n2).contains(p) by {
        assert(!k1.vmas().pages().contains(p));
        if v2 <= p < v2 + n2 {
            assert(k1.vmas().pages().contains(p));
        }
    }
    assert forall|p: int| v1 <= p < v1 + n1 || v2 <= p < v2 + n2 implies !#[trigger] k2.vmas().pages().contains(p) by {
        if v1 <= p < v1 + n1 {
            assert(!k1.vmas().pages().contains(p));
        } else {
            assert(!k2.vmas().pages().contains(p));
        }
    }
}

/// Set up the kernel memory map: create the kernel's page tables, map all
/// of RAM at `hhdm_offset` for reading and writing, then the image's code
/// for reading and executing, its read-only data for reading and its data
/// for reading and writing, each at its virtual address.
#[verifier::spinoff_prover]
#[verifier::rlimit(100)]
pub fn init_kernel_memmap(mem: &mut PtMem, pmm: &mut Pmm, levels: u8, hhdm_offset: usize, image: KernelImage)
    -> (r: Result<KernelMemmap, VmmInitError>)
    requires
        old(mem).wf(),
        old(pmm).wf(),
        old(mem).linked(&*old(pmm)),
        3 <= levels <= 5,
    ensures
        final(mem).wf(),
        final(pmm).wf(),
        final(mem).linked(&*final(pmm)),
        final(pmm).pages().dom_start() == old(pmm).pages().dom_start(),
        final(pmm).pages().dom_end() == old(pmm).pages().dom_end(),
        distinct_links(&*old(mem)) ==> distinct_links(&*final(mem)),
        ({
            let ds = old(pmm).pages().dom_start();
            let de = old(pmm).pages().dom_end();
            let ok = direct_map_ok(levels as int, hhdm_offset as int, ds, de) && segment_ok(levels as int, image, image.text)
                && segment_ok(levels as int, image, image.rodata) && segment_ok(levels as int, image, image.data);
            &&& (r matches Err(e) && e == VmmInitError::BadRegion) <==> !ok
            &&& !ok ==> *final(mem) == *old(mem) && *final(pmm) == *old(pmm)
            &&& (r matches Err(e) && e == VmmInitError::PageTables) ==> !old(pmm).pages().has_free_block(0)
            &&& r is Err && !(r matches Err(e) && (e == VmmInitError::BadRegion || e == VmmInitError::PageTables))
                ==> !final(pmm).pages().has_free_block(0)
        }),
        r matches Ok(k) ==> {
            let pt = k.table();
            let m = &*final(mem);
            let ds = old(pmm).pages().dom_start();
            let x = ds + (hhdm_offset / PAGE_SIZE) as int;
            let n = old(pmm).pages().dom_end() - ds;
            let (tv, tq, tn) = seg_run(image, image.text);
            let (rv, rq, rn) = seg_run(image, image.rodata);
            let (av, aq, an) = seg_run(image, image.data);
            &&& k.wf(m)
            &&& pt.depth() == levels
            &&& forall|i: int|
                0 <= i < n && run_clear(pt, m, x, i, tv, tn) && run_clear(pt, m, x, i, rv, rn) && run_clear(
                    pt,
                    m,
                    x,
                    i,
                    av,
                    an,
                ) ==> #[trigger] mapped_run(pt, m, x, ds, i, n, kernel_flags(prot::RW))
            &&& forall|i: int|
                0 <= i < tn && run_clear(pt, m, tv, i, rv, rn) && run_clear(pt, m, tv, i, av, an)
                    ==> #[trigger] mapped_run(pt, m, tv, tq, i, tn, kernel_flags(prot::RX))
            &&& forall|i: int|
                0 <= i < rn && run_clear(pt, m, rv, i, av, an) ==> #[trigger] mapped_run(
                    pt,
                    m,
                    rv,
                    rq,
                    i,
                    rn,
                    kernel_flags(prot::R),
                )
            &&& forall|i: int| 0 <= i < an ==> #[trigger] mapped_run(pt, m, av, aq, i, an, kernel_flags(prot::RW))
        },
{
    let dom = domain(pmm);
    let ds = dom.start;
    let de = dom.end;
    proof {
        crate::pmm::lemma_counts_bounded(&*pmm);
    }
    let size = de - ds;
    if ds > usize::MAX - hhdm_offset / PAGE_SIZE {
        return Err(VmmInitError::BadRegion);
    }
    let x = ds + hhdm_offset / PAGE_SIZE;
    if x > usize::MAX - size || !is_canon_kernel_page_range(x..x + size, levels as u32) {
        return Err(VmmInitError::BadRegion);
    }
    if !check_segment(levels, image, image.text) || !check_segment(levels, image, image.rodata) || !check_segment(
        levels,
        image,
        image.data,
    ) {
        return Err(VmmInitError::BadRegion);
    }
    proof {
        lemma_image_prots();
    }
    let mut k = match KernelMemmap::new(mem, pmm, levels) {
        Ok(k) => k,
        Err(_) => {
            return Err(VmmInitError::PageTables);
        },
    };
    let ghost pt = k.table();
    let ghost fd = kernel_flags(prot::RW);
    let ghost ft = kernel_flags(prot::RX);
    let ghost fr = kernel_flags(prot::R);
    let ghost (tv, tq, tn) = seg_run(image, image.text);
    let ghost (rv, rq, rn) = seg_run(image, image.rodata);
    let ghost (av, aq, an) = seg_run(image, image.data);
    if k.map_pages(mem, pmm, Some(x), ds, size, prot::RW).is_err() {
        return Err(VmmInitError::DirectMap);
    }
    let ghost m1 = *mem;
    let text = image.text;
    if k.map(mem, pmm, Some(text.start), text.start - image.vaddr + image.paddr, text.end - text.start, prot::RX).is_err() {
        return Err(VmmInitError::Text);
    }
    let ghost m2 = *mem;
    proof {
        lemma_run_kept(pt, &m1, &m2, x as int, ds as int, size as int, fd, tv, tn, |i: int| true);
    }
    let rodata = image.rodata;
    if k.map(mem, pmm, Some(rodata.start), rodata.start - image.vaddr + image.paddr, rodata.end - rodata.start, prot::R).is_err() {
        return Err(VmmInitError::Rodata);
    }
    let ghost m3 = *mem;
    proof {
        lemma_run_kept(pt, &m2, &m3, x as int, ds as int, size as int, fd, rv, rn, |i: int| run_clear(pt, &m2, x as int, i, tv, tn));
        lemma_run_kept(pt, &m2, &m3, tv, tq, tn, ft, rv, rn, |i: int| true);
    }
    let data = image.data;
    if k.map(mem, pmm, Some(data.start), data.start - image.vaddr + image.paddr, data.end - data.start, prot::RW).is_err() {
        return Err(VmmInitError::Data);
    }
    proof {
        let m4 = *mem;
        lemma_run_kept(
            pt,
            &m3,
            &m4,
            x as int,
            ds as int,
            size as int,
            fd,
            av,
            an,
            |i: int| run_clear(pt, &m2, x as int, i, tv, tn) && run_clear(pt, &m3, x as int, i, rv, rn),
        );
        lemma_run_kept(pt, &m3, &m4, tv, tq, tn, ft, av, an, |i: int| run_clear(pt, &m3, tv, i, rv, rn));
        lemma_run_kept(pt, &m3, &m4, rv, rq, rn, fr, av, an, |i: int| true);
        // The entries that the pages read stay where they were.
        assert forall|j: int| 0 <= j < tn implies #[trigger] leaf_slot(pt, &m4, tv, j) == leaf_slot(pt, &m2, tv, j) by {
            assert(leaf_slot(pt, &m3, tv, j) == leaf_slot(pt, &m2, tv, j));
            assert(leaf_slot(pt, &m4, tv, j) == leaf_slot(pt, &m3, tv, j));
        }
        assert forall|j: int| 0 <= j < rn implies #[trigger] leaf_slot(pt, &m4, rv, j) == leaf_slot(pt, &m3, rv, j) by {
            assert(leaf_slot(pt, &m4, rv, j) == leaf_slot(pt, &m3, rv, j));
        }
        assert forall|i: int| 0 <= i < size implies #[trigger] run_clear(pt, &m4, x as int, i, tv, tn) == run_clear(
            pt,
            &m2,
            x as int,
            i,
            tv,
            tn,
        ) && run_clear(pt, &m4, x as int, i, rv, rn) == run_clear(pt, &m3, x as int, i, rv, rn) by {
            assert(leaf_slot(pt, &m3, x as int, i) == leaf_slot(pt, &m2, x as int, i));
            assert(leaf_slot(pt, &m4, x as int, i) == leaf_slot(pt, &m3, x as int, i));
            lemma_clear_same(pt, &m2, &m4, x as int, i, tv, tn);
            lemma_clear_same(pt, &m3, &m4, x as int, i, rv, rn);
        }
        assert forall|i: int| 0 <= i < tn implies #[trigger] run_clear(pt, &m4, tv, i, rv, rn) == run_clear(
            pt,
            &m3,
            tv,
            i,
            rv,
            rn,
        ) by {
            assert(leaf_slot(pt, &m4, tv, i) == leaf_slot(pt, &m3, tv, i));
            lemma_clear_same(pt, &m3, &m4, tv, i, rv, rn);
        }
    }
    Ok(k)
}

} // verus!
