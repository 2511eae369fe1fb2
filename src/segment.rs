//! Pads and their consumed ranges: usage, first-fit allocation, and the
//! checks that keep pad bytes from being used twice.

use vstd::prelude::*;
use vstd::set_lib::*;

use crate::error::VaultError;

verus! {

/// A consumed half-open byte range `[start, end)` of a pad.
#[derive(Debug, Clone, Copy, PartialEq, Eq, Structural)]
pub struct UsedSegment {
    /// First byte of the range.
    pub start: u64,
    /// One past the last byte of the range.
    pub end: u64,
}

/// The half-open ranges `[a_start, a_end)` and `[b_start, b_end)` intersect.
pub open spec fn ranges_overlap(a_start: int, a_end: int, b_start: int, b_end: int) -> bool {
    a_start < b_end && a_end > b_start
}

impl UsedSegment {
    /// Number of bytes in the range.
    pub open spec fn len_spec(self) -> int {
        self.end - self.start
    }

    /// The range holds byte `x`.
    pub open spec fn covers(self, x: int) -> bool {
        self.start <= x < self.end
    }

    /// The range intersects `[start, end)`.
    pub open spec fn meets(self, start: int, end: int) -> bool {
        ranges_overlap(start, end, self.start as int, self.end as int)
    }
}

/// Sum of the lengths of the ranges.
pub open spec fn sum_lengths(segs: Seq<UsedSegment>) -> int
    decreases segs.len(),
{
    if segs.len() == 0 {
        0
    } else {
        sum_lengths(segs.drop_last()) + segs.last().len_spec()
    }
}

/// The set of bytes that the ranges hold.
pub open spec fn covered(segs: Seq<UsedSegment>) -> Set<int>
    decreases segs.len(),
{
    if segs.len() == 0 {
        Set::empty()
    } else {
        covered(segs.drop_last()).union(
            set_int_range(segs.last().start as int, segs.last().end as int),
        )
    }
}

/// Every range is non-empty and inside `[0, size)`, and no two ranges intersect.
pub open spec fn segments_valid(segs: Seq<UsedSegment>, size: int) -> bool {
    &&& forall|i: int|
        0 <= i < segs.len() ==> #[trigger] segs[i].start < segs[i].end && segs[i].end <= size
    &&& forall|i: int, j: int|
        0 <= i < j < segs.len() ==> !(#[trigger] segs[i]).meets(
            (#[trigger] segs[j]).start as int,
            segs[j].end as int,
        )
}

proof fn lemma_prefix_valid(segs: Seq<UsedSegment>, size: int, n: int)
    requires
        segments_valid(segs, size),
        0 <= n <= segs.len(),
    ensures
        segments_valid(segs.take(n), size),
{
    let t = segs.take(n);
    assert forall|i: int, j: int| 0 <= i < j < t.len() implies !(#[trigger] t[i]).meets(
        (#[trigger] t[j]).start as int,
        t[j].end as int,
    ) by {
        assert(t[i] == segs[i] && t[j] == segs[j]);
    }
    assert forall|i: int| 0 <= i < t.len() implies #[trigger] t[i].start < t[i].end && t[i].end
        <= size by {
        assert(t[i] == segs[i]);
    }
}

proof fn lemma_covered_members(segs: Seq<UsedSegment>, x: int)
    ensures
        covered(segs).contains(x) <==> exists|i: int|
            0 <= i < segs.len() && (#[trigger] segs[i]).covers(x),
    decreases segs.len(),
{
    if segs.len() > 0 {
        let d = segs.drop_last();
        lemma_covered_members(d, x);
        if covered(segs).contains(x) {
            if covered(d).contains(x) {
                let i = choose|i: int| 0 <= i < d.len() && (#[trigger] d[i]).covers(x);
                assert(segs[i] == d[i]);
            } else {
                assert(segs[segs.len() - 1].covers(x));
            }
        }
        if exists|i: int| 0 <= i < segs.len() && (#[trigger] segs[i]).covers(x) {
            let i = choose|i: int| 0 <= i < segs.len() && (#[trigger] segs[i]).covers(x);
            if i < segs.len() - 1 {
                assert(d[i] == segs[i]);
            }
        }
    }
}

/// Valid ranges hold exactly as many bytes as the sum of their lengths, all of
/// them inside `[0, size)`.
pub proof fn lemma_covered_size(segs: Seq<UsedSegment>, size: int)
    requires
        segments_valid(segs, size),
    ensures
        covered(segs).finite(),
        covered(segs).len() == sum_lengths(segs),
        covered(segs).subset_of(set_int_range(0, size)),
    decreases segs.len(),
{
    if segs.len() > 0 {
        let n = segs.len() - 1;
        let d = segs.drop_last();
        let l = segs.last();
        let r = set_int_range(l.start as int, l.end as int);
        assert(d =~= segs.take(n));
        lemma_prefix_valid(segs, size, n);
        lemma_covered_size(d, size);
        lemma_int_range(l.start as int, l.end as int);
        assert forall|x: int| covered(d).contains(x) implies !r.contains(x) by {
            lemma_covered_members(d, x);
            let i = choose|i: int| 0 <= i < d.len() && (#[trigger] d[i]).covers(x);
            assert(segs[i] == d[i]);
            assert(!segs[i].meets(segs[n].start as int, segs[n].end as int));
        }
        assert(covered(d).disjoint(r));
        lemma_set_disjoint_lens(covered(d), r);
    }
}

/// Valid ranges never add up to more than the space they live in.
pub proof fn lemma_used_within_size(segs: Seq<UsedSegment>, size: int)
    requires
        segments_valid(segs, size),
        size >= 0,
    ensures
        0 <= sum_lengths(segs) <= size,
{
    lemma_covered_size(segs, size);
    lemma_int_range(0, size);
    lemma_len_subset(covered(segs), set_int_range(0, size));
}

/// `s` is ordered by start.
pub open spec fn sorted_by_start(s: Seq<UsedSegment>) -> bool {
    forall|i: int, j: int| 0 <= i < j < s.len() ==> (#[trigger] s[i]).start <= (#[trigger] s[j]).start
}

/// `a` and `b` hold the same ranges, whatever their order.
pub open spec fn same_segments(a: Seq<UsedSegment>, b: Seq<UsedSegment>) -> bool {
    &&& forall|i: int| 0 <= i < a.len() ==> b.contains(#[trigger] a[i])
    &&& forall|j: int| 0 <= j < b.len() ==> a.contains(#[trigger] b[j])
}

/// Each range of `s` ends where a later, different range starts, or before.
pub open spec fn ordered_apart(s: Seq<UsedSegment>) -> bool {
    &&& forall|i: int| 0 <= i < s.len() ==> (#[trigger] s[i]).start < s[i].end
    &&& forall|i: int, j: int|
        0 <= i < j < s.len() ==> (#[trigger] s[i]).end <= (#[trigger] s[j]).start || s[i] == s[j]
}

/// Relies on `slice::sort_unstable_by_key`, keyed by the start: the ranges
/// end up ordered by start and are the same ranges as before.
#[verifier::external_body]
fn sort_by_start(v: &mut Vec<UsedSegment>)
    ensures
        final(v)@.to_multiset() == old(v)@.to_multiset(),
        sorted_by_start(final(v)@),
{
    v.sort_unstable_by_key(|s| s.start);
}

proof fn lemma_sorted_order(segs: Seq<UsedSegment>, s: Seq<UsedSegment>, size: int)
    requires
        segments_valid(segs, size),
        s.to_multiset() == segs.to_multiset(),
        sorted_by_start(s),
    ensures
        same_segments(segs, s),
        ordered_apart(s),
        forall|j: int| 0 <= j < s.len() ==> (#[trigger] s[j]).end <= size,
{
    broadcast use vstd::seq_lib::group_to_multiset_ensures;

    assert forall|i: int| 0 <= i < segs.len() implies s.contains(#[trigger] segs[i]) by {
        assert(segs.contains(segs[i]));
        assert(segs.to_multiset().count(segs[i]) > 0);
    }
    assert forall|j: int| 0 <= j < s.len() implies segs.contains(#[trigger] s[j]) by {
        assert(s.contains(s[j]));
        assert(s.to_multiset().count(s[j]) > 0);
    }
    assert forall|j: int| 0 <= j < s.len() implies (#[trigger] s[j]).start < s[j].end && s[j].end
        <= size by {
        assert(segs.contains(s[j]));
    }
    assert forall|i: int, j: int| 0 <= i < j < s.len() implies (#[trigger] s[i]).end <= (
    #[trigger] s[j]).start || s[i] == s[j] by {
        assert(segs.contains(s[i]));
        assert(segs.contains(s[j]));
        let a = choose|a: int| 0 <= a < segs.len() && segs[a] == s[i];
        let b = choose|b: int| 0 <= b < segs.len() && segs[b] == s[j];
        if s[i] != s[j] {
            if a < b {
                assert(!segs[a].meets(segs[b].start as int, segs[b].end as int));
            } else {
                assert(!segs[b].meets(segs[a].start as int, segs[a].end as int));
            }
        }
    }
}

/// Where a pad's file is kept: pads in use and pads that are fully consumed
/// are stored apart.
#[derive(Debug, Clone, Copy, PartialEq, Eq, Structural)]
pub enum StorageArea {
    /// The pad still has unconsumed bytes, as far as its record says.
    Available,
    /// The pad is marked as fully consumed.
    Used,
}

impl StorageArea {
    /// Name of the directory of this area.
    pub fn dir_name(&self) -> (r: &'static str)
        ensures
            *self == StorageArea::Available ==> r@ == "available"@,
            *self == StorageArea::Used ==> r@ == "used"@,
    {
        match self {
            StorageArea::Available => "available",
            StorageArea::Used => "used",
        }
    }
}

/// One pad file of random bytes and the record of which of its bytes are spent.
#[derive(Debug, Clone)]
pub struct Pad {
    /// Identifier, unique within a vault.
    pub id: String,
    /// Name of the file that holds the pad bytes.
    pub file_name: String,
    /// Number of bytes in the pad.
    pub size: u64,
    /// Ranges that have been consumed.
    pub used_segments: Vec<UsedSegment>,
    /// Cached: the consumed bytes add up to the whole pad.
    pub is_fully_used: bool,
}

impl Pad {
    /// The consumed ranges.
    pub open spec fn segs(&self) -> Seq<UsedSegment> {
        self.used_segments@
    }

    /// The consumed ranges are non-empty, inside the pad, and pairwise disjoint.
    pub open spec fn wf(&self) -> bool {
        segments_valid(self.segs(), self.size as int)
    }

    /// Number of consumed bytes.
    pub open spec fn used_total(&self) -> int {
        sum_lengths(self.segs())
    }

    /// The consumed bytes add up to the whole pad.
    pub open spec fn full_spec(&self) -> bool {
        self.used_total() >= self.size
    }

    /// `[start, start + len)` lies inside the pad and meets no consumed range.
    pub open spec fn is_free(&self, start: int, len: int) -> bool {
        &&& 0 <= start
        &&& start + len <= self.size
        &&& forall|i: int|
            0 <= i < self.segs().len() ==> !(#[trigger] self.segs()[i]).meets(start, start + len)
    }

    /// The pad is not full and some offset has `len` free bytes.
    pub open spec fn has_room(&self, len: int) -> bool {
        !self.full_spec() && exists|t: int| self.is_free(t, len)
    }

    /// The lowest offset at which `len` bytes are free.
    pub open spec fn lowest_free(&self, len: int) -> int {
        choose|s: int|
            self.is_free(s, len) && forall|t: int| 0 <= t < s ==> !#[trigger] self.is_free(t, len)
    }

    /// `[start, start + len)` is one of the consumed ranges, exactly.
    pub open spec fn is_recorded(&self, start: int, len: int) -> bool {
        exists|i: int|
            0 <= i < self.segs().len() && (#[trigger] self.segs()[i]).start == start
                && self.segs()[i].end == start + len
    }

    /// The area where the pad's file is kept, by the cached flag.
    pub open spec fn area_spec(&self) -> StorageArea {
        if self.is_fully_used {
            StorageArea::Used
        } else {
            StorageArea::Available
        }
    }

    /// `self` is `p` with `[start, start + len)` appended to its consumed
    /// ranges and its flag recomputed.
    pub open spec fn extends(&self, p: Pad, start: int, len: int) -> bool {
        &&& self.id == p.id
        &&& self.file_name == p.file_name
        &&& self.size == p.size
        &&& self.segs() == p.segs().push(UsedSegment { start: start as u64, end: (start + len) as u64 })
        &&& self.is_fully_used == self.full_spec()
    }

    /// A fresh pad: nothing consumed, and marked full only when it has no
    /// bytes at all.
    pub open spec fn is_fresh(&self, id: String, file_name: String, size: u64) -> bool {
        &&& self.id == id
        &&& self.file_name == file_name
        &&& self.size == size
        &&& self.segs().len() == 0
        &&& self.is_fully_used == (size == 0)
    }

    /// The offset at which an encryption of `length` bytes starts: `offset`
    /// when one is given and the range there lies inside the pad and meets no
    /// consumed range; otherwise the lowest free offset.
    pub open spec fn resolve_start_spec(&self, offset: Option<u64>, length: u64) -> Result<
        u64,
        VaultError,
    > {
        match offset {
            Some(o) => if o + length > self.size {
                Err(
                    VaultError::SegmentOutOfBounds {
                        pad_id: self.id,
                        start: o,
                        length,
                        size: self.size,
                    },
                )
            } else if !self.is_free(o as int, length as int) {
                Err(VaultError::SegmentOverlap { pad_id: self.id, start: o, length })
            } else {
                Ok(o)
            },
            None => if self.has_room(length as int) {
                Ok(self.lowest_free(length as int) as u64)
            } else {
                Err(VaultError::InsufficientSpace { pad_id: self.id, length })
            },
        }
    }

    /// Only the lowest free offset has the property that pins it.
    pub proof fn lemma_lowest_free_unique(&self, s: int, len: int)
        requires
            self.is_free(s, len),
            forall|t: int| 0 <= t < s ==> !#[trigger] self.is_free(t, len),
        ensures
            self.lowest_free(len) == s,
    {
        let c = self.lowest_free(len);
        assert(self.is_free(c, len));
        if c < s {
            assert(!self.is_free(c, len));
        }
        if s < c {
            assert(!self.is_free(s, len));
        }
    }

    /// Appending a free non-empty range keeps the ranges pairwise disjoint and
    /// inside the pad, and adds its length to the consumed bytes: recorded
    /// ranges are never reused.
    pub proof fn lemma_record_free_keeps_valid(&self, start: int, len: int)
        requires
            self.wf(),
            self.is_free(start, len),
            len > 0,
        ensures
            segments_valid(
                self.segs().push(UsedSegment { start: start as u64, end: (start + len) as u64 }),
                self.size as int,
            ),
            sum_lengths(
                self.segs().push(UsedSegment { start: start as u64, end: (start + len) as u64 }),
            ) == self.used_total() + len,
    {
        let seg = UsedSegment { start: start as u64, end: (start + len) as u64 };
        let q = self.segs().push(seg);
        let n = self.segs().len() as int;
        assert forall|i: int, j: int| 0 <= i < j < q.len() implies !(#[trigger] q[i]).meets(
            (#[trigger] q[j]).start as int,
            q[j].end as int,
        ) by {
            assert(q[i] == self.segs()[i]);
            if j < n {
                assert(q[j] == self.segs()[j]);
            } else {
                assert(!self.segs()[i].meets(start, start + len));
            }
        }
        assert forall|i: int| 0 <= i < q.len() implies #[trigger] q[i].start < q[i].end && q[i].end
            <= self.size by {
            if i < n {
                assert(q[i] == self.segs()[i]);
            }
        }
        assert(q.drop_last() =~= self.segs());
    }

    /// Whether `[start, start + length)` is one of the consumed ranges, exactly.
    pub fn has_segment(&self, start: u64, length: u64) -> (r: bool)
        ensures
            r == self.is_recorded(start as int, length as int),
    {
        let mut i: usize = 0;
        while i < self.used_segments.len()
            invariant
                0 <= i <= self.segs().len(),
                forall|k: int|
                    0 <= k < i ==> !((#[trigger] self.segs()[k]).start == start
                        && self.segs()[k].end == start + length),
            decreases self.segs().len() - i,
        {
            let s = self.used_segments[i];
            if s.start == start && s.end >= start && s.end - start == length {
                return true;
            }
            i += 1;
        }
        false
    }

    /// Where the pad's file is kept, by the cached flag.
    pub fn storage_area(&self) -> (r: StorageArea)
        ensures
            r == self.area_spec(),
    {
        if self.is_fully_used {
            StorageArea::Used
        } else {
            StorageArea::Available
        }
    }

    /// Checks at run time that the consumed ranges are non-empty, inside the
    /// pad, and pairwise disjoint.
    pub fn check_wf(&self) -> (r: bool)
        ensures
            r == self.wf(),
    {
        let n = self.used_segments.len();
        let mut i: usize = 0;
        while i < n
            invariant
                0 <= i <= n,
                n == self.segs().len(),
                segments_valid(self.segs().take(i as int), self.size as int),
            decreases n - i,
        {
            let si = self.used_segments[i];
            if !(si.start < si.end && si.end <= self.size) {
                assert(!(self.segs()[i as int].start < self.segs()[i as int].end
                    && self.segs()[i as int].end <= self.size));
                return false;
            }
            let mut j: usize = 0;
            while j < i
                invariant
                    0 <= j <= i < n,
                    n == self.segs().len(),
                    si == self.segs()[i as int],
                    forall|k: int| 0 <= k < j ==> !(#[trigger] self.segs()[k]).meets(si.start as int, si.end as int),
                decreases i - j,
            {
                let sj = self.used_segments[j];
                if si.start < sj.end && si.end > sj.start {
                    assert(self.segs()[j as int].meets(si.start as int, si.end as int));
                    return false;
                }
                j += 1;
            }
            proof {
                let t = self.segs().take(i + 1);
                let p = self.segs().take(i as int);
                assert forall|a: int, b: int| 0 <= a < b < t.len() implies !(#[trigger] t[a]).meets(
                    (#[trigger] t[b]).start as int,
                    t[b].end as int,
                ) by {
                    assert(t[a] == self.segs()[a]);
                    assert(t[b] == self.segs()[b]);
                    if b < i {
                        assert(p[a] == t[a] && p[b] == t[b]);
                    }
                }
                assert forall|a: int| 0 <= a < t.len() implies #[trigger] t[a].start < t[a].end
                    && t[a].end <= self.size by {
                    if a < i {
                        assert(p[a] == t[a]);
                    }
                }
            }
            i += 1;
        }
        assert(self.segs().take(n as int) =~= self.segs());
        true
    }

    /// The consumed bytes of a well-formed pad never exceed its size.
    pub proof fn lemma_used_bounded(&self)
        requires
            self.wf(),
        ensures
            0 <= self.used_total() <= self.size,
    {
        lemma_used_within_size(self.segs(), self.size as int);
    }

    /// A well-formed pad whose consumed bytes reach its size has no free
    /// non-empty range left.
    pub proof fn lemma_full_pad_has_no_room(&self, start: int, len: int)
        requires
            self.wf(),
            self.full_spec(),
            len > 0,
        ensures
            !self.is_free(start, len),
    {
        if self.is_free(start, len) {
            let segs = self.segs();
            let r = set_int_range(start, start + len);
            let all = set_int_range(0, self.size as int);
            lemma_covered_size(segs, self.size as int);
            lemma_int_range(start, start + len);
            lemma_int_range(0, self.size as int);
            assert forall|x: int| covered(segs).contains(x) implies !r.contains(x) by {
                lemma_covered_members(segs, x);
                let i = choose|i: int| 0 <= i < segs.len() && (#[trigger] segs[i]).covers(x);
                assert(!segs[i].meets(start, start + len));
            }
            assert(covered(segs).disjoint(r));
            lemma_set_disjoint_lens(covered(segs), r);
            assert((covered(segs) + r).subset_of(all));
            lemma_len_subset(covered(segs) + r, all);
        }
    }

    /// Sum of the lengths of the consumed ranges.
    pub fn total_used_bytes(&self) -> (r: u64)
        requires
            self.wf(),
        ensures
            r == self.used_total(),
    {
        let mut total: u64 = 0;
        let mut i: usize = 0;
        while i < self.used_segments.len()
            invariant
                0 <= i <= self.segs().len(),
                self.wf(),
                total == sum_lengths(self.segs().take(i as int)),
            decreases self.segs().len() - i,
        {
            let s = self.used_segments[i];
            proof {
                let t = self.segs().take(i + 1);
                assert(t.drop_last() =~= self.segs().take(i as int));
                lemma_prefix_valid(self.segs(), self.size as int, i + 1);
                lemma_used_within_size(t, self.size as int);
            }
            total = total + (s.end - s.start);
            i += 1;
        }
        proof {
            assert(self.segs().take(self.segs().len() as int) =~= self.segs());
        }
        total
    }

    /// Recomputes whether the consumed bytes add up to the whole pad.
    pub fn is_fully_used(&self) -> (r: bool)
        requires
            self.wf(),
        ensures
            r == self.full_spec(),
    {
        self.total_used_bytes() >= self.size
    }

    /// True when the consumed bytes already reach the pad's size, or are at
    /// least `new_segment_length`. When the last recorded range has that
    /// length, a false result means the pad was not full before it was
    /// recorded; a true result alone does not mean that it was.
    pub fn is_fully_used_before(&self, new_segment_length: u64) -> (r: bool)
        requires
            self.wf(),
        ensures
            r == (self.used_total() >= self.size || self.used_total() >= new_segment_length),
    {
        let current_usage = self.total_used_bytes();
        if current_usage >= self.size {
            return true;
        }
        if current_usage < new_segment_length {
            return false;
        }
        current_usage - new_segment_length < self.size
    }

    /// Whether `[start, start + length)` meets no consumed range.
    fn range_is_free(&self, start: u64, length: u64) -> (r: bool)
        requires
            start + length <= self.size,
        ensures
            r == self.is_free(start as int, length as int),
    {
        let end = start + length;
        let mut i: usize = 0;
        while i < self.used_segments.len()
            invariant
                0 <= i <= self.segs().len(),
                end == start + length,
                forall|k: int|
                    0 <= k < i ==> !(#[trigger] self.segs()[k]).meets(start as int, end as int),
            decreases self.segs().len() - i,
        {
            let s = self.used_segments[i];
            if start < s.end && end > s.start {
                return false;
            }
            i += 1;
        }
        true
    }

    /// First fit: the lowest offset at which `length` contiguous bytes are
    /// free, or `None` when there is none or the pad is full. A zero length
    /// fits at offset 0 of any pad that is not full.
    ///
    /// The consumed ranges are sorted by start; then the gap before the first,
    /// the gaps between neighbours and the gap after the last are tried in
    /// that order, and the first one that is long enough is taken.
    pub fn find_available_segment(&self, length: u64) -> (r: Option<u64>)
        ensures
            self.wf() && self.full_spec() ==> r is None,
            self.wf() && !self.full_spec() ==> match r {
                Some(s) => self.is_free(s as int, length as int) && forall|t: int|
                    0 <= t < s ==> !#[trigger] self.is_free(t, length as int),
                None => forall|t: int| !#[trigger] self.is_free(t, length as int),
            },
    {
        let ghost ok = self.wf();
        if self.used_bytes_saturating() >= self.size {
            return None;
        }
        let mut sorted = self.used_segments.clone();
        proof {
            assert(sorted@ =~= self.segs());
        }
        sort_by_start(&mut sorted);
        proof {
            if ok {
                lemma_sorted_order(self.segs(), sorted@, self.size as int);
            }
        }
        let n = sorted.len();
        if n == 0 {
            proof {
                vstd::seq_lib::to_multiset_len(sorted@);
                vstd::seq_lib::to_multiset_len(self.segs());
                assert forall|t: int| #![trigger self.is_free(t, length as int)] t + length <= self.size
                    && 0 <= t implies self.is_free(t, length as int) by {}
            }
            return if self.size >= length {
                Some(0)
            } else {
                None
            };
        }
        if sorted[0].start >= length {
            proof {
                if ok {
                    self.lemma_free_below(sorted@, 0, length as int);
                }
            }
            return Some(0);
        }
        let mut last_end = sorted[0].end;
        proof {
            if ok {
                self.lemma_gap_too_short(sorted@, 0, 0, length as int);
            }
        }
        let mut i: usize = 1;
        while i < n
            invariant
                1 <= i <= n,
                n == sorted@.len(),
                length > 0,
                last_end == sorted@[i - 1].end,
                ok == self.wf(),
                ok ==> {
                    &&& !self.full_spec()
                    &&& sorted_by_start(sorted@)
                    &&& same_segments(self.segs(), sorted@)
                    &&& ordered_apart(sorted@)
                    &&& forall|j: int| 0 <= j < sorted@.len() ==> (#[trigger] sorted@[j]).end <= self.size
                    &&& forall|t: int| 0 <= t < last_end ==> !#[trigger] self.is_free(t, length as int)
                },
            decreases n - i,
        {
            let segment = sorted[i];
            let gap = segment.start.saturating_sub(last_end);
            if gap >= length {
                proof {
                    if ok {
                        self.lemma_free_after(sorted@, i - 1, length as int);
                    }
                }
                return Some(last_end);
            }
            proof {
                if ok {
                    self.lemma_gap_too_short(sorted@, i as int, last_end as int, length as int);
                }
            }
            last_end = segment.end;
            i += 1;
        }
        if self.size.saturating_sub(last_end) >= length {
            proof {
                if ok {
                    self.lemma_free_after(sorted@, n - 1, length as int);
                }
            }
            return Some(last_end);
        }
        None
    }

    /// Consumed bytes counted with saturating arithmetic, so that any record,
    /// even a malformed one, gives an answer; on a well-formed pad it is the
    /// exact count.
    fn used_bytes_saturating(&self) -> (r: u64)
        ensures
            self.wf() ==> r == self.used_total(),
    {
        let mut total: u64 = 0;
        let mut i: usize = 0;
        while i < self.used_segments.len()
            invariant
                0 <= i <= self.segs().len(),
                self.wf() ==> total == sum_lengths(self.segs().take(i as int)),
            decreases self.segs().len() - i,
        {
            let s = self.used_segments[i];
            proof {
                if self.wf() {
                    let t = self.segs().take(i + 1);
                    assert(t.drop_last() =~= self.segs().take(i as int));
                    lemma_prefix_valid(self.segs(), self.size as int, i + 1);
                    lemma_used_within_size(t, self.size as int);
                }
            }
            total = total.saturating_add(s.end.saturating_sub(s.start));
            i += 1;
        }
        proof {
            assert(self.segs().take(self.segs().len() as int) =~= self.segs());
        }
        total
    }

    /// With the ranges sorted, nothing starts below the first start, so the
    /// lowest `len` bytes are free when the first range starts at `len` or
    /// later.
    proof fn lemma_free_below(&self, s: Seq<UsedSegment>, k: int, len: int)
        requires
            self.wf(),
            k == 0,
            s.len() > 0,
            len >= 0,
            s[0].start >= len,
            sorted_by_start(s),
            same_segments(self.segs(), s),
            ordered_apart(s),
            forall|j: int| 0 <= j < s.len() ==> (#[trigger] s[j]).end <= self.size,
        ensures
            self.is_free(0, len),
    {
        assert forall|a: int| 0 <= a < self.segs().len() implies !(#[trigger] self.segs()[a]).meets(
            0,
            len,
        ) by {
            assert(s.contains(self.segs()[a]));
            let j = choose|j: int| 0 <= j < s.len() && s[j] == self.segs()[a];
            if j > 0 {
                assert(s[0].start <= s[j].start);
            }
        }
        assert(s[0].end <= self.size);
    }

    /// Offsets below the end of range `k` of the sorted ranges are not free
    /// once the gap before it, from `last_end`, is shorter than `len`.
    proof fn lemma_gap_too_short(&self, s: Seq<UsedSegment>, k: int, last_end: int, len: int)
        requires
            0 <= k < s.len(),
            len > 0,
            same_segments(self.segs(), s),
            ordered_apart(s),
            s[k].start < last_end + len,
            forall|t: int| 0 <= t < last_end ==> !#[trigger] self.is_free(t, len),
        ensures
            forall|t: int| 0 <= t < s[k].end ==> !#[trigger] self.is_free(t, len),
    {
        assert(self.segs().contains(s[k]));
        let a = choose|a: int| 0 <= a < self.segs().len() && self.segs()[a] == s[k];
        assert forall|t: int| 0 <= t < s[k].end implies !#[trigger] self.is_free(t, len) by {
            if t >= last_end {
                assert(self.segs()[a].meets(t, t + len));
            }
        }
    }

    /// The `len` bytes after the end of range `k` of the sorted ranges are
    /// free when the next range starts that far away, or when there is none
    /// and the pad has room.
    proof fn lemma_free_after(&self, s: Seq<UsedSegment>, k: int, len: int)
        requires
            self.wf(),
            0 <= k < s.len(),
            len > 0,
            sorted_by_start(s),
            same_segments(self.segs(), s),
            ordered_apart(s),
            forall|j: int| 0 <= j < s.len() ==> (#[trigger] s[j]).end <= self.size,
            k + 1 < s.len() ==> s[k + 1].start >= s[k].end + len,
            k + 1 == s.len() ==> s[k].end + len <= self.size,
        ensures
            self.is_free(s[k].end as int, len),
    {
        let e = s[k].end as int;
        assert forall|a: int| 0 <= a < self.segs().len() implies !(#[trigger] self.segs()[a]).meets(
            e,
            e + len,
        ) by {
            assert(s.contains(self.segs()[a]));
            let j = choose|j: int| 0 <= j < s.len() && s[j] == self.segs()[a];
            if j > k {
                assert(s[k + 1].start <= s[j].start);
            }
            if j < k {
                assert(s[j].end <= s[k].start || s[j] == s[k]);
            }
        }
        if k + 1 < s.len() {
            assert(s[k + 1].end <= self.size);
        }
    }

    /// Resolves the first byte of an encryption of `length` bytes: a given
    /// offset is checked, a missing one is found by first fit.
    pub fn resolve_start(&self, offset: Option<u64>, length: u64) -> (r: Result<u64, VaultError>)
        requires
            self.wf(),
        ensures
            r == self.resolve_start_spec(offset, length),
    {
        match offset {
            Some(o) => match self.check_explicit_segment(o, length) {
                Ok(()) => Ok(o),
                Err(e) => Err(e),
            },
            None => match self.find_available_segment(length) {
                Some(s) => {
                    proof {
                        self.lemma_lowest_free_unique(s as int, length as int);
                    }
                    Ok(s)
                },
                None => {
                    proof {
                        if self.has_room(length as int) {
                            let t = choose|t: int| self.is_free(t, length as int);
                            assert(self.is_free(t, length as int));
                        }
                    }
                    Err(VaultError::InsufficientSpace { pad_id: self.id.clone(), length })
                },
            },
        }
    }

    /// Checks a caller-chosen range `[offset, offset + length)`: it must lie
    /// inside the pad and meet no consumed range. Nothing is changed.
    pub fn check_explicit_segment(&self, offset: u64, length: u64) -> (r: Result<(), VaultError>)
        ensures
            offset + length > self.size ==> r == Err::<(), VaultError>(
                (VaultError::SegmentOutOfBounds {
                    pad_id: self.id,
                    start: offset,
                    length: length,
                    size: self.size,
                }),
            ),
            offset + length <= self.size && !self.is_free(offset as int, length as int) ==> r
                == Err::<(), VaultError>(
                (VaultError::SegmentOverlap { pad_id: self.id, start: offset, length: length }),
            ),
            r is Ok <==> self.is_free(offset as int, length as int),
    {
        if length > self.size || offset > self.size - length {
            return Err(
                VaultError::SegmentOutOfBounds {
                    pad_id: self.id.clone(),
                    start: offset,
                    length,
                    size: self.size,
                },
            );
        }
        if !self.range_is_free(offset, length) {
            return Err(VaultError::SegmentOverlap { pad_id: self.id.clone(), start: offset, length });
        }
        Ok(())
    }
}

} // verus!
