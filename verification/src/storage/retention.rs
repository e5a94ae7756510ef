//! Retention policy: which frames and segment files age and disk limits
//! condemn.
use vstd::prelude::*;

verus! {

/// Milliseconds in a day.
pub const MS_PER_DAY: u64 = 86_400_000;

/// The bytes freed by deleting every segment of known size before index `i`
/// (segments whose size is unknown are never deleted).
pub open spec fn freed_before(sizes: Seq<Option<u64>>, i: int) -> int
    decreases i,
{
    if i <= 0 || i > sizes.len() {
        0
    } else {
        freed_before(sizes, i - 1) + match sizes[i - 1] {
            Some(n) => n as int,
            None => 0,
        }
    }
}

/// Segment `i` is deleted: its size is known and the segments before it have
/// not yet freed `excess` bytes.
pub open spec fn is_deleted(sizes: Seq<Option<u64>>, excess: int, i: int) -> bool {
    0 <= i < sizes.len() && sizes[i] is Some && freed_before(sizes, i) < excess
}

/// The indices of the segments (oldest first) deleted to bring disk usage
/// back under the limit; none when usage is within it.
pub open spec fn segments_deleted(sizes: Seq<Option<u64>>, disk_usage: u64, max_bytes: u64) -> Seq<
    usize,
> {
    if disk_usage <= max_bytes {
        Seq::empty()
    } else {
        Seq::new(sizes.len(), |i: int| i as usize).filter(
            |i: usize| is_deleted(sizes, disk_usage - max_bytes, i as int),
        )
    }
}

pub proof fn lemma_freed_before_monotone(sizes: Seq<Option<u64>>, i: int, j: int)
    requires
        0 <= i <= j <= sizes.len(),
    ensures
        freed_before(sizes, i) <= freed_before(sizes, j),
    decreases j - i,
{
    if i < j {
        lemma_freed_before_monotone(sizes, i, j - 1);
    }
}

/// Enforces retention limits: an age limit on frames and a size limit on the
/// segment files.
pub struct RetentionPolicy {
    pub max_days: u32,
    pub max_bytes: u64,
}

impl RetentionPolicy {
    pub fn new(max_days: u32, max_bytes: u64) -> (p: Self)
        ensures
            p.max_days == max_days,
            p.max_bytes == max_bytes,
    {
        RetentionPolicy { max_days, max_bytes }
    }

    /// Frames taken at or before this time are older than the age limit.
    pub fn frame_cutoff_ms(&self, now_ms: u64) -> (c: u64)
        requires
            now_ms >= self.max_days * MS_PER_DAY,
        ensures
            c == now_ms - self.max_days * MS_PER_DAY,
    {
        now_ms - (self.max_days as u64) * MS_PER_DAY
    }

    /// The segments to delete, oldest first, given the size of each segment
    /// file (`None` when it could not be read) and the current disk usage:
    /// while usage exceeds the limit, segments are deleted in order until the
    /// bytes freed reach the excess.
    pub fn segments_to_delete(&self, sizes: &Vec<Option<u64>>, disk_usage: u64) -> (r: Vec<usize>)
        requires
            freed_before(sizes@, sizes@.len() as int) <= u64::MAX,
        ensures
            r@ == segments_deleted(sizes@, disk_usage, self.max_bytes),
    {
        let mut out: Vec<usize> = Vec::new();
        if disk_usage <= self.max_bytes {
            return out;
        }
        let excess = disk_usage - self.max_bytes;
        let ghost all = Seq::new(sizes@.len(), |i: int| i as usize);
        let ghost pred = |i: usize| is_deleted(sizes@, excess as int, i as int);
        let mut freed: u64 = 0;
        let mut i: usize = 0;
        assert(all.take(0) =~= Seq::<usize>::empty());
        while i < sizes.len()
            invariant
                excess == disk_usage - self.max_bytes,
                all == Seq::new(sizes@.len(), |i: int| i as usize),
                pred == (|i: usize| is_deleted(sizes@, excess as int, i as int)),
                freed_before(sizes@, sizes@.len() as int) <= u64::MAX,
                i <= sizes@.len(),
                freed == freed_before(sizes@, i as int),
                out@ == all.take(i as int).filter(pred),
            ensures
                i <= sizes@.len(),
                freed == freed_before(sizes@, i as int),
                out@ == all.take(i as int).filter(pred),
                i == sizes@.len() || freed >= excess,
            decreases sizes@.len() - i,
        {
            if freed >= excess {
                break;
            }
            assert(all.take(i + 1) =~= all.take(i as int).push(i));
            proof {
                all.take(i as int).lemma_filter_push(i, pred);
                lemma_freed_before_monotone(sizes@, i + 1, sizes@.len() as int);
            }
            match sizes[i] {
                Some(len) => {
                    freed = freed + len;
                    out.push(i);
                },
                None => {},
            }
            i = i + 1;
        }
        // every later segment is kept: the bytes freed before it already reach the excess
        let ghost rest = all.skip(i as int);
        assert forall|k: int| 0 <= k < rest.len() implies !pred(#[trigger] rest[k]) by {
            assert(i + k < sizes.len());
            assert(rest[k] == (i + k) as usize);
            assert(rest[k] as int == i + k);
            lemma_freed_before_monotone(sizes@, i as int, i + k);
            assert(freed >= excess);
            assert(freed_before(sizes@, i + k) >= excess);
            assert(!is_deleted(sizes@, excess as int, i + k));
            assert(pred(rest[k]) == is_deleted(sizes@, excess as int, rest[k] as int));
        }
        assert(all.filter(pred) =~= all.take(i as int).filter(pred)) by {
            assert(all =~= all.take(i as int) + all.skip(i as int));
            Seq::filter_distributes_over_add(all.take(i as int), all.skip(i as int), pred);
            assert(all.skip(i as int).filter(pred) =~= Seq::<usize>::empty()) by {
                all.skip(i as int).lemma_all_neg_filter_empty(pred);
            }
        }
        out
    }
}

/// Segments are deleted oldest first: when a segment is deleted, every
/// earlier segment of known size is deleted too.
pub proof fn lemma_deletes_oldest_first(sizes: Seq<Option<u64>>, excess: int, i: int, j: int)
    requires
        0 <= i < j,
        is_deleted(sizes, excess, j),
        sizes[i] is Some,
    ensures
        is_deleted(sizes, excess, i),
{
    lemma_freed_before_monotone(sizes, i, j);
}

/// Deletion stops only once enough is freed: a segment of known size that is
/// kept comes after deleted segments that together free at least the excess.
pub proof fn lemma_kept_segment_means_enough_freed(sizes: Seq<Option<u64>>, excess: int, i: int)
    requires
        0 <= i < sizes.len(),
        sizes[i] is Some,
        !is_deleted(sizes, excess, i),
    ensures
        freed_before(sizes, i) >= excess,
        forall|k: int| 0 <= k < i && sizes[k] is Some ==> #[trigger] is_deleted(sizes, excess, k)
            || freed_before(sizes, k) >= excess,
{
}

} // verus!
