//! How an album is enumerated: page sizes, and the rank ranges that are handed to fetchers.
use vstd::arithmetic::div_mod::lemma_fundamental_div_mod;
use vstd::prelude::*;

verus! {

/// What an enumeration is for. Downloading uses smaller pages and one fetcher, so that the
/// signed URLs stay fresh; it covers the same ranks.
#[derive(Debug, Clone, Copy, PartialEq, Eq, Structural)]
pub enum PhotoStreamProfile {
    FastEnumeration { concurrency: usize },
    BackpressuredDownload { download_concurrency: usize },
}

/// What a range is for.
#[derive(Debug, Clone, Copy, PartialEq, Eq, Structural)]
pub enum FetcherRangeRole {
    /// A part of the ranks that the count speaks of.
    Data,
    /// The one that goes on behind the count until the inventory ends.
    TailProof,
    /// The one that looks for one asset more than the caller's limit, to see whether the
    /// limit cut the inventory short.
    LimitProbe,
}

/// A range of ranks, from `start` up to and without `end`.
#[derive(Debug, Clone, Copy, PartialEq, Eq, Structural)]
pub struct FetcherRange {
    pub start: u64,
    pub end: u64,
    pub limit: Option<u32>,
    pub role: FetcherRangeRole,
}

/// The ranges of an enumeration and the size of its pages.
#[derive(Debug, PartialEq, Eq)]
pub struct EnumerationPlan {
    pub page_size: usize,
    pub ranges: Vec<FetcherRange>,
}

/// The least number of parts of size `b` that hold `a`.
pub open spec fn ceil_div(a: int, b: int) -> int {
    (a + b - 1) / b
}

/// The smaller of two numbers.
pub open spec fn least(a: int, b: int) -> int {
    if a <= b {
        a
    } else {
        b
    }
}

/// The larger of two numbers.
pub open spec fn most(a: int, b: int) -> int {
    if a >= b {
        a
    } else {
        b
    }
}

/// The page size of a download: two pages' worth of workers, at most the default.
pub open spec fn download_page_size(default_page_size: int, download_concurrency: int) -> int {
    most(least(default_page_size, 2 * most(download_concurrency, 1)), 1)
}

/// How many fetchers share the work: no more than there are pages, and at least one.
pub open spec fn fetcher_count(total_items: int, page_size: int, concurrency: int) -> int {
    most(least(ceil_div(total_items, page_size), concurrency), 1)
}

/// The page size that a profile asks for.
pub open spec fn profile_page_size(profile: PhotoStreamProfile, default_page_size: int) -> int {
    match profile {
        PhotoStreamProfile::FastEnumeration { .. } => most(default_page_size, 1),
        PhotoStreamProfile::BackpressuredDownload { download_concurrency } => download_page_size(
            default_page_size,
            download_concurrency as int,
        ),
    }
}

/// How many fetchers a profile runs side by side.
pub open spec fn profile_concurrency(profile: PhotoStreamProfile) -> int {
    match profile {
        PhotoStreamProfile::FastEnumeration { concurrency } => most(concurrency as int, 1),
        PhotoStreamProfile::BackpressuredDownload { .. } => 1,
    }
}

/// The range that an ordered enumeration runs through.
pub open spec fn whole_range(limit: Option<u32>) -> FetcherRange {
    FetcherRange {
        start: 0,
        end: u64::MAX,
        limit,
        role: match limit {
            Some(_) => FetcherRangeRole::LimitProbe,
            None => FetcherRangeRole::TailProof,
        },
    }
}

/// The part of the count that one fetcher gets: an equal share, rounded up to whole pages.
pub open spec fn chunk_items(total: int, fetchers: int, page_size: int) -> int {
    ceil_div(ceil_div(total, fetchers), page_size) * page_size
}

/// The first `n` parts of the count; parts that would start behind it are left out.
pub open spec fn data_ranges(total: u64, chunk: int, n: int) -> Seq<FetcherRange>
    decreases n,
{
    if n <= 0 {
        Seq::empty()
    } else {
        let before = data_ranges(total, chunk, n - 1);
        if (n - 1) * chunk >= total {
            before
        } else {
            before.push(
                FetcherRange {
                    start: ((n - 1) * chunk) as u64,
                    end: least(n * chunk, total as int) as u64,
                    limit: None,
                    role: FetcherRangeRole::Data,
                },
            )
        }
    }
}

/// Whether the work is shared among fetchers.
pub open spec fn is_shared(
    limit: Option<u32>,
    total_count: Option<u64>,
    profile: PhotoStreamProfile,
) -> bool {
    limit is None && total_count is Some && profile_concurrency(profile) > 1
}

/// How many fetchers share a count.
pub open spec fn sharing_fetchers(total: u64, page_size: int, concurrency: int) -> int {
    if total > 0 {
        fetcher_count(total as int, page_size, least(concurrency * 2, usize::MAX as int))
    } else {
        1
    }
}

/// The ranges of an enumeration. A limit, or a single fetcher, means one ordered range; the
/// count is a hint for sharing the work and never a proof of the end, so the last range goes
/// on where the parts of the count stop.
pub open spec fn plan_ranges(
    limit: Option<u32>,
    total_count: Option<u64>,
    default_page_size: int,
    profile: PhotoStreamProfile,
) -> Seq<FetcherRange> {
    if is_shared(limit, total_count, profile) {
        let total = total_count->0;
        let page_size = profile_page_size(profile, default_page_size);
        let fetchers = sharing_fetchers(total, page_size, profile_concurrency(profile));
        data_ranges(total, chunk_items(total as int, fetchers, page_size), fetchers).push(
            FetcherRange {
                start: total,
                end: u64::MAX,
                limit: None,
                role: FetcherRangeRole::TailProof,
            },
        )
    } else {
        seq![whole_range(limit)]
    }
}

/// Whether a rank is in a range.
pub open spec fn in_range(range: FetcherRange, rank: int) -> bool {
    range.start <= rank < range.end
}

/// Whether a rank is in one of the ranges.
pub open spec fn covered(ranges: Seq<FetcherRange>, rank: int) -> bool {
    exists|i: int| 0 <= i < ranges.len() && in_range(#[trigger] ranges[i], rank)
}

/// Whether every rank below `end` is in one of the ranges.
pub open spec fn covers(ranges: Seq<FetcherRange>, end: int) -> bool {
    forall|rank: int| 0 <= rank < end ==> #[trigger] covered(ranges, rank)
}

/// The least number of parts of size `b` that hold `a`.
fn div_ceil(a: u64, b: u64) -> (q: u64)
    requires
        b > 0,
    ensures
        q == ceil_div(a as int, b as int),
        q <= a,
{
    let q: u64 = ((a as u128 + (b as u128 - 1)) / (b as u128)) as u64;
    proof {
        lemma_ceil_div(a as int, b as int);
    }
    q
}

/// So many parts hold the whole, and one fewer would not.
proof fn lemma_ceil_div(a: int, b: int)
    requires
        a >= 0,
        b > 0,
    ensures
        0 <= ceil_div(a, b) <= a,
        ceil_div(a, b) * b >= a,
        (ceil_div(a, b) - 1) * b < a,
{
    let q = ceil_div(a, b);
    lemma_fundamental_div_mod(a + b - 1, b);
    let r = (a + b - 1) % b;
    assert(a + b - 1 == b * q + r);
    assert(q * b == b * q) by (nonlinear_arith);
    assert((q - 1) * b == q * b - b) by (nonlinear_arith);
    assert(0 <= q) by (nonlinear_arith)
        requires
            a + b - 1 == b * q + r,
            0 <= r < b,
            a >= 0,
            b > 0,
    ;
    assert(q <= a) by (nonlinear_arith)
        requires
            a + b - 1 == b * q + r,
            0 <= r < b,
            a >= 0,
            b > 0,
    ;
}

/// The page size of a download, so that few signed URLs wait for a worker.
pub fn download_stream_page_size(default_page_size: usize, download_concurrency: usize) -> (size: usize)
    ensures
        size == download_page_size(default_page_size as int, download_concurrency as int),
{
    let workers: usize = if download_concurrency > 1 {
        download_concurrency
    } else {
        1
    };
    let ahead: usize = if workers <= usize::MAX / 2 {
        workers * 2
    } else {
        usize::MAX
    };
    let size: usize = if default_page_size < ahead {
        default_page_size
    } else {
        ahead
    };
    if size > 1 {
        size
    } else {
        1
    }
}

/// How many fetchers to run: no more than there are pages, no more than `concurrency`, and
/// at least one.
pub fn determine_fetcher_count(total_items: u64, page_size: usize, concurrency: usize) -> (count: usize)
    requires
        page_size > 0,
    ensures
        count == fetcher_count(total_items as int, page_size as int, concurrency as int),
{
    let total_pages: u64 = div_ceil(total_items, page_size as u64);
    let count: usize = if total_pages < concurrency as u64 {
        total_pages as usize
    } else {
        concurrency
    };
    if count > 1 {
        count
    } else {
        1
    }
}

impl PhotoStreamProfile {
    /// The page size that the profile asks for.
    pub fn request_page_size(self, default_page_size: usize) -> (size: usize)
        ensures
            size == profile_page_size(self, default_page_size as int),
            size > 0,
    {
        match self {
            PhotoStreamProfile::FastEnumeration { .. } => if default_page_size > 1 {
                default_page_size
            } else {
                1
            },
            PhotoStreamProfile::BackpressuredDownload { download_concurrency } => {
                download_stream_page_size(default_page_size, download_concurrency)
            },
        }
    }

    /// How many fetchers run side by side.
    pub fn fetcher_concurrency(self) -> (count: usize)
        ensures
            count == profile_concurrency(self),
    {
        match self {
            PhotoStreamProfile::FastEnumeration { concurrency } => if concurrency > 1 {
                concurrency
            } else {
                1
            },
            PhotoStreamProfile::BackpressuredDownload { .. } => 1,
        }
    }
}

/// How many assets an enumeration is expected to give, as far as that is known.
pub fn effective_total(limit: Option<u32>, total_count: Option<u64>) -> (total: Option<u64>)
    ensures
        total == match (limit, total_count) {
            (None, total) => total,
            (Some(limit), Some(total)) => Some(
                if total <= limit {
                    total
                } else {
                    limit as u64
                },
            ),
            (Some(limit), None) => Some(limit as u64),
        },
{
    match (limit, total_count) {
        (None, total) => total,
        (Some(limit), Some(total)) => if total <= limit as u64 {
            Some(total)
        } else {
            Some(limit as u64)
        },
        (Some(limit), None) => Some(limit as u64),
    }
}

/// The parts of a count.
fn share_count(total: u64, page_size: usize, fetchers: usize) -> (ranges: Vec<FetcherRange>)
    requires
        page_size > 0,
        fetchers > 0,
    ensures
        ranges@ == data_ranges(
            total,
            chunk_items(total as int, fetchers as int, page_size as int),
            fetchers as int,
        ),
{
    let raw: u64 = div_ceil(total, fetchers as u64);
    let pages: u64 = div_ceil(raw, page_size as u64);
    proof {
        assert(pages * page_size <= u64::MAX * u64::MAX) by (nonlinear_arith)
            requires
                pages <= u64::MAX,
                page_size <= u64::MAX,
        ;
    }
    let chunk: u128 = pages as u128 * page_size as u128;
    let ghost whole = chunk as int;
    let mut ranges: Vec<FetcherRange> = Vec::new();
    let mut start: u128 = 0;
    let mut i: usize = 0;
    proof {
        assert(0 * whole == 0) by (nonlinear_arith);
    }
    while i < fetchers
        invariant
            i <= fetchers,
            whole == chunk,
            chunk <= u64::MAX * u64::MAX,
            start == i * whole || (start >= total && i * whole >= total),
            start <= total + chunk,
            ranges@ == data_ranges(total, whole, i as int),
        decreases fetchers - i,
    {
        proof {
            assert((i + 1) * whole == i * whole + whole) by (nonlinear_arith);
        }
        if start < total as u128 {
            let end: u128 = start + chunk;
            let bound: u64 = if end < total as u128 {
                end as u64
            } else {
                total
            };
            ranges.push(
                FetcherRange {
                    start: start as u64,
                    end: bound,
                    limit: None,
                    role: FetcherRangeRole::Data,
                },
            );
            start = end;
        }
        i = i + 1;
    }
    ranges
}

/// Plan an enumeration. The count only helps to share the work: whatever it says, the ranges
/// go on until the inventory ends.
pub fn build_enumeration_plan(
    limit: Option<u32>,
    total_count: Option<u64>,
    default_page_size: usize,
    profile: PhotoStreamProfile,
) -> (plan: EnumerationPlan)
    ensures
        plan.page_size == profile_page_size(profile, default_page_size as int),
        plan.ranges@ == plan_ranges(limit, total_count, default_page_size as int, profile),
{
    let page_size = profile.request_page_size(default_page_size);
    let concurrency = profile.fetcher_concurrency();
    if let Some(limit) = limit {
        let ranges = vec![
            FetcherRange {
                start: 0,
                end: u64::MAX,
                limit: Some(limit),
                role: FetcherRangeRole::LimitProbe,
            },
        ];
        assert(ranges@ =~= seq![whole_range(Some(limit))]);
        return EnumerationPlan { page_size, ranges };
    }
    if let (Some(total), true) = (total_count, concurrency > 1) {
        let fetchers: usize = if total > 0 {
            let wide: usize = if concurrency <= usize::MAX / 2 {
                concurrency * 2
            } else {
                usize::MAX
            };
            determine_fetcher_count(total, page_size, wide)
        } else {
            1
        };
        let mut ranges = share_count(total, page_size, fetchers);
        ranges.push(
            FetcherRange {
                start: total,
                end: u64::MAX,
                limit: None,
                role: FetcherRangeRole::TailProof,
            },
        );
        return EnumerationPlan { page_size, ranges };
    }
    let ranges = vec![
        FetcherRange {
            start: 0,
            end: u64::MAX,
            limit: None,
            role: FetcherRangeRole::TailProof,
        },
    ];
    assert(ranges@ =~= seq![whole_range(None)]);
    EnumerationPlan { page_size, ranges }
}

impl EnumerationPlan {
    /// How many fetchers feed the channel.
    pub fn channel_fetchers(&self) -> (n: usize)
        ensures
            n == most(self.ranges@.len() as int, 1),
    {
        if self.ranges.len() > 1 {
            self.ranges.len()
        } else {
            1
        }
    }

    /// A range that a rank is in.
    fn range_at(&self, rank: u64) -> (found: Option<usize>)
        ensures
            match found {
                Some(i) => i < self.ranges@.len() && in_range(self.ranges@[i as int], rank as int),
                None => !covered(self.ranges@, rank as int),
            },
    {
        let mut i: usize = 0;
        while i < self.ranges.len()
            invariant
                i <= self.ranges.len(),
                forall|j: int|
                    0 <= j < i ==> !in_range(#[trigger] self.ranges@[j], rank as int),
            decreases self.ranges.len() - i,
        {
            let range = self.ranges[i];
            if range.start <= rank && rank < range.end {
                return Some(i);
            }
            i = i + 1;
        }
        None
    }

    /// Whether every rank below `end` is in one of the ranges.
    pub fn covers_prefix(&self, end: u64) -> (yes: bool)
        ensures
            yes == covers(self.ranges@, end as int),
    {
        let mut cursor: u64 = 0;
        while cursor < end
            invariant
                forall|rank: int| 0 <= rank < cursor ==> #[trigger] covered(self.ranges@, rank),
            decreases
                if cursor < end {
                    end - cursor
                } else {
                    0
                },
        {
            match self.range_at(cursor) {
                Some(i) => {
                    let ghost before = cursor;
                    cursor = self.ranges[i].end;
                    proof {
                        assert forall|rank: int| 0 <= rank < cursor implies #[trigger] covered(
                            self.ranges@,
                            rank,
                        ) by {
                            if rank >= before {
                                assert(in_range(self.ranges@[i as int], rank));
                            }
                        }
                    }
                },
                None => {
                    return false;
                },
            }
        }
        true
    }
}

/// The parts of a count follow each other, and stop only where the count is used up.
proof fn lemma_data_ranges(total: u64, chunk: int, n: int)
    requires
        chunk > 0,
        n >= 0,
    ensures
        data_ranges(total, chunk, n).len() <= n,
        data_ranges(total, chunk, n).len() < n ==> data_ranges(total, chunk, n).len() * chunk
            >= total,
        forall|i: int|
            0 <= i < data_ranges(total, chunk, n).len() ==> {
                let range = #[trigger] data_ranges(total, chunk, n)[i];
                &&& range.start == i * chunk
                &&& range.end == least((i + 1) * chunk, total as int)
                &&& i * chunk < total
                &&& range.role == FetcherRangeRole::Data
            },
    decreases n,
{
    if n > 0 {
        lemma_data_ranges(total, chunk, n - 1);
        let before = data_ranges(total, chunk, n - 1);
        let len = before.len() as int;
        assert(0 <= (n - 1) * chunk) by (nonlinear_arith)
            requires
                n > 0,
                chunk > 0,
        ;
        assert(0 <= n * chunk) by (nonlinear_arith)
            requires
                n > 0,
                chunk > 0,
        ;
        if (n - 1) * chunk < total && len < n - 1 {
            assert(len * chunk <= (n - 1) * chunk) by (nonlinear_arith)
                requires
                    len < n - 1,
                    chunk > 0,
            ;
        }
    }
}

/// The shares of all fetchers together hold the count.
proof fn lemma_chunks_hold(total: int, fetchers: int, page_size: int)
    requires
        total > 0,
        fetchers > 0,
        page_size > 0,
    ensures
        chunk_items(total, fetchers, page_size) > 0,
        fetchers * chunk_items(total, fetchers, page_size) >= total,
{
    let raw = ceil_div(total, fetchers);
    let chunk = chunk_items(total, fetchers, page_size);
    lemma_ceil_div(total, fetchers);
    lemma_ceil_div(raw, page_size);
    assert(raw > 0) by (nonlinear_arith)
        requires
            raw * fetchers >= total,
            total > 0,
            raw >= 0,
    ;
    assert(fetchers * chunk >= fetchers * raw) by (nonlinear_arith)
        requires
            chunk >= raw,
            fetchers > 0,
    ;
    assert(fetchers * raw == raw * fetchers) by (nonlinear_arith);
}

/// Two parts that hold the same rank are the same part.
proof fn lemma_part_of_rank(i: int, j: int, chunk: int, rank: int)
    requires
        i * chunk <= rank < (i + 1) * chunk,
        j * chunk <= rank < (j + 1) * chunk,
        chunk > 0,
    ensures
        i == j,
{
    assert(i == j) by (nonlinear_arith)
        requires
            i * chunk <= rank < (i + 1) * chunk,
            j * chunk <= rank < (j + 1) * chunk,
            chunk > 0,
    ;
}

/// The ranges of a shared enumeration part the ranks.
proof fn lemma_shared_partition(total: u64, fetchers: int, page_size: int, rank: int)
    requires
        fetchers > 0,
        page_size > 0,
        0 <= rank < u64::MAX,
    ensures
        ({
            let data = data_ranges(total, chunk_items(total as int, fetchers, page_size), fetchers);
            let ranges = data.push(
                FetcherRange {
                    start: total,
                    end: u64::MAX,
                    limit: None,
                    role: FetcherRangeRole::TailProof,
                },
            );
            &&& covered(ranges, rank)
            &&& forall|i: int, j: int|
                0 <= i < ranges.len() && 0 <= j < ranges.len() && in_range(
                    #[trigger] ranges[i],
                    rank,
                ) && in_range(#[trigger] ranges[j], rank) ==> i == j
        }),
{
    let chunk = chunk_items(total as int, fetchers, page_size);
    let data = data_ranges(total, chunk, fetchers);
    let tail = FetcherRange {
        start: total,
        end: u64::MAX,
        limit: None,
        role: FetcherRangeRole::TailProof,
    };
    let ranges = data.push(tail);
    if total == 0 {
        lemma_no_data(chunk, fetchers);
        assert(in_range(ranges[0], rank));
    } else {
        lemma_chunks_hold(total as int, fetchers, page_size);
        lemma_data_ranges(total, chunk, fetchers);
        if rank >= total {
            assert(in_range(ranges[data.len() as int], rank));
        } else {
            let i = rank / chunk;
            lemma_fundamental_div_mod(rank, chunk);
            assert(i * chunk == chunk * i) by (nonlinear_arith);
            assert((i + 1) * chunk == i * chunk + chunk) by (nonlinear_arith);
            assert(i >= 0) by (nonlinear_arith)
                requires
                    rank == chunk * i + rank % chunk,
                    0 <= rank % chunk < chunk,
                    rank >= 0,
                    chunk > 0,
            ;
            if i >= data.len() {
                assert(data.len() * chunk <= i * chunk) by (nonlinear_arith)
                    requires
                        data.len() <= i,
                        chunk > 0,
                ;
                assert(false);
            }
            assert(in_range(ranges[i], rank));
        }
        assert forall|i: int, j: int|
            0 <= i < ranges.len() && 0 <= j < ranges.len() && in_range(#[trigger] ranges[i], rank)
                && in_range(#[trigger] ranges[j], rank) implies i == j by {
            if i < data.len() {
                assert(ranges[i] == data[i]);
            }
            if j < data.len() {
                assert(ranges[j] == data[j]);
            }
            if i < data.len() && j < data.len() {
                lemma_part_of_rank(i, j, chunk, rank);
            }
        }
    }
}

/// An empty count has no parts.
proof fn lemma_no_data(chunk: int, n: int)
    requires
        chunk >= 0 || n <= 1,
    ensures
        data_ranges(0, chunk, n).len() == 0,
    decreases n,
{
    if n > 0 {
        lemma_no_data(chunk, n - 1);
        assert((n - 1) * chunk >= 0) by (nonlinear_arith)
            requires
                n >= 1,
                chunk >= 0 || n <= 1,
        ;
    }
}

/// Every rank is in exactly one range of a plan, whatever the limit, the count and the
/// profile are: nothing is left out and nothing is fetched twice.
pub proof fn law_plan_parts_the_ranks(
    limit: Option<u32>,
    total_count: Option<u64>,
    default_page_size: int,
    profile: PhotoStreamProfile,
    rank: int,
)
    requires
        default_page_size >= 0,
        0 <= rank < u64::MAX,
    ensures
        ({
            let ranges = plan_ranges(limit, total_count, default_page_size, profile);
            &&& covered(ranges, rank)
            &&& forall|i: int, j: int|
                0 <= i < ranges.len() && 0 <= j < ranges.len() && in_range(
                    #[trigger] ranges[i],
                    rank,
                ) && in_range(#[trigger] ranges[j], rank) ==> i == j
        }),
{
    let ranges = plan_ranges(limit, total_count, default_page_size, profile);
    if is_shared(limit, total_count, profile) {
        let total = total_count->0;
        let page_size = profile_page_size(profile, default_page_size);
        let fetchers = sharing_fetchers(total, page_size, profile_concurrency(profile));
        lemma_shared_partition(total, fetchers, page_size, rank);
    } else {
        assert(in_range(ranges[0], rank));
    }
}

/// The profile does not change what is covered: a download covers the same prefix of the
/// ranks as a fast enumeration, all of it.
pub proof fn law_profiles_cover_alike(
    limit: Option<u32>,
    total_count: Option<u64>,
    default_page_size: int,
    profile: PhotoStreamProfile,
    end: int,
)
    requires
        default_page_size >= 0,
        0 <= end <= u64::MAX,
    ensures
        covers(plan_ranges(limit, total_count, default_page_size, profile), end),
{
    let ranges = plan_ranges(limit, total_count, default_page_size, profile);
    assert forall|rank: int| 0 <= rank < end implies #[trigger] covered(ranges, rank) by {
        law_plan_parts_the_ranks(limit, total_count, default_page_size, profile, rank);
    }
}

/// The end is always looked for: a plan ends with a range that goes on behind the count, with
/// the caller's limit where there is one.
pub proof fn law_plan_ends_open(
    limit: Option<u32>,
    total_count: Option<u64>,
    default_page_size: int,
    profile: PhotoStreamProfile,
)
    ensures
        ({
            let last = plan_ranges(limit, total_count, default_page_size, profile).last();
            &&& last.end == u64::MAX
            &&& last.limit == limit
            &&& last.role == (if limit is Some {
                FetcherRangeRole::LimitProbe
            } else {
                FetcherRangeRole::TailProof
            })
        }),
{
}

/// The part of a limit that a range can use: what the limit leaves behind `start`, and no
/// more than the range holds.
pub fn range_limit(limit: Option<u32>, start: u64, end: u64) -> (share: Option<u32>)
    ensures
        match (limit, share) {
            (Some(limit), Some(share)) => share == least(
                most(limit - start, 0),
                most(end - start, 0),
            ),
            (None, None) => true,
            _ => false,
        },
{
    match limit {
        Some(limit) => {
            let remaining: u64 = if (limit as u64) > start {
                limit as u64 - start
            } else {
                0
            };
            let held: u64 = if end > start {
                end - start
            } else {
                0
            };
            Some(
                if remaining <= held {
                    remaining as u32
                } else {
                    held as u32
                },
            )
        },
        None => None,
    }
}

/// A download asks for pages of two assets to each of its workers, but for no more than the
/// usual and never for none; another enumeration asks for the usual, and never for none.
pub proof fn law_pages_suit_their_use(default_page_size: int, workers: usize, fetchers: usize)
    requires
        default_page_size >= 0,
    ensures
        ({
            let download = profile_page_size(
                PhotoStreamProfile::BackpressuredDownload { download_concurrency: workers },
                default_page_size,
            );
            let fast = profile_page_size(
                PhotoStreamProfile::FastEnumeration { concurrency: fetchers },
                default_page_size,
            );
            &&& 1 <= download <= fast
            &&& workers >= 1 ==> download <= 2 * workers
            &&& default_page_size >= 1 ==> fast == default_page_size
            &&& default_page_size >= 1 && workers >= 1 && default_page_size <= 2 * workers
                ==> download == default_page_size
            &&& workers >= 1 && default_page_size >= 2 * workers ==> download == 2 * workers
        }),
{
}

/// A download has one fetcher, so that its files come in order; another enumeration has as many
/// as it was given, and at least one.
pub proof fn law_a_download_has_one_fetcher(workers: usize, fetchers: usize)
    ensures
        profile_concurrency(
            PhotoStreamProfile::BackpressuredDownload { download_concurrency: workers },
        ) == 1,
        fetchers >= 1 ==> profile_concurrency(
            PhotoStreamProfile::FastEnumeration { concurrency: fetchers },
        ) == fetchers,
        fetchers == 0 ==> profile_concurrency(
            PhotoStreamProfile::FastEnumeration { concurrency: fetchers },
        ) == 1,
{
}

/// With a limit, without a count, or with one fetcher, a single range runs from the first rank
/// on, with the caller's limit.
pub proof fn law_an_ordered_enumeration_is_one_range(
    limit: Option<u32>,
    total_count: Option<u64>,
    default_page_size: int,
    profile: PhotoStreamProfile,
)
    requires
        limit is Some || total_count is None || profile is BackpressuredDownload || (
        profile matches PhotoStreamProfile::FastEnumeration { concurrency } && concurrency <= 1),
    ensures
        ({
            let ranges = plan_ranges(limit, total_count, default_page_size, profile);
            &&& ranges.len() == 1
            &&& ranges[0].start == 0
            &&& ranges[0].end == u64::MAX
            &&& ranges[0].limit == limit
        }),
{
}

/// A shared enumeration parts the count among data ranges without limits, each of which begins
/// at the start of a page and holds whole pages but for the last; behind the count the tail
/// begins. There are no more parts than twice the fetchers, nor than pages.
pub proof fn law_a_shared_count_is_parted_by_pages(
    total: u64,
    default_page_size: int,
    concurrency: usize,
    i: int,
)
    requires
        default_page_size >= 1,
        concurrency > 1,
        ({
            let profile = PhotoStreamProfile::FastEnumeration { concurrency };
            0 <= i < plan_ranges(None, Some(total), default_page_size, profile).len() - 1
        }),
    ensures
        ({
            let profile = PhotoStreamProfile::FastEnumeration { concurrency };
            let ranges = plan_ranges(None, Some(total), default_page_size, profile);
            let range = ranges[i];
            &&& range.role == FetcherRangeRole::Data
            &&& range.limit is None
            &&& range.start < range.end <= total
            &&& range.start as int % default_page_size == 0
            &&& range.end == total || range.end as int % default_page_size == 0
            &&& ranges.last().start == total
            &&& ranges.len() - 1 <= 2 * concurrency
        }),
{
    let profile = PhotoStreamProfile::FastEnumeration { concurrency };
    let page_size = profile_page_size(profile, default_page_size);
    let fetchers = sharing_fetchers(total, page_size, profile_concurrency(profile));
    let share = ceil_div(total as int, fetchers);
    let pages = ceil_div(share, page_size);
    let chunk = chunk_items(total as int, fetchers, page_size);
    assert(page_size == default_page_size);
    if total > 0 {
        lemma_ceil_div(total as int, fetchers);
        assert(share > 0) by (nonlinear_arith)
            requires
                share * fetchers >= total,
                total > 0,
                fetchers > 0,
        ;
        lemma_ceil_div(share, page_size);
    }
    lemma_data_range(total, chunk, fetchers, i);
    let n = choose|n: int|
        0 < n <= fetchers && data_range_at(total, chunk, data_ranges(total, chunk, fetchers)[i], n);
    assert(((n - 1) * chunk) % default_page_size == 0) by {
        assert((n - 1) * (pages * page_size) == ((n - 1) * pages) * page_size) by (nonlinear_arith);
        vstd::arithmetic::div_mod::lemma_mod_multiples_basic((n - 1) * pages, page_size);
    }
    assert((n * chunk) % default_page_size == 0) by {
        assert(n * (pages * page_size) == (n * pages) * page_size) by (nonlinear_arith);
        vstd::arithmetic::div_mod::lemma_mod_multiples_basic(n * pages, page_size);
    }
    assert(data_ranges(total, chunk, fetchers).len() <= fetchers) by {
        lemma_data_ranges_few(total, chunk, fetchers);
    }
}

/// Whether a range is the part number `n` of a count.
pub open spec fn data_range_at(total: u64, chunk: int, range: FetcherRange, n: int) -> bool {
    &&& 0 <= (n - 1) * chunk < total
    &&& range.start == (n - 1) * chunk
    &&& range.end == least(n * chunk, total as int)
    &&& range.start < range.end
    &&& range.role == FetcherRangeRole::Data
    &&& range.limit is None
}

/// Each part of a count is one of those that its fetchers get.
proof fn lemma_data_range(total: u64, chunk: int, fetchers: int, i: int)
    requires
        0 <= i < data_ranges(total, chunk, fetchers).len(),
        chunk >= 0,
        chunk > 0 || total == 0,
    ensures
        exists|n: int|
            0 < n <= fetchers && data_range_at(
                total,
                chunk,
                data_ranges(total, chunk, fetchers)[i],
                n,
            ),
    decreases fetchers,
{
    let before = data_ranges(total, chunk, fetchers - 1);
    if i < before.len() {
        lemma_data_range(total, chunk, fetchers - 1, i);
        let n = choose|n: int| 0 < n <= fetchers - 1 && data_range_at(total, chunk, before[i], n);
        assert(data_range_at(total, chunk, data_ranges(total, chunk, fetchers)[i], n));
    } else {
        let n = fetchers;
        assert((n - 1) * chunk >= 0) by (nonlinear_arith)
            requires
                n >= 1,
                chunk >= 0,
        ;
        assert(n * chunk == (n - 1) * chunk + chunk) by (nonlinear_arith);
        assert(data_range_at(total, chunk, data_ranges(total, chunk, fetchers)[i], n));
    }
}

/// There are no more parts of a count than fetchers.
proof fn lemma_data_ranges_few(total: u64, chunk: int, fetchers: int)
    requires
        fetchers >= 0,
    ensures
        data_ranges(total, chunk, fetchers).len() <= fetchers,
    decreases fetchers,
{
    if fetchers > 0 {
        lemma_data_ranges_few(total, chunk, fetchers - 1);
    }
}

/// So many parts of a size hold a number, and one part fewer does not; and no more fetchers
/// share a number than it has pages.
pub proof fn law_parts_hold_the_whole(total: int, page_size: int, concurrency: int)
    requires
        total > 0,
        page_size > 0,
        concurrency >= 1,
    ensures
        (ceil_div(total, page_size) - 1) * page_size < total <= ceil_div(total, page_size)
            * page_size,
        1 <= fetcher_count(total, page_size, concurrency) <= concurrency,
        (fetcher_count(total, page_size, concurrency) - 1) * page_size < total,
{
    lemma_ceil_div(total, page_size);
    let pages = ceil_div(total, page_size);
    let count = fetcher_count(total, page_size, concurrency);
    assert(pages >= 1) by (nonlinear_arith)
        requires
            pages * page_size >= total,
            total > 0,
            page_size > 0,
    ;
    assert((count - 1) * page_size <= (pages - 1) * page_size) by (nonlinear_arith)
        requires
            count <= pages || count == 1,
            pages >= 1,
            page_size > 0,
    ;
}

} // verus!
