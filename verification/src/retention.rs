//! Which capture files are kept: none that is older than the retention period, and the newest ones
//! within a total size.
use vstd::prelude::*;

verus! {

/// The seconds of a day.
pub const DAY_SECONDS: u64 = 86_400;

/// A capture file: when it was last modified, in nanoseconds since the Unix epoch, and its size in
/// bytes.
#[derive(Clone, Copy, Debug, PartialEq, Eq)]
pub struct CaptureFile {
    pub modified: i128,
    pub size: u64,
}

/// What to do with an entry of a directory of captures.
#[derive(Clone, Copy, Debug, PartialEq, Eq)]
pub enum EntryAction {
    /// Look at the entries of the directory that it is.
    Descend,
    /// Count it among the capture files.
    Keep(CaptureFile),
    /// Leave it alone.
    Skip,
}

/// The bytes of `.pcap`.
pub open spec fn pcap_suffix() -> Seq<u8> {
    seq![46u8, 112, 99, 97, 112]
}

/// A file name with the extension `pcap`: a name that only begins with a dot has no extension.
pub open spec fn has_pcap_extension(name: Seq<u8>) -> bool {
    name.len() > 5 && name.skip(name.len() - 5) == pcap_suffix()
}

/// Whether a file name has the extension `pcap`.
fn is_pcap(name: &[u8]) -> (r: bool)
    ensures
        r == has_pcap_extension(name@),
{
    if name.len() <= 5 {
        return false;
    }
    let n: usize = name.len();
    let ghost end = name@.skip(name@.len() - 5);
    if name[n - 5] == 46 && name[n - 4] == 112 && name[n - 3] == 99 && name[n - 2] == 97 && name[n
        - 1] == 112 {
        assert(end == pcap_suffix());
        true
    } else {
        assert(end[0] == name@[n - 5] && end[1] == name@[n - 4] && end[2] == name@[n - 3] && end[3]
            == name@[n - 2] && end[4] == name@[n - 1]);
        false
    }
}

/// What to do with an entry of a directory of captures. Of a file, `metadata` gives the time of
/// the last change, where the platform tells it, and the size; `None` where neither is known.
pub fn collect_pcaps(
    is_directory: bool,
    name: &[u8],
    metadata: Option<(Option<i128>, u64)>,
) -> (r: EntryAction)
    ensures
        r == (if is_directory {
            EntryAction::Descend
        } else if !has_pcap_extension(name@) {
            EntryAction::Skip
        } else {
            match metadata {
                Some((Some(modified), size)) => EntryAction::Keep(CaptureFile { modified, size }),
                Some((None, size)) => EntryAction::Keep(CaptureFile { modified: 0, size }),
                None => EntryAction::Skip,
            }
        }),
{
    if is_directory {
        return EntryAction::Descend;
    }
    if !is_pcap(name) {
        return EntryAction::Skip;
    }
    match metadata {
        Some((Some(modified), size)) => EntryAction::Keep(CaptureFile { modified, size }),
        Some((None, size)) => EntryAction::Keep(CaptureFile { modified: 0, size }),
        None => EntryAction::Skip,
    }
}

/// The seconds of a retention period, as far as 64 bits hold them.
pub open spec fn period_seconds(days: u64) -> int {
    if days * 86_400 > u64::MAX {
        u64::MAX as int
    } else {
        days * 86_400
    }
}

/// The seconds of a retention period, as far as 64 bits hold them.
pub fn retention_seconds(days: u64) -> (r: u64)
    ensures
        r == period_seconds(days),
{
    match days.checked_mul(DAY_SECONDS) {
        Some(seconds) => seconds,
        None => u64::MAX,
    }
}

/// The moment at which a retention period that ends `now` begins, in nanoseconds since the epoch.
pub open spec fn period_start(now: i128, days: u64) -> int {
    now - period_seconds(days) * 1_000_000_000
}

/// The moment at which a retention period that ends `now` begins, both in nanoseconds since the
/// epoch; `None` where 128 bits do not hold it.
pub fn retention_start(now: i128, days: u64) -> (r: Option<i128>)
    ensures
        r == (if period_start(now, days) >= i128::MIN {
            Some(period_start(now, days) as i128)
        } else {
            None
        }),
{
    let period: i128 = retention_seconds(days) as i128 * 1_000_000_000;
    now.checked_sub(period)
}

/// The moment before which files have expired: `start` of the retention period, or the epoch where
/// the clock cannot show that moment.
pub fn retention_cutoff(start: Option<i128>) -> (r: i128)
    ensures
        r == (match start {
            Some(moment) => moment,
            None => 0,
        }),
{
    match start {
        Some(moment) => moment,
        None => 0,
    }
}

/// The positions of the files that were modified before a moment, in order.
pub open spec fn outdated(files: Seq<CaptureFile>, cutoff: i128) -> Seq<usize>
    decreases files.len(),
{
    if files.len() == 0 {
        Seq::empty()
    } else if files.last().modified < cutoff {
        outdated(files.drop_last(), cutoff).push((files.len() - 1) as usize)
    } else {
        outdated(files.drop_last(), cutoff)
    }
}

/// The positions of the files that have expired.
pub fn expired_files(files: &Vec<CaptureFile>, cutoff: i128) -> (r: Vec<usize>)
    ensures
        r@ == outdated(files@, cutoff),
{
    let mut r: Vec<usize> = Vec::new();
    let mut i: usize = 0;
    while i < files.len()
        invariant
            i <= files@.len(),
            r@ == outdated(files@.take(i as int), cutoff),
        decreases files@.len() - i,
    {
        assert(files@.take(i + 1).drop_last() == files@.take(i as int));
        assert(files@.take(i + 1).last() == files@[i as int]);
        if files[i].modified < cutoff {
            r.push(i);
        }
        i = i + 1;
    }
    assert(files@.take(files@.len() as int) == files@);
    r
}

/// A file that was modified at or after the cutoff is kept, one that was modified before it is
/// not.
pub proof fn law_only_outdated_files_expire(files: Seq<CaptureFile>, cutoff: i128, i: usize)
    requires
        i < files.len() <= usize::MAX,
    ensures
        outdated(files, cutoff).contains(i) <==> files[i as int].modified < cutoff,
    decreases files.len(),
{
    lemma_outdated_in_range(files.drop_last(), cutoff);
    let before = outdated(files.drop_last(), cutoff);
    if i < files.len() - 1 {
        law_only_outdated_files_expire(files.drop_last(), cutoff, i);
        if before.contains(i) {
            let k = before.index_of(i);
            assert(outdated(files, cutoff)[k] == i);
        }
    } else if files.last().modified < cutoff {
        assert(outdated(files, cutoff)[before.len() as int] == i);
    }
}

/// Of the files, exactly those expire that have not been modified for longer than the retention
/// period.
pub proof fn law_files_are_kept_for_the_retention_period(
    files: Seq<CaptureFile>,
    now: i128,
    days: u64,
    i: usize,
)
    requires
        i < files.len() <= usize::MAX,
        days * 86_400 <= u64::MAX,
        period_start(now, days) >= i128::MIN,
    ensures
        outdated(files, period_start(now, days) as i128).contains(i) <==> now
            - files[i as int].modified > days * 86_400 * 1_000_000_000,
{
    law_only_outdated_files_expire(files, period_start(now, days) as i128, i);
}

/// Positions of expired files are positions of files.
proof fn lemma_outdated_in_range(files: Seq<CaptureFile>, cutoff: i128)
    requires
        files.len() <= usize::MAX,
    ensures
        forall|k: int|
            0 <= k < outdated(files, cutoff).len() ==> #[trigger] outdated(files, cutoff)[k]
                < files.len(),
    decreases files.len(),
{
    if files.len() > 0 {
        lemma_outdated_in_range(files.drop_last(), cutoff);
        let before = outdated(files.drop_last(), cutoff);
        assert forall|k: int| 0 <= k < outdated(files, cutoff).len() implies #[trigger] outdated(
            files,
            cutoff,
        )[k] < files.len() by {
            if k < before.len() {
                assert(outdated(files, cutoff)[k] == before[k]);
            }
        }
    }
}

/// The sizes of files together.
pub open spec fn total_size(files: Seq<CaptureFile>) -> nat
    decreases files.len(),
{
    if files.len() == 0 {
        0
    } else {
        total_size(files.drop_last()) + files.last().size as nat
    }
}

/// The sizes together of the files at some positions.
pub open spec fn size_at(files: Seq<CaptureFile>, positions: Seq<usize>) -> nat
    decreases positions.len(),
{
    if positions.len() == 0 {
        0
    } else {
        size_at(files, positions.drop_last()) + files[positions.last() as int].size as nat
    }
}

/// One file goes before another: it was modified earlier, or at the same time and stands before
/// it in the list.
pub open spec fn goes_first(files: Seq<CaptureFile>, a: usize, b: usize) -> bool {
    files[a as int].modified < files[b as int].modified || (files[a as int].modified
        == files[b as int].modified && a < b)
}

/// The positions of all files, each once, from the oldest to the newest.
pub open spec fn is_age_order(files: Seq<CaptureFile>, order: Seq<usize>) -> bool {
    &&& order.len() == files.len()
    &&& forall|k: int| 0 <= k < order.len() ==> #[trigger] order[k] < files.len()
    &&& forall|j: int, k: int|
        0 <= j < k < order.len() ==> goes_first(files, #[trigger] order[j], #[trigger] order[k])
}

/// One more position adds its file's size, wherever it is put.
proof fn lemma_size_at_insert(files: Seq<CaptureFile>, positions: Seq<usize>, at: int, new: usize)
    requires
        0 <= at <= positions.len(),
    ensures
        size_at(files, positions.insert(at, new)) == size_at(files, positions)
            + files[new as int].size as nat,
    decreases positions.len(),
{
    let after = positions.insert(at, new);
    if at == positions.len() {
        assert(after.drop_last() == positions);
    } else {
        lemma_size_at_insert(files, positions.drop_last(), at, new);
        assert(after.drop_last() == positions.drop_last().insert(at, new));
        assert(after.last() == positions.last());
    }
}

/// The positions of the files from the oldest to the newest.
fn age_order(files: &Vec<CaptureFile>) -> (r: Vec<usize>)
    ensures
        is_age_order(files@, r@),
        size_at(files@, r@) == total_size(files@),
{
    let mut order: Vec<usize> = Vec::new();
    let mut i: usize = 0;
    while i < files.len()
        invariant
            i <= files@.len(),
            order@.len() == i,
            forall|k: int| 0 <= k < order@.len() ==> #[trigger] order@[k] < i,
            forall|j: int, k: int|
                0 <= j < k < order@.len() ==> goes_first(
                    files@,
                    #[trigger] order@[j],
                    #[trigger] order@[k],
                ),
            size_at(files@, order@) == total_size(files@.take(i as int)),
        decreases files@.len() - i,
    {
        let mut at: usize = i;
        while at > 0 && files[order[at - 1]].modified > files[i].modified
            invariant
                at <= i < files@.len(),
                order@.len() == i,
                forall|k: int| 0 <= k < order@.len() ==> #[trigger] order@[k] < i,
                forall|k: int|
                    at <= k < i ==> files@[#[trigger] order@[k] as int].modified
                        > files@[i as int].modified,
            decreases at,
        {
            at = at - 1;
        }
        let ghost before = order@;
        proof {
            lemma_size_at_insert(files@, before, at as int, i);
            assert(files@.take(i + 1).drop_last() == files@.take(i as int));
            assert(files@.take(i + 1).last() == files@[i as int]);
        }
        order.insert(at, i);
        assert forall|j: int, k: int| 0 <= j < k < order@.len() implies goes_first(
            files@,
            #[trigger] order@[j],
            #[trigger] order@[k],
        ) by {
            let a = if j < at {
                j
            } else {
                j - 1
            };
            let b = if k < at {
                k
            } else {
                k - 1
            };
            if j != at && k != at {
                assert(goes_first(files@, before[a], before[b]));
            } else if k == at {
                if j < at - 1 {
                    assert(goes_first(files@, before[j], before[at - 1]));
                }
                assert(before[at - 1] < i);
                assert(before[j] < i);
            } else {
                assert(before[b] < i);
            }
        }
        i = i + 1;
    }
    assert(files@.take(files@.len() as int) == files@);
    order
}

/// The sizes of files together; `None` where 64 bits do not hold the sum.
pub fn sum_of_sizes(files: &Vec<CaptureFile>) -> (r: Option<u64>)
    ensures
        r == (if total_size(files@) <= u64::MAX {
            Some(total_size(files@) as u64)
        } else {
            None
        }),
{
    let mut sum: u64 = 0;
    let mut i: usize = 0;
    while i < files.len()
        invariant
            i <= files@.len(),
            sum == total_size(files@.take(i as int)),
        decreases files@.len() - i,
    {
        assert(files@.take(i + 1).drop_last() == files@.take(i as int));
        assert(files@.take(i + 1).last() == files@[i as int]);
        match sum.checked_add(files[i].size) {
            Some(next) => {
                sum = next;
            },
            None => {
                proof {
                    lemma_total_size_grows(files@, i + 1);
                }
                return None;
            },
        }
        i = i + 1;
    }
    assert(files@.take(files@.len() as int) == files@);
    Some(sum)
}

/// More files are no smaller together.
proof fn lemma_total_size_grows(files: Seq<CaptureFile>, n: int)
    requires
        0 <= n <= files.len(),
    ensures
        total_size(files.take(n)) <= total_size(files),
    decreases files.len(),
{
    if n == files.len() {
        assert(files.take(n) == files);
    } else {
        lemma_total_size_grows(files.drop_last(), n);
        assert(files.drop_last().take(n) == files.take(n));
    }
}

/// The removal of the oldest files until the others fit into a total size.
pub struct RetentionSweep {
    files: Vec<CaptureFile>,
    order: Vec<usize>,
    next: usize,
    total: u64,
    max_total: u64,
}

impl RetentionSweep {
    /// The files among which the sweep chooses.
    pub closed spec fn files(self) -> Seq<CaptureFile> {
        self.files@
    }

    /// The order in which files go.
    pub closed spec fn order(self) -> Seq<usize> {
        self.order@
    }

    /// How many files have been tried.
    pub closed spec fn tried(self) -> nat {
        self.next as nat
    }

    /// The size of the files that have not been removed.
    pub closed spec fn total(self) -> nat {
        self.total as nat
    }

    /// The size that the files may have.
    pub closed spec fn max_total(self) -> nat {
        self.max_total as nat
    }

    /// The files go by age, and what was not tried yet counts in full.
    pub open spec fn wf(self) -> bool {
        &&& is_age_order(self.files(), self.order())
        &&& size_at(self.files(), self.order()) == total_size(self.files())
        &&& self.tried() <= self.order().len()
        &&& size_at(self.files(), self.order()) <= self.total() + size_at(
            self.files(),
            self.order().take(self.tried() as int),
        )
    }

    /// The file to remove next: the oldest one that was not tried, as long as the files are too
    /// large together.
    pub open spec fn victim(self) -> Option<usize> {
        if self.total() <= self.max_total() || self.tried() >= self.order().len() {
            None
        } else {
            Some(self.order()[self.tried() as int])
        }
    }

    /// The same sweep, some files further on.
    pub open spec fn continues(self, before: Self) -> bool {
        &&& self.files() == before.files()
        &&& self.order() == before.order()
        &&& self.max_total() == before.max_total()
    }

    /// The sweep went on from `before` by one file, which was removed or could not be.
    pub open spec fn follows(self, before: Self, removed: bool) -> bool {
        &&& self.continues(before)
        &&& self.tried() == before.tried() + 1
        &&& self.total() == (if removed {
            before.total() - before.files()[before.victim()->0 as int].size
        } else {
            before.total() as int
        })
    }

    /// A sweep over files whose sizes together fit into 64 bits.
    pub fn new(files: Vec<CaptureFile>, max_total_bytes: u64) -> (r: Self)
        requires
            total_size(files@) <= u64::MAX,
        ensures
            r.wf(),
            r.files() == files@,
            r.tried() == 0,
            r.total() == total_size(files@),
            r.max_total() == max_total_bytes,
    {
        let order = age_order(&files);
        let total: u64 = match sum_of_sizes(&files) {
            Some(total) => total,
            None => 0,
        };
        assert(size_at(files@, order@.take(0)) == 0);
        RetentionSweep { files, order, next: 0, total, max_total: max_total_bytes }
    }

    /// The position of the file to remove next.
    pub fn next_victim(&self) -> (r: Option<usize>)
        requires
            self.wf(),
        ensures
            r == self.victim(),
            r matches Some(i) ==> i < self.files().len(),
    {
        if self.total <= self.max_total || self.next >= self.order.len() {
            None
        } else {
            Some(self.order[self.next])
        }
    }

    /// Goes on from the file that was to be removed, and was or could not be.
    pub fn victim_removed(&mut self, removed: bool)
        requires
            old(self).wf(),
            old(self).victim() is Some,
        ensures
            final(self).wf(),
            final(self).follows(*old(self), removed),
    {
        assert(self.next < self.order.len());
        let i: usize = self.order[self.next];
        let ghost files = self.files@;
        let ghost order = self.order@;
        let ghost at = self.next as int;
        proof {
            lemma_size_of_first(files, order, at + 1);
            assert(order.take(at + 1).drop_last() == order.take(at));
            assert(order.take(at + 1).last() == i);
        }
        if removed {
            self.total = self.total.saturating_sub(self.files[i].size);
        }
        self.next = self.next + 1;
    }
}

/// Some of the files are no larger together than all.
proof fn lemma_size_of_first(files: Seq<CaptureFile>, order: Seq<usize>, n: int)
    requires
        0 <= n <= order.len(),
    ensures
        size_at(files, order.take(n)) <= size_at(files, order),
    decreases order.len(),
{
    if n == order.len() {
        assert(order.take(n) == order);
    } else {
        lemma_size_of_first(files, order.drop_last(), n);
        assert(order.drop_last().take(n) == order.take(n));
    }
}

/// The steps of a sweep, from a fresh one on, in which each file could be removed.
pub open spec fn is_successful_sweep(steps: Seq<RetentionSweep>) -> bool {
    &&& steps.len() > 0
    &&& steps[0].wf()
    &&& steps[0].tried() == 0
    &&& steps[0].total() == total_size(steps[0].files())
    &&& forall|k: int|
        0 <= k < steps.len() - 1 ==> (#[trigger] steps[k]).victim() is Some && steps[k
            + 1].follows(steps[k], true)
}

/// The steps of a sweep take the files in the order of their age, and what is left is what was not
/// tried.
proof fn lemma_sweep_progress(steps: Seq<RetentionSweep>, k: int)
    requires
        is_successful_sweep(steps),
        0 <= k < steps.len(),
    ensures
        steps[k].continues(steps[0]),
        steps[k].tried() == k,
        k <= steps[0].order().len(),
        steps[k].total() + size_at(steps[0].files(), steps[0].order().take(k)) == total_size(
            steps[0].files(),
        ),
    decreases k,
{
    let files = steps[0].files();
    let order = steps[0].order();
    if k == 0 {
        assert(order.take(0).len() == 0);
    } else {
        lemma_sweep_progress(steps, k - 1);
        assert(steps[k - 1].victim() is Some);
        assert(steps[k].follows(steps[k - 1], true));
        assert(order.take(k).drop_last() == order.take(k - 1));
        assert(order.take(k).last() == order[k - 1]);
    }
}

/// A sweep in which each file can be removed takes the files from the oldest on, takes none while
/// the files fit, and ends with files that fit.
pub proof fn law_sweep_leaves_the_newest_files_that_fit(steps: Seq<RetentionSweep>)
    requires
        is_successful_sweep(steps),
        steps.last().victim() is None,
    ensures
        steps.last().total() <= steps[0].max_total(),
        forall|k: int|
            0 <= k < steps.len() - 1 ==> (#[trigger] steps[k]).victim() == Some(
                steps[0].order()[k],
            ) && steps[k].total() > steps[0].max_total(),
        steps.last().total() + size_at(
            steps[0].files(),
            steps[0].order().take(steps.len() - 1),
        ) == total_size(steps[0].files()),
{
    let n = steps.len() - 1;
    lemma_sweep_progress(steps, n);
    let order = steps[0].order();
    if n == order.len() {
        assert(order.take(n) == order);
    }
    assert forall|k: int| 0 <= k < steps.len() - 1 implies (#[trigger] steps[k]).victim() == Some(
        steps[0].order()[k],
    ) && steps[k].total() > steps[0].max_total() by {
        lemma_sweep_progress(steps, k);
        assert(steps[k].victim() is Some);
    }
}

/// Every name that ends in `.pcap`, with something before it, is the name of a capture; no other
/// name is.
pub proof fn law_names_of_captures(stem: Seq<u8>, name: Seq<u8>)
    ensures
        stem.len() > 0 ==> has_pcap_extension(stem + seq![46u8, 112, 99, 97, 112]),
        has_pcap_extension(name) ==> name.len() > 5 && name == name.take(name.len() - 5) + seq![
            46u8,
            112,
            99,
            97,
            112,
        ],
{
    let ending = seq![46u8, 112, 99, 97, 112];
    let whole = stem + ending;
    assert(whole.skip(whole.len() - 5) == ending);
    if has_pcap_extension(name) {
        assert(name == name.take(name.len() - 5) + ending);
    }
}

/// A retention period of so many days has 86 400 seconds for each, and the most that 64 bits hold
/// where that is more.
pub proof fn law_days_of_a_period(days: u64)
    ensures
        period_seconds(0) == 0,
        days < u64::MAX ==> period_seconds((days + 1) as u64) == (if period_seconds(days) + 86_400
            > 0xffff_ffff_ffff_ffff {
            0xffff_ffff_ffff_ffff
        } else {
            period_seconds(days) + 86_400
        }),
{
}

/// The files that expire are listed by their positions, each once and in order.
pub proof fn law_expired_files_are_listed_in_order(
    files: Seq<CaptureFile>,
    cutoff: i128,
    j: int,
    k: int,
)
    requires
        files.len() <= usize::MAX,
        0 <= j < k < outdated(files, cutoff).len(),
    ensures
        outdated(files, cutoff)[j] < outdated(files, cutoff)[k] < files.len(),
    decreases files.len(),
{
    let before = outdated(files.drop_last(), cutoff);
    lemma_outdated_in_range(files.drop_last(), cutoff);
    lemma_outdated_in_range(files, cutoff);
    if k < before.len() {
        law_expired_files_are_listed_in_order(files.drop_last(), cutoff, j, k);
        assert(outdated(files, cutoff)[k] == before[k]);
    } else {
        assert(outdated(files, cutoff)[k] == files.len() - 1);
    }
    assert(outdated(files, cutoff)[j] == before[j]);
}

/// The sizes of files together: each file adds its own, whether it is listed or picked by its
/// position.
pub proof fn law_sizes_add_up(
    files: Seq<CaptureFile>,
    file: CaptureFile,
    positions: Seq<usize>,
    i: usize,
)
    ensures
        total_size(Seq::empty()) == 0,
        total_size(files.push(file)) == total_size(files) + file.size,
        size_at(files, Seq::empty()) == 0,
        size_at(files, positions.push(i)) == size_at(files, positions) + files[i as int].size,
{
    assert(files.push(file).drop_last() == files);
    assert(positions.push(i).drop_last() == positions);
}

/// A sweep goes through the files from the oldest to the newest, through each of them once, and of
/// files of the same age through the one that is listed first.
pub proof fn law_sweep_goes_by_age(sweep: RetentionSweep, j: int, k: int)
    requires
        sweep.wf(),
        0 <= j < k < sweep.order().len(),
    ensures
        sweep.order().len() == sweep.files().len(),
        sweep.order()[j] < sweep.files().len(),
        sweep.order()[k] < sweep.files().len(),
        sweep.order()[j] != sweep.order()[k],
        ({
            let first = sweep.files()[sweep.order()[j] as int];
            let second = sweep.files()[sweep.order()[k] as int];
            first.modified < second.modified || (first.modified == second.modified
                && sweep.order()[j] < sweep.order()[k])
        }),
{
    assert(goes_first(sweep.files(), sweep.order()[j], sweep.order()[k]));
}

/// A sweep removes a file exactly where the files that are left are larger together than they may
/// be and some were not tried; it is then the next one by age.
pub proof fn law_sweep_stops_when_the_files_fit(sweep: RetentionSweep)
    ensures
        sweep.total() <= sweep.max_total() ==> sweep.victim() is None,
        sweep.tried() >= sweep.order().len() ==> sweep.victim() is None,
        sweep.total() > sweep.max_total() && sweep.tried() < sweep.order().len()
            ==> sweep.victim() == Some(sweep.order()[sweep.tried() as int]),
{
}

/// A sweep goes on by one file. A file that was removed does not count any more, one that could not
/// be removed does.
pub proof fn law_sweep_goes_on(before: RetentionSweep, after: RetentionSweep)
    requires
        before.wf(),
        before.total() > before.max_total(),
        before.tried() < before.order().len(),
    ensures
        after.follows(before, true) || after.follows(before, false) ==> {
            &&& after.files() == before.files()
            &&& after.order() == before.order()
            &&& after.max_total() == before.max_total()
            &&& after.tried() == before.tried() + 1
        },
        after.follows(before, true) ==> after.total() + before.files()[before.order()[before.tried() as int] as int].size
            == before.total(),
        after.follows(before, false) ==> after.total() == before.total(),
{
}

} // verus!
