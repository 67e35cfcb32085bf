//! Shared types: results, errors, path sets, and the cooperative run context.
use std::sync::atomic::AtomicBool;
use std::sync::atomic::Ordering;
use std::sync::Arc;
use vstd::prelude::*;

verus! {

/// Capacity of the ordering-token channel.
pub const CHANNEL_SIZE_TRANSFER_REQUEST: usize = 10_000;

/// Capacity of each hash-request channel.
pub const CHANNEL_SIZE_HASH_REQUEST: usize = 10_000;

/// Capacity of each hash-result channel: small, its items may sit in the page cache.
pub const CHANNEL_SIZE_HASH_RESPONSE: usize = 3;

/// Capacity of the copy-to-destination channel.
pub const CHANNEL_SIZE_COPY_TO_DEST_REQUEST: usize = 10_000;

/// Capacity of each copy-file channel: small, its items may sit in the page cache.
pub const CHANNEL_SIZE_COPY_FILE_REQUEST: usize = 3;

/// An error with a human-readable message.
#[derive(Debug, Clone)]
pub struct DitError {
    pub error: String,
}

impl DitError {
    pub fn new(s: &str) -> (r: DitError)
        ensures
            r.error@ == s@,
    {
        DitError { error: s.to_string() }
    }
}

/// An `Err` carrying a `DitError` with the given message.
pub fn dit_error<T>(s: &str) -> (r: Result<T, DitError>)
    ensures
        r is Err,
        r->Err_0.error@ == s@,
{
    Err(DitError::new(s))
}

/// The directories to read from and the directories to write to.
#[derive(Debug, Clone)]
pub struct ReadWritePaths {
    pub read_paths: Vec<String>,
    pub write_paths: Vec<String>,
}

/// Outcome of a copy or merge, totally ordered `Success < Conflict < Error`.
#[derive(PartialEq, Eq, Structural, Clone, Copy, Debug)]
pub enum MergeResult {
    Success,
    Conflict,
    Error,
}

impl MergeResult {
    /// Position of the result in the order `Success < Conflict < Error`.
    pub open spec fn rank(self) -> nat {
        match self {
            MergeResult::Success => 0,
            MergeResult::Conflict => 1,
            MergeResult::Error => 2,
        }
    }
}

/// The larger of two results in the order `Success < Conflict < Error`.
pub fn max_merge_result(a: &MergeResult, b: &MergeResult) -> (r: MergeResult)
    ensures
        r.rank() == if a.rank() >= b.rank() { a.rank() } else { b.rank() },
        r == *a || r == *b,
{
    if *a == MergeResult::Error || *b == MergeResult::Error {
        return MergeResult::Error;
    }
    if *a == MergeResult::Conflict || *b == MergeResult::Conflict {
        return MergeResult::Conflict;
    }
    MergeResult::Success
}

/// Flags that threads share for cooperative shutdown.
///
/// `running` belongs to one worker and says whether it should keep taking work;
/// `clean` is shared with the root context and says whether pending work may
/// still be drained. Other threads may change either at any time, so a read
/// of a flag promises nothing about its value.
#[derive(Clone)]
pub struct ThreadRunContext {
    running: Arc<AtomicBool>,
    clean: Arc<AtomicBool>,
}

impl ThreadRunContext {
    /// A root context: running and clean.
    pub fn new() -> (r: ThreadRunContext) {
        ThreadRunContext {
            running: Arc::new(AtomicBool::new(true)),
            clean: Arc::new(AtomicBool::new(true)),
        }
    }

    /// A context with its own `running` flag that shares `clean` with `parent`.
    pub fn from(parent: &ThreadRunContext) -> (r: ThreadRunContext) {
        let clean = parent.clean.clone();
        ThreadRunContext { running: Arc::new(AtomicBool::new(true)), clean }
    }

    pub fn is_running(&self) -> bool {
        self.running.load(Ordering::Relaxed)
    }

    pub fn is_clean(&self) -> bool {
        self.clean.load(Ordering::Relaxed)
    }

    /// Asks this worker to stop taking new work; pending work may be drained.
    pub fn shutdown(&self) {
        self.running.store(false, Ordering::Relaxed);
    }

    /// Stops this worker and marks the whole run unclean: nothing is drained.
    pub fn unclean_shutdown(&self) {
        self.clean.store(false, Ordering::Relaxed);
        self.running.store(false, Ordering::Relaxed);
    }
}

/// What a metadata probe of one path found.
#[derive(PartialEq, Eq, Structural, Clone, Copy, Debug)]
pub enum FileProbe {
    /// Nothing exists at the path.
    Absent,
    /// Something exists at the path, but its metadata could not be read.
    Unreadable,
    /// The path exists and has this length in bytes.
    Present(u64),
}

/// Every probe in `probes` that is present has length `size`.
pub open spec fn present_sizes_are(probes: Seq<FileProbe>, size: u64) -> bool {
    forall|i: int| 0 <= i < probes.len() && (#[trigger] probes[i]) is Present ==> probes[i]->0 == size
}

/// The sources and destinations of one sub-path agree by length: no source
/// is unreadable, the present sources share one length, and every
/// destination is present with that length.
pub open spec fn files_match(read: Seq<FileProbe>, write: Seq<FileProbe>) -> bool {
    &&& forall|i: int| 0 <= i < read.len() ==> !(#[trigger] read[i] is Unreadable)
    &&& exists|size: u64|
        #![trigger present_sizes_are(read, size)]
        present_sizes_are(read, size) && forall|j: int|
            0 <= j < write.len() ==> #[trigger] write[j] == FileProbe::Present(size)
}

/// Whether the metadata of the sources (`read`) and destinations (`write`)
/// of one sub-path match closely enough that copying can be skipped.
pub fn all_files_match(read: &Vec<FileProbe>, write: &Vec<FileProbe>) -> (r: bool)
    requires
        exists|i: int| 0 <= i < read.len() && !(#[trigger] read[i] is Absent),
    ensures
        r == files_match(read@, write@),
{
    let mut found = false;
    let mut file_size: u64 = 0;
    let mut i: usize = 0;
    while i < read.len()
        invariant
            i <= read.len(),
            forall|k: int| 0 <= k < i ==> !(#[trigger] read@[k] is Unreadable),
            present_sizes_are(read@.take(i as int), file_size),
            found ==> exists|k: int| 0 <= k < i && #[trigger] read@[k] == FileProbe::Present(file_size),
            !found ==> forall|k: int| 0 <= k < i ==> (#[trigger] read@[k]) is Absent,
        decreases read.len() - i,
    {
        match read[i] {
            FileProbe::Absent => {},
            FileProbe::Unreadable => {
                return false;
            },
            FileProbe::Present(size) => {
                if !found {
                    file_size = size;
                    found = true;
                } else if size != file_size {
                    proof {
                        assert forall|s: u64| !present_sizes_are(read@, s) by {
                            let k = choose|k: int| 0 <= k < i && #[trigger] read@[k] == FileProbe::Present(file_size);
                            if present_sizes_are(read@, s) {
                                assert(read@[k] is Present);
                                assert(read@[i as int] is Present);
                            }
                        }
                    }
                    return false;
                }
            },
        }
        proof {
            assert forall|k: int| 0 <= k < i + 1 && (#[trigger] read@.take(i + 1)[k]) is Present implies read@.take(i + 1)[k]->0 == file_size by {
                if k < i {
                    assert(read@.take(i as int)[k] == read@[k]);
                }
            }
        }
        i = i + 1;
    }
    if !found {
        proof {
            let k = choose|k: int| 0 <= k < read.len() && !(#[trigger] read@[k] is Absent);
            assert(read@[k] is Absent);
        }
        return false;
    }
    assert(read@.take(i as int) =~= read@);
    let mut j: usize = 0;
    while j < write.len()
        invariant
            i == read.len(),
            j <= write.len(),
            forall|k: int| 0 <= k < read.len() ==> !(#[trigger] read@[k] is Unreadable),
            present_sizes_are(read@, file_size),
            exists|k: int| 0 <= k < read.len() && #[trigger] read@[k] == FileProbe::Present(file_size),
            forall|k: int| 0 <= k < j ==> #[trigger] write@[k] == FileProbe::Present(file_size),
        decreases write.len() - j,
    {
        let matches = match write[j] {
            FileProbe::Present(size) => size == file_size,
            _ => false,
        };
        if !matches {
            proof {
                assert forall|s: u64| present_sizes_are(read@, s) implies !(forall|m: int|
                    0 <= m < write.len() ==> #[trigger] write@[m] == FileProbe::Present(s)) by {
                    let k = choose|k: int| 0 <= k < read.len() && #[trigger] read@[k] == FileProbe::Present(file_size);
                    assert(read@[k] is Present);
                    assert(write@[j as int] != FileProbe::Present(s));
                }
            }
            return false;
        }
        j = j + 1;
    }
    true
}

/// A source and its destinations disagree: the source's metadata cannot be
/// read, or some existing destination cannot be read or differs in length.
pub open spec fn write_conflict(src: FileProbe, dests: Seq<FileProbe>) -> bool {
    ||| !(src is Present)
    ||| exists|j: int|
        0 <= j < dests.len() && match #[trigger] dests[j] {
            FileProbe::Absent => false,
            FileProbe::Unreadable => true,
            FileProbe::Present(size) => size != src->0,
        }
}

/// Whether copying a source of metadata `src` onto destinations of metadata
/// `dests` would clobber a different file: any doubt counts as a conflict.
pub fn has_write_merge_conflict(src: &FileProbe, dests: &Vec<FileProbe>) -> (r: bool)
    ensures
        r == write_conflict(*src, dests@),
{
    let src_size = match src {
        FileProbe::Present(size) => *size,
        _ => {
            return true;
        },
    };
    let mut j: usize = 0;
    while j < dests.len()
        invariant
            j <= dests.len(),
            *src == FileProbe::Present(src_size),
            forall|k: int|
                0 <= k < j ==> match #[trigger] dests@[k] {
                    FileProbe::Absent => true,
                    FileProbe::Unreadable => false,
                    FileProbe::Present(size) => size == src_size,
                },
        decreases dests.len() - j,
    {
        let differs = match dests[j] {
            FileProbe::Absent => false,
            FileProbe::Unreadable => true,
            FileProbe::Present(size) => size != src_size,
        };
        if differs {
            assert(match dests@[j as int] {
                FileProbe::Absent => false,
                FileProbe::Unreadable => true,
                FileProbe::Present(size) => size != src->0,
            });
            return true;
        }
        j = j + 1;
    }
    false
}

/// The views of a sequence of strings.
pub open spec fn views(v: Seq<String>) -> Seq<Seq<char>> {
    v.map_values(|s: String| s@)
}

/// What is found at a top-level read or write path.
#[derive(PartialEq, Eq, Structural, Clone, Copy, Debug)]
pub enum PathKind {
    Missing,
    Directory,
    NotDirectory,
}

/// The message refusing read path `p` of kind `k`, if it is refused.
pub open spec fn read_path_error(p: Seq<char>, k: PathKind) -> Option<Seq<char>> {
    if p == "/"@ {
        Some("can not use '/' as read path"@)
    } else if k is Missing {
        Some("read path does not exist: '"@ + p + "'"@)
    } else if k is NotDirectory {
        Some("read path is not a directory: '"@ + p + "'"@)
    } else {
        None
    }
}

/// The message refusing write path `p` of kind `k`, if it is refused.
pub open spec fn write_path_error(p: Seq<char>, k: PathKind) -> Option<Seq<char>> {
    if p == "/"@ {
        Some("can not use '/' as write path"@)
    } else if k is NotDirectory {
        Some("write path exists, but is not a directory: '"@ + p + "'"@)
    } else {
        None
    }
}

/// The first refusal among the first `n` read paths.
pub open spec fn read_failure(paths: Seq<Seq<char>>, kinds: Seq<PathKind>, n: int) -> Option<Seq<char>>
    decreases n,
{
    if n <= 0 {
        None
    } else {
        match read_failure(paths, kinds, n - 1) {
            Some(e) => Some(e),
            None => read_path_error(paths[n - 1], kinds[n - 1]),
        }
    }
}

/// Walking the first `n` write paths in order: the missing ones to create
/// before the first refusal, and that refusal, if any.
pub open spec fn write_plan(paths: Seq<Seq<char>>, kinds: Seq<PathKind>, n: int) -> (Seq<Seq<char>>, Option<Seq<char>>)
    decreases n,
{
    if n <= 0 {
        (Seq::empty(), None)
    } else {
        let (create, failure) = write_plan(paths, kinds, n - 1);
        if failure is Some {
            (create, failure)
        } else {
            match write_path_error(paths[n - 1], kinds[n - 1]) {
                Some(e) => (create, Some(e)),
                None => (
                    if kinds[n - 1] is Missing { create.push(paths[n - 1]) } else { create },
                    None,
                ),
            }
        }
    }
}

proof fn lemma_read_failure_stays(paths: Seq<Seq<char>>, kinds: Seq<PathKind>, i: int, m: int)
    requires
        0 <= i <= m,
        read_failure(paths, kinds, i) is Some,
    ensures
        read_failure(paths, kinds, m) == read_failure(paths, kinds, i),
    decreases m - i,
{
    if m > i {
        lemma_read_failure_stays(paths, kinds, i, m - 1);
    }
}

proof fn lemma_write_failure_stays(paths: Seq<Seq<char>>, kinds: Seq<PathKind>, i: int, m: int)
    requires
        0 <= i <= m,
        write_plan(paths, kinds, i).1 is Some,
    ensures
        write_plan(paths, kinds, m) == write_plan(paths, kinds, i),
    decreases m - i,
{
    if m > i {
        lemma_write_failure_stays(paths, kinds, i, m - 1);
    }
}

/// The outcome of the pre-flight check: the write paths to create, in
/// order, and then the error to report, if any.
#[derive(Debug)]
pub struct Preflight {
    pub create: Vec<String>,
    pub failure: Option<DitError>,
}

fn is_root(p: &String) -> (r: bool)
    ensures
        r == (p@ == "/"@),
{
    proof {
        reveal_strlit("/");
    }
    let n = p.as_str().unicode_len();
    if n == 1 {
        let c = p.as_str().get_char(0);
        assert(c == '/' ==> p@ =~= "/"@);
        c == '/'
    } else {
        false
    }
}

fn quoted_message(prefix: &str, p: &String) -> (r: String)
    ensures
        r@ == prefix@ + p@ + "'"@,
{
    let mut r = prefix.to_string();
    r.append(p.as_str());
    r.append("'");
    r
}

/// Checks the read paths (`read_kinds[i]` is what lies at read path `i`) and
/// then the write paths. Read paths must be directories; write paths must be
/// directories or missing, and `/` is refused for either. Checking stops at
/// the first refusal: the missing write paths before it are to be created
/// (non-recursively), in order, and then the refusal reported.
pub fn ensure_valid_read_write_paths(
    read_write_paths: &ReadWritePaths,
    read_kinds: &Vec<PathKind>,
    write_kinds: &Vec<PathKind>,
) -> (r: Preflight)
    requires
        read_kinds.len() == read_write_paths.read_paths.len(),
        write_kinds.len() == read_write_paths.write_paths.len(),
    ensures
        ({
            let reads = views(read_write_paths.read_paths@);
            let writes = views(read_write_paths.write_paths@);
            match read_failure(reads, read_kinds@, reads.len() as int) {
                Some(e) => r.create@.len() == 0 && r.failure is Some && r.failure->0.error@ == e,
                None => {
                    let (create, failure) = write_plan(writes, write_kinds@, writes.len() as int);
                    &&& views(r.create@) == create
                    &&& match failure {
                        Some(e) => r.failure is Some && r.failure->0.error@ == e,
                        None => r.failure is None,
                    }
                },
            }
        }),
{
    let reads = &read_write_paths.read_paths;
    let writes = &read_write_paths.write_paths;
    let mut i: usize = 0;
    while i < reads.len()
        invariant
            i <= reads.len(),
            reads == &read_write_paths.read_paths,
            read_kinds.len() == reads.len(),
            read_failure(views(reads@), read_kinds@, i as int) is None,
        decreases reads.len() - i,
    {
        let p = &reads[i];
        proof {
            assert(views(reads@)[i as int] == p@);
        }
        let error = if is_root(p) {
            Some("can not use '/' as read path".to_string())
        } else {
            match read_kinds[i] {
                PathKind::Missing => Some(quoted_message("read path does not exist: '", p)),
                PathKind::NotDirectory => Some(quoted_message("read path is not a directory: '", p)),
                PathKind::Directory => None,
            }
        };
        match error {
            Some(e) => {
                proof {
                    lemma_read_failure_stays(views(reads@), read_kinds@, i + 1, reads@.len() as int);
                }
                return Preflight { create: Vec::new(), failure: Some(DitError { error: e }) };
            },
            None => {},
        }
        i = i + 1;
    }
    let mut create: Vec<String> = Vec::new();
    let mut j: usize = 0;
    while j < writes.len()
        invariant
            j <= writes.len(),
            reads == &read_write_paths.read_paths,
            writes == &read_write_paths.write_paths,
            write_kinds.len() == writes.len(),
            read_failure(views(reads@), read_kinds@, reads@.len() as int) is None,
            write_plan(views(writes@), write_kinds@, j as int) == (views(create@), None::<Seq<char>>),
        decreases writes.len() - j,
    {
        let p = &writes[j];
        proof {
            assert(views(writes@)[j as int] == p@);
        }
        let error = if is_root(p) {
            Some("can not use '/' as write path".to_string())
        } else {
            match write_kinds[j] {
                PathKind::NotDirectory => Some(quoted_message("write path exists, but is not a directory: '", p)),
                _ => None,
            }
        };
        match error {
            Some(e) => {
                proof {
                    lemma_write_failure_stays(views(writes@), write_kinds@, j + 1, writes@.len() as int);
                }
                return Preflight { create, failure: Some(DitError { error: e }) };
            },
            None => {},
        }
        match write_kinds[j] {
            PathKind::Missing => {
                let ghost before = create@;
                create.push(p.clone());
                assert(views(create@) =~= views(before).push(p@));
            },
            _ => {},
        }
        j = j + 1;
    }
    Preflight { create, failure: None }
}

/// The larger of two results in the order `Success < Conflict < Error`.
pub open spec fn max_spec(a: MergeResult, b: MergeResult) -> MergeResult {
    if a.rank() >= b.rank() {
        a
    } else {
        b
    }
}

/// The supremum of a sequence of results; `Success` for none.
pub open spec fn supremum(results: Seq<MergeResult>) -> MergeResult
    decreases results.len(),
{
    if results.len() == 0 {
        MergeResult::Success
    } else {
        max_spec(supremum(results.drop_last()), results.last())
    }
}

/// The running result of the arbiter: the supremum of the results of the
/// units it has finished.
pub struct MergeTally {
    result: MergeResult,
    seen: Ghost<Seq<MergeResult>>,
}

impl MergeTally {
    /// The results recorded so far.
    pub closed spec fn seen(&self) -> Seq<MergeResult> {
        self.seen@
    }

    pub closed spec fn wf(&self) -> bool {
        self.result == supremum(self.seen@)
    }

    /// A tally of no units.
    pub fn new() -> (r: MergeTally)
        ensures
            r.wf(),
            r.seen() == Seq::<MergeResult>::empty(),
    {
        MergeTally { result: MergeResult::Success, seen: Ghost(Seq::empty()) }
    }

    /// Records the result of one more unit.
    pub fn record(&mut self, r: MergeResult)
        requires
            old(self).wf(),
        ensures
            final(self).wf(),
            final(self).seen() == old(self).seen().push(r),
    {
        let ghost before = self.seen@;
        self.result = max_merge_result(&self.result, &r);
        self.seen = Ghost(before.push(r));
        assert(self.seen@.drop_last() =~= before);
    }

    /// The supremum of the recorded results.
    pub fn result(&self) -> (r: MergeResult)
        requires
            self.wf(),
        ensures
            r == supremum(self.seen()),
    {
        self.result
    }

    /// The result of the whole run: `Error` once the run went unclean,
    /// otherwise the supremum of the recorded results.
    pub fn finish(&self, clean: bool) -> (r: MergeResult)
        requires
            self.wf(),
        ensures
            r == if clean { supremum(self.seen()) } else { MergeResult::Error },
    {
        if clean {
            self.result
        } else {
            MergeResult::Error
        }
    }
}

/// Where a worker thread stands in its life.
#[derive(PartialEq, Eq, Structural, Clone, Copy, Debug)]
pub enum WorkerPhase {
    /// Taking new work while `running`.
    Working,
    /// `running` went false on a clean run: emptying the channel.
    Draining,
    /// Done.
    Stopped,
}

/// The phase a worker is in before it waits for its next message, given
/// the flags it observes: a clean stop drains, an unclean one stops at once.
pub open spec fn phase_spec(phase: WorkerPhase, running: bool, clean: bool) -> WorkerPhase {
    match phase {
        WorkerPhase::Working => if running {
            WorkerPhase::Working
        } else if clean {
            WorkerPhase::Draining
        } else {
            WorkerPhase::Stopped
        },
        WorkerPhase::Draining => if clean {
            WorkerPhase::Draining
        } else {
            WorkerPhase::Stopped
        },
        WorkerPhase::Stopped => WorkerPhase::Stopped,
    }
}

/// The phase a worker is in before it waits for its next message, given
/// the flags it observes.
pub fn worker_phase(phase: WorkerPhase, running: bool, clean: bool) -> (r: WorkerPhase)
    ensures
        r == phase_spec(phase, running, clean),
{
    match phase {
        WorkerPhase::Working => if running {
            WorkerPhase::Working
        } else if clean {
            WorkerPhase::Draining
        } else {
            WorkerPhase::Stopped
        },
        WorkerPhase::Draining => if clean {
            WorkerPhase::Draining
        } else {
            WorkerPhase::Stopped
        },
        WorkerPhase::Stopped => WorkerPhase::Stopped,
    }
}

/// The phase after a wait for a message timed out: a draining worker has
/// emptied its channel and stops; a working one keeps polling.
pub fn phase_after_timeout(phase: WorkerPhase) -> (r: WorkerPhase)
    ensures
        r == if phase == WorkerPhase::Draining { WorkerPhase::Stopped } else { phase },
{
    match phase {
        WorkerPhase::Draining => WorkerPhase::Stopped,
        _ => phase,
    }
}

} // verus!
