//! The on-disk blob cache: content-addressed file names, and the decisions
//! of one fetch that coordinates with other processes through a lock file.
use vstd::prelude::*;

use crate::text::{find_first, index_of_first, text_of};

verus! {

/// Directory that holds the downloaded layer blobs.
pub const CACHE_ROOT: &'static str = "/vagga/cache/docker-layers";

/// Characters of the content hash shown in progress messages.
pub const SHORT_DIGEST_LEN: usize = 12;

/// The files that belong to one blob in the cache.
pub struct BlobPaths {
    /// `<root>/<hash>.tar.gz`: present only once complete.
    pub blob: String,
    /// `<root>/.<hash>.tar.gz.tmp`: where the download is written.
    pub tmp: String,
    /// `<root>/.<hash>.tar.gz.lock`: taken by the one process that downloads.
    pub lock: String,
    /// The first characters of the content hash.
    pub short: String,
}

/// The content hash of a digest `algorithm:hash`, if it has a `:`.
pub open spec fn content_hash(digest: Seq<char>) -> Option<Seq<char>> {
    let i = find_first(digest, ':', 0);
    if i >= 0 {
        Some(digest.skip(i + 1))
    } else {
        None
    }
}

/// Whether a digest names a cache entry: it has a `:`, and a content hash
/// long enough to be shown in short.
pub open spec fn valid_digest(digest: Seq<char>) -> bool {
    match content_hash(digest) {
        Some(h) => h.len() >= SHORT_DIGEST_LEN,
        None => false,
    }
}

/// The blob file name of a content hash.
pub open spec fn blob_name(h: Seq<char>) -> Seq<char> {
    h + ".tar.gz"@
}

/// The cache files of `digest` under `root`, all named after its content hash.
pub open spec fn paths_of(p: BlobPaths, root: Seq<char>, h: Seq<char>) -> bool {
    &&& p.blob@ == root + "/"@ + blob_name(h)
    &&& p.tmp@ == root + "/."@ + blob_name(h) + ".tmp"@
    &&& p.lock@ == root + "/."@ + blob_name(h) + ".lock"@
    &&& p.short@ == h.take(SHORT_DIGEST_LEN as int)
}

/// The cache files of a layer digest, or `None` for a digest that is not
/// `algorithm:hash` with a hash of at least the short length.
pub fn blob_paths(root: &str, digest: &str) -> (r: Option<BlobPaths>)
    ensures
        r is Some <==> valid_digest(digest@),
        match r {
            Some(p) => paths_of(p, root@, content_hash(digest@).unwrap()),
            None => true,
        },
{
    let n = digest.unicode_len();
    match index_of_first(digest, ':') {
        None => None,
        Some(i) => {
            let h = digest.substring_char(i + 1, n);
            assert(h@ == content_hash(digest@).unwrap());
            if h.unicode_len() < SHORT_DIGEST_LEN {
                return None;
            }
            let name = text_of(h).concat(".tar.gz");
            let blob = text_of(root).concat("/").concat(name.as_str());
            let tmp = text_of(root).concat("/.").concat(name.as_str()).concat(".tmp");
            let lock = text_of(root).concat("/.").concat(name.as_str()).concat(".lock");
            let short = text_of(h.substring_char(0, SHORT_DIGEST_LEN));
            assert(blob@ =~= root@ + "/"@ + blob_name(h@));
            assert(tmp@ =~= root@ + "/."@ + blob_name(h@) + ".tmp"@);
            assert(lock@ =~= root@ + "/."@ + blob_name(h@) + ".lock"@);
            assert(short@ =~= h@.take(SHORT_DIGEST_LEN as int));
            Some(BlobPaths { blob, tmp, lock, short })
        },
    }
}

/// The temporary and lock files never share the blob's name, so the blob
/// name appears only by renaming a finished download onto it.
pub proof fn lemma_cache_names_distinct(p: BlobPaths, root: Seq<char>, h: Seq<char>)
    requires
        paths_of(p, root, h),
    ensures
        p.tmp@ != p.blob@,
        p.lock@ != p.blob@,
        p.tmp@ != p.lock@,
{
    reveal_strlit("/");
    reveal_strlit("/.");
    reveal_strlit(".tar.gz");
    reveal_strlit(".tmp");
    reveal_strlit(".lock");
    assert(p.tmp@.len() == p.blob@.len() + 5);
    assert(p.lock@.len() == p.blob@.len() + 6);
}

/// Where one fetch stands.
pub enum FetchStage {
    /// Looking for the finished blob, without a lock.
    Probing,
    /// Waiting for the exclusive lock.
    Locking,
    /// Looking for the finished blob again, under the lock.
    Rechecking,
    /// Writing the download to the temporary file, then renaming it.
    Writing,
    /// The blob is in place.
    Done,
    /// The fetch failed.
    Failed,
}

/// What the driver observed after the last action.
pub enum FetchEvent {
    /// The blob file exists.
    Present,
    /// The blob file does not exist.
    Absent,
    /// Looking for the blob failed otherwise.
    ProbeFailed(String),
    /// The exclusive lock is held.
    LockTaken,
    /// The lock could not be taken.
    LockFailed(String),
    /// The download was written and renamed into place.
    Written,
    /// Downloading, writing or renaming failed.
    WriteFailed(String),
}

/// What the driver does next.
pub enum FetchAction {
    /// Look for the blob file.
    CheckBlob,
    /// Take the exclusive lock, waiting for it.
    TakeLock,
    /// Stream the blob into the temporary file, then rename it onto the blob.
    Download,
    /// Hand back the blob path; any lock is released.
    Return,
    /// Give up with this message; any lock is released.
    Fail(String),
}

/// Whether `event` answers the action issued on entering `stage`.
pub open spec fn event_fits(stage: FetchStage, event: FetchEvent) -> bool {
    match stage {
        FetchStage::Probing | FetchStage::Rechecking => event is Present || event is Absent
            || event is ProbeFailed,
        FetchStage::Locking => event is LockTaken || event is LockFailed,
        FetchStage::Writing => event is Written || event is WriteFailed,
        _ => false,
    }
}

/// The transition of a fetch on one event.
pub open spec fn fetch_next(stage: FetchStage, event: FetchEvent) -> (FetchStage, FetchAction) {
    match event {
        FetchEvent::Present => (FetchStage::Done, FetchAction::Return),
        FetchEvent::Absent => if stage is Probing {
            (FetchStage::Locking, FetchAction::TakeLock)
        } else {
            (FetchStage::Writing, FetchAction::Download)
        },
        FetchEvent::LockTaken => (FetchStage::Rechecking, FetchAction::CheckBlob),
        FetchEvent::Written => (FetchStage::Done, FetchAction::Return),
        FetchEvent::ProbeFailed(e) => (FetchStage::Failed, FetchAction::Fail(e)),
        FetchEvent::LockFailed(e) => (FetchStage::Failed, FetchAction::Fail(e)),
        FetchEvent::WriteFailed(e) => (FetchStage::Failed, FetchAction::Fail(e)),
    }
}

/// A fetch starts by looking for the finished blob.
pub fn fetch_start() -> (r: (FetchStage, FetchAction))
    ensures
        r == (FetchStage::Probing, FetchAction::CheckBlob),
{
    (FetchStage::Probing, FetchAction::CheckBlob)
}

/// Decides the next stage and action of a fetch. A blob found present is
/// returned at once; the download happens only under the lock, after the
/// blob was found absent a second time.
pub fn fetch_step(stage: FetchStage, event: FetchEvent) -> (r: (FetchStage, FetchAction))
    requires
        event_fits(stage, event),
    ensures
        r == fetch_next(stage, event),
{
    match event {
        FetchEvent::Present => (FetchStage::Done, FetchAction::Return),
        FetchEvent::Absent => match stage {
            FetchStage::Probing => (FetchStage::Locking, FetchAction::TakeLock),
            _ => (FetchStage::Writing, FetchAction::Download),
        },
        FetchEvent::LockTaken => (FetchStage::Rechecking, FetchAction::CheckBlob),
        FetchEvent::Written => (FetchStage::Done, FetchAction::Return),
        FetchEvent::ProbeFailed(e) => (FetchStage::Failed, FetchAction::Fail(e)),
        FetchEvent::LockFailed(e) => (FetchStage::Failed, FetchAction::Fail(e)),
        FetchEvent::WriteFailed(e) => (FetchStage::Failed, FetchAction::Fail(e)),
    }
}

/// The stage reached and the actions issued when a fetch sees `events`.
pub open spec fn fetch_run(stage: FetchStage, events: Seq<FetchEvent>) -> (FetchStage, Seq<FetchAction>)
    decreases events.len(),
{
    if events.len() == 0 || !event_fits(stage, events[0]) {
        (stage, seq![])
    } else {
        let (next, action) = fetch_next(stage, events[0]);
        let rest = fetch_run(next, events.drop_first());
        (rest.0, seq![action] + rest.1)
    }
}

/// Once the blob is in the cache, a fetch returns it without downloading:
/// it issues no `Download` and ends done.
pub proof fn lemma_cached_blob_no_download(events: Seq<FetchEvent>)
    requires
        events.len() > 0,
        events[0] is Present,
    ensures
        fetch_run(FetchStage::Probing, events).0 is Done,
        fetch_run(FetchStage::Probing, events).1 == seq![FetchAction::Return],
{
    assert(fetch_run(FetchStage::Done, events.drop_first()) == (FetchStage::Done, Seq::<FetchAction>::empty()));
}

/// A fetch issues `Download` only on finding the blob absent under the lock,
/// right after the lock was taken, and at most once.
pub proof fn lemma_download_only_under_lock(events: Seq<FetchEvent>, k: int)
    requires
        0 <= k < fetch_run(FetchStage::Probing, events).1.len(),
        fetch_run(FetchStage::Probing, events).1[k] is Download,
    ensures
        k >= 1,
        events[k] is Absent,
        events[k - 1] is LockTaken,
        forall|j: int| 0 <= j < fetch_run(FetchStage::Probing, events).1.len() && j != k
            ==> !(fetch_run(FetchStage::Probing, events).1[j] is Download),
{
    lemma_download_at(FetchStage::Probing, events, k);
}

/// The step of a run that issues `Download`: the event there is `Absent`,
/// taken in the `Rechecking` stage, which the run either starts in or
/// reaches by taking the lock.
proof fn lemma_download_at(stage: FetchStage, events: Seq<FetchEvent>, k: int)
    requires
        !(stage is Writing),
        0 <= k < fetch_run(stage, events).1.len(),
        fetch_run(stage, events).1[k] is Download,
    ensures
        events[k] is Absent,
        (k == 0 && stage is Rechecking) || (k >= 1 && events[k - 1] is LockTaken),
        forall|j: int| 0 <= j < fetch_run(stage, events).1.len() && j != k
            ==> !(fetch_run(stage, events).1[j] is Download),
    decreases events.len(),
{
    lemma_run_len(stage, events);
    let (next, action) = fetch_next(stage, events[0]);
    let rest = events.drop_first();
    if k == 0 {
        assert(fetch_run(stage, events).1[0] == action);
        lemma_no_download_after_writing(rest);
        assert forall|j: int| 0 <= j < fetch_run(stage, events).1.len() && j != k
            implies !(fetch_run(stage, events).1[j] is Download) by {
            assert(fetch_run(stage, events).1[j] == fetch_run(next, rest).1[j - 1]);
        }
    } else {
        assert(fetch_run(stage, events).1[k] == fetch_run(next, rest).1[k - 1]);
        if next is Writing {
            lemma_no_download_after_writing(rest);
            assert(false);
        } else {
            lemma_download_at(next, rest, k - 1);
            assert(events[k] == rest[k - 1]);
            if k - 1 == 0 {
                assert(events[0] is LockTaken);
            } else {
                assert(events[k - 1] == rest[k - 2]);
            }
            assert(!(action is Download));
            assert forall|j: int| 0 <= j < fetch_run(stage, events).1.len() && j != k
                implies !(fetch_run(stage, events).1[j] is Download) by {
                if j > 0 {
                    assert(fetch_run(stage, events).1[j] == fetch_run(next, rest).1[j - 1]);
                }
            }
        }
    }
}

/// A run issues at most one action per event.
proof fn lemma_run_len(stage: FetchStage, events: Seq<FetchEvent>)
    ensures
        fetch_run(stage, events).1.len() <= events.len(),
    decreases events.len(),
{
    if events.len() > 0 && event_fits(stage, events[0]) {
        lemma_run_len(fetch_next(stage, events[0]).0, events.drop_first());
    }
}

/// After the download was issued, nothing is downloaded again.
proof fn lemma_no_download_after_writing(events: Seq<FetchEvent>)
    ensures
        forall|j: int| 0 <= j < fetch_run(FetchStage::Writing, events).1.len()
            ==> !(fetch_run(FetchStage::Writing, events).1[j] is Download),
{
    if events.len() > 0 && event_fits(FetchStage::Writing, events[0]) {
        let (next, action) = fetch_next(FetchStage::Writing, events[0]);
        lemma_final_stage_silent(next, events.drop_first());
    }
}

/// A finished fetch issues no further action.
proof fn lemma_final_stage_silent(stage: FetchStage, events: Seq<FetchEvent>)
    requires
        stage is Done || stage is Failed,
    ensures
        fetch_run(stage, events).1.len() == 0,
{
}

} // verus!
