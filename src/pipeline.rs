//! Ordered unpacking of concurrently downloaded layers.
//!
//! Downloads finish in any order; layers are unpacked strictly in manifest
//! order, each only after the one before it was unpacked. The driver reports
//! each finished download and each finished unpack, and asks for the next
//! step.
use vstd::prelude::*;

verus! {

/// How many layer downloads may run at once.
pub const DOWNLOAD_CONCURRENCY: usize = 2;

/// What became of one layer's download.
pub enum Download {
    Pending,
    /// Downloaded to the given local path.
    Ready(String),
    /// Failed with the given message.
    Failed(String),
}

/// Why a pipeline run failed.
pub enum PipelineError {
    /// Unpacking a layer failed; this takes precedence over download errors.
    Unpack(String),
    /// These downloads failed, in manifest order.
    Downloads(Vec<String>),
}

/// What the driver does next.
pub enum Step {
    /// Unpack the layer at `index`, downloaded to `path`.
    Unpack { index: usize, digest: String, path: String },
    /// Wait for a download or an unpack to finish.
    Wait,
    /// Every download and unpack is over; this is the outcome.
    Finished(Result<(), PipelineError>),
}

/// The state of one pipeline run.
pub struct Pipeline {
    /// Layer digests, base to top.
    pub digests: Vec<String>,
    /// The download of each layer, by manifest position.
    pub downloads: Vec<Download>,
    /// How many layers, from the base, have been unpacked.
    pub unpacked: usize,
    /// Whether the layer at `unpacked` is being unpacked now.
    pub unpacking: bool,
    /// The message of a failed unpack, after which nothing more is unpacked.
    pub unpack_error: Option<String>,
}

/// Whether every download has finished, one way or the other.
pub open spec fn all_reported(d: Seq<Download>) -> bool {
    forall|i: int| 0 <= i < d.len() ==> !(d[i] is Pending)
}

/// The messages of the failed downloads, in manifest order.
pub open spec fn failures(d: Seq<Download>) -> Seq<Seq<char>>
    decreases d.len(),
{
    if d.len() == 0 {
        seq![]
    } else {
        failures(d.drop_last()) + match d.last() {
            Download::Failed(e) => seq![e@],
            _ => seq![],
        }
    }
}

/// The characters of each message.
pub open spec fn texts(v: Seq<String>) -> Seq<Seq<char>> {
    v.map_values(|e: String| e@)
}

/// Whether the unpack worker has stopped: all layers are unpacked, one failed
/// to unpack, or the next layer's download failed.
pub open spec fn worker_stopped(p: Pipeline) -> bool {
    p.unpack_error is Some || p.unpacked >= p.downloads@.len() || p.downloads@[p.unpacked as int] is Failed
}

/// Whether nothing can proceed until a download finishes: one is still
/// pending, and the worker has stopped or needs the next layer's download.
pub open spec fn waiting_on_download(p: Pipeline) -> bool {
    &&& !all_reported(p.downloads@)
    &&& worker_stopped(p) || p.downloads@[p.unpacked as int] is Pending
}

/// The outcome of a run whose worker has stopped and whose downloads are all
/// reported.
pub open spec fn outcome_ok(p: Pipeline, r: Result<(), PipelineError>) -> bool {
    match p.unpack_error {
        Some(e) => r matches Err(PipelineError::Unpack(m)) && m@ == e@,
        None => if failures(p.downloads@).len() == 0 {
            r is Ok
        } else {
            r matches Err(PipelineError::Downloads(v)) && texts(v@) == failures(p.downloads@)
        },
    }
}

impl Pipeline {
    /// Positions line up, the unpacked count stays in range, and an unpack in
    /// progress is of a downloaded layer.
    pub open spec fn wf(&self) -> bool {
        &&& self.digests@.len() == self.downloads@.len()
        &&& self.unpacked <= self.downloads@.len()
        &&& forall|i: int| 0 <= i < self.unpacked ==> self.downloads@[i] is Ready
        &&& self.unpacking ==> {
            &&& self.unpacked < self.downloads@.len()
            &&& self.downloads@[self.unpacked as int] is Ready
            &&& self.unpack_error is None
        }
    }

    /// A run over the given layers, nothing downloaded yet.
    pub fn new(digests: Vec<String>) -> (r: Pipeline)
        ensures
            r.wf(),
            r.digests@ == digests@,
            r.downloads@.len() == digests@.len(),
            forall|i: int| 0 <= i < r.downloads@.len() ==> r.downloads@[i] is Pending,
            r.unpacked == 0,
            !r.unpacking,
            r.unpack_error is None,
    {
        let mut downloads: Vec<Download> = Vec::new();
        let n = digests.len();
        let mut i: usize = 0;
        while i < n
            invariant
                n == digests@.len(),
                i <= n,
                downloads@.len() == i,
                forall|j: int| 0 <= j < i ==> downloads@[j] is Pending,
            decreases n - i,
        {
            downloads.push(Download::Pending);
            i = i + 1;
        }
        Pipeline { digests, downloads, unpacked: 0, unpacking: false, unpack_error: None }
    }

    /// Records the outcome of the download of the layer at `index`.
    pub fn download_finished(&mut self, index: usize, result: Result<String, String>)
        requires
            old(self).wf(),
            index < old(self).downloads@.len(),
            old(self).downloads@[index as int] is Pending,
        ensures
            final(self).wf(),
            final(self).downloads@ == old(self).downloads@.update(
                index as int,
                match result {
                    Ok(p) => Download::Ready(p),
                    Err(e) => Download::Failed(e),
                },
            ),
            final(self).digests == old(self).digests,
            final(self).unpacked == old(self).unpacked,
            final(self).unpacking == old(self).unpacking,
            final(self).unpack_error == old(self).unpack_error,
    {
        let d = match result {
            Ok(p) => Download::Ready(p),
            Err(e) => Download::Failed(e),
        };
        self.downloads[index] = d;
    }

    /// Records the outcome of the unpack in progress.
    pub fn unpack_finished(&mut self, result: Result<(), String>)
        requires
            old(self).wf(),
            old(self).unpacking,
        ensures
            final(self).wf(),
            !final(self).unpacking,
            final(self).digests == old(self).digests,
            final(self).downloads == old(self).downloads,
            match result {
                Ok(()) => final(self).unpacked == old(self).unpacked + 1
                    && final(self).unpack_error is None,
                Err(e) => final(self).unpacked == old(self).unpacked
                    && final(self).unpack_error == Some(e),
            },
    {
        let n = self.downloads.len();
        match result {
            Ok(()) => {
                assert(self.unpacked < n);
                self.unpacked = self.unpacked + 1;
            },
            Err(e) => {
                self.unpack_error = Some(e);
            },
        }
        self.unpacking = false;
    }

    /// Whether every download has been reported.
    fn downloads_over(&self) -> (r: bool)
        ensures
            r == all_reported(self.downloads@),
    {
        let n = self.downloads.len();
        let mut i: usize = 0;
        while i < n
            invariant
                n == self.downloads@.len(),
                i <= n,
                forall|j: int| 0 <= j < i ==> !(self.downloads@[j] is Pending),
            decreases n - i,
        {
            if let Download::Pending = self.downloads[i] {
                return false;
            }
            i = i + 1;
        }
        true
    }

    /// The messages of the failed downloads, in manifest order.
    fn download_errors(&self) -> (r: Vec<String>)
        ensures
            texts(r@) == failures(self.downloads@),
    {
        let n = self.downloads.len();
        let mut errors: Vec<String> = Vec::new();
        let mut i: usize = 0;
        while i < n
            invariant
                n == self.downloads@.len(),
                i <= n,
                texts(errors@) == failures(self.downloads@.take(i as int)),
            decreases n - i,
        {
            let ghost before = errors@;
            assert(self.downloads@.take(i + 1).drop_last() =~= self.downloads@.take(i as int));
            if let Download::Failed(e) = &self.downloads[i] {
                errors.push(e.clone());
                assert(texts(errors@) =~= texts(before) + seq![e@]);
            } else {
                assert(texts(errors@) =~= texts(before) + seq![]);
            }
            i = i + 1;
        }
        assert(self.downloads@.take(n as int) =~= self.downloads@);
        errors
    }

    /// Decides what to do next. A layer is handed out for unpacking only once
    /// every layer below it has been unpacked, whatever order the downloads
    /// finished in; the run finishes once the worker has stopped and every
    /// download is over.
    pub fn next_step(&mut self) -> (r: Step)
        requires
            old(self).wf(),
        ensures
            final(self).wf(),
            final(self).digests == old(self).digests,
            final(self).downloads == old(self).downloads,
            final(self).unpacked == old(self).unpacked,
            final(self).unpack_error == old(self).unpack_error,
            match r {
                Step::Unpack { index, digest, path } => {
                    &&& !old(self).unpacking
                    &&& old(self).unpack_error is None
                    &&& index == old(self).unpacked
                    &&& index < old(self).downloads@.len()
                    &&& forall|j: int| 0 <= j < index ==> old(self).downloads@[j] is Ready
                    &&& old(self).downloads@[index as int] == Download::Ready(path)
                    &&& digest@ == old(self).digests@[index as int]@
                    &&& final(self).unpacking
                },
                Step::Wait => {
                    &&& final(self).unpacking == old(self).unpacking
                    &&& old(self).unpacking || waiting_on_download(*old(self))
                },
                Step::Finished(res) => {
                    &&& !old(self).unpacking
                    &&& !final(self).unpacking
                    &&& worker_stopped(*old(self))
                    &&& all_reported(old(self).downloads@)
                    &&& outcome_ok(*old(self), res)
                },
            },
    {
        if self.unpacking {
            return Step::Wait;
        }
        let n = self.downloads.len();
        if self.unpack_error.is_none() && self.unpacked < n {
            let i = self.unpacked;
            match &self.downloads[i] {
                Download::Ready(p) => {
                    let path = p.clone();
                    let digest = self.digests[i].clone();
                    self.unpacking = true;
                    return Step::Unpack { index: i, digest, path };
                },
                Download::Pending => {
                    return Step::Wait;
                },
                Download::Failed(_) => {},
            }
        }
        if !self.downloads_over() {
            return Step::Wait;
        }
        match &self.unpack_error {
            Some(e) => Step::Finished(Err(PipelineError::Unpack(e.clone()))),
            None => {
                let errors = self.download_errors();
                if errors.len() == 0 {
                    Step::Finished(Ok(()))
                } else {
                    Step::Finished(Err(PipelineError::Downloads(errors)))
                }
            },
        }
    }
}

} // verus!
