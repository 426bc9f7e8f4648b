//! Downloads: resolving what to fetch, recording how a download went, and
//! the worker that takes download requests from a bounded queue.

use vstd::prelude::*;
use crate::db::{entry_outcome, Database, PlaylistEntry};
use crate::error::Error;
use crate::ia::{
    file_url, first_video_file, joined_path, DownloadTarget, ExtendedMetadata, InternetArchive,
};
use crate::model::{EntryRow, Resolution, Store, VideoRef};
use crate::text::texts;

verus! {

/// Number of download batches that the queue holds before a producer has to
/// wait.
pub const QUEUE_CAPACITY: usize = 32;

/// A reference to a video: by its archive identifier, or by the id of its
/// catalog row.
#[derive(Debug, PartialEq, Eq)]
pub enum VideoId {
    IaIdentifier(String),
    DatabaseId(i64),
}

impl View for VideoId {
    type V = VideoRef;

    open spec fn view(&self) -> VideoRef {
        match self {
            VideoId::IaIdentifier(identifier) => VideoRef::Identifier(identifier@),
            VideoId::DatabaseId(id) => VideoRef::Row(*id as int),
        }
    }
}

/// What a reference to a video resolves to.
#[derive(Debug, PartialEq, Eq)]
pub struct ResolvedVideo {
    /// The archive identifier under which the video is downloaded.
    pub identifier: String,
    /// The id of the catalog row, where the catalog has the video.
    pub video_id: Option<i64>,
}

impl View for ResolvedVideo {
    type V = Resolution;

    open spec fn view(&self) -> Resolution {
        Resolution {
            identifier: self.identifier@,
            video_id: match self.video_id {
                Some(id) => Some(id as int),
                None => None,
            },
        }
    }
}

/// How the fetch of one video ended: the path of the file on disk, or why
/// there is none.
#[derive(Debug, PartialEq, Eq)]
pub struct DownloadOutcome {
    /// The archive identifier of the video.
    pub identifier: String,
    /// The path of the downloaded file, or the failure.
    pub result: Result<String, Error>,
}

/// A result that holds a text, as a mathematical value.
pub open spec fn text_outcome(res: Result<String, Error>) -> Result<Seq<char>, Error> {
    match res {
        Ok(text) => Ok(text@),
        Err(e) => Err(e),
    }
}

impl View for DownloadOutcome {
    type V = (Seq<char>, Result<Seq<char>, Error>);

    open spec fn view(&self) -> (Seq<char>, Result<Seq<char>, Error>) {
        (self.identifier@, text_outcome(self.result))
    }
}

/// References to videos as mathematical values, in order.
pub open spec fn video_refs(ids: Seq<VideoId>) -> Seq<VideoRef> {
    Seq::new(ids.len(), |i: int| ids[i]@)
}

/// Results that hold a text as mathematical values, in order.
pub open spec fn text_outcomes(results: Seq<Result<String, Error>>) -> Seq<
    Result<Seq<char>, Error>,
> {
    Seq::new(results.len(), |i: int| text_outcome(results[i]))
}

/// Download outcomes as mathematical values, in order.
pub open spec fn outcome_views(outcomes: Seq<DownloadOutcome>) -> Seq<
    (Seq<char>, Result<Seq<char>, Error>),
> {
    Seq::new(outcomes.len(), |i: int| outcomes[i]@)
}

/// The identifiers of the downloads that started, in order.
pub open spec fn started_identifiers(started: Seq<Result<Seq<char>, Error>>) -> Seq<Seq<char>>
    decreases started.len(),
{
    if started.len() == 0 {
        Seq::empty()
    } else {
        let front = started_identifiers(started.drop_last());
        match started.last() {
            Ok(identifier) => front.push(identifier),
            Err(_) => front,
        }
    }
}

/// The reasons why downloads could not start, in order.
pub open spec fn start_failures(started: Seq<Result<Seq<char>, Error>>) -> Seq<Error>
    decreases started.len(),
{
    if started.len() == 0 {
        Seq::empty()
    } else {
        let front = start_failures(started.drop_last());
        match started.last() {
            Ok(_) => front,
            Err(e) => front.push(e),
        }
    }
}

/// What went wrong with a missed write to the store: `StorageIO`, or nothing.
pub open spec fn write_failure(written: bool) -> Seq<Error> {
    if written {
        Seq::empty()
    } else {
        seq![Error::StorageIO]
    }
}

/// Everything that went wrong with a batch, in the order in which it went
/// wrong: downloads that could not start, the write of the started
/// downloads, fetches that failed or could not be recorded, and the write of
/// what was recorded.
pub open spec fn batch_failures(
    started: Seq<Result<Seq<char>, Error>>,
    written_after_start: bool,
    completed: Result<(), Vec<Error>>,
    written_at_end: bool,
) -> Seq<Error> {
    start_failures(started) + write_failure(written_after_start) + (match completed {
        Ok(()) => Seq::empty(),
        Err(errors) => errors@,
    }) + write_failure(written_at_end)
}

/// Keeps the playlist in step with the downloads: marks an entry Pending
/// when its download starts and Downloaded when the file is on disk.
///
/// Fetching is the caller's part. The orchestrator says what to fetch and
/// where to put it, and records how the fetch ended.
pub struct DownloadOrchestrator {
    database: Database,
    ia: InternetArchive,
    video_folder: String,
}

impl DownloadOrchestrator {
    /// The store that the orchestrator works on.
    pub closed spec fn store(&self) -> Store {
        self.database@
    }

    /// The directory that downloads go to.
    pub closed spec fn folder(&self) -> Seq<char> {
        self.video_folder@
    }

    /// An orchestrator over `database` that puts files into `video_folder`.
    pub fn new(database: Database, ia: InternetArchive, video_folder: String) -> (orchestrator:
        DownloadOrchestrator)
        ensures
            orchestrator.store() == database@,
            orchestrator.folder() == video_folder@,
    {
        DownloadOrchestrator { database, ia, video_folder }
    }

    /// The store that the orchestrator works on.
    pub fn database(&self) -> (database: &Database)
        ensures
            database@ == self.store(),
    {
        &self.database
    }

    /// Gives the store back.
    pub fn into_database(self) -> (database: Database)
        ensures
            database@ == self.store(),
    {
        self.database
    }

    /// The directory that downloads go to.
    pub fn video_folder(&self) -> (folder: &str)
        ensures
            folder@ == self.folder(),
    {
        self.video_folder.as_str()
    }

    /// The start of playback on the orchestrator's store.
    pub fn start_current_video(&mut self) -> (res: Result<Option<PlaylistEntry>, Error>)
        ensures
            final(self).folder() == old(self).folder(),
            final(self).store().wf(),
            match old(self).store().start() {
                Ok((s, playing)) => final(self).store() == s && entry_outcome(res) == Ok::<
                    Option<EntryRow>,
                    Error,
                >(playing),
                Err(e) => final(self).store() == old(self).store() && entry_outcome(res) == Err::<
                    Option<EntryRow>,
                    Error,
                >(e),
            },
    {
        self.database.start_current_video()
    }

    /// One step of playback on the orchestrator's store.
    pub fn move_to_next_video(&mut self) -> (res: Result<Option<PlaylistEntry>, Error>)
        ensures
            final(self).folder() == old(self).folder(),
            final(self).store().wf(),
            match old(self).store().advance() {
                Ok((s, started)) => final(self).store() == s && entry_outcome(res) == Ok::<
                    Option<EntryRow>,
                    Error,
                >(started),
                Err(e) => final(self).store() == old(self).store() && entry_outcome(res) == Err::<
                    Option<EntryRow>,
                    Error,
                >(e),
            },
    {
        self.database.move_to_next_video()
    }

    /// Resolves a reference to a video into the identifier under which it
    /// is downloaded and, where the catalog has the video, the id of its row.
    pub fn resolve_id(&self, id: &VideoId) -> (res: Result<ResolvedVideo, Error>)
        ensures
            match self.store().resolve(id@) {
                Ok(resolution) => res matches Ok(resolved) && resolved@ == resolution,
                Err(e) => res matches Err(err) && err == e,
            },
    {
        self.database.resolve(id)
    }

    /// Starts the download of one video: resolves the reference and marks
    /// the entry of the video Pending. The result is the identifier to fetch.
    ///
    /// Fails, changing nothing, with `NotFound` when the reference names no
    /// catalog row or the video has no playlist entry, and with
    /// `InvalidState` when the entry is past Pending already.
    pub fn download_single_video(&mut self, id: VideoId) -> (res: Result<String, Error>)
        ensures
            final(self).folder() == old(self).folder(),
            final(self).store() == old(self).store().begin_download(id@).0,
            text_outcome(res) == old(self).store().begin_download(id@).1,
    {
        let resolved = match self.database.resolve(&id) {
            Ok(resolved) => resolved,
            Err(e) => {
                return Err(e);
            },
        };
        match self.database.set_video_pending(resolved.identifier.as_str()) {
            Ok(()) => Ok(resolved.identifier),
            Err(e) => Err(e),
        }
    }

    /// Picks the file to fetch for a video whose download has started, and
    /// says where in the video directory it goes.
    pub fn select_file(&self, details: &ExtendedMetadata) -> (res: Result<DownloadTarget, Error>)
        ensures
            match first_video_file(details.files@) {
                Some(k) => res matches Ok(target) && target.url@ == file_url(
                    details.server@,
                    details.directory@,
                    details.files@[k].name@,
                ) && target.path@ == joined_path(self.folder(), details.files@[k].name@),
                None => res matches Err(e) && e == Error::NotFound,
            },
    {
        self.ia.download_video(details, self.video_folder.as_str())
    }

    /// Records how the fetch of one video ended. A file on disk marks the
    /// entry Downloaded with its path. A failure is handed back and leaves
    /// the entry Pending.
    pub fn complete_download(&mut self, outcome: DownloadOutcome) -> (res: Result<(), Error>)
        ensures
            final(self).folder() == old(self).folder(),
            final(self).store() == old(self).store().finish_download(outcome@.0, outcome@.1).0,
            res == old(self).store().finish_download(outcome@.0, outcome@.1).1,
    {
        let DownloadOutcome { identifier, result } = outcome;
        match result {
            Err(e) => Err(e),
            Ok(path) => self.database.set_video_downloaded(identifier.as_str(), path),
        }
    }

    /// Starts the downloads of several videos, one after the other. The
    /// result holds, for each reference in order, the identifier to fetch
    /// or the reason why its download could not start.
    pub fn download_videos(&mut self, ids: Vec<VideoId>) -> (started: Vec<Result<String, Error>>)
        ensures
            final(self).folder() == old(self).folder(),
            final(self).store() == old(self).store().begin_downloads(video_refs(ids@)).0,
            text_outcomes(started@) == old(self).store().begin_downloads(video_refs(ids@)).1,
    {
        let ghost before = self.store();
        let ghost refs = video_refs(ids@);
        assert(refs.len() == ids.len());
        let mut ids = ids;
        let mut started: Vec<Result<String, Error>> = Vec::new();
        let mut rest: Vec<VideoId> = Vec::new();
        // The references are taken from the back, so turn them round first.
        while ids.len() > 0
            invariant
                rest@.len() + ids@.len() == refs.len(),
                refs.len() <= usize::MAX,
                forall|i: int| 0 <= i < ids@.len() ==> (#[trigger] ids@[i])@ == refs[i],
                forall|i: int|
                    0 <= i < rest@.len() ==> (#[trigger] rest@[i])@ == refs[refs.len() - 1 - i],
            decreases ids.len(),
        {
            let id = ids.pop().unwrap();
            rest.push(id);
        }
        let mut done: usize = 0;
        proof {
            assert(refs.take(0) =~= Seq::<VideoRef>::empty());
            assert(text_outcomes(started@) =~= Seq::<Result<Seq<char>, Error>>::empty());
        }
        while rest.len() > 0
            invariant
                done + rest@.len() == refs.len(),
                refs.len() <= usize::MAX,
                forall|i: int|
                    0 <= i < rest@.len() ==> (#[trigger] rest@[i])@ == refs[refs.len() - 1 - i],
                self.folder() == old(self).folder(),
                before == old(self).store(),
                self.store() == before.begin_downloads(refs.take(done as int)).0,
                text_outcomes(started@) == before.begin_downloads(refs.take(done as int)).1,
            decreases rest.len(),
        {
            let ghost so_far = text_outcomes(started@);
            let id = rest.pop().unwrap();
            proof {
                assert(id@ == refs[done as int]);
                assert(refs.take(done as int + 1).drop_last() =~= refs.take(done as int));
                assert(refs.take(done as int + 1).last() == refs[done as int]);
            }
            let res = self.download_single_video(id);
            started.push(res);
            proof {
                assert(text_outcomes(started@) =~= so_far.push(text_outcome(res)));
            }
            done += 1;
        }
        proof {
            assert(refs.take(done as int) =~= refs);
        }
        started
    }

    /// The identifiers to fetch for a batch whose downloads were started:
    /// the identifiers of the downloads that did start, in order.
    pub fn to_fetch(started: &Vec<Result<String, Error>>) -> (identifiers: Vec<String>)
        ensures
            texts(identifiers@) == started_identifiers(text_outcomes(started@)),
    {
        let ghost all = text_outcomes(started@);
        let mut identifiers: Vec<String> = Vec::new();
        let mut i: usize = 0;
        proof {
            assert(all.take(0) =~= Seq::<Result<Seq<char>, Error>>::empty());
            assert(texts(identifiers@) =~= Seq::<Seq<char>>::empty());
        }
        while i < started.len()
            invariant
                i <= started.len(),
                all == text_outcomes(started@),
                texts(identifiers@) == started_identifiers(all.take(i as int)),
            decreases started.len() - i,
        {
            let ghost before = texts(identifiers@);
            proof {
                assert(all.take(i as int + 1).drop_last() =~= all.take(i as int));
                assert(all.take(i as int + 1).last() == text_outcome(started@[i as int]));
            }
            match &started[i] {
                Ok(identifier) => {
                    identifiers.push(identifier.clone());
                    assert(texts(identifiers@) =~= before.push(identifier@));
                },
                Err(_) => {},
            }
            i += 1;
        }
        proof {
            assert(all.take(i as int) =~= all);
        }
        identifiers
    }

    /// The result of a batch as a whole.
    ///
    /// The batch fails if anything went wrong with any of its videos: a
    /// download that could not start, a fetch that failed or could not be
    /// recorded, or a write to the store that was missed. Every failure is
    /// handed back, in the order in which it happened. What succeeded stays
    /// recorded all the same.
    pub fn batch_result(
        started: &Vec<Result<String, Error>>,
        written_after_start: bool,
        completed: Result<(), Vec<Error>>,
        written_at_end: bool,
    ) -> (res: Result<(), Vec<Error>>)
        ensures
            match res {
                Ok(()) => batch_failures(
                    text_outcomes(started@),
                    written_after_start,
                    completed,
                    written_at_end,
                ).len() == 0,
                Err(failures) => failures@.len() > 0 && failures@ == batch_failures(
                    text_outcomes(started@),
                    written_after_start,
                    completed,
                    written_at_end,
                ),
            },
    {
        let ghost all = text_outcomes(started@);
        let mut failures: Vec<Error> = Vec::new();
        let mut i: usize = 0;
        proof {
            assert(all.take(0) =~= Seq::<Result<Seq<char>, Error>>::empty());
        }
        while i < started.len()
            invariant
                i <= started.len(),
                all == text_outcomes(started@),
                failures@ == start_failures(all.take(i as int)),
            decreases started.len() - i,
        {
            proof {
                assert(all.take(i as int + 1).drop_last() =~= all.take(i as int));
                assert(all.take(i as int + 1).last() == text_outcome(started@[i as int]));
            }
            match &started[i] {
                Ok(_) => {},
                Err(e) => {
                    failures.push(*e);
                },
            }
            i += 1;
        }
        proof {
            assert(all.take(i as int) =~= all);
        }
        if !written_after_start {
            failures.push(Error::StorageIO);
        }
        let ghost so_far = failures@;
        assert(so_far =~= start_failures(all) + write_failure(written_after_start));
        match completed {
            Ok(()) => {},
            Err(errors) => {
                let mut errors = errors;
                failures.append(&mut errors);
            },
        }
        if !written_at_end {
            failures.push(Error::StorageIO);
        }
        assert(failures@ =~= batch_failures(all, written_after_start, completed, written_at_end));
        if failures.len() == 0 {
            Ok(())
        } else {
            Err(failures)
        }
    }

    /// Records how the fetches of several videos ended, one after the
    /// other.
    ///
    /// The whole fails if any fetch failed, and hands back every failure in
    /// order. The downloads that succeeded are recorded all the same:
    /// downloads do not depend on each other.
    pub fn complete_downloads(&mut self, outcomes: Vec<DownloadOutcome>) -> (res: Result<
        (),
        Vec<Error>,
    >)
        ensures
            final(self).folder() == old(self).folder(),
            final(self).store() == old(self).store().finish_downloads(outcome_views(outcomes@)).0,
            match res {
                Ok(()) => old(self).store().finish_downloads(outcome_views(outcomes@)).1.len() == 0,
                Err(errors) => errors@.len() > 0 && errors@ == old(self).store().finish_downloads(
                    outcome_views(outcomes@),
                ).1,
            },
    {
        let ghost before = self.store();
        let ghost all = outcome_views(outcomes@);
        assert(all.len() == outcomes.len());
        let mut outcomes = outcomes;
        let mut rest: Vec<DownloadOutcome> = Vec::new();
        while outcomes.len() > 0
            invariant
                rest@.len() + outcomes@.len() == all.len(),
                all.len() <= usize::MAX,
                forall|i: int| 0 <= i < outcomes@.len() ==> (#[trigger] outcomes@[i])@ == all[i],
                forall|i: int|
                    0 <= i < rest@.len() ==> (#[trigger] rest@[i])@ == all[all.len() - 1 - i],
            decreases outcomes.len(),
        {
            let outcome = outcomes.pop().unwrap();
            rest.push(outcome);
        }
        let mut errors: Vec<Error> = Vec::new();
        let mut done: usize = 0;
        proof {
            assert(all.take(0) =~= Seq::<(Seq<char>, Result<Seq<char>, Error>)>::empty());
        }
        while rest.len() > 0
            invariant
                done + rest@.len() == all.len(),
                all.len() <= usize::MAX,
                forall|i: int|
                    0 <= i < rest@.len() ==> (#[trigger] rest@[i])@ == all[all.len() - 1 - i],
                self.folder() == old(self).folder(),
                before == old(self).store(),
                self.store() == before.finish_downloads(all.take(done as int)).0,
                errors@ == before.finish_downloads(all.take(done as int)).1,
            decreases rest.len(),
        {
            let outcome = rest.pop().unwrap();
            proof {
                assert(outcome@ == all[done as int]);
                assert(all.take(done as int + 1).drop_last() =~= all.take(done as int));
                assert(all.take(done as int + 1).last() == all[done as int]);
            }
            match self.complete_download(outcome) {
                Ok(()) => {},
                Err(e) => {
                    errors.push(e);
                },
            }
            done += 1;
        }
        proof {
            assert(all.take(done as int) =~= all);
        }
        if errors.len() == 0 {
            Ok(())
        } else {
            Err(errors)
        }
    }
}

#[verifier::external_type_specification]
#[verifier::external_body]
#[verifier::reject_recursive_types(T)]
pub struct ExSender<T>(tokio::sync::mpsc::Sender<T>);

#[verifier::external_type_specification]
#[verifier::external_body]
#[verifier::reject_recursive_types(T)]
pub struct ExReceiver<T>(tokio::sync::mpsc::Receiver<T>);

/// The number of batches that the queue behind `sender` holds at most: the
/// bound that the queue was made with.
pub uninterp spec fn channel_limit(sender: tokio::sync::mpsc::Sender<Vec<VideoId>>) -> nat;

/// The queue that `sender` feeds. Two halves with the same queue are the
/// two ends of one channel: what is sent through the one is what the other
/// receives.
pub uninterp spec fn sender_queue(sender: tokio::sync::mpsc::Sender<Vec<VideoId>>) -> int;

/// The queue that `receiver` drains.
pub uninterp spec fn receiver_queue(receiver: tokio::sync::mpsc::Receiver<Vec<VideoId>>) -> int;

/// `tokio::sync::mpsc::channel`: a bounded queue with room for `capacity`
/// batches. The contract says that the sending half reports `capacity` as
/// its largest capacity, and that the two halves are the ends of one queue.
/// The bounds on `capacity` are the ones outside which the call panics.
#[verifier::external_body]
fn bounded_channel(capacity: usize) -> (ends: (
    tokio::sync::mpsc::Sender<Vec<VideoId>>,
    tokio::sync::mpsc::Receiver<Vec<VideoId>>,
))
    requires
        0 < capacity <= 0x1fff_ffff,
    ensures
        channel_limit(ends.0) == capacity,
        sender_queue(ends.0) == receiver_queue(ends.1),
{
    tokio::sync::mpsc::channel(capacity)
}

/// What became of a batch that was offered to the queue.
#[derive(Debug, PartialEq, Eq)]
pub enum Submission {
    /// The queue has taken the batch.
    Queued,
    /// The queue is full: the batch comes back, to be offered again later.
    Full(Vec<VideoId>),
    /// The queue is closed: the batch comes back.
    Closed(Vec<VideoId>),
}

/// `tokio::sync::mpsc::Sender::try_send`: offers `batch` to the queue
/// without waiting. Whether the queue takes the batch depends on what else
/// is queued, so the contract only says what holds either way: a batch that
/// is not taken comes back as it was.
#[verifier::external_body]
fn try_send(sender: &tokio::sync::mpsc::Sender<Vec<VideoId>>, batch: Vec<VideoId>) -> (outcome:
    Submission)
    ensures
        outcome matches Submission::Full(back) ==> back == batch,
        outcome matches Submission::Closed(back) ==> back == batch,
{
    match sender.try_send(batch) {
        Ok(()) => Submission::Queued,
        Err(tokio::sync::mpsc::error::TrySendError::Full(back)) => Submission::Full(back),
        Err(tokio::sync::mpsc::error::TrySendError::Closed(back)) => Submission::Closed(back),
    }
}

/// What is left of a list of batches after it was offered to the queue.
#[derive(Debug, PartialEq, Eq)]
pub struct Backlog {
    /// The batches that the queue did not take, in their order.
    pub left: Vec<Vec<VideoId>>,
    /// Whether the queue turned out to be closed.
    pub closed: bool,
}

/// What the worker does next.
#[derive(Debug, PartialEq, Eq)]
pub enum WorkerStep {
    /// Download this batch, then wait for the next message.
    Download(Vec<VideoId>),
    /// The queue is closed: stop.
    Stop,
}

/// The worker behind the download queue: it takes one batch at a time,
/// has it downloaded, and goes on whatever the outcome. Only the closing of
/// the queue stops it.
pub struct BackgroundDownloader {
    downloader: DownloadOrchestrator,
    rx: tokio::sync::mpsc::Receiver<Vec<VideoId>>,
    video_folder: String,
    stopped: bool,
}

impl BackgroundDownloader {
    /// Whether the worker has seen the queue close.
    pub closed spec fn has_stopped(&self) -> bool {
        self.stopped
    }

    /// The worker's orchestrator, with its store and its download folder.
    pub closed spec fn orchestrator(&self) -> DownloadOrchestrator {
        self.downloader
    }

    /// The store that the worker's orchestrator works on.
    pub open spec fn store(&self) -> Store {
        self.orchestrator().store()
    }

    /// The directory that the worker was given for its downloads.
    pub closed spec fn folder(&self) -> Seq<char> {
        self.video_folder@
    }

    /// The receiving half of the worker's queue.
    pub closed spec fn queue(&self) -> tokio::sync::mpsc::Receiver<Vec<VideoId>> {
        self.rx
    }

    /// A worker and the sending half of its queue. The queue holds at most
    /// `QUEUE_CAPACITY` batches, and the worker keeps its receiving half:
    /// what is sent through the sender is what the worker receives. The
    /// worker works with the orchestrator and the folder that it was given.
    pub fn new(downloader: DownloadOrchestrator, video_folder: String) -> (made: (
        BackgroundDownloader,
        tokio::sync::mpsc::Sender<Vec<VideoId>>,
    ))
        ensures
            !made.0.has_stopped(),
            made.0.orchestrator() == downloader,
            made.0.folder() == video_folder@,
            channel_limit(made.1) == QUEUE_CAPACITY,
            receiver_queue(made.0.queue()) == sender_queue(made.1),
    {
        let (tx, rx) = bounded_channel(QUEUE_CAPACITY);
        (BackgroundDownloader { downloader, rx, video_folder, stopped: false }, tx)
    }

    /// Offers one batch to the queue without waiting. A batch that the
    /// queue does not take is handed back as it was, never dropped.
    pub fn submit(sender: &tokio::sync::mpsc::Sender<Vec<VideoId>>, batch: Vec<VideoId>) -> (outcome:
        Submission)
        ensures
            outcome matches Submission::Full(back) ==> back == batch,
            outcome matches Submission::Closed(back) ==> back == batch,
    {
        try_send(sender, batch)
    }

    /// What the queue's answer to an offer means for the batches that wait
    /// behind the one offered.
    ///
    /// A batch that the queue took leaves the list as it is, and the next
    /// batch can be offered: the result is `None`. A batch that came back
    /// goes to the front of the list again, and no further batch is offered:
    /// the result says whether the queue is closed.
    pub fn after_offer(left: &mut Vec<Vec<VideoId>>, outcome: Submission) -> (stop: Option<bool>)
        ensures
            match outcome {
                Submission::Queued => final(left)@ == old(left)@ && stop is None,
                Submission::Full(back) => final(left)@ == old(left)@.insert(0, back) && stop
                    == Some(false),
                Submission::Closed(back) => final(left)@ == old(left)@.insert(0, back) && stop
                    == Some(true),
            },
    {
        match outcome {
            Submission::Queued => None,
            Submission::Full(back) => {
                left.insert(0, back);
                Some(false)
            },
            Submission::Closed(back) => {
                left.insert(0, back);
                Some(true)
            },
        }
    }

    /// Offers batches to the queue in order, without waiting, until one is
    /// not taken.
    ///
    /// Whatever the queue does, no batch is lost and none overtakes
    /// another: the batches that are handed back are the end of the list as
    /// it was given, and the queue has taken the ones before them.
    pub fn submit_all(
        sender: &tokio::sync::mpsc::Sender<Vec<VideoId>>,
        batches: Vec<Vec<VideoId>>,
    ) -> (backlog: Backlog)
        ensures
            backlog.left@.len() <= batches@.len(),
            backlog.left@ == batches@.subrange(
                batches@.len() - backlog.left@.len(),
                batches@.len() as int,
            ),
            backlog.closed ==> backlog.left@.len() > 0,
    {
        let ghost all = batches@;
        let mut left = batches;
        assert(left@ =~= all.subrange(0, all.len() as int));
        while left.len() > 0
            invariant
                all == batches@,
                left@.len() <= all.len(),
                left@ == all.subrange(all.len() - left@.len(), all.len() as int),
            decreases left.len(),
        {
            let ghost before = left@;
            let batch = left.remove(0);
            let outcome = try_send(sender, batch);
            match Self::after_offer(&mut left, outcome) {
                None => {
                    assert(left@ =~= all.subrange(all.len() - left@.len(), all.len() as int));
                },
                Some(closed) => {
                    assert(left@ =~= before);
                    return Backlog { left, closed };
                },
            }
        }
        Backlog { left, closed: false }
    }

    /// Whether the worker has seen the queue close.
    pub fn is_stopped(&self) -> (stopped: bool)
        ensures
            stopped == self.has_stopped(),
    {
        self.stopped
    }

    /// Decides what to do with what the queue handed over: a batch is
    /// downloaded, and the end of the queue stops the worker.
    pub fn on_message(&mut self, message: Option<Vec<VideoId>>) -> (step: WorkerStep)
        ensures
            final(self).orchestrator() == old(self).orchestrator(),
            final(self).folder() == old(self).folder(),
            final(self).queue() == old(self).queue(),
            match message {
                Some(ids) => step == WorkerStep::Download(ids) && final(self).has_stopped() == old(
                    self,
                ).has_stopped(),
                None => step is Stop && final(self).has_stopped(),
            },
    {
        match message {
            Some(ids) => WorkerStep::Download(ids),
            None => {
                self.stopped = true;
                WorkerStep::Stop
            },
        }
    }

    /// Takes the outcome of a batch and hands back the failures that are to
    /// be logged. A failed batch never stops the worker.
    pub fn on_finished(&mut self, outcome: Result<(), Vec<Error>>) -> (failures: Vec<Error>)
        ensures
            final(self).has_stopped() == old(self).has_stopped(),
            final(self).orchestrator() == old(self).orchestrator(),
            final(self).folder() == old(self).folder(),
            final(self).queue() == old(self).queue(),
            match outcome {
                Ok(()) => failures@.len() == 0,
                Err(errors) => failures == errors,
            },
    {
        match outcome {
            Ok(()) => Vec::new(),
            Err(errors) => errors,
        }
    }

    /// The receiving half of the queue, to wait on. The reference is to the
    /// worker's own half: what is received through it is gone from the
    /// worker's queue, and nothing else of the worker changes.
    pub fn receiver(&mut self) -> (rx: &mut tokio::sync::mpsc::Receiver<Vec<VideoId>>)
        ensures
            *rx == old(self).queue(),
            final(self).queue() == *final(rx),
            final(self).has_stopped() == old(self).has_stopped(),
            final(self).orchestrator() == old(self).orchestrator(),
            final(self).folder() == old(self).folder(),
    {
        &mut self.rx
    }

    /// The orchestrator, to start and complete the downloads of a batch.
    /// The reference is to the worker's own orchestrator, with its store and
    /// its download folder; the worker keeps its queue.
    pub fn downloader(&mut self) -> (downloader: &mut DownloadOrchestrator)
        ensures
            *downloader == old(self).orchestrator(),
            final(self).orchestrator() == *final(downloader),
            final(self).has_stopped() == old(self).has_stopped(),
            final(self).folder() == old(self).folder(),
            final(self).queue() == old(self).queue(),
    {
        &mut self.downloader
    }

    /// The directory that downloads go to.
    pub fn video_folder(&self) -> (folder: &str)
        ensures
            folder@ == self.folder(),
    {
        self.video_folder.as_str()
    }
}

} // verus!
