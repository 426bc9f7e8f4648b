use gb_forever::db::Database;
use gb_forever::downloader::{
    Backlog, BackgroundDownloader, DownloadOrchestrator, DownloadOutcome, ResolvedVideo,
    Submission, VideoId, WorkerStep, QUEUE_CAPACITY,
};
use gb_forever::error::Error;
use gb_forever::ia::{DownloadTarget, ExtendedMetadata, File, InternetArchive, MetadataItem};
use std::time::Duration;

fn item(identifier: &str) -> MetadataItem {
    MetadataItem {
        collections: None,
        creator: None,
        date: None,
        description: None,
        external_identifier: None,
        identifier: identifier.to_string(),
        item_size: None,
        title: identifier.to_string(),
    }
}

fn orchestrator(identifiers: &[&str], order: &[i64]) -> DownloadOrchestrator {
    let mut db = Database::new();
    let items: Vec<MetadataItem> = identifiers.iter().map(|i| item(i)).collect();
    db.insert_items(&items).unwrap();
    db.create_random_playlist(order).unwrap();
    DownloadOrchestrator::new(db, InternetArchive::default(), "videos".to_string())
}

fn statuses(o: &DownloadOrchestrator) -> Vec<String> {
    o.database().entries().iter().map(|e| e.status.clone()).collect()
}

fn done(identifier: &str) -> DownloadOutcome {
    DownloadOutcome {
        identifier: identifier.to_string(),
        result: Ok(format!("videos/{}.mp4", identifier)),
    }
}

fn failed(identifier: &str, e: Error) -> DownloadOutcome {
    DownloadOutcome { identifier: identifier.to_string(), result: Err(e) }
}

fn batch(n: i64) -> Vec<VideoId> {
    vec![VideoId::DatabaseId(n), VideoId::IaIdentifier(format!("item-{}", n))]
}

#[test]
fn resolve_id_gives_identifier_and_row() {
    let o = orchestrator(&["a", "b"], &[1, 2]);
    assert_eq!(
        o.resolve_id(&VideoId::DatabaseId(2)),
        Ok(ResolvedVideo { identifier: "b".to_string(), video_id: Some(2) })
    );
    assert_eq!(o.resolve_id(&VideoId::DatabaseId(5)), Err(Error::NotFound));
    assert_eq!(
        o.resolve_id(&VideoId::IaIdentifier("new".to_string())),
        Ok(ResolvedVideo { identifier: "new".to_string(), video_id: None })
    );
}

#[test]
fn single_download_marks_pending_then_downloaded() {
    let mut o = orchestrator(&["a", "b"], &[2, 1]);
    assert_eq!(o.video_folder(), "videos");
    assert_eq!(o.download_single_video(VideoId::DatabaseId(2)), Ok("b".to_string()));
    assert_eq!(statuses(&o), ["pending", "unplayed"]);
    assert_eq!(o.complete_download(done("b")), Ok(()));
    assert_eq!(statuses(&o), ["downloaded", "unplayed"]);
    assert_eq!(o.database().entries()[0].file_path.as_deref(), Some("videos/b.mp4"));
    assert_eq!(o.download_single_video(VideoId::IaIdentifier("a".to_string())), Ok("a".to_string()));
    assert_eq!(statuses(&o), ["downloaded", "pending"]);
}

#[test]
fn failed_download_leaves_the_entry_pending() {
    let mut o = orchestrator(&["a"], &[1]);
    o.download_single_video(VideoId::DatabaseId(1)).unwrap();
    assert_eq!(o.complete_download(failed("a", Error::UpstreamIO)), Err(Error::UpstreamIO));
    assert_eq!(statuses(&o), ["pending"]);
    assert_eq!(o.database().entries()[0].file_path, None);
    // queued again, the download starts from Pending and can complete
    assert_eq!(o.download_single_video(VideoId::DatabaseId(1)), Ok("a".to_string()));
    assert_eq!(o.complete_download(done("a")), Ok(()));
    assert_eq!(statuses(&o), ["downloaded"]);
}

#[test]
fn single_download_fails_without_row_or_entry() {
    let mut o = orchestrator(&["a"], &[1]);
    assert_eq!(o.download_single_video(VideoId::DatabaseId(9)), Err(Error::NotFound));
    assert_eq!(
        o.download_single_video(VideoId::IaIdentifier("unknown".to_string())),
        Err(Error::NotFound)
    );
    assert_eq!(statuses(&o), ["unplayed"]);
    o.download_single_video(VideoId::DatabaseId(1)).unwrap();
    o.complete_download(done("a")).unwrap();
    assert_eq!(o.download_single_video(VideoId::DatabaseId(1)), Err(Error::InvalidState));
    assert_eq!(o.complete_download(done("a")), Err(Error::InvalidState));
    assert_eq!(o.complete_download(done("unknown")), Err(Error::NotFound));
    assert_eq!(statuses(&o), ["downloaded"]);
}

#[test]
fn fan_out_starts_every_download_in_order() {
    let mut o = orchestrator(&["a", "b", "c"], &[1, 2, 3]);
    let started = o.download_videos(vec![
        VideoId::DatabaseId(3),
        VideoId::DatabaseId(7),
        VideoId::IaIdentifier("a".to_string()),
        VideoId::DatabaseId(3),
    ]);
    assert_eq!(
        started,
        vec![Ok("c".to_string()), Err(Error::NotFound), Ok("a".to_string()), Ok("c".to_string())]
    );
    assert_eq!(statuses(&o), ["pending", "unplayed", "pending"]);
    assert!(o.download_videos(Vec::new()).is_empty());
}

#[test]
fn fan_out_fails_as_a_whole_but_keeps_what_succeeded() {
    let mut o = orchestrator(&["a", "b", "c", "d"], &[1, 2, 3, 4]);
    o.download_videos((1..=4).map(VideoId::DatabaseId).collect());
    let res = o.complete_downloads(vec![
        done("a"),
        failed("b", Error::UpstreamIO),
        done("c"),
        failed("d", Error::FilesystemIO),
    ]);
    assert_eq!(res, Err(vec![Error::UpstreamIO, Error::FilesystemIO]));
    assert_eq!(statuses(&o), ["downloaded", "pending", "downloaded", "pending"]);
    assert_eq!(o.complete_downloads(vec![done("b"), done("d")]), Ok(()));
    assert_eq!(statuses(&o), ["downloaded", "downloaded", "downloaded", "downloaded"]);
    assert_eq!(o.complete_downloads(Vec::new()), Ok(()));
    // recording a download twice is an illegal transition
    assert_eq!(o.complete_downloads(vec![done("a")]), Err(vec![Error::InvalidState]));
}

#[test]
fn select_file_puts_the_file_into_the_video_folder() {
    let o = orchestrator(&["a"], &[1]);
    let details = ExtendedMetadata {
        created: 0,
        files: vec![File {
            crc32: None,
            format: "MPEG4".to_string(),
            height: None,
            length: None,
            md5: String::new(),
            mtime: None,
            name: "a.mp4".to_string(),
            sha1: None,
            size: None,
            source: "derivative".to_string(),
            width: None,
            original: None,
            btih: None,
            summation: None,
        }],
        files_count: 1,
        item_last_updated: 0,
        item_size: 0,
        server: "ia600000.us.archive.org".to_string(),
        uniq: 0,
        directory: "/1/items/a".to_string(),
    };
    assert_eq!(
        o.select_file(&details),
        Ok(DownloadTarget {
            url: "https://ia600000.us.archive.org/1/items/a/a.mp4".to_string(),
            path: "videos/a.mp4".to_string(),
        })
    );
}

#[test]
fn playback_through_the_orchestrator() {
    let mut o = orchestrator(&["a", "b"], &[1, 2]);
    assert_eq!(o.start_current_video(), Ok(None));
    assert_eq!(o.move_to_next_video(), Ok(None));
    o.download_videos(vec![VideoId::DatabaseId(1), VideoId::DatabaseId(2)]);
    o.complete_downloads(vec![done("a"), done("b")]).unwrap();
    assert_eq!(o.move_to_next_video(), Ok(None));
    assert_eq!(statuses(&o), ["downloaded", "downloaded"]);
    assert_eq!(o.start_current_video().unwrap().unwrap().id, 1);
    assert_eq!(statuses(&o), ["active", "downloaded"]);
    assert_eq!(o.move_to_next_video().unwrap().unwrap().id, 2);
    assert_eq!(statuses(&o), ["finished", "active"]);
    let db = o.into_database();
    assert_eq!(db.active_entry(), Some(2));
    assert_eq!(db.current_video().unwrap().unwrap().status, "active");
}

#[test]
fn worker_downloads_batches_and_stops_only_when_the_queue_closes() {
    let (mut worker, _tx) =
        BackgroundDownloader::new(orchestrator(&["a"], &[1]), "videos".to_string());
    assert!(!worker.is_stopped());
    assert_eq!(worker.video_folder(), "videos");
    assert_eq!(worker.on_message(Some(batch(1))), WorkerStep::Download(batch(1)));
    assert!(!worker.is_stopped());
    // a failed batch is logged and the worker goes on
    let failures = worker.on_finished(Err(vec![Error::UpstreamIO, Error::NotFound]));
    assert_eq!(failures, [Error::UpstreamIO, Error::NotFound]);
    assert!(!worker.is_stopped());
    assert!(worker.on_finished(Ok(())).is_empty());
    assert_eq!(worker.on_message(Some(Vec::new())), WorkerStep::Download(Vec::new()));
    assert!(!worker.is_stopped());
    assert_eq!(worker.on_message(None), WorkerStep::Stop);
    assert!(worker.is_stopped());
}

#[test]
fn worker_runs_a_batch_through_its_orchestrator() {
    let (mut worker, _tx) =
        BackgroundDownloader::new(orchestrator(&["a", "b"], &[1, 2]), "videos".to_string());
    let ids = match worker.on_message(Some(vec![VideoId::DatabaseId(1), VideoId::DatabaseId(2)])) {
        WorkerStep::Download(ids) => ids,
        WorkerStep::Stop => panic!("the queue is open"),
    };
    let started = worker.downloader().download_videos(ids);
    assert_eq!(started, vec![Ok("a".to_string()), Ok("b".to_string())]);
    let res = worker.downloader().complete_downloads(vec![done("a"), failed("b", Error::NotFound)]);
    assert_eq!(worker.on_finished(res), [Error::NotFound]);
    assert_eq!(statuses(worker.downloader()), ["downloaded", "pending"]);
}

#[test]
fn queue_holds_thirty_two_batches() {
    assert_eq!(QUEUE_CAPACITY, 32);
    let (_worker, tx) = BackgroundDownloader::new(orchestrator(&["a"], &[1]), "videos".to_string());
    assert_eq!(tx.max_capacity(), 32);
    assert_eq!(tx.capacity(), 32);
}

#[test]
fn full_queue_blocks_the_producer_and_drops_nothing() {
    let (mut worker, tx) =
        BackgroundDownloader::new(orchestrator(&["a"], &[1]), "videos".to_string());
    let runtime = tokio::runtime::Builder::new_current_thread().enable_time().build().unwrap();
    runtime.block_on(async {
        for n in 0..32 {
            tx.send(batch(n)).await.unwrap();
        }
        // the queue is full: a further batch is not taken, and is handed back whole
        match tx.try_send(batch(32)) {
            Err(tokio::sync::mpsc::error::TrySendError::Full(back)) => assert_eq!(back, batch(32)),
            other => panic!("the queue took a batch beyond its capacity: {:?}", other),
        }
        // and a producer that waits stays blocked
        let blocked = tokio::time::timeout(Duration::from_millis(50), tx.send(batch(32))).await;
        assert!(blocked.is_err());
        // until the worker drains one slot
        let first = worker.receiver().recv().await;
        assert_eq!(worker.on_message(first), WorkerStep::Download(batch(0)));
        tokio::time::timeout(Duration::from_millis(50), tx.send(batch(32)))
            .await
            .expect("a slot is free")
            .unwrap();
        // every batch comes out, once and in order
        for n in 1..=32 {
            let next = worker.receiver().recv().await;
            assert_eq!(worker.on_message(next), WorkerStep::Download(batch(n)));
        }
        assert!(!worker.is_stopped());
        // closing the queue stops the worker
        drop(tx);
        let end = worker.receiver().recv().await;
        assert_eq!(worker.on_message(end), WorkerStep::Stop);
        assert!(worker.is_stopped());
    });
}

#[test]
fn submit_hands_back_what_the_queue_does_not_take() {
    let (mut worker, tx) =
        BackgroundDownloader::new(orchestrator(&["a"], &[1]), "videos".to_string());
    for n in 0..32 {
        assert_eq!(BackgroundDownloader::submit(&tx, batch(n)), Submission::Queued);
    }
    assert_eq!(BackgroundDownloader::submit(&tx, batch(32)), Submission::Full(batch(32)));
    assert_eq!(BackgroundDownloader::submit(&tx, Vec::new()), Submission::Full(Vec::new()));
    // one slot is drained: one more batch is taken
    let first = worker.receiver().try_recv().unwrap();
    assert_eq!(first, batch(0));
    assert_eq!(BackgroundDownloader::submit(&tx, batch(32)), Submission::Queued);
    assert_eq!(BackgroundDownloader::submit(&tx, batch(33)), Submission::Full(batch(33)));
    for n in 1..=32 {
        assert_eq!(worker.receiver().try_recv().unwrap(), batch(n));
    }
    assert!(worker.receiver().try_recv().is_err());
    // a closed queue takes nothing
    drop(worker);
    assert_eq!(BackgroundDownloader::submit(&tx, batch(34)), Submission::Closed(batch(34)));
}

#[test]
fn submit_all_keeps_every_batch_and_their_order() {
    let (mut worker, tx) =
        BackgroundDownloader::new(orchestrator(&["a"], &[1]), "videos".to_string());
    let backlog = BackgroundDownloader::submit_all(&tx, (0..40).map(batch).collect());
    assert_eq!(backlog, Backlog { left: (32..40).map(batch).collect(), closed: false });
    for n in 0..5 {
        assert_eq!(worker.receiver().try_recv().unwrap(), batch(n));
    }
    let backlog = BackgroundDownloader::submit_all(&tx, backlog.left);
    assert_eq!(backlog, Backlog { left: (37..40).map(batch).collect(), closed: false });
    for n in 5..37 {
        assert_eq!(worker.receiver().try_recv().unwrap(), batch(n));
    }
    let backlog = BackgroundDownloader::submit_all(&tx, backlog.left);
    assert_eq!(backlog, Backlog { left: Vec::new(), closed: false });
    assert_eq!(
        BackgroundDownloader::submit_all(&tx, Vec::new()),
        Backlog { left: Vec::new(), closed: false }
    );
    drop(worker);
    let backlog = BackgroundDownloader::submit_all(&tx, vec![batch(50), batch(51)]);
    assert_eq!(backlog, Backlog { left: vec![batch(50), batch(51)], closed: true });
}

#[test]
fn a_batch_that_comes_back_goes_to_the_front_again() {
    let mut left = vec![batch(2), batch(3)];
    assert_eq!(BackgroundDownloader::after_offer(&mut left, Submission::Queued), None);
    assert_eq!(left, vec![batch(2), batch(3)]);
    assert_eq!(
        BackgroundDownloader::after_offer(&mut left, Submission::Full(batch(1))),
        Some(false)
    );
    assert_eq!(left, vec![batch(1), batch(2), batch(3)]);
    assert_eq!(
        BackgroundDownloader::after_offer(&mut left, Submission::Closed(batch(0))),
        Some(true)
    );
    assert_eq!(left, vec![batch(0), batch(1), batch(2), batch(3)]);
    let mut none: Vec<Vec<VideoId>> = Vec::new();
    assert_eq!(
        BackgroundDownloader::after_offer(&mut none, Submission::Full(Vec::new())),
        Some(false)
    );
    assert_eq!(none, vec![Vec::new()]);
}

#[test]
fn batch_result_collects_every_failure_in_order() {
    let started = vec![
        Ok("a".to_string()),
        Err(Error::NotFound),
        Ok("b".to_string()),
        Err(Error::InvalidState),
    ];
    assert_eq!(DownloadOrchestrator::to_fetch(&started), ["a", "b"]);
    assert_eq!(DownloadOrchestrator::to_fetch(&Vec::new()), Vec::<String>::new());
    assert_eq!(
        DownloadOrchestrator::batch_result(
            &started,
            true,
            Err(vec![Error::UpstreamIO, Error::FilesystemIO]),
            true
        ),
        Err(vec![Error::NotFound, Error::InvalidState, Error::UpstreamIO, Error::FilesystemIO])
    );
    assert_eq!(
        DownloadOrchestrator::batch_result(&started, false, Err(vec![Error::UpstreamIO]), false),
        Err(vec![
            Error::NotFound,
            Error::InvalidState,
            Error::StorageIO,
            Error::UpstreamIO,
            Error::StorageIO,
        ])
    );
    let clean = vec![Ok("a".to_string()), Ok("b".to_string())];
    assert_eq!(DownloadOrchestrator::batch_result(&clean, true, Ok(()), true), Ok(()));
    assert_eq!(DownloadOrchestrator::batch_result(&Vec::new(), true, Ok(()), true), Ok(()));
    assert_eq!(
        DownloadOrchestrator::batch_result(&clean, true, Ok(()), false),
        Err(vec![Error::StorageIO])
    );
    assert_eq!(
        DownloadOrchestrator::batch_result(&clean, false, Ok(()), true),
        Err(vec![Error::StorageIO])
    );
    assert_eq!(
        DownloadOrchestrator::batch_result(&clean, true, Err(vec![Error::UpstreamIO]), true),
        Err(vec![Error::UpstreamIO])
    );
}

#[test]
fn worker_and_sender_share_one_queue() {
    let (mut worker, tx) =
        BackgroundDownloader::new(orchestrator(&["a"], &[1]), "videos".to_string());
    let (mut other, other_tx) =
        BackgroundDownloader::new(orchestrator(&["a"], &[1]), "videos".to_string());
    assert_eq!(worker.downloader().video_folder(), "videos");
    assert_eq!(BackgroundDownloader::submit(&tx, batch(1)), Submission::Queued);
    assert_eq!(BackgroundDownloader::submit(&other_tx, batch(2)), Submission::Queued);
    // the worker keeps its queue through its steps
    assert_eq!(worker.on_message(Some(batch(0))), WorkerStep::Download(batch(0)));
    assert!(worker.on_finished(Err(vec![Error::UpstreamIO])).len() == 1);
    assert_eq!(statuses(worker.downloader()), ["unplayed"]);
    assert_eq!(worker.receiver().try_recv().unwrap(), batch(1));
    assert!(worker.receiver().try_recv().is_err());
    assert_eq!(other.receiver().try_recv().unwrap(), batch(2));
}
