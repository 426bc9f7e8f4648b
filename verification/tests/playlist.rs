use gb_forever::db::{Database, GbVideo, PlaylistEntry};
use gb_forever::error::Error;
use gb_forever::ia::MetadataItem;

fn item(identifier: &str) -> MetadataItem {
    MetadataItem {
        collections: None,
        creator: None,
        date: None,
        description: None,
        external_identifier: None,
        identifier: identifier.to_string(),
        item_size: None,
        title: identifier.to_uppercase(),
    }
}

fn video(id: i64, identifier: &str) -> GbVideo {
    GbVideo {
        id,
        date: None,
        description: None,
        title: identifier.to_uppercase(),
        item_size: None,
        identifier: identifier.to_string(),
        external_identifier: None,
        collections: None,
        creator: None,
    }
}

fn entry(id: i64, video_id: i64, status: &str) -> PlaylistEntry {
    PlaylistEntry { id, video_id, status: status.to_string(), file_path: None, last_progress: None }
}

fn catalog(identifiers: &[&str]) -> Database {
    let mut db = Database::new();
    let items: Vec<MetadataItem> = identifiers.iter().map(|i| item(i)).collect();
    db.insert_items(&items).unwrap();
    db
}

fn statuses(db: &Database) -> Vec<String> {
    db.entries().iter().map(|e| e.status.clone()).collect()
}

fn download(db: &mut Database, identifier: &str) {
    db.set_video_pending(identifier).unwrap();
    db.set_video_downloaded(identifier, format!("videos/{}.mp4", identifier)).unwrap();
}

#[test]
fn rebuild_schedules_every_video_once_in_the_given_order() {
    let mut db = catalog(&["a", "b", "c", "d"]);
    assert_eq!(db.create_random_playlist(&[3, 1, 4, 2]), Ok(()));
    let entries = db.entries();
    assert_eq!(
        entries,
        &vec![entry(1, 3, "unplayed"), entry(2, 1, "unplayed"), entry(3, 4, "unplayed"), entry(4, 2, "unplayed")]
    );
    // exactly one entry is the one the pointer names
    let pointed = entries.iter().filter(|e| Some(e.id) == db.active_entry()).count();
    assert_eq!(pointed, 1);
    assert_eq!(db.active_entry(), Some(1));
    // a permutation of the catalog ids: nothing twice, nothing left out
    let mut scheduled: Vec<i64> = entries.iter().map(|e| e.video_id).collect();
    scheduled.sort();
    let ids: Vec<i64> = db.videos().iter().map(|v| v.id).collect();
    assert_eq!(scheduled, ids);
}

#[test]
fn rebuild_replaces_the_old_playlist_and_pointer() {
    let mut db = catalog(&["a", "b", "c"]);
    db.create_random_playlist(&[1, 2, 3]).unwrap();
    download(&mut db, "a");
    db.start_current_video().unwrap();
    download(&mut db, "b");
    db.move_to_next_video().unwrap();
    assert_eq!(db.active_entry(), Some(2));
    assert_eq!(statuses(&db), ["finished", "active", "unplayed"]);
    db.create_random_playlist(&[2, 3, 1]).unwrap();
    assert_eq!(
        db.entries(),
        &vec![entry(1, 2, "unplayed"), entry(2, 3, "unplayed"), entry(3, 1, "unplayed")]
    );
    assert_eq!(db.active_entry(), Some(1));
    assert_eq!(db.videos().len(), 3);
}

#[test]
fn rebuild_rejects_an_order_that_is_no_permutation() {
    let mut db = catalog(&["a", "b", "c"]);
    db.create_random_playlist(&[1, 2, 3]).unwrap();
    download(&mut db, "a");
    let before: Vec<PlaylistEntry> = db.entries().clone();
    for order in [
        vec![],
        vec![1, 2],
        vec![1, 2, 3, 1],
        vec![1, 1, 2],
        vec![3, 2, 3],
        vec![1, 2, 4],
        vec![0, 1, 2],
        vec![1, 2, -3],
    ] {
        assert_eq!(db.create_random_playlist(&order), Err(Error::StorageIO), "for {:?}", order);
        assert_eq!(db.entries(), &before);
        assert_eq!(db.active_entry(), Some(1));
    }
}

#[test]
fn rebuild_of_an_empty_catalog_leaves_no_pointer() {
    let mut db = Database::new();
    assert_eq!(db.create_random_playlist(&[]), Ok(()));
    assert!(db.entries().is_empty());
    assert_eq!(db.active_entry(), None);
    assert_eq!(db.current_video(), Err(Error::NotFound));
    assert_eq!(db.move_to_next_video(), Ok(None));
    assert_eq!(db.create_random_playlist(&[1]), Err(Error::StorageIO));
}

#[test]
fn rebuild_works_on_sparse_ids() {
    let mut db =
        Database::from_rows(vec![video(10, "a"), video(20, "b"), video(35, "c")], vec![], None)
            .unwrap();
    assert_eq!(db.create_random_playlist(&[35, 10, 20]), Ok(()));
    let scheduled: Vec<i64> = db.entries().iter().map(|e| e.video_id).collect();
    assert_eq!(scheduled, [35, 10, 20]);
    assert_eq!(db.create_random_playlist(&[1, 2, 3]), Err(Error::StorageIO));
}

#[test]
fn peek_returns_unplayed_entries_in_id_order() {
    let mut db = catalog(&["a", "b", "c", "d", "e"]);
    db.create_random_playlist(&[5, 4, 3, 2, 1]).unwrap();
    assert!(db.peek_next_videos(0).is_empty());
    let two = db.peek_next_videos(2);
    assert_eq!(two, vec![entry(1, 5, "unplayed"), entry(2, 4, "unplayed")]);
    assert_eq!(db.peek_next_videos(5).len(), 5);
    assert_eq!(db.peek_next_videos(usize::MAX).len(), 5);
    // entries that are being downloaded or are on disk are no longer offered
    download(&mut db, "e");
    db.set_video_pending("c").unwrap();
    let next: Vec<i64> = db.peek_next_videos(2).iter().map(|e| e.id).collect();
    assert_eq!(next, [2, 4]);
    let all: Vec<i64> = db.peek_next_videos(10).iter().map(|e| e.id).collect();
    assert_eq!(all, [2, 4, 5]);
}

#[test]
fn peek_skips_status_text_that_names_no_status() {
    let db = Database::from_rows(
        vec![video(1, "a")],
        vec![entry(1, 1, "Unplayed"), entry(2, 1, "unplayed"), entry(3, 1, ""), entry(4, 1, "unplayed")],
        None,
    )
    .unwrap();
    let ids: Vec<i64> = db.peek_next_videos(5).iter().map(|e| e.id).collect();
    assert_eq!(ids, [2, 4]);
}

#[test]
fn pending_then_downloaded() {
    let mut db = catalog(&["a", "b"]);
    db.create_random_playlist(&[2, 1]).unwrap();
    assert_eq!(db.set_video_pending("a"), Ok(()));
    assert_eq!(statuses(&db), ["unplayed", "pending"]);
    // a download that is queued again finds its entry Pending
    assert_eq!(db.set_video_pending("a"), Ok(()));
    assert_eq!(statuses(&db), ["unplayed", "pending"]);
    assert_eq!(db.set_video_downloaded("a", "videos/a.mp4".to_string()), Ok(()));
    assert_eq!(statuses(&db), ["unplayed", "downloaded"]);
    assert_eq!(db.entries()[1].file_path.as_deref(), Some("videos/a.mp4"));
    assert_eq!(db.entries()[0].file_path, None);
    assert_eq!(db.entries()[1].id, 2);
    assert_eq!(db.entries()[1].video_id, 1);
}

#[test]
fn downloaded_requires_pending() {
    let mut db = catalog(&["a", "b", "c"]);
    db.create_random_playlist(&[1, 2, 3]).unwrap();
    // Unplayed
    assert_eq!(db.set_video_downloaded("a", "x".to_string()), Err(Error::InvalidState));
    assert_eq!(statuses(&db), ["unplayed", "unplayed", "unplayed"]);
    assert_eq!(db.entries()[0].file_path, None);
    // Downloaded
    download(&mut db, "a");
    assert_eq!(db.set_video_downloaded("a", "y".to_string()), Err(Error::InvalidState));
    assert_eq!(db.entries()[0].file_path.as_deref(), Some("videos/a.mp4"));
    // Active
    db.start_current_video().unwrap();
    assert_eq!(statuses(&db), ["active", "unplayed", "unplayed"]);
    assert_eq!(db.set_video_downloaded("a", "y".to_string()), Err(Error::InvalidState));
    // Finished
    db.move_to_next_video().unwrap();
    assert_eq!(statuses(&db), ["finished", "unplayed", "unplayed"]);
    assert_eq!(db.set_video_downloaded("a", "y".to_string()), Err(Error::InvalidState));
    assert_eq!(statuses(&db), ["finished", "unplayed", "unplayed"]);
}

#[test]
fn pending_never_moves_an_entry_back() {
    let mut db = catalog(&["a"]);
    db.create_random_playlist(&[1]).unwrap();
    download(&mut db, "a");
    assert_eq!(db.set_video_pending("a"), Err(Error::InvalidState));
    db.start_current_video().unwrap();
    assert_eq!(db.set_video_pending("a"), Err(Error::InvalidState));
    db.move_to_next_video().unwrap();
    assert_eq!(db.set_video_pending("a"), Err(Error::InvalidState));
    assert_eq!(statuses(&db), ["finished"]);
}

#[test]
fn status_updates_need_a_video_and_an_entry() {
    let mut db = catalog(&["a", "b"]);
    // no playlist yet
    assert_eq!(db.set_video_pending("a"), Err(Error::NotFound));
    assert_eq!(db.set_video_downloaded("a", "x".to_string()), Err(Error::NotFound));
    db.create_random_playlist(&[1, 2]).unwrap();
    // no such video
    assert_eq!(db.set_video_pending("zzz"), Err(Error::NotFound));
    assert_eq!(db.set_video_downloaded("zzz", "x".to_string()), Err(Error::NotFound));
    // a video that arrived after the playlist was built
    db.insert_items(&[item("late")]).unwrap();
    assert_eq!(db.set_video_pending("late"), Err(Error::NotFound));
    assert_eq!(statuses(&db), ["unplayed", "unplayed"]);
}

#[test]
fn malformed_status_fails_fast() {
    let rows = || {
        Database::from_rows(
            vec![video(1, "a"), video(2, "b")],
            vec![entry(1, 1, "playing"), entry(2, 2, "downloaded")],
            Some(1),
        )
        .unwrap()
    };
    let mut db = rows();
    assert_eq!(db.current_video(), Err(Error::InvalidState));
    assert_eq!(db.start_current_video(), Err(Error::InvalidState));
    assert_eq!(db.move_to_next_video(), Err(Error::InvalidState));
    assert_eq!(db.set_video_pending("a"), Err(Error::InvalidState));
    assert_eq!(db.set_video_downloaded("a", "x".to_string()), Err(Error::InvalidState));
    assert_eq!(statuses(&db), ["playing", "downloaded"]);
    assert_eq!(db.active_entry(), Some(1));
    // the entry after the Active one is read too
    let mut db = Database::from_rows(
        vec![video(1, "a"), video(2, "b")],
        vec![entry(1, 1, "active"), entry(2, 2, "DOWNLOADED")],
        Some(1),
    )
    .unwrap();
    assert_eq!(db.move_to_next_video(), Err(Error::InvalidState));
    assert_eq!(statuses(&db), ["active", "DOWNLOADED"]);
    assert_eq!(db.active_entry(), Some(1));
}

#[test]
fn current_video_tells_queued_from_playing() {
    let mut db = catalog(&["a", "b"]);
    // nothing queued
    assert_eq!(db.current_video(), Err(Error::NotFound));
    db.create_random_playlist(&[1, 2]).unwrap();
    // queued but not playable yet
    assert_eq!(db.current_video(), Ok(None));
    db.set_video_pending("a").unwrap();
    assert_eq!(db.current_video(), Ok(None));
    db.set_video_downloaded("a", "videos/a.mp4".to_string()).unwrap();
    assert_eq!(db.current_video(), Ok(None));
    // playing
    db.start_current_video().unwrap();
    let current = db.current_video().unwrap().unwrap();
    assert_eq!(current.id, 1);
    assert_eq!(current.status, "active");
    assert_eq!(current.file_path.as_deref(), Some("videos/a.mp4"));
    // a pointer that names no entry
    let dangling =
        Database::from_rows(vec![video(1, "a")], vec![entry(1, 1, "unplayed")], Some(9)).unwrap();
    assert_eq!(dangling.current_video(), Err(Error::NotFound));
}

#[test]
fn move_changes_nothing_without_a_current_entry() {
    let mut db = catalog(&["a", "b"]);
    // no pointer
    assert_eq!(db.move_to_next_video(), Ok(None));
    db.create_random_playlist(&[1, 2]).unwrap();
    let unchanged = |db: &Database, expected: [&str; 2]| {
        assert_eq!(statuses(db), expected);
        assert_eq!(db.active_entry(), Some(1));
        assert_eq!(db.current_video(), Ok(None));
    };
    // Unplayed, Pending and Downloaded under the pointer: none of them is current
    assert_eq!(db.move_to_next_video(), Ok(None));
    unchanged(&db, ["unplayed", "unplayed"]);
    db.set_video_pending("a").unwrap();
    assert_eq!(db.move_to_next_video(), Ok(None));
    unchanged(&db, ["pending", "unplayed"]);
    db.set_video_downloaded("a", "videos/a.mp4".to_string()).unwrap();
    assert_eq!(db.move_to_next_video(), Ok(None));
    unchanged(&db, ["downloaded", "unplayed"]);
    assert_eq!(db.entries()[0].file_path.as_deref(), Some("videos/a.mp4"));
    // Finished under the pointer, at the end of the playlist
    let mut db = Database::from_rows(
        vec![video(1, "a")],
        vec![entry(1, 1, "finished"), entry(2, 1, "downloaded")],
        Some(1),
    )
    .unwrap();
    assert_eq!(db.move_to_next_video(), Ok(None));
    assert_eq!(statuses(&db), ["finished", "downloaded"]);
    assert_eq!(db.active_entry(), Some(1));
    // a pointer that names no entry
    let mut db =
        Database::from_rows(vec![video(1, "a")], vec![entry(1, 1, "downloaded")], Some(7)).unwrap();
    assert_eq!(db.move_to_next_video(), Ok(None));
    assert_eq!(statuses(&db), ["downloaded"]);
    assert_eq!(db.active_entry(), Some(7));
}

#[test]
fn start_makes_a_downloaded_entry_under_the_pointer_active() {
    let mut db = catalog(&["a", "b"]);
    // nothing queued
    assert_eq!(db.start_current_video(), Err(Error::NotFound));
    db.create_random_playlist(&[1, 2]).unwrap();
    // queued, but not on disk yet
    assert_eq!(db.start_current_video(), Ok(None));
    db.set_video_pending("a").unwrap();
    assert_eq!(db.start_current_video(), Ok(None));
    assert_eq!(statuses(&db), ["pending", "unplayed"]);
    // on disk
    download(&mut db, "b");
    db.set_video_downloaded("a", "videos/a.mp4".to_string()).unwrap();
    let started = db.start_current_video().unwrap().unwrap();
    assert_eq!(
        started,
        PlaylistEntry {
            id: 1,
            video_id: 1,
            status: "active".to_string(),
            file_path: Some("videos/a.mp4".to_string()),
            last_progress: None,
        }
    );
    assert_eq!(statuses(&db), ["active", "downloaded"]);
    assert_eq!(db.active_entry(), Some(1));
    assert_eq!(db.current_video(), Ok(Some(started)));
    // playing already: the entry stays as it is
    let again = db.start_current_video().unwrap().unwrap();
    assert_eq!(again.id, 1);
    assert_eq!(statuses(&db), ["active", "downloaded"]);
    // finished, at the end of the playlist
    db.move_to_next_video().unwrap();
    db.move_to_next_video().unwrap();
    assert_eq!(statuses(&db), ["finished", "finished"]);
    assert_eq!(db.start_current_video(), Ok(None));
    assert_eq!(statuses(&db), ["finished", "finished"]);
    // a pointer that names no entry
    let mut dangling =
        Database::from_rows(vec![video(1, "a")], vec![entry(1, 1, "downloaded")], Some(9)).unwrap();
    assert_eq!(dangling.start_current_video(), Err(Error::NotFound));
    assert_eq!(statuses(&dangling), ["downloaded"]);
}

#[test]
fn move_waits_for_the_download() {
    let mut db = catalog(&["a", "b"]);
    db.create_random_playlist(&[1, 2]).unwrap();
    download(&mut db, "a");
    let started = db.start_current_video().unwrap().unwrap();
    assert_eq!(started.id, 1);
    assert_eq!(started.status, "active");
    // the next entry is not on disk: the pointer moves on and waits there
    assert_eq!(db.move_to_next_video(), Ok(None));
    assert_eq!(statuses(&db), ["finished", "unplayed"]);
    assert_eq!(db.active_entry(), Some(2));
    assert_eq!(db.current_video(), Ok(None));
    download(&mut db, "b");
    assert_eq!(db.move_to_next_video(), Ok(None));
    assert_eq!(statuses(&db), ["finished", "downloaded"]);
    let started = db.start_current_video().unwrap().unwrap();
    assert_eq!(started.id, 2);
    assert_eq!(statuses(&db), ["finished", "active"]);
}

#[test]
fn move_follows_id_order_over_gaps() {
    let mut db = Database::from_rows(
        vec![video(1, "a"), video(2, "b")],
        vec![entry(3, 2, "active"), entry(8, 1, "downloaded")],
        Some(3),
    )
    .unwrap();
    let started = db.move_to_next_video().unwrap().unwrap();
    assert_eq!(started.id, 8);
    assert_eq!(db.active_entry(), Some(8));
    assert_eq!(statuses(&db), ["finished", "active"]);
}

#[test]
fn at_most_one_entry_is_active_and_the_pointer_names_it() {
    let mut db = catalog(&["a", "b", "c", "d"]);
    db.create_random_playlist(&[4, 3, 2, 1]).unwrap();
    for identifier in ["d", "c", "b", "a"] {
        download(&mut db, identifier);
    }
    db.start_current_video().unwrap();
    assert_eq!(statuses(&db), ["active", "downloaded", "downloaded", "downloaded"]);
    for _ in 0..6 {
        let _ = db.move_to_next_video().unwrap();
        let active: Vec<i64> =
            db.entries().iter().filter(|e| e.status == "active").map(|e| e.id).collect();
        assert!(active.len() <= 1);
        for id in active {
            assert_eq!(db.active_entry(), Some(id));
        }
    }
    assert_eq!(statuses(&db), ["finished", "finished", "finished", "finished"]);
}

#[test]
fn end_to_end_three_videos() {
    let mut db = catalog(&["a", "b", "c"]);
    db.create_random_playlist(&[2, 3, 1]).unwrap();

    let next = db.peek_next_videos(2);
    assert_eq!(next.len(), 2);
    assert_eq!(next[0].id, 1);
    assert_eq!(next[1].id, 2);
    assert!(next.iter().all(|e| e.status == "unplayed"));

    for e in &next {
        let identifier = db.fetch_video(e.video_id).unwrap().identifier;
        db.set_video_pending(&identifier).unwrap();
        db.set_video_downloaded(&identifier, format!("videos/{}.mp4", identifier)).unwrap();
    }
    assert_eq!(statuses(&db), ["downloaded", "downloaded", "unplayed"]);
    assert_eq!(db.entries()[0].file_path.as_deref(), Some("videos/b.mp4"));
    assert_eq!(db.entries()[1].file_path.as_deref(), Some("videos/c.mp4"));
    assert!(db.entries()[..2].iter().all(|e| !e.file_path.as_deref().unwrap().is_empty()));

    // playback starts with the first entry
    let first = db.start_current_video().unwrap().unwrap();
    assert_eq!((first.id, first.video_id), (1, 2));
    assert_eq!(db.active_entry(), Some(1));
    assert_eq!(db.current_video().unwrap().unwrap().id, 1);

    // the first move takes the pointer to the second entry
    let second = db.move_to_next_video().unwrap().unwrap();
    assert_eq!((second.id, second.video_id), (2, 3));
    assert_eq!(db.active_entry(), Some(2));
    assert_eq!(db.current_video().unwrap().unwrap().id, 2);
    assert_eq!(statuses(&db), ["finished", "active", "unplayed"]);

    // the second move leaves both behind: nothing further is ready to play
    assert_eq!(db.move_to_next_video(), Ok(None));
    assert_eq!(db.active_entry(), Some(3));
    assert_eq!(db.current_video(), Ok(None));
    assert_eq!(statuses(&db), ["finished", "finished", "unplayed"]);
    assert_eq!(db.move_to_next_video(), Ok(None));
    assert_eq!(db.active_entry(), Some(3));
    assert_eq!(statuses(&db), ["finished", "finished", "unplayed"]);
}

#[test]
fn end_of_the_playlist() {
    let mut db = catalog(&["a"]);
    db.create_random_playlist(&[1]).unwrap();
    download(&mut db, "a");
    assert_eq!(db.start_current_video().unwrap().unwrap().id, 1);
    assert_eq!(db.move_to_next_video(), Ok(None));
    assert_eq!(statuses(&db), ["finished"]);
    assert_eq!(db.active_entry(), Some(1));
    assert_eq!(db.current_video(), Ok(None));
    assert_eq!(db.move_to_next_video(), Ok(None));
    assert_eq!(statuses(&db), ["finished"]);
}

#[test]
fn encoder_queue_is_the_run_of_ready_entries_from_the_pointer() {
    let mut db = catalog(&["a", "b", "c", "d", "e"]);
    assert_eq!(db.ready_to_play(), Ok(Vec::new()));
    db.create_random_playlist(&[1, 2, 3, 4, 5]).unwrap();
    assert_eq!(db.ready_to_play(), Ok(Vec::new()));
    // the fourth video is on disk, but the run starts at the pointer
    download(&mut db, "d");
    assert_eq!(db.ready_to_play(), Ok(Vec::new()));
    download(&mut db, "a");
    download(&mut db, "b");
    let ids = |db: &Database| -> Vec<i64> {
        db.ready_to_play().unwrap().iter().map(|e| e.id).collect()
    };
    assert_eq!(ids(&db), [1, 2]);
    // the entry that plays heads the queue
    db.start_current_video().unwrap();
    assert_eq!(statuses(&db), ["active", "downloaded", "unplayed", "downloaded", "unplayed"]);
    assert_eq!(ids(&db), [1, 2]);
    download(&mut db, "c");
    assert_eq!(ids(&db), [1, 2, 3, 4]);
    db.move_to_next_video().unwrap();
    assert_eq!(ids(&db), [2, 3, 4]);
    let queue = db.ready_to_play().unwrap();
    assert_eq!(queue[0].status, "active");
    assert_eq!(queue[1].file_path.as_deref(), Some("videos/c.mp4"));
    db.move_to_next_video().unwrap();
    db.move_to_next_video().unwrap();
    db.move_to_next_video().unwrap();
    assert_eq!(statuses(&db), ["finished", "finished", "finished", "finished", "unplayed"]);
    assert_eq!(db.active_entry(), Some(5));
    assert_eq!(db.ready_to_play(), Ok(Vec::new()));
}

#[test]
fn encoder_queue_fails_fast_on_a_malformed_status() {
    let db = Database::from_rows(
        vec![video(1, "a")],
        vec![entry(1, 1, "downloaded"), entry(2, 1, "downloaded"), entry(3, 1, "???"), entry(4, 1, "downloaded")],
        Some(1),
    )
    .unwrap();
    assert_eq!(db.ready_to_play(), Err(Error::InvalidState));
    // an Active entry behind the head ends the queue
    let db = Database::from_rows(
        vec![video(1, "a")],
        vec![entry(1, 1, "downloaded"), entry(2, 1, "finished"), entry(3, 1, "???")],
        Some(1),
    )
    .unwrap();
    assert_eq!(db.ready_to_play().unwrap().len(), 1);
    // a pointer that names no entry queues nothing
    let db = Database::from_rows(vec![video(1, "a")], vec![entry(1, 1, "downloaded")], Some(4))
        .unwrap();
    assert_eq!(db.ready_to_play(), Ok(Vec::new()));
}
