use gb_forever::db::PlaylistEntryStatus;
use gb_forever::error::Error;

const ALL: [PlaylistEntryStatus; 5] = [
    PlaylistEntryStatus::Unplayed,
    PlaylistEntryStatus::Pending,
    PlaylistEntryStatus::Downloaded,
    PlaylistEntryStatus::Active,
    PlaylistEntryStatus::Finished,
];

#[test]
fn status_parses_each_name() {
    assert_eq!(PlaylistEntryStatus::from_str("active"), Ok(PlaylistEntryStatus::Active));
    assert_eq!(PlaylistEntryStatus::from_str("downloaded"), Ok(PlaylistEntryStatus::Downloaded));
    assert_eq!(PlaylistEntryStatus::from_str("pending"), Ok(PlaylistEntryStatus::Pending));
    assert_eq!(PlaylistEntryStatus::from_str("unplayed"), Ok(PlaylistEntryStatus::Unplayed));
    assert_eq!(PlaylistEntryStatus::from_str("finished"), Ok(PlaylistEntryStatus::Finished));
}

#[test]
fn status_formats_each_name() {
    assert_eq!(PlaylistEntryStatus::Active.to_string(), "active");
    assert_eq!(PlaylistEntryStatus::Downloaded.to_string(), "downloaded");
    assert_eq!(PlaylistEntryStatus::Pending.to_string(), "pending");
    assert_eq!(PlaylistEntryStatus::Unplayed.to_string(), "unplayed");
    assert_eq!(PlaylistEntryStatus::Finished.to_string(), "finished");
    assert_eq!(PlaylistEntryStatus::Finished.as_str(), "finished");
}

#[test]
fn status_round_trips() {
    for status in ALL {
        assert_eq!(PlaylistEntryStatus::from_str(status.as_str()), Ok(status));
    }
}

#[test]
fn status_rejects_other_text() {
    for text in ["", "Active", "ACTIVE", "active ", " active", "activ", "actives", "done", "unplayed\n", "pénding"] {
        assert_eq!(PlaylistEntryStatus::from_str(text), Err(Error::InvalidState), "for {:?}", text);
    }
}

#[test]
fn error_messages() {
    assert_eq!(Error::NotFound.message(), "not found");
    assert_eq!(Error::UpstreamIO.message(), "upstream request failed");
    assert_eq!(Error::StorageIO.message(), "storage operation failed");
    assert_eq!(Error::FilesystemIO.message(), "filesystem operation failed");
    assert_eq!(Error::InvalidState.message(), "invalid state");
}
