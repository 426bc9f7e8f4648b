//! The catalog and playlist store, and the operations on it.

use vstd::prelude::*;
use crate::downloader::{ResolvedVideo, VideoId};
use crate::error::Error;
use crate::ia::{catalog_items, MetadataItem};
use crate::model::{is_unplayed, stored_size, EntryRow, Store, VideoRow};
use crate::text::{clone_opt_text, clone_opt_texts, opt_text, opt_texts, str_eq};

verus! {

/// A catalog row: one archived video, stored once and never changed.
#[derive(Debug, PartialEq, Eq)]
pub struct GbVideo {
    pub id: i64,
    pub date: Option<String>,
    pub description: Option<String>,
    pub title: String,
    pub item_size: Option<i64>,
    pub identifier: String,
    pub external_identifier: Option<String>,
    pub collections: Option<Vec<String>>,
    pub creator: Option<String>,
}

/// A playlist entry: one scheduled playback slot for a video.
#[derive(Debug, PartialEq, Eq)]
pub struct PlaylistEntry {
    pub id: i64,
    pub video_id: i64,
    pub status: String,
    pub file_path: Option<String>,
    pub last_progress: Option<i32>,
}

/// Where a playlist entry stands. Entries only ever move down this list.
#[derive(Debug, Clone, Copy, PartialEq, Eq, Structural)]
pub enum PlaylistEntryStatus {
    /// The video has not been downloaded or played
    Unplayed,
    /// The video is currently being downloaded
    Pending,
    /// The video has been downloaded but not yet played
    Downloaded,
    /// The video is currently being played
    Active,
    /// The video has been played
    Finished,
}

impl PlaylistEntryStatus {
    /// The text under which the status is persisted.
    pub open spec fn text(self) -> Seq<char> {
        match self {
            PlaylistEntryStatus::Active => "active"@,
            PlaylistEntryStatus::Downloaded => "downloaded"@,
            PlaylistEntryStatus::Pending => "pending"@,
            PlaylistEntryStatus::Unplayed => "unplayed"@,
            PlaylistEntryStatus::Finished => "finished"@,
        }
    }

    /// The status that a persisted text names; `None` for any other text.
    pub open spec fn parse(text: Seq<char>) -> Option<PlaylistEntryStatus> {
        if text == "active"@ {
            Some(PlaylistEntryStatus::Active)
        } else if text == "downloaded"@ {
            Some(PlaylistEntryStatus::Downloaded)
        } else if text == "pending"@ {
            Some(PlaylistEntryStatus::Pending)
        } else if text == "unplayed"@ {
            Some(PlaylistEntryStatus::Unplayed)
        } else if text == "finished"@ {
            Some(PlaylistEntryStatus::Finished)
        } else {
            None
        }
    }

    /// Position in the life of an entry, from Unplayed (0) to Finished (4).
    pub open spec fn rank(self) -> nat {
        match self {
            PlaylistEntryStatus::Unplayed => 0,
            PlaylistEntryStatus::Pending => 1,
            PlaylistEntryStatus::Downloaded => 2,
            PlaylistEntryStatus::Active => 3,
            PlaylistEntryStatus::Finished => 4,
        }
    }

    /// Formatting and parsing agree: the text of a status parses back to it,
    /// and a text that parses is the text of what it parses to.
    pub proof fn lemma_text_round_trip()
        ensures
            forall|s: PlaylistEntryStatus| #[trigger] Self::parse(s.text()) == Some(s),
            forall|t: Seq<char>| (#[trigger] Self::parse(t)) matches Some(s) ==> s.text() == t,
    {
        reveal_strlit("active");
        reveal_strlit("downloaded");
        reveal_strlit("pending");
        reveal_strlit("unplayed");
        reveal_strlit("finished");
        assert forall|s: PlaylistEntryStatus| #[trigger] Self::parse(s.text()) == Some(s) by {
            assert("active"@.len() == 6);
            assert("downloaded"@.len() == 10);
            assert("pending"@.len() == 7);
            assert("unplayed"@.len() == 8);
            assert("finished"@.len() == 8);
            assert("unplayed"@[0] == 'u');
            assert("finished"@[0] == 'f');
        }
    }

    /// Reads a persisted status text. Any text but the five status names is
    /// rejected with `InvalidState`.
    pub fn from_str(s: &str) -> (res: Result<PlaylistEntryStatus, Error>)
        ensures
            res == match Self::parse(s@) {
                Some(status) => Ok::<PlaylistEntryStatus, Error>(status),
                None => Err(Error::InvalidState),
            },
    {
        if str_eq(s, "active") {
            Ok(PlaylistEntryStatus::Active)
        } else if str_eq(s, "downloaded") {
            Ok(PlaylistEntryStatus::Downloaded)
        } else if str_eq(s, "pending") {
            Ok(PlaylistEntryStatus::Pending)
        } else if str_eq(s, "unplayed") {
            Ok(PlaylistEntryStatus::Unplayed)
        } else if str_eq(s, "finished") {
            Ok(PlaylistEntryStatus::Finished)
        } else {
            Err(Error::InvalidState)
        }
    }

    /// The text under which the status is persisted.
    pub fn as_str(&self) -> (s: &'static str)
        ensures
            s@ == self.text(),
    {
        match self {
            PlaylistEntryStatus::Active => "active",
            PlaylistEntryStatus::Downloaded => "downloaded",
            PlaylistEntryStatus::Pending => "pending",
            PlaylistEntryStatus::Unplayed => "unplayed",
            PlaylistEntryStatus::Finished => "finished",
        }
    }

    /// The persisted text as an owned string.
    pub fn to_string(&self) -> (s: String)
        ensures
            s@ == self.text(),
    {
        self.as_str().to_owned()
    }
}

impl View for GbVideo {
    type V = VideoRow;

    open spec fn view(&self) -> VideoRow {
        VideoRow {
            id: self.id as int,
            date: opt_text(self.date),
            description: opt_text(self.description),
            title: self.title@,
            item_size: match self.item_size {
                Some(n) => Some(n as int),
                None => None,
            },
            identifier: self.identifier@,
            external_identifier: opt_text(self.external_identifier),
            collections: opt_texts(self.collections),
            creator: opt_text(self.creator),
        }
    }
}

impl Clone for GbVideo {
    fn clone(&self) -> (copy: Self)
        ensures
            copy@ == self@,
    {
        GbVideo {
            id: self.id,
            date: clone_opt_text(&self.date),
            description: clone_opt_text(&self.description),
            title: self.title.clone(),
            item_size: self.item_size,
            identifier: self.identifier.clone(),
            external_identifier: clone_opt_text(&self.external_identifier),
            collections: clone_opt_texts(&self.collections),
            creator: clone_opt_text(&self.creator),
        }
    }
}

impl GbVideo {
    /// The catalog row that `item` becomes under the id `id`.
    pub fn from_item(id: i64, item: &MetadataItem) -> (video: GbVideo)
        ensures
            video@ == item@.row(id as int),
    {
        let item_size = match item.item_size {
            Some(n) => Some(size_column(n)),
            None => None,
        };
        GbVideo {
            id,
            date: clone_opt_text(&item.date),
            description: clone_opt_text(&item.description),
            title: item.title.clone(),
            item_size,
            identifier: item.identifier.clone(),
            external_identifier: clone_opt_text(&item.external_identifier),
            collections: clone_opt_texts(&item.collections),
            creator: clone_opt_text(&item.creator),
        }
    }
}

/// An unsigned size as the signed 64-bit column holds it: sizes above
/// `i64::MAX` wrap to negative values.
fn size_column(n: u64) -> (stored: i64)
    ensures
        stored == stored_size(n as nat),
{
    if n <= 0x7fff_ffff_ffff_ffff {
        n as i64
    } else {
        let low: i64 = (n - 0x8000_0000_0000_0000) as i64;
        low + i64::MIN
    }
}

impl View for PlaylistEntry {
    type V = EntryRow;

    open spec fn view(&self) -> EntryRow {
        EntryRow {
            id: self.id as int,
            video_id: self.video_id as int,
            status: self.status@,
            file_path: opt_text(self.file_path),
            last_progress: match self.last_progress {
                Some(p) => Some(p as int),
                None => None,
            },
        }
    }
}

impl Clone for PlaylistEntry {
    fn clone(&self) -> (copy: Self)
        ensures
            copy@ == self@,
    {
        PlaylistEntry {
            id: self.id,
            video_id: self.video_id,
            status: self.status.clone(),
            file_path: clone_opt_text(&self.file_path),
            last_progress: self.last_progress,
        }
    }
}

impl PlaylistEntry {
    /// The status that the persisted text names; `InvalidState` if it names none.
    pub fn parsed_status(&self) -> (res: Result<PlaylistEntryStatus, Error>)
        ensures
            res == match self@.state() {
                Some(status) => Ok::<PlaylistEntryStatus, Error>(status),
                None => Err(Error::InvalidState),
            },
    {
        PlaylistEntryStatus::from_str(self.status.as_str())
    }
}

/// The rows of a list of videos, in order.
pub open spec fn video_rows(videos: Seq<GbVideo>) -> Seq<VideoRow> {
    Seq::new(videos.len(), |i: int| videos[i]@)
}

/// The rows of a list of playlist entries, in order.
pub open spec fn entry_rows(entries: Seq<PlaylistEntry>) -> Seq<EntryRow> {
    Seq::new(entries.len(), |i: int| entries[i]@)
}

/// The store: the catalog, the playlist and the pointer to the active entry.
///
/// Every value of this type is well formed in the sense of [`Store::wf`].
///
/// A store has one writer at a time: every operation that changes it takes
/// it by `&mut`, so a rebuild of the playlist can never run alongside a step
/// of playback or a status update on the same store.
pub struct Database {
    videos: Vec<GbVideo>,
    entries: Vec<PlaylistEntry>,
    active: Option<i64>,
}

/// The pointer as a mathematical value.
pub open spec fn pointer(active: Option<i64>) -> Option<int> {
    match active {
        Some(id) => Some(id as int),
        None => None,
    }
}

/// The store that the given rows and pointer make up.
pub open spec fn store_of(
    videos: Seq<GbVideo>,
    entries: Seq<PlaylistEntry>,
    active: Option<i64>,
) -> Store {
    Store { videos: video_rows(videos), entries: entry_rows(entries), active: pointer(active) }
}

impl View for Database {
    type V = Store;

    closed spec fn view(&self) -> Store {
        store_of(self.videos@, self.entries@, self.active)
    }
}

/// Whether the ids of the first `n` videos are positive and ascend strictly.
spec fn video_ids_ascend(videos: Seq<GbVideo>, n: int) -> bool {
    &&& forall|i: int| 0 <= i < n ==> (#[trigger] videos[i]).id >= 1
    &&& forall|i: int, j: int|
        0 <= i < j < n ==> (#[trigger] videos[i]).id < (#[trigger] videos[j]).id
}

/// Whether the ids of the first `n` entries are positive and ascend strictly.
spec fn entry_ids_ascend(entries: Seq<PlaylistEntry>, n: int) -> bool {
    &&& forall|i: int| 0 <= i < n ==> (#[trigger] entries[i]).id >= 1
    &&& forall|i: int, j: int|
        0 <= i < j < n ==> (#[trigger] entries[i]).id < (#[trigger] entries[j]).id
}

/// Checks that video ids are positive and ascend strictly.
fn check_video_ids(videos: &Vec<GbVideo>) -> (ok: bool)
    ensures
        ok == video_ids_ascend(videos@, videos.len() as int),
{
    let mut i: usize = 0;
    while i < videos.len()
        invariant
            i <= videos.len(),
            video_ids_ascend(videos@, i as int),
        decreases videos.len() - i,
    {
        if videos[i].id < 1 {
            return false;
        }
        if i > 0 && videos[i - 1].id >= videos[i].id {
            return false;
        }
        i += 1;
    }
    true
}

/// Checks that entry ids are positive and ascend strictly.
fn check_entry_ids(entries: &Vec<PlaylistEntry>) -> (ok: bool)
    ensures
        ok == entry_ids_ascend(entries@, entries.len() as int),
{
    let mut i: usize = 0;
    while i < entries.len()
        invariant
            i <= entries.len(),
            entry_ids_ascend(entries@, i as int),
        decreases entries.len() - i,
    {
        if entries[i].id < 1 {
            return false;
        }
        if i > 0 && entries[i - 1].id >= entries[i].id {
            return false;
        }
        i += 1;
    }
    true
}

/// Whether no two of the first `n` videos share an identifier.
spec fn identifiers_differ(videos: Seq<GbVideo>, n: int) -> bool {
    forall|i: int, j: int|
        0 <= i < j < n ==> (#[trigger] videos[i]).identifier@ != (#[trigger] videos[j]).identifier@
}

/// Checks that no two videos share an identifier.
fn check_identifiers(videos: &Vec<GbVideo>) -> (ok: bool)
    ensures
        ok == identifiers_differ(videos@, videos.len() as int),
{
    let mut j: usize = 0;
    while j < videos.len()
        invariant
            j <= videos.len(),
            identifiers_differ(videos@, j as int),
        decreases videos.len() - j,
    {
        let mut i: usize = 0;
        while i < j
            invariant
                i <= j < videos.len(),
                identifiers_differ(videos@, j as int),
                forall|k: int|
                    0 <= k < i ==> (#[trigger] videos@[k]).identifier@ != videos@[j as int].identifier@,
            decreases j - i,
        {
            if str_eq(videos[i].identifier.as_str(), videos[j].identifier.as_str()) {
                return false;
            }
            i += 1;
        }
        j += 1;
    }
    true
}

/// Whether each of the first `n` entries with status Active is the one that
/// `active` names.
spec fn active_is_pointed(entries: Seq<PlaylistEntry>, active: Option<i64>, n: int) -> bool {
    forall|i: int|
        0 <= i < n && (#[trigger] entries[i]).status@ == "active"@ ==> active == Some(entries[i].id)
}

/// Checks that every entry with status Active is the one that `active` names.
fn check_active(entries: &Vec<PlaylistEntry>, active: Option<i64>) -> (ok: bool)
    ensures
        ok == active_is_pointed(entries@, active, entries.len() as int),
{
    let mut i: usize = 0;
    while i < entries.len()
        invariant
            i <= entries.len(),
            active_is_pointed(entries@, active, i as int),
        decreases entries.len() - i,
    {
        if str_eq(entries[i].status.as_str(), "active") {
            let pointed = match active {
                Some(id) => id == entries[i].id,
                None => false,
            };
            if !pointed {
                return false;
            }
        }
        i += 1;
    }
    true
}

/// The checks above, taken together, are well-formedness of the store.
proof fn lemma_wf_by_parts(videos: Seq<GbVideo>, entries: Seq<PlaylistEntry>, active: Option<i64>)
    ensures
        store_of(videos, entries, active).wf() <==> {
            &&& video_ids_ascend(videos, videos.len() as int)
            &&& identifiers_differ(videos, videos.len() as int)
            &&& entry_ids_ascend(entries, entries.len() as int)
            &&& active_is_pointed(entries, active, entries.len() as int)
        },
{
    let s = store_of(videos, entries, active);
    assert forall|i: int| 0 <= i < videos.len() implies (#[trigger] s.videos[i]) == videos[i]@ by {}
    assert forall|i: int| 0 <= i < entries.len() implies (#[trigger] s.entries[i])
        == entries[i]@ by {}
    if s.wf() {
        assert forall|i: int| 0 <= i < videos.len() implies (#[trigger] videos[i]).id >= 1 by {
            assert(s.videos[i].id >= 1);
        }
        assert forall|i: int, j: int| 0 <= i < j < videos.len() implies (#[trigger] videos[i]).id
            < (#[trigger] videos[j]).id by {
            assert(s.videos[i].id < s.videos[j].id);
        }
        assert forall|i: int, j: int| 0 <= i < j < videos.len() implies (
        #[trigger] videos[i]).identifier@ != (#[trigger] videos[j]).identifier@ by {
            assert(s.videos[i].identifier != s.videos[j].identifier);
        }
        assert forall|i: int| 0 <= i < entries.len() implies (#[trigger] entries[i]).id >= 1 by {
            assert(s.entries[i].id >= 1);
        }
        assert forall|i: int, j: int| 0 <= i < j < entries.len() implies (#[trigger] entries[i]).id
            < (#[trigger] entries[j]).id by {
            assert(s.entries[i].id < s.entries[j].id);
        }
        assert forall|i: int|
            0 <= i < entries.len() && (#[trigger] entries[i]).status@ == "active"@ implies active
            == Some(entries[i].id) by {
            assert(s.entries[i].state() == Some(PlaylistEntryStatus::Active));
        }
    }
    if video_ids_ascend(videos, videos.len() as int) && identifiers_differ(
        videos,
        videos.len() as int,
    ) && entry_ids_ascend(entries, entries.len() as int) && active_is_pointed(
        entries,
        active,
        entries.len() as int,
    ) {
        assert forall|i: int|
            0 <= i < s.entries.len() && (#[trigger] s.entries[i]).state() == Some(
                PlaylistEntryStatus::Active,
            ) implies s.active == Some(s.entries[i].id) by {
            assert(entries[i].status@ == "active"@);
        }
        assert(s.wf());
    }
}

impl Database {
    #[verifier::type_invariant]
    spec fn well_formed(self) -> bool {
        self@.wf()
    }

    /// A store without rows.
    pub fn new() -> (db: Database)
        ensures
            db@ == Store::empty(),
            db@.wf(),
    {
        let db = Database { videos: Vec::new(), entries: Vec::new(), active: None };
        assert(db@.videos =~= Seq::empty());
        assert(db@.entries =~= Seq::empty());
        db
    }

    /// A store over rows that were persisted earlier. Rows that do not make up
    /// a well-formed store are rejected with `InvalidState`.
    pub fn from_rows(
        videos: Vec<GbVideo>,
        entries: Vec<PlaylistEntry>,
        active: Option<i64>,
    ) -> (res: Result<Database, Error>)
        ensures
            match res {
                Ok(db) => db@ == store_of(videos@, entries@, active) && db@.wf(),
                Err(e) => e == Error::InvalidState && !store_of(videos@, entries@, active).wf(),
            },
    {
        proof {
            lemma_wf_by_parts(videos@, entries@, active);
        }
        if check_video_ids(&videos) && check_identifiers(&videos) && check_entry_ids(&entries)
            && check_active(&entries, active) {
            Ok(Database { videos, entries, active })
        } else {
            Err(Error::InvalidState)
        }
    }

    /// The catalog rows, in ascending id order.
    pub fn videos(&self) -> (rows: &Vec<GbVideo>)
        ensures
            video_rows(rows@) == self@.videos,
            self@.wf(),
    {
        proof {
            use_type_invariant(self);
        }
        &self.videos
    }

    /// The playlist entries, in ascending id order.
    pub fn entries(&self) -> (rows: &Vec<PlaylistEntry>)
        ensures
            entry_rows(rows@) == self@.entries,
            self@.wf(),
    {
        proof {
            use_type_invariant(self);
        }
        &self.entries
    }

    /// The id of the entry that plays or is about to play, if the pointer is set.
    pub fn active_entry(&self) -> (id: Option<i64>)
        ensures
            pointer(id) == self@.active,
            self@.wf(),
    {
        proof {
            use_type_invariant(self);
        }
        self.active
    }
}

/// Position of the first of `videos` with this identifier.
fn position_by_identifier(videos: &Vec<GbVideo>, identifier: &str) -> (res: Option<usize>)
    ensures
        match res {
            Some(k) => k < videos.len() && videos@[k as int].identifier@ == identifier@,
            None => forall|i: int|
                0 <= i < videos.len() ==> (#[trigger] videos@[i]).identifier@ != identifier@,
        },
{
    let mut i: usize = 0;
    while i < videos.len()
        invariant
            i <= videos.len(),
            forall|k: int| 0 <= k < i ==> (#[trigger] videos@[k]).identifier@ != identifier@,
        decreases videos.len() - i,
    {
        if str_eq(videos[i].identifier.as_str(), identifier) {
            return Some(i);
        }
        i += 1;
    }
    None
}

impl Database {
    /// Position of the catalog row with this identifier.
    fn find_video_by_identifier(&self, identifier: &str) -> (res: Option<usize>)
        ensures
            self@.wf(),
            match res {
                Some(k) => k < self.videos.len() && self@.video_by_identifier(identifier@) == Some(
                    k as int,
                ),
                None => self@.video_by_identifier(identifier@) is None,
            },
    {
        proof {
            use_type_invariant(self);
        }
        let res = position_by_identifier(&self.videos, identifier);
        proof {
            let s = self@;
            match res {
                Some(k) => {
                    assert(s.videos[k as int].identifier == identifier@);
                    let c = s.video_by_identifier(identifier@)->0;
                    if c < k {
                        assert(s.videos[c].identifier != s.videos[k as int].identifier);
                    } else if k < c {
                        assert(s.videos[k as int].identifier != s.videos[c].identifier);
                    }
                },
                None => {
                    assert forall|i: int| 0 <= i < s.videos.len() implies (
                    #[trigger] s.videos[i]).identifier != identifier@ by {
                        assert(self.videos@[i].identifier@ != identifier@);
                    }
                },
            }
        }
        res
    }

    /// Position of the catalog row with this id.
    fn find_video_by_id(&self, id: i64) -> (res: Option<usize>)
        ensures
            self@.wf(),
            match res {
                Some(k) => k < self.videos.len() && self@.video_by_id(id as int) == Some(k as int),
                None => self@.video_by_id(id as int) is None,
            },
    {
        proof {
            use_type_invariant(self);
        }
        let ghost s = self@;
        let mut lo: usize = 0;
        let mut hi: usize = self.videos.len();
        while lo < hi
            invariant
                lo <= hi <= self.videos.len(),
                s == self@,
                s.wf(),
                forall|i: int| 0 <= i < lo ==> (#[trigger] s.videos[i]).id < id,
                forall|i: int| hi <= i < s.videos.len() ==> (#[trigger] s.videos[i]).id > id,
            decreases hi - lo,
        {
            let mid = lo + (hi - lo) / 2;
            let mid_id = self.videos[mid].id;
            assert(s.videos[mid as int].id == mid_id);
            if mid_id == id {
                proof {
                    let c = s.video_by_id(id as int)->0;
                    if c < mid {
                        assert(s.videos[c].id < s.videos[mid as int].id);
                    } else if mid < c {
                        assert(s.videos[mid as int].id < s.videos[c].id);
                    }
                }
                return Some(mid);
            } else if mid_id < id {
                assert forall|i: int| 0 <= i < mid + 1 implies (#[trigger] s.videos[i]).id < id by {
                    if i < mid {
                        assert(s.videos[i].id < s.videos[mid as int].id);
                    }
                }
                lo = mid + 1;
            } else {
                assert forall|i: int| mid <= i < s.videos.len() implies (#[trigger] s.videos[i]).id
                    > id by {
                    if mid < i {
                        assert(s.videos[mid as int].id < s.videos[i].id);
                    }
                }
                hi = mid;
            }
        }
        None
    }

    /// Position of the playlist entry with this id.
    fn find_entry_by_id(&self, id: i64) -> (res: Option<usize>)
        ensures
            self@.wf(),
            match res {
                Some(k) => k < self.entries.len() && self@.entry_by_id(id as int) == Some(k as int),
                None => self@.entry_by_id(id as int) is None,
            },
    {
        proof {
            use_type_invariant(self);
        }
        let ghost s = self@;
        let mut lo: usize = 0;
        let mut hi: usize = self.entries.len();
        while lo < hi
            invariant
                lo <= hi <= self.entries.len(),
                s == self@,
                s.wf(),
                forall|i: int| 0 <= i < lo ==> (#[trigger] s.entries[i]).id < id,
                forall|i: int| hi <= i < s.entries.len() ==> (#[trigger] s.entries[i]).id > id,
            decreases hi - lo,
        {
            let mid = lo + (hi - lo) / 2;
            let mid_id = self.entries[mid].id;
            assert(s.entries[mid as int].id == mid_id);
            if mid_id == id {
                proof {
                    let c = s.entry_by_id(id as int)->0;
                    if c < mid {
                        assert(s.entries[c].id < s.entries[mid as int].id);
                    } else if mid < c {
                        assert(s.entries[mid as int].id < s.entries[c].id);
                    }
                }
                return Some(mid);
            } else if mid_id < id {
                assert forall|i: int| 0 <= i < mid + 1 implies (#[trigger] s.entries[i]).id
                    < id by {
                    if i < mid {
                        assert(s.entries[i].id < s.entries[mid as int].id);
                    }
                }
                lo = mid + 1;
            } else {
                assert forall|i: int| mid <= i < s.entries.len() implies (
                #[trigger] s.entries[i]).id > id by {
                    if mid < i {
                        assert(s.entries[mid as int].id < s.entries[i].id);
                    }
                }
                hi = mid;
            }
        }
        None
    }

    /// Position of the first playlist entry that references `video_id`.
    fn find_entry_of_video(&self, video_id: i64) -> (res: Option<usize>)
        ensures
            self@.wf(),
            match res {
                Some(k) => k < self.entries.len() && self@.entry_of_video(video_id as int) == Some(
                    k as int,
                ),
                None => self@.entry_of_video(video_id as int) is None,
            },
    {
        proof {
            use_type_invariant(self);
        }
        let ghost s = self@;
        let mut i: usize = 0;
        while i < self.entries.len()
            invariant
                i <= self.entries.len(),
                s == self@,
                s.wf(),
                forall|j: int| 0 <= j < i ==> (#[trigger] s.entries[j]).video_id != video_id,
            decreases self.entries.len() - i,
        {
            if self.entries[i].video_id == video_id {
                proof {
                    assert(s.entries[i as int].video_id == video_id);
                    assert(s.is_first_entry_of(i as int, video_id as int));
                    let c = s.entry_of_video(video_id as int)->0;
                    assert(s.is_first_entry_of(c, video_id as int));
                    if c < i {
                        assert(s.entries[c].video_id != video_id);
                    } else if i < c {
                        assert(s.entries[i as int].video_id != video_id);
                    }
                }
                return Some(i);
            }
            i += 1;
        }
        proof {
            assert forall|k: int| !s.is_first_entry_of(k, video_id as int) by {
                if 0 <= k < s.entries.len() {
                    assert(s.entries[k].video_id != video_id);
                }
            }
        }
        None
    }

    /// Position of the playlist entry that schedules the video `identifier`.
    fn find_entry_for(&self, identifier: &str) -> (res: Option<usize>)
        ensures
            self@.wf(),
            match res {
                Some(k) => k < self.entries.len() && self@.entry_for(identifier@) == Some(k as int),
                None => self@.entry_for(identifier@) is None,
            },
    {
        match self.find_video_by_identifier(identifier) {
            Some(v) => {
                assert(self@.videos[v as int].id == self.videos[v as int].id);
                self.find_entry_of_video(self.videos[v].id)
            },
            None => None,
        }
    }

    /// Persists a batch of catalog items: each item whose identifier is not
    /// in the catalog yet becomes a new row, the others change nothing.
    ///
    /// The batch is all or nothing. It fails with `StorageIO`, and leaves the
    /// store as it was, when the id column cannot number every new row.
    pub fn insert_items(&mut self, items: &[MetadataItem]) -> (res: Result<(), Error>)
        ensures
            final(self)@.wf(),
            match res {
                Ok(()) => final(self)@ == old(self)@.insert_items(catalog_items(items@)),
                Err(e) => e == Error::StorageIO && final(self)@ == old(self)@,
            },
            res is Ok <==> old(self)@.insert_items(catalog_items(items@)).ids_fit(),
    {
        proof {
            use_type_invariant(&*self);
        }
        let ghost before = self@;
        let ghost batch = catalog_items(items@);
        let mut added: Vec<GbVideo> = Vec::new();
        let mut last: i64 = if self.videos.len() == 0 {
            0
        } else {
            self.videos[self.videos.len() - 1].id
        };
        let mut i: usize = 0;
        assert(batch.take(0) =~= Seq::<crate::ia::CatalogItem>::empty());
        assert(before.videos + video_rows(added@) =~= before.videos);
        while i < items.len()
            invariant
                i <= items.len(),
                before == self@,
                before.wf(),
                batch == catalog_items(items@),
                before.insert_items(batch.take(i as int)).videos == before.videos + video_rows(
                    added@,
                ),
                before.insert_items(batch.take(i as int)).next_video_id() == last + 1,
            decreases items.len() - i,
        {
            let item = &items[i];
            let ghost staged = before.insert_items(batch.take(i as int));
            proof {
                before.lemma_insert_items(batch.take(i as int));
                before.lemma_insert_items_step(batch, i as int);
                assert(batch[i as int] == item@);
            }
            let known = match self.find_video_by_identifier(item.identifier.as_str()) {
                Some(_) => true,
                None => position_by_identifier(&added, item.identifier.as_str()).is_some(),
            };
            proof {
                if known {
                    if self@.video_by_identifier(item.identifier@) is Some {
                        let k = self@.video_by_identifier(item.identifier@)->0;
                        assert(staged.videos[k] == before.videos[k]);
                    } else {
                        let k = choose|k: int|
                            0 <= k < added.len() && added@[k].identifier@ == item.identifier@;
                        assert(staged.videos[before.videos.len() + k] == added@[k]@);
                    }
                    assert(staged.has_identifier(item@.identifier));
                } else {
                    assert forall|k: int| 0 <= k < staged.videos.len() implies (
                    #[trigger] staged.videos[k]).identifier != item@.identifier by {
                        if k < before.videos.len() {
                            assert(staged.videos[k] == before.videos[k]);
                        } else {
                            assert(staged.videos[k] == added@[k - before.videos.len()]@);
                        }
                    }
                    assert(!staged.has_identifier(item@.identifier));
                }
            }
            if !known {
                if last == i64::MAX {
                    proof {
                        let next = staged.insert_item(item@);
                        before.lemma_insert_items_extends(batch, i as int + 1);
                        let whole = before.insert_items(batch);
                        let n = staged.videos.len() as int;
                        assert(next.videos[n].id == i64::MAX + 1);
                        assert(whole.videos[n] == next.videos[n]);
                    }
                    return Err(Error::StorageIO);
                }
                last = last + 1;
                added.push(GbVideo::from_item(last, item));
                proof {
                    assert(before.insert_items(batch.take(i as int + 1)).videos =~= before.videos
                        + video_rows(added@));
                }
            }
            i += 1;
        }
        proof {
            assert(batch.take(items.len() as int) =~= batch);
            before.lemma_insert_items(batch);
            let whole = before.insert_items(batch);
            assert forall|k: int| 0 <= k < whole.videos.len() implies (
            #[trigger] whole.videos[k]).id <= i64::MAX by {
                if k < before.videos.len() {
                    assert(whole.videos[k] == self.videos@[k]@);
                } else {
                    assert(whole.videos[k] == added@[k - before.videos.len()]@);
                }
            }
            assert(video_rows(self.videos@ + added@) =~= before.videos + video_rows(added@));
        }
        let mut videos: Vec<GbVideo> = Vec::new();
        core::mem::swap(&mut self.videos, &mut videos);
        videos.append(&mut added);
        core::mem::swap(&mut self.videos, &mut videos);
        Ok(())
    }
}

/// A list of ids as mathematical integers.
pub open spec fn ids_of(ids: Seq<i64>) -> Seq<int> {
    Seq::new(ids.len(), |i: int| ids[i] as int)
}

/// What a result that may hold an entry says, with the entry as a row.
pub open spec fn entry_outcome(res: Result<Option<PlaylistEntry>, Error>) -> Result<
    Option<EntryRow>,
    Error,
> {
    match res {
        Ok(Some(entry)) => Ok(Some(entry@)),
        Ok(None) => Ok(None),
        Err(e) => Err(e),
    }
}

/// A vector of `n` times `false`.
fn all_false(n: usize) -> (flags: Vec<bool>)
    ensures
        flags.len() == n,
        forall|i: int| 0 <= i < n ==> !flags@[i],
{
    let mut flags: Vec<bool> = Vec::new();
    while flags.len() < n
        invariant
            flags.len() <= n,
            forall|i: int| 0 <= i < flags.len() ==> !flags@[i],
        decreases n - flags.len(),
    {
        flags.push(false);
    }
    flags
}

impl Database {
    /// Replaces entry `k` by `entry`, which has the same id and is not Active
    /// unless the pointer names it.
    fn replace_entry(&mut self, k: usize, entry: PlaylistEntry)
        requires
            k < old(self)@.entries.len(),
            entry@.id == old(self)@.entries[k as int].id,
            entry@.state() == Some(PlaylistEntryStatus::Active) ==> old(self)@.active == Some(
                entry@.id,
            ),
        ensures
            final(self)@ == old(self)@.with_entry(k as int, entry@),
            final(self)@.wf(),
    {
        proof {
            use_type_invariant(&*self);
            self@.lemma_with_entry_wf(k as int, entry@);
        }
        let ghost before = self@;
        let mut entries: Vec<PlaylistEntry> = Vec::new();
        core::mem::swap(&mut self.entries, &mut entries);
        entries.set(k, entry);
        proof {
            assert(entry_rows(entries@) =~= before.entries.update(k as int, entry@));
        }
        core::mem::swap(&mut self.entries, &mut entries);
    }

    /// Rebuilds the playlist over `order`, the catalog ids in the order in
    /// which they are to play.
    ///
    /// All earlier entries and the pointer are replaced in one step: one
    /// Unplayed entry per video, numbered from one in the given order, and
    /// the pointer on the first of them. An `order` that does not list every
    /// catalog id exactly once is rejected with `StorageIO` and changes
    /// nothing.
    pub fn create_random_playlist(&mut self, order: &[i64]) -> (res: Result<(), Error>)
        ensures
            final(self)@.wf(),
            match res {
                Ok(()) => old(self)@.is_shuffle(ids_of(order@)) && final(self)@ == old(
                    self,
                )@.rebuild(ids_of(order@)),
                Err(e) => e == Error::StorageIO && !old(self)@.is_shuffle(ids_of(order@))
                    && final(self)@ == old(self)@,
            },
    {
        proof {
            use_type_invariant(&*self);
        }
        let ghost before = self@;
        let ghost wanted = ids_of(order@);
        let n = order.len();
        if n != self.videos.len() {
            return Err(Error::StorageIO);
        }
        proof {
            if n > 0 {
                before.lemma_video_id_bound(n - 1);
            }
        }
        let mut seen = all_false(n);
        let mut entries: Vec<PlaylistEntry> = Vec::new();
        let mut k: usize = 0;
        while k < n
            invariant
                k <= n,
                n == order.len(),
                n == self.videos.len(),
                n <= i64::MAX,
                before == self@,
                before.wf(),
                wanted == ids_of(order@),
                seen.len() == n,
                entries.len() == k,
                forall|p: int|
                    0 <= p < n ==> (#[trigger] seen@[p] <==> exists|j: int|
                        0 <= j < k && #[trigger] wanted[j] == before.videos[p].id),
                forall|a: int, b: int| 0 <= a < b < k ==> wanted[a] != wanted[b],
                forall|j: int| 0 <= j < k ==> before.video_ids().contains(#[trigger] wanted[j]),
                forall|j: int|
                    0 <= j < k ==> (#[trigger] entries@[j])@ == EntryRow::fresh(j, wanted[j]),
            decreases n - k,
        {
            let video_id = order[k];
            assert(wanted[k as int] == video_id);
            match self.find_video_by_id(video_id) {
                None => {
                    proof {
                        if before.video_ids().contains(wanted[k as int]) {
                            let i = choose|i: int|
                                0 <= i < before.video_ids().len() && before.video_ids()[i]
                                    == wanted[k as int];
                            assert(before.videos[i].id == video_id);
                        }
                    }
                    return Err(Error::StorageIO);
                },
                Some(p) => {
                    assert(before.videos[p as int].id == video_id);
                    if seen[p] {
                        proof {
                            let j = choose|j: int|
                                0 <= j < k && #[trigger] wanted[j] == before.videos[p as int].id;
                            assert(wanted[j] == wanted[k as int]);
                        }
                        return Err(Error::StorageIO);
                    }
                    let ghost seen_before = seen@;
                    seen.set(p, true);
                    entries.push(
                        PlaylistEntry {
                            id: (k + 1) as i64,
                            video_id,
                            status: PlaylistEntryStatus::Unplayed.to_string(),
                            file_path: None,
                            last_progress: None,
                        },
                    );
                    proof {
                        assert(before.video_ids()[p as int] == video_id);
                        assert forall|q: int| 0 <= q < n implies (#[trigger] seen@[q] <==> exists|
                            j: int,
                        | 0 <= j < k + 1 && #[trigger] wanted[j] == before.videos[q].id) by {
                            if q == p {
                                assert(wanted[k as int] == before.videos[q].id);
                            } else {
                                if q < p {
                                    assert(before.videos[q].id < before.videos[p as int].id);
                                } else {
                                    assert(before.videos[p as int].id < before.videos[q].id);
                                }
                                assert(seen@[q] == seen_before[q]);
                                if seen_before[q] {
                                    let j = choose|j: int|
                                        0 <= j < k && #[trigger] wanted[j] == before.videos[q].id;
                                    assert(0 <= j < k + 1 && wanted[j] == before.videos[q].id);
                                }
                            }
                        }
                        assert forall|a: int, b: int| 0 <= a < b < k + 1 implies wanted[a]
                            != wanted[b] by {
                            if b == k && wanted[a] == wanted[b] {
                                assert(0 <= a < k && wanted[a] == before.videos[p as int].id);
                                assert(seen_before[p as int]);
                            }
                        }
                    }
                },
            }
            k += 1;
        }
        let active: Option<i64> = if n > 0 {
            Some(1)
        } else {
            None
        };
        proof {
            assert(before.is_shuffle(wanted));
            before.lemma_rebuild_wf(wanted);
            assert(entry_rows(entries@) =~= before.rebuild(wanted).entries);
            PlaylistEntryStatus::lemma_text_round_trip();
        }
        core::mem::swap(&mut self.entries, &mut entries);
        self.active = active;
        Ok(())
    }

    /// Marks the playlist entry of the video `identifier` as being
    /// downloaded.
    ///
    /// Allowed on an Unplayed entry, and on a Pending one whose download is
    /// queued again: a download that failed leaves its entry Pending, and is
    /// tried again only when it is queued again. `NotFound` without such a
    /// video or entry; `InvalidState` for any other status, or a status text
    /// that names none. A failure changes nothing.
    pub fn set_video_pending(&mut self, identifier: &str) -> (res: Result<(), Error>)
        ensures
            final(self)@.wf(),
            match old(self)@.mark_pending(identifier@) {
                Ok(s) => res == Ok::<(), Error>(()) && final(self)@ == s,
                Err(e) => res == Err::<(), Error>(e) && final(self)@ == old(self)@,
            },
    {
        proof {
            use_type_invariant(&*self);
            PlaylistEntryStatus::lemma_text_round_trip();
        }
        let k = match self.find_entry_for(identifier) {
            Some(k) => k,
            None => {
                return Err(Error::NotFound);
            },
        };
        let current = &self.entries[k];
        assert(current@ == self@.entries[k as int]);
        match current.parsed_status() {
            Ok(PlaylistEntryStatus::Unplayed) | Ok(PlaylistEntryStatus::Pending) => {
                let entry = PlaylistEntry {
                    id: current.id,
                    video_id: current.video_id,
                    status: PlaylistEntryStatus::Pending.to_string(),
                    file_path: clone_opt_text(&current.file_path),
                    last_progress: current.last_progress,
                };
                self.replace_entry(k, entry);
                Ok(())
            },
            _ => Err(Error::InvalidState),
        }
    }

    /// Records that the video `identifier` is on disk at `file_path`.
    ///
    /// Allowed on a Pending entry only: the entry becomes Downloaded and
    /// keeps the path. `NotFound` without such a video or entry;
    /// `InvalidState` for an entry in any other status, or with a status text
    /// that names none. A failure changes nothing.
    pub fn set_video_downloaded(&mut self, identifier: &str, file_path: String) -> (res: Result<
        (),
        Error,
    >)
        ensures
            final(self)@.wf(),
            match old(self)@.mark_downloaded(identifier@, file_path@) {
                Ok(s) => res == Ok::<(), Error>(()) && final(self)@ == s,
                Err(e) => res == Err::<(), Error>(e) && final(self)@ == old(self)@,
            },
    {
        proof {
            use_type_invariant(&*self);
            PlaylistEntryStatus::lemma_text_round_trip();
        }
        let k = match self.find_entry_for(identifier) {
            Some(k) => k,
            None => {
                return Err(Error::NotFound);
            },
        };
        let current = &self.entries[k];
        assert(current@ == self@.entries[k as int]);
        match current.parsed_status() {
            Ok(PlaylistEntryStatus::Pending) => {
                let entry = PlaylistEntry {
                    id: current.id,
                    video_id: current.video_id,
                    status: PlaylistEntryStatus::Downloaded.to_string(),
                    file_path: Some(file_path),
                    last_progress: current.last_progress,
                };
                self.replace_entry(k, entry);
                Ok(())
            },
            _ => Err(Error::InvalidState),
        }
    }

    /// Position of the entry that the pointer names.
    fn find_pointer(&self) -> (res: Option<usize>)
        ensures
            self@.wf(),
            match res {
                Some(k) => k < self.entries.len() && self@.pointer_index() == Some(k as int),
                None => self@.pointer_index() is None,
            },
    {
        proof {
            use_type_invariant(self);
        }
        match self.active {
            Some(id) => self.find_entry_by_id(id),
            None => None,
        }
    }

    /// The entry that plays now.
    ///
    /// `Ok(None)` says that an entry is queued under the pointer but does not
    /// play yet. `NotFound` says that nothing is queued: the pointer is not
    /// set, or names no entry. `InvalidState` says that the entry's status
    /// text names no status.
    pub fn current_video(&self) -> (res: Result<Option<PlaylistEntry>, Error>)
        ensures
            entry_outcome(res) == self@.current(),
    {
        let k = match self.find_pointer() {
            Some(k) => k,
            None => {
                return Err(Error::NotFound);
            },
        };
        let entry = &self.entries[k];
        assert(entry@ == self@.entries[k as int]);
        match entry.parsed_status() {
            Err(e) => Err(e),
            Ok(PlaylistEntryStatus::Active) => Ok(Some(entry.clone())),
            Ok(_) => Ok(None),
        }
    }

    /// The look-ahead queue: the first `count` Unplayed entries in ascending
    /// id order, or all of them if there are fewer.
    pub fn peek_next_videos(&self, count: usize) -> (next: Vec<PlaylistEntry>)
        ensures
            entry_rows(next@) == self@.peek(count as nat),
    {
        let ghost s = self@;
        let mut next: Vec<PlaylistEntry> = Vec::new();
        let mut i: usize = 0;
        proof {
            PlaylistEntryStatus::lemma_text_round_trip();
            reveal(Seq::filter);
            assert(s.entries.take(0).filter(is_unplayed()) =~= Seq::<EntryRow>::empty());
            assert(entry_rows(next@) =~= Seq::<EntryRow>::empty());
        }
        while i < self.entries.len() && next.len() < count
            invariant
                i <= self.entries.len(),
                s == self@,
                next.len() <= count,
                entry_rows(next@) == s.entries.take(i as int).filter(is_unplayed()),
            decreases self.entries.len() - i,
        {
            let entry = &self.entries[i];
            let ghost found = entry_rows(next@);
            proof {
                PlaylistEntryStatus::lemma_text_round_trip();
                reveal(Seq::filter);
                assert(entry@ == s.entries[i as int]);
                assert(s.entries.take(i as int + 1).drop_last() =~= s.entries.take(i as int));
                assert(s.entries.take(i as int + 1).last() == entry@);
            }
            if str_eq(entry.status.as_str(), "unplayed") {
                next.push(entry.clone());
                proof {
                    assert(is_unplayed()(entry@));
                    assert(entry_rows(next@) =~= found.push(entry@));
                }
            } else {
                proof {
                    assert(!is_unplayed()(entry@));
                }
            }
            i += 1;
        }
        proof {
            let front = s.entries.take(i as int);
            let back = s.entries.skip(i as int);
            assert(front + back =~= s.entries);
            Seq::filter_distributes_over_add(front, back, is_unplayed());
            let all = s.unplayed();
            assert(all == front.filter(is_unplayed()) + back.filter(is_unplayed()));
            if i == self.entries.len() {
                assert(back.filter(is_unplayed()) =~= Seq::<EntryRow>::empty()) by {
                    reveal(Seq::filter);
                }
                assert(all =~= entry_rows(next@));
                if count <= all.len() {
                    assert(all.take(count as int) =~= all);
                }
            } else {
                assert(next.len() == count);
                assert(all.take(count as int) =~= entry_rows(next@));
            }
        }
        next
    }

    /// The queue for the encoder: the entry under the pointer and the
    /// entries that follow it by id, as far as they are on disk without a
    /// gap. The entry under the pointer may be the one that plays; the others
    /// are Downloaded.
    ///
    /// The queue is empty when nothing is under the pointer. Fails with
    /// `InvalidState` when the entry at which the queue ends has a status
    /// text that names no status.
    pub fn ready_to_play(&self) -> (res: Result<Vec<PlaylistEntry>, Error>)
        ensures
            match self@.ready() {
                Ok(queue) => res matches Ok(entries) && entry_rows(entries@) == queue,
                Err(e) => res matches Err(err) && err == e,
            },
    {
        proof {
            PlaylistEntryStatus::lemma_text_round_trip();
        }
        let ghost s = self@;
        let mut queue: Vec<PlaylistEntry> = Vec::new();
        let k = match self.find_pointer() {
            Some(k) => k,
            None => {
                assert(entry_rows(queue@) =~= Seq::<EntryRow>::empty());
                return Ok(queue);
            },
        };
        let mut i: usize = k;
        proof {
            assert(entry_rows(queue@) =~= s.entries.subrange(k as int, k as int));
        }
        while i < self.entries.len()
            invariant
                k <= i <= self.entries.len(),
                s == self@,
                s.pointer_index() == Some(k as int),
                entry_rows(queue@) == s.entries.subrange(k as int, i as int),
                s.ready_count(k as int, true) == (i - k) + s.ready_count(i as int, i == k),
            decreases self.entries.len() - i,
        {
            let entry = &self.entries[i];
            assert(entry@ == s.entries[i as int]);
            let ready = match entry.parsed_status() {
                Err(e) => {
                    return Err(e);
                },
                Ok(PlaylistEntryStatus::Downloaded) => true,
                Ok(PlaylistEntryStatus::Active) => i == k,
                Ok(_) => false,
            };
            if !ready {
                return Ok(queue);
            }
            let ghost before = entry_rows(queue@);
            queue.push(entry.clone());
            proof {
                assert(entry_rows(queue@) =~= before.push(entry@));
                assert(entry_rows(queue@) =~= s.entries.subrange(k as int, i as int + 1));
            }
            i += 1;
        }
        Ok(queue)
    }

    /// Starts playback: a Downloaded entry under the pointer becomes Active.
    ///
    /// The result is the entry that plays after the call: the entry that was
    /// started, or the entry that was Active already. It is `None`, and
    /// nothing changes, while the entry under the pointer is not on disk yet
    /// or is Finished. `NotFound` says that nothing is queued: the pointer is
    /// not set, or names no entry. `InvalidState` says that the entry's
    /// status text names no status.
    pub fn start_current_video(&mut self) -> (res: Result<Option<PlaylistEntry>, Error>)
        ensures
            final(self)@.wf(),
            match old(self)@.start() {
                Ok((s, playing)) => final(self)@ == s && entry_outcome(res) == Ok::<
                    Option<EntryRow>,
                    Error,
                >(playing),
                Err(e) => final(self)@ == old(self)@ && entry_outcome(res) == Err::<
                    Option<EntryRow>,
                    Error,
                >(e),
            },
    {
        proof {
            use_type_invariant(&*self);
            PlaylistEntryStatus::lemma_text_round_trip();
            self@.lemma_start_wf();
        }
        let ghost before = self@;
        let k = match self.find_pointer() {
            Some(k) => k,
            None => {
                return Err(Error::NotFound);
            },
        };
        let current = self.entries[k].clone();
        assert(current@ == before.entries[k as int]);
        match current.parsed_status() {
            Err(e) => Err(e),
            Ok(PlaylistEntryStatus::Downloaded) => {
                let playing = PlaylistEntry {
                    id: current.id,
                    video_id: current.video_id,
                    status: PlaylistEntryStatus::Active.to_string(),
                    file_path: current.file_path,
                    last_progress: current.last_progress,
                };
                let started = playing.clone();
                self.replace_entry(k, playing);
                Ok(Some(started))
            },
            Ok(PlaylistEntryStatus::Active) => Ok(Some(current)),
            Ok(_) => Ok(None),
        }
    }

    /// One step of playback: finishes the current entry, the entry under the
    /// pointer when it is Active, moves the pointer to the entry that follows
    /// it by id, and starts that entry if it is Downloaded.
    ///
    /// The result is the entry that this step started. It is `None` when
    /// there is no next video: there is no current entry, in which case
    /// nothing changes; the entry that follows is not Downloaded yet; or the
    /// playlist is exhausted. Fails with `InvalidState`, changing nothing, on
    /// a status text that names no status.
    pub fn move_to_next_video(&mut self) -> (res: Result<Option<PlaylistEntry>, Error>)
        ensures
            final(self)@.wf(),
            match old(self)@.advance() {
                Ok((s, started)) => final(self)@ == s && entry_outcome(res) == Ok::<
                    Option<EntryRow>,
                    Error,
                >(started),
                Err(e) => entry_outcome(res) == Err::<Option<EntryRow>, Error>(e) && final(self)@
                    == old(self)@,
            },
    {
        proof {
            use_type_invariant(&*self);
            PlaylistEntryStatus::lemma_text_round_trip();
            self@.lemma_advance_wf();
        }
        let ghost before = self@;
        let k = match self.find_pointer() {
            Some(k) => k,
            None => {
                return Ok(None);
            },
        };
        let current = self.entries[k].clone();
        assert(current@ == before.entries[k as int]);
        match current.parsed_status() {
            Err(e) => Err(e),
            Ok(PlaylistEntryStatus::Active) => {
                let following = if k + 1 < self.entries.len() {
                    let next = self.entries[k + 1].clone();
                    assert(next@ == before.entries[k as int + 1]);
                    match next.parsed_status() {
                        Err(e) => {
                            return Err(e);
                        },
                        Ok(status) => Some((next, status)),
                    }
                } else {
                    None
                };
                let done = PlaylistEntry {
                    id: current.id,
                    video_id: current.video_id,
                    status: PlaylistEntryStatus::Finished.to_string(),
                    file_path: current.file_path,
                    last_progress: current.last_progress,
                };
                assert(done@ == before.entries[k as int].with_state(PlaylistEntryStatus::Finished));
                self.replace_entry(k, done);
                let ghost finished = self@;
                match following {
                    None => Ok(None),
                    Some((next, status)) => {
                        proof {
                            assert forall|i: int| 0 <= i < finished.entries.len() implies (
                            #[trigger] finished.entries[i]).state() != Some(
                                PlaylistEntryStatus::Active,
                            ) by {
                                if i != k {
                                    assert(finished.entries[i] == before.entries[i]);
                                    if i < k {
                                        assert(before.entries[i].id < before.entries[k as int].id);
                                    } else {
                                        assert(before.entries[k as int].id < before.entries[i].id);
                                    }
                                }
                            }
                        }
                        self.active = Some(next.id);
                        match status {
                            PlaylistEntryStatus::Downloaded => {
                                let playing = PlaylistEntry {
                                    id: next.id,
                                    video_id: next.video_id,
                                    status: PlaylistEntryStatus::Active.to_string(),
                                    file_path: next.file_path,
                                    last_progress: next.last_progress,
                                };
                                let started = playing.clone();
                                self.replace_entry(k + 1, playing);
                                Ok(Some(started))
                            },
                            _ => Ok(None),
                        }
                    },
                }
            },
            Ok(_) => Ok(None),
        }
    }

    /// The catalog row with the id `id`, or `NotFound`.
    pub fn fetch_video(&self, id: i64) -> (res: Result<GbVideo, Error>)
        ensures
            match self@.video_by_id(id as int) {
                Some(k) => res matches Ok(video) && video@ == self@.videos[k],
                None => res matches Err(e) && e == Error::NotFound,
            },
    {
        match self.find_video_by_id(id) {
            Some(k) => {
                assert(self.videos@[k as int]@ == self@.videos[k as int]);
                Ok(self.videos[k].clone())
            },
            None => Err(Error::NotFound),
        }
    }

    /// The catalog row that the draw `pick` selects: the row at position
    /// `pick` modulo the number of rows. `NotFound` on an empty catalog.
    pub fn random_video(&self, pick: usize) -> (res: Result<GbVideo, Error>)
        ensures
            self@.videos.len() == 0 ==> (res matches Err(e) && e == Error::NotFound),
            self@.videos.len() > 0 ==> (res matches Ok(video) && video@ == self@.videos[pick as int
                % self@.videos.len() as int]),
    {
        if self.videos.len() == 0 {
            return Err(Error::NotFound);
        }
        let k = pick % self.videos.len();
        assert(self.videos@[k as int]@ == self@.videos[k as int]);
        Ok(self.videos[k].clone())
    }
}

impl Database {
    /// Resolves a reference to a video into the identifier under which it
    /// is downloaded and, where the catalog has the video, the id of its row.
    ///
    /// A row id that names no catalog row gives `NotFound`. An archive
    /// identifier stands for itself, whether or not the catalog has it yet.
    pub fn resolve(&self, id: &VideoId) -> (res: Result<ResolvedVideo, Error>)
        ensures
            match self@.resolve(id@) {
                Ok(resolution) => res matches Ok(resolved) && resolved@ == resolution,
                Err(e) => res matches Err(err) && err == e,
            },
    {
        match id {
            VideoId::IaIdentifier(identifier) => {
                let video_id = match self.find_video_by_identifier(identifier.as_str()) {
                    Some(k) => {
                        assert(self@.videos[k as int].id == self.videos[k as int].id);
                        Some(self.videos[k].id)
                    },
                    None => None,
                };
                Ok(ResolvedVideo { identifier: identifier.clone(), video_id })
            },
            VideoId::DatabaseId(row) => match self.find_video_by_id(*row) {
                Some(k) => {
                    assert(self@.videos[k as int].identifier == self.videos[k as int].identifier@);
                    Ok(
                        ResolvedVideo {
                            identifier: self.videos[k].identifier.clone(),
                            video_id: Some(*row),
                        },
                    )
                },
                None => Err(Error::NotFound),
            },
        }
    }
}

} // verus!
