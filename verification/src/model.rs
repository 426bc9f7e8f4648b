//! The store as a mathematical value: the catalog rows, the playlist entries
//! and the pointer to the active entry, with the transitions that the
//! operations of [`crate::db::Database`] perform on them.

use vstd::prelude::*;
use crate::db::PlaylistEntryStatus;
use crate::error::Error;
use crate::ia::CatalogItem;

verus! {

/// One catalog row.
pub struct VideoRow {
    pub id: int,
    pub date: Option<Seq<char>>,
    pub description: Option<Seq<char>>,
    pub title: Seq<char>,
    pub item_size: Option<int>,
    pub identifier: Seq<char>,
    pub external_identifier: Option<Seq<char>>,
    pub collections: Option<Seq<Seq<char>>>,
    pub creator: Option<Seq<char>>,
}

/// One playlist entry. The status is kept as the text that is persisted.
pub struct EntryRow {
    pub id: int,
    pub video_id: int,
    pub status: Seq<char>,
    pub file_path: Option<Seq<char>>,
    pub last_progress: Option<int>,
}

/// The whole store: catalog rows and playlist entries in ascending id order,
/// and the id of the entry that plays or is about to play.
pub struct Store {
    pub videos: Seq<VideoRow>,
    pub entries: Seq<EntryRow>,
    pub active: Option<int>,
}

/// An unsigned size as the signed 64-bit column holds it.
pub open spec fn stored_size(n: nat) -> int {
    if n <= i64::MAX {
        n as int
    } else {
        n - 0x1_0000_0000_0000_0000
    }
}

/// The test for status Unplayed.
pub open spec fn is_unplayed() -> spec_fn(EntryRow) -> bool {
    |e: EntryRow| e.state() == Some(PlaylistEntryStatus::Unplayed)
}

impl CatalogItem {
    /// The catalog row that this item becomes under the id `id`.
    pub open spec fn row(self, id: int) -> VideoRow {
        VideoRow {
            id,
            date: self.date,
            description: self.description,
            title: self.title,
            item_size: match self.item_size {
                Some(n) => Some(stored_size(n)),
                None => None,
            },
            identifier: self.identifier,
            external_identifier: self.external_identifier,
            collections: self.collections,
            creator: self.creator,
        }
    }
}

impl EntryRow {
    /// The status that the persisted text names, if it names one.
    pub open spec fn state(self) -> Option<PlaylistEntryStatus> {
        PlaylistEntryStatus::parse(self.status)
    }

    /// This entry with its status replaced.
    pub open spec fn with_state(self, status: PlaylistEntryStatus) -> EntryRow {
        EntryRow { status: status.text(), ..self }
    }

    /// This entry as downloaded to `file_path`.
    pub open spec fn downloaded_to(self, file_path: Seq<char>) -> EntryRow {
        EntryRow {
            status: PlaylistEntryStatus::Downloaded.text(),
            file_path: Some(file_path),
            ..self
        }
    }

    /// The entry created at position `position` (from zero) of a new playlist.
    pub open spec fn fresh(position: int, video_id: int) -> EntryRow {
        EntryRow {
            id: position + 1,
            video_id,
            status: PlaylistEntryStatus::Unplayed.text(),
            file_path: None,
            last_progress: None,
        }
    }
}

impl Store {
    /// The store with no rows.
    pub open spec fn empty() -> Store {
        Store { videos: Seq::empty(), entries: Seq::empty(), active: None }
    }

    /// Ids ascend strictly and start at one, no two catalog rows share an
    /// identifier, and an entry with status Active is the one the pointer names.
    pub open spec fn wf(self) -> bool {
        &&& forall|i: int| 0 <= i < self.videos.len() ==> (#[trigger] self.videos[i]).id >= 1
        &&& forall|i: int, j: int|
            0 <= i < j < self.videos.len() ==> (#[trigger] self.videos[i]).id < (
            #[trigger] self.videos[j]).id
        &&& forall|i: int, j: int|
            0 <= i < j < self.videos.len() ==> (#[trigger] self.videos[i]).identifier != (
            #[trigger] self.videos[j]).identifier
        &&& forall|i: int| 0 <= i < self.entries.len() ==> (#[trigger] self.entries[i]).id >= 1
        &&& forall|i: int, j: int|
            0 <= i < j < self.entries.len() ==> (#[trigger] self.entries[i]).id < (
            #[trigger] self.entries[j]).id
        &&& forall|i: int|
            0 <= i < self.entries.len() && (#[trigger] self.entries[i]).state() == Some(
                PlaylistEntryStatus::Active,
            ) ==> self.active == Some(self.entries[i].id)
    }

    /// Every catalog id fits the signed 64-bit id column.
    pub open spec fn ids_fit(self) -> bool {
        forall|i: int| 0 <= i < self.videos.len() ==> (#[trigger] self.videos[i]).id <= i64::MAX
    }

    /// The ids of the catalog rows, in order.
    pub open spec fn video_ids(self) -> Seq<int> {
        Seq::new(self.videos.len(), |i: int| self.videos[i].id)
    }

    /// The video ids that the playlist entries reference, in playlist order.
    pub open spec fn scheduled(self) -> Seq<int> {
        Seq::new(self.entries.len(), |i: int| self.entries[i].video_id)
    }

    /// Whether the catalog holds a row with this identifier.
    pub open spec fn has_identifier(self, identifier: Seq<char>) -> bool {
        exists|i: int|
            0 <= i < self.videos.len() && (#[trigger] self.videos[i]).identifier == identifier
    }

    /// Whether exactly one catalog row carries this identifier.
    pub open spec fn has_exactly_one(self, identifier: Seq<char>) -> bool {
        exists|k: int|
            0 <= k < self.videos.len() && (#[trigger] self.videos[k]).identifier == identifier
                && forall|j: int|
                0 <= j < self.videos.len() && j != k ==> (#[trigger] self.videos[j]).identifier
                    != identifier
    }

    /// The id that the next inserted catalog row gets.
    pub open spec fn next_video_id(self) -> int {
        if self.videos.len() == 0 {
            1
        } else {
            self.videos.last().id + 1
        }
    }

    /// Insert-if-absent of one item, keyed on its identifier.
    pub open spec fn insert_item(self, item: CatalogItem) -> Store {
        if self.has_identifier(item.identifier) {
            self
        } else {
            Store { videos: self.videos.push(item.row(self.next_video_id())), ..self }
        }
    }

    /// Insert-if-absent of a batch, item by item in order.
    pub open spec fn insert_items(self, items: Seq<CatalogItem>) -> Store
        decreases items.len(),
    {
        if items.len() == 0 {
            self
        } else {
            self.insert_items(items.drop_last()).insert_item(items.last())
        }
    }

    /// Position of the catalog row with this identifier.
    pub open spec fn video_by_identifier(self, identifier: Seq<char>) -> Option<int> {
        if self.has_identifier(identifier) {
            Some(
                choose|i: int|
                    0 <= i < self.videos.len() && (#[trigger] self.videos[i]).identifier
                        == identifier,
            )
        } else {
            None
        }
    }

    /// Position of the catalog row with this id.
    pub open spec fn video_by_id(self, id: int) -> Option<int> {
        if exists|i: int| 0 <= i < self.videos.len() && (#[trigger] self.videos[i]).id == id {
            Some(choose|i: int| 0 <= i < self.videos.len() && (#[trigger] self.videos[i]).id == id)
        } else {
            None
        }
    }

    /// Position of the playlist entry with this id.
    pub open spec fn entry_by_id(self, id: int) -> Option<int> {
        if exists|i: int| 0 <= i < self.entries.len() && (#[trigger] self.entries[i]).id == id {
            Some(
                choose|i: int| 0 <= i < self.entries.len() && (#[trigger] self.entries[i]).id == id,
            )
        } else {
            None
        }
    }

    /// Whether `k` is the position of the first entry that references `video_id`.
    pub open spec fn is_first_entry_of(self, k: int, video_id: int) -> bool {
        &&& 0 <= k < self.entries.len()
        &&& self.entries[k].video_id == video_id
        &&& forall|j: int| 0 <= j < k ==> (#[trigger] self.entries[j]).video_id != video_id
    }

    /// Position of the first playlist entry that references `video_id`.
    pub open spec fn entry_of_video(self, video_id: int) -> Option<int> {
        if exists|k: int| self.is_first_entry_of(k, video_id) {
            Some(choose|k: int| self.is_first_entry_of(k, video_id))
        } else {
            None
        }
    }

    /// Position of the playlist entry that schedules the video with this identifier.
    pub open spec fn entry_for(self, identifier: Seq<char>) -> Option<int> {
        match self.video_by_identifier(identifier) {
            Some(v) => self.entry_of_video(self.videos[v].id),
            None => None,
        }
    }

    /// Position of the entry that the pointer names.
    pub open spec fn pointer_index(self) -> Option<int> {
        match self.active {
            Some(id) => self.entry_by_id(id),
            None => None,
        }
    }

    /// The store with entry `k` replaced.
    pub open spec fn with_entry(self, k: int, entry: EntryRow) -> Store {
        Store { entries: self.entries.update(k, entry), ..self }
    }

    /// Whether `order` lists every catalog id exactly once.
    pub open spec fn is_shuffle(self, order: Seq<int>) -> bool {
        &&& order.len() == self.videos.len()
        &&& order.no_duplicates()
        &&& forall|k: int| 0 <= k < order.len() ==> self.video_ids().contains(#[trigger] order[k])
    }

    /// A new playlist over `order`: the old entries and pointer are gone, one
    /// Unplayed entry per listed video, the pointer on the first of them.
    pub open spec fn rebuild(self, order: Seq<int>) -> Store {
        Store {
            videos: self.videos,
            entries: Seq::new(order.len(), |k: int| EntryRow::fresh(k, order[k])),
            active: if order.len() > 0 {
                Some(1)
            } else {
                None
            },
        }
    }

    /// Marks the entry of the video `identifier` Pending. Allowed from Unplayed,
    /// and from Pending itself when a download is queued again.
    pub open spec fn mark_pending(self, identifier: Seq<char>) -> Result<Store, Error> {
        match self.entry_for(identifier) {
            None => Err(Error::NotFound),
            Some(k) => match self.entries[k].state() {
                Some(PlaylistEntryStatus::Unplayed) | Some(PlaylistEntryStatus::Pending) => Ok(
                    self.with_entry(k, self.entries[k].with_state(PlaylistEntryStatus::Pending)),
                ),
                _ => Err(Error::InvalidState),
            },
        }
    }

    /// Marks the entry of the video `identifier` Downloaded to `file_path`.
    /// Allowed from Pending only.
    pub open spec fn mark_downloaded(self, identifier: Seq<char>, file_path: Seq<char>) -> Result<
        Store,
        Error,
    > {
        match self.entry_for(identifier) {
            None => Err(Error::NotFound),
            Some(k) => match self.entries[k].state() {
                Some(PlaylistEntryStatus::Pending) => Ok(
                    self.with_entry(k, self.entries[k].downloaded_to(file_path)),
                ),
                _ => Err(Error::InvalidState),
            },
        }
    }

    /// The entry that plays now: the pointer's entry when its status is Active.
    pub open spec fn current(self) -> Result<Option<EntryRow>, Error> {
        match self.pointer_index() {
            None => Err(Error::NotFound),
            Some(k) => match self.entries[k].state() {
                None => Err(Error::InvalidState),
                Some(PlaylistEntryStatus::Active) => Ok(Some(self.entries[k])),
                Some(_) => Ok(None),
            },
        }
    }

    /// The entries with status Unplayed, in ascending id order.
    pub open spec fn unplayed(self) -> Seq<EntryRow> {
        self.entries.filter(is_unplayed())
    }

    /// The first `count` Unplayed entries, or all of them if there are fewer.
    pub open spec fn peek(self, count: nat) -> Seq<EntryRow> {
        let unplayed = self.unplayed();
        if count <= unplayed.len() {
            unplayed.take(count as int)
        } else {
            unplayed
        }
    }

    /// The start of playback: a Downloaded entry under the pointer becomes
    /// Active. The result is the entry that plays afterwards; an entry that
    /// is Active already stays as it is, and an entry in any other status
    /// does not play.
    pub open spec fn start(self) -> Result<(Store, Option<EntryRow>), Error> {
        match self.pointer_index() {
            None => Err(Error::NotFound),
            Some(k) => match self.entries[k].state() {
                None => Err(Error::InvalidState),
                Some(PlaylistEntryStatus::Downloaded) => {
                    let playing = self.entries[k].with_state(PlaylistEntryStatus::Active);
                    Ok((self.with_entry(k, playing), Some(playing)))
                },
                Some(PlaylistEntryStatus::Active) => Ok((self, Some(self.entries[k]))),
                Some(_) => Ok((self, None)),
            },
        }
    }

    /// One step of playback.
    ///
    /// The current entry, the entry under the pointer when it is Active,
    /// becomes Finished and the pointer moves to the entry that follows it by
    /// id, if there is one. That entry becomes Active if it is Downloaded, and
    /// is then the result. Without a current entry nothing changes.
    pub open spec fn advance(self) -> Result<(Store, Option<EntryRow>), Error> {
        match self.pointer_index() {
            None => Ok((self, None)),
            Some(k) => match self.entries[k].state() {
                None => Err(Error::InvalidState),
                Some(PlaylistEntryStatus::Active) => {
                    let finished = self.with_entry(
                        k,
                        self.entries[k].with_state(PlaylistEntryStatus::Finished),
                    );
                    if k + 1 < self.entries.len() {
                        let next = self.entries[k + 1];
                        match next.state() {
                            None => Err(Error::InvalidState),
                            Some(PlaylistEntryStatus::Downloaded) => {
                                let playing = next.with_state(PlaylistEntryStatus::Active);
                                Ok(
                                    (
                                        Store {
                                            active: Some(next.id),
                                            ..finished.with_entry(k + 1, playing)
                                        },
                                        Some(playing),
                                    ),
                                )
                            },
                            Some(_) => Ok((Store { active: Some(next.id), ..finished }, None)),
                        }
                    } else {
                        Ok((finished, None))
                    }
                },
                Some(_) => Ok((self, None)),
            },
        }
    }
}

impl Store {
    /// Inserting an item keeps the store well formed, leaves the playlist
    /// alone, and afterwards the item's identifier is present.
    pub proof fn lemma_insert_item(self, item: CatalogItem)
        requires
            self.wf(),
        ensures
            self.insert_item(item).wf(),
            self.insert_item(item).entries == self.entries,
            self.insert_item(item).active == self.active,
            self.insert_item(item).has_identifier(item.identifier),
            self.videos.is_prefix_of(self.insert_item(item).videos),
    {
        let after = self.insert_item(item);
        if !self.has_identifier(item.identifier) {
            let n = self.videos.len() as int;
            assert(after.videos[n].identifier == item.identifier);
            assert forall|i: int, j: int| 0 <= i < j < after.videos.len() implies (
            #[trigger] after.videos[i]).id < (#[trigger] after.videos[j]).id by {
                if j == n && n > 0 {
                    assert(self.videos[i].id <= self.videos[n - 1].id);
                }
            }
            assert forall|i: int, j: int| 0 <= i < j < after.videos.len() implies (
            #[trigger] after.videos[i]).identifier != (#[trigger] after.videos[j]).identifier by {
                if j == n {
                    assert(self.videos[i].identifier != item.identifier);
                }
            }
            assert forall|i: int| 0 <= i < after.videos.len() implies (
            #[trigger] after.videos[i]).id >= 1 by {
                if i == n && n > 0 {
                    assert(self.videos[n - 1].id >= 1);
                }
            }
        }
    }

    /// Inserting a batch keeps the store well formed, leaves the playlist
    /// alone and only ever adds rows behind the ones that were there.
    pub proof fn lemma_insert_items(self, items: Seq<CatalogItem>)
        requires
            self.wf(),
        ensures
            self.insert_items(items).wf(),
            self.insert_items(items).entries == self.entries,
            self.insert_items(items).active == self.active,
            self.videos.is_prefix_of(self.insert_items(items).videos),
        decreases items.len(),
    {
        if items.len() > 0 {
            self.lemma_insert_items(items.drop_last());
            self.insert_items(items.drop_last()).lemma_insert_item(items.last());
        }
    }

    /// A batch is inserted item by item: the first `j + 1` items are the
    /// first `j` items followed by item `j`.
    pub proof fn lemma_insert_items_step(self, items: Seq<CatalogItem>, j: int)
        requires
            0 <= j < items.len(),
        ensures
            self.insert_items(items.take(j + 1)) == self.insert_items(items.take(j)).insert_item(
                items[j],
            ),
    {
        assert(items.take(j + 1).drop_last() =~= items.take(j));
    }

    /// The rows present after the first `j` items of a batch are still
    /// there, in the same places, after the whole batch.
    pub proof fn lemma_insert_items_extends(self, items: Seq<CatalogItem>, j: int)
        requires
            self.wf(),
            0 <= j <= items.len(),
        ensures
            self.insert_items(items.take(j)).videos.is_prefix_of(self.insert_items(items).videos),
        decreases items.len(),
    {
        if j == items.len() {
            assert(items.take(j) =~= items);
        } else {
            let front = items.drop_last();
            self.lemma_insert_items_extends(front, j);
            assert(front.take(j) =~= items.take(j));
            self.lemma_insert_items(front);
            self.insert_items(front).lemma_insert_item(items.last());
        }
    }

    /// Idempotence of ingestion: an item that is ingested a second time
    /// changes nothing, and exactly one row carries its identifier.
    pub proof fn lemma_insert_item_idempotent(self, item: CatalogItem)
        requires
            self.wf(),
        ensures
            self.insert_item(item).insert_item(item) == self.insert_item(item),
            self.insert_item(item).has_exactly_one(item.identifier),
    {
        self.lemma_insert_item(item);
        let after = self.insert_item(item);
        let k = choose|k: int|
            0 <= k < after.videos.len() && (#[trigger] after.videos[k]).identifier
                == item.identifier;
        assert forall|j: int| 0 <= j < after.videos.len() && j != k implies (
        #[trigger] after.videos[j]).identifier != item.identifier by {
            if j < k {
                assert(after.videos[j].identifier != after.videos[k].identifier);
            } else {
                assert(after.videos[k].identifier != after.videos[j].identifier);
            }
        }
    }

    /// A batch whose identifiers are all present changes nothing.
    pub proof fn lemma_insert_present_items(self, items: Seq<CatalogItem>)
        requires
            forall|i: int|
                0 <= i < items.len() ==> self.has_identifier((#[trigger] items[i]).identifier),
        ensures
            self.insert_items(items) == self,
        decreases items.len(),
    {
        if items.len() > 0 {
            let front = items.drop_last();
            assert forall|i: int| 0 <= i < front.len() implies self.has_identifier(
                (#[trigger] front[i]).identifier,
            ) by {
                assert(front[i] == items[i]);
            }
            self.lemma_insert_present_items(front);
            assert(self.has_identifier(items[items.len() - 1].identifier));
        }
    }

    /// After a batch every one of its identifiers is present.
    pub proof fn lemma_inserted_items_present(self, items: Seq<CatalogItem>, i: int)
        requires
            self.wf(),
            0 <= i < items.len(),
        ensures
            self.insert_items(items).has_identifier(items[i].identifier),
        decreases items.len(),
    {
        let front = items.drop_last();
        self.lemma_insert_items(front);
        let mid = self.insert_items(front);
        mid.lemma_insert_item(items.last());
        if i < items.len() - 1 {
            self.lemma_inserted_items_present(front, i);
            assert(front[i] == items[i]);
            let k = choose|k: int|
                0 <= k < mid.videos.len() && (#[trigger] mid.videos[k]).identifier
                    == items[i].identifier;
            assert(mid.insert_item(items.last()).videos[k] == mid.videos[k]);
        }
    }

    /// Idempotence of ingestion for batches: a batch that is ingested a
    /// second time changes nothing.
    pub proof fn lemma_insert_items_idempotent(self, items: Seq<CatalogItem>)
        requires
            self.wf(),
        ensures
            self.insert_items(items).insert_items(items) == self.insert_items(items),
    {
        let after = self.insert_items(items);
        assert forall|i: int| 0 <= i < items.len() implies after.has_identifier(
            (#[trigger] items[i]).identifier,
        ) by {
            self.lemma_inserted_items_present(items, i);
        }
        after.lemma_insert_present_items(items);
    }
}

impl Store {
    /// The row at position `i` has an id of at least `i + 1`.
    pub proof fn lemma_video_id_bound(self, i: int)
        requires
            self.wf(),
            0 <= i < self.videos.len(),
        ensures
            self.videos[i].id >= i + 1,
        decreases i,
    {
        if i > 0 {
            self.lemma_video_id_bound(i - 1);
            assert(self.videos[i - 1].id < self.videos[i].id);
        }
    }

    /// Replacing an entry by one with the same id keeps the store well
    /// formed, as long as the new entry is not Active or is the pointer's.
    pub proof fn lemma_with_entry_wf(self, k: int, entry: EntryRow)
        requires
            self.wf(),
            0 <= k < self.entries.len(),
            entry.id == self.entries[k].id,
            entry.state() == Some(PlaylistEntryStatus::Active) ==> self.active == Some(entry.id),
        ensures
            self.with_entry(k, entry).wf(),
    {
        let after = self.with_entry(k, entry);
        assert forall|i: int| 0 <= i < after.entries.len() implies (#[trigger] after.entries[i]).id
            == self.entries[i].id by {}
        assert forall|i: int, j: int| 0 <= i < j < after.entries.len() implies (
        #[trigger] after.entries[i]).id < (#[trigger] after.entries[j]).id by {
            assert(self.entries[i].id < self.entries[j].id);
        }
        assert forall|i: int|
            0 <= i < after.entries.len() && (#[trigger] after.entries[i]).state() == Some(
                PlaylistEntryStatus::Active,
            ) implies after.active == Some(after.entries[i].id) by {
            if i != k {
                assert(after.entries[i] == self.entries[i]);
            }
        }
    }

    /// A rebuilt playlist is well formed.
    pub proof fn lemma_rebuild_wf(self, order: Seq<int>)
        requires
            self.wf(),
        ensures
            self.rebuild(order).wf(),
    {
        PlaylistEntryStatus::lemma_text_round_trip();
        let after = self.rebuild(order);
        assert forall|i: int| 0 <= i < after.entries.len() implies (
        #[trigger] after.entries[i]).state() == Some(PlaylistEntryStatus::Unplayed) by {}
    }

    /// Marking an entry Pending or Downloaded keeps the store well formed.
    pub proof fn lemma_mark_wf(self, identifier: Seq<char>, file_path: Seq<char>)
        requires
            self.wf(),
        ensures
            self.mark_pending(identifier) matches Ok(s) ==> s.wf(),
            self.mark_downloaded(identifier, file_path) matches Ok(s) ==> s.wf(),
    {
        PlaylistEntryStatus::lemma_text_round_trip();
        if self.entry_for(identifier) is Some {
            let k = self.entry_for(identifier)->0;
            self.lemma_entry_for_in_range(identifier);
            if self.mark_pending(identifier) is Ok {
                self.lemma_with_entry_wf(
                    k,
                    self.entries[k].with_state(PlaylistEntryStatus::Pending),
                );
            }
            if self.mark_downloaded(identifier, file_path) is Ok {
                self.lemma_with_entry_wf(k, self.entries[k].downloaded_to(file_path));
            }
        }
    }

    /// The entry of a video, where there is one, is an entry of the playlist
    /// and references that video.
    pub proof fn lemma_entry_for_in_range(self, identifier: Seq<char>)
        ensures
            self.entry_for(identifier) matches Some(k) ==> {
                &&& 0 <= k < self.entries.len()
                &&& self.video_by_identifier(identifier) matches Some(v)
                &&& 0 <= v < self.videos.len()
                &&& self.videos[v].identifier == identifier
                &&& self.entries[k].video_id == self.videos[v].id
            },
    {
        if self.entry_for(identifier) is Some {
            let v = self.video_by_identifier(identifier)->0;
            let k = self.entry_of_video(self.videos[v].id)->0;
            assert(self.is_first_entry_of(k, self.videos[v].id));
        }
    }

    /// The entry under the pointer, where there is one, is an entry of the
    /// playlist with the id that the pointer holds.
    pub proof fn lemma_pointer_in_range(self)
        ensures
            self.pointer_index() matches Some(k) ==> 0 <= k < self.entries.len() && self.active
                == Some(self.entries[k].id),
    {
    }

    /// The start of playback keeps the store well formed.
    pub proof fn lemma_start_wf(self)
        requires
            self.wf(),
        ensures
            self.start() matches Ok((s, _)) ==> s.wf(),
    {
        PlaylistEntryStatus::lemma_text_round_trip();
        self.lemma_pointer_in_range();
        if self.pointer_index() is Some {
            let k = self.pointer_index()->0;
            if self.entries[k].state() == Some(PlaylistEntryStatus::Downloaded) {
                self.lemma_with_entry_wf(
                    k,
                    self.entries[k].with_state(PlaylistEntryStatus::Active),
                );
            }
        }
    }

    /// Without a current entry a step of playback changes nothing and
    /// reports that there is no next video: the pointer stays where it is
    /// and no status is touched.
    pub proof fn lemma_no_step_without_current(self)
        requires
            self.current() matches Ok(None) || (self.current() matches Err(e) && e
                == Error::NotFound),
        ensures
            self.advance() == Ok::<(Store, Option<EntryRow>), Error>((self, None)),
    {
    }

    /// A step of playback keeps the store well formed.
    pub proof fn lemma_advance_wf(self)
        requires
            self.wf(),
        ensures
            self.advance() matches Ok((s, _)) ==> s.wf(),
    {
        PlaylistEntryStatus::lemma_text_round_trip();
        self.lemma_pointer_in_range();
        if self.pointer_index() is Some && self.advance() is Ok {
            let k = self.pointer_index()->0;
            let cur = self.entries[k];
            if cur.state() == Some(PlaylistEntryStatus::Active) {
                let done = cur.with_state(PlaylistEntryStatus::Finished);
                let finished = self.with_entry(k, done);
                self.lemma_with_entry_wf(k, done);
                assert forall|i: int| 0 <= i < finished.entries.len() implies (
                #[trigger] finished.entries[i]).state() != Some(PlaylistEntryStatus::Active) by {
                    if i != k {
                        assert(finished.entries[i] == self.entries[i]);
                        if i < k {
                            assert(self.entries[i].id < self.entries[k].id);
                        } else {
                            assert(self.entries[k].id < self.entries[i].id);
                        }
                    }
                }
                if k + 1 < self.entries.len() {
                    let next = self.entries[k + 1];
                    let moved = Store { active: Some(next.id), ..finished };
                    assert(moved.wf());
                    if next.state() == Some(PlaylistEntryStatus::Downloaded) {
                        moved.lemma_with_entry_wf(
                            k + 1,
                            next.with_state(PlaylistEntryStatus::Active),
                        );
                        assert(moved.with_entry(k + 1, next.with_state(PlaylistEntryStatus::Active))
                            == self.advance()->Ok_0.0);
                    }
                }
            }
        }
    }
}

impl Store {
    /// Whether exactly one entry of the playlist is the one the pointer names.
    pub open spec fn pointer_names_one_entry(self) -> bool {
        exists|k: int|
            0 <= k < self.entries.len() && self.active == Some((#[trigger] self.entries[k]).id)
                && forall|j: int|
                0 <= j < self.entries.len() && j != k ==> self.active != Some(
                    (#[trigger] self.entries[j]).id,
                )
    }

    /// The playlist invariant after a rebuild over a non-empty catalog:
    /// exactly one entry is the one the pointer names, every entry is
    /// Unplayed, and the entries schedule every catalog row exactly once, so
    /// that the scheduled ids are a permutation of the catalog ids. The
    /// catalog itself is untouched.
    pub proof fn lemma_rebuild_invariant(self, order: Seq<int>)
        requires
            self.wf(),
            self.is_shuffle(order),
            self.videos.len() > 0,
        ensures
            self.rebuild(order).wf(),
            self.rebuild(order).videos == self.videos,
            self.rebuild(order).pointer_names_one_entry(),
            forall|i: int|
                0 <= i < self.rebuild(order).entries.len() ==> (#[trigger] self.rebuild(
                    order,
                ).entries[i]).state() == Some(PlaylistEntryStatus::Unplayed),
            self.rebuild(order).scheduled() == order,
            self.rebuild(order).scheduled().no_duplicates(),
            forall|i: int|
                0 <= i < self.videos.len() ==> self.rebuild(order).scheduled().contains(
                    (#[trigger] self.videos[i]).id,
                ),
            self.rebuild(order).scheduled().to_multiset() == self.video_ids().to_multiset(),
    {
        let after = self.rebuild(order);
        self.lemma_rebuild_wf(order);
        PlaylistEntryStatus::lemma_text_round_trip();
        assert(after.scheduled() =~= order);
        assert(after.active == Some(after.entries[0].id));
        assert forall|j: int| 0 <= j < after.entries.len() && j != 0 implies after.active != Some(
            (#[trigger] after.entries[j]).id,
        ) by {}
        self.lemma_shuffle_is_permutation(order);
    }

    /// An order that lists every catalog id exactly once lists no other id,
    /// omits none, and is a permutation of the catalog ids.
    pub proof fn lemma_shuffle_is_permutation(self, order: Seq<int>)
        requires
            self.wf(),
            self.is_shuffle(order),
        ensures
            forall|i: int|
                0 <= i < self.videos.len() ==> order.contains((#[trigger] self.videos[i]).id),
            order.to_multiset() == self.video_ids().to_multiset(),
    {
        let ids = self.video_ids();
        assert(ids.no_duplicates()) by {
            assert forall|i: int, j: int|
                0 <= i < ids.len() && 0 <= j < ids.len() && i != j implies ids[i] != ids[j] by {
                if i < j {
                    assert(self.videos[i].id < self.videos[j].id);
                } else {
                    assert(self.videos[j].id < self.videos[i].id);
                }
            }
        }
        order.unique_seq_to_set();
        ids.unique_seq_to_set();
        vstd::seq_lib::seq_to_set_is_finite(order);
        vstd::seq_lib::seq_to_set_is_finite(ids);
        assert(order.to_set().subset_of(ids.to_set())) by {
            assert forall|x: int| order.to_set().contains(x) implies ids.to_set().contains(x) by {
                let k = choose|k: int| 0 <= k < order.len() && order[k] == x;
                assert(ids.contains(order[k]));
            }
        }
        vstd::set_lib::lemma_subset_equality(order.to_set(), ids.to_set());
        assert forall|i: int| 0 <= i < self.videos.len() implies order.contains(
            (#[trigger] self.videos[i]).id,
        ) by {
            assert(ids[i] == self.videos[i].id);
            assert(ids.to_set().contains(ids[i]));
            assert(order.to_set().contains(ids[i]));
        }
        order.lemma_multiset_has_no_duplicates();
        ids.lemma_multiset_has_no_duplicates();
        order.to_multiset_ensures();
        ids.to_multiset_ensures();
        assert forall|x: int| order.to_multiset().count(x) == ids.to_multiset().count(x) by {
            assert(order.contains(x) <==> order.to_set().contains(x));
            assert(ids.contains(x) <==> ids.to_set().contains(x));
            if order.contains(x) {
                assert(order.to_multiset().contains(x));
                assert(ids.to_multiset().contains(x));
            }
        }
        assert(order.to_multiset() =~= ids.to_multiset());
    }

    /// At most one entry is Active, and the pointer names it.
    pub proof fn lemma_one_active(self, i: int, j: int)
        requires
            self.wf(),
            0 <= i < self.entries.len(),
            0 <= j < self.entries.len(),
            self.entries[i].state() == Some(PlaylistEntryStatus::Active),
            self.entries[j].state() == Some(PlaylistEntryStatus::Active),
        ensures
            i == j,
            self.pointer_index() == Some(i),
    {
        if i < j {
            assert(self.entries[i].id < self.entries[j].id);
        } else if j < i {
            assert(self.entries[j].id < self.entries[i].id);
        }
        let k = self.entry_by_id(self.entries[i].id)->0;
        if k < i {
            assert(self.entries[k].id < self.entries[i].id);
        } else if i < k {
            assert(self.entries[i].id < self.entries[k].id);
        }
    }

    /// The look-ahead queue holds at most `count` entries, all of them
    /// Unplayed entries of the playlist, in ascending id order.
    pub proof fn lemma_peek(self, count: nat)
        requires
            self.wf(),
        ensures
            self.peek(count).len() <= count,
            self.peek(count).len() <= self.entries.len(),
            forall|i: int|
                0 <= i < self.peek(count).len() ==> (#[trigger] self.peek(count)[i]).state()
                    == Some(PlaylistEntryStatus::Unplayed) && self.entries.contains(
                    self.peek(count)[i],
                ),
            forall|i: int, j: int|
                0 <= i < j < self.peek(count).len() ==> (#[trigger] self.peek(count)[i]).id < (
                #[trigger] self.peek(count)[j]).id,
    {
        let all = self.unplayed();
        self.entries.lemma_filter_len(is_unplayed());
        lemma_filter_keeps_order(self.entries);
        assert forall|i: int| 0 <= i < self.peek(count).len() implies (#[trigger] self.peek(
            count,
        )[i]) == all[i] by {}
    }

    /// Status monotonicity of downloads: recording a download for an entry
    /// that is not Pending fails with `InvalidState`.
    pub proof fn lemma_downloaded_needs_pending(self, identifier: Seq<char>, file_path: Seq<char>)
        requires
            self.entry_for(identifier) matches Some(k) && self.entries[k].state() != Some(
                PlaylistEntryStatus::Pending,
            ),
        ensures
            self.mark_downloaded(identifier, file_path) == Err::<Store, Error>(Error::InvalidState),
    {
    }

    /// Whether every entry of `self` is still there in `later`, in the same
    /// place and under the same id, with a status that is not earlier in the
    /// life of an entry than the one it had.
    pub open spec fn only_moves_forward(self, later: Store) -> bool {
        &&& later.entries.len() == self.entries.len()
        &&& forall|i: int|
            0 <= i < self.entries.len() ==> {
                &&& (#[trigger] later.entries[i]).id == self.entries[i].id
                &&& later.entries[i].video_id == self.entries[i].video_id
                &&& self.entries[i].state() matches Some(was) ==> (later.entries[i].state() matches Some(
                    is,
                ) && was.rank() <= is.rank())
            }
    }

    /// Statuses only move forward: no status update, no start and no step
    /// of playback takes an entry back to an earlier status, and none removes
    /// an entry.
    pub proof fn lemma_status_moves_forward(self, identifier: Seq<char>, file_path: Seq<char>)
        requires
            self.wf(),
        ensures
            self.mark_pending(identifier) matches Ok(s) ==> self.only_moves_forward(s),
            self.mark_downloaded(identifier, file_path) matches Ok(s) ==> self.only_moves_forward(s),
            self.start() matches Ok((s, _)) ==> self.only_moves_forward(s),
            self.advance() matches Ok((s, _)) ==> self.only_moves_forward(s),
    {
        PlaylistEntryStatus::lemma_text_round_trip();
        self.lemma_entry_for_in_range(identifier);
        self.lemma_pointer_in_range();
    }
}

impl EntryRow {
    /// Whether the entry can be handed to the encoder: it is on disk and
    /// not played yet. At the head of the queue the entry that plays counts
    /// too.
    pub open spec fn is_ready(self, head: bool) -> bool {
        self.state() == Some(PlaylistEntryStatus::Downloaded) || (head && self.state() == Some(
            PlaylistEntryStatus::Active,
        ))
    }
}

impl Store {
    /// How many entries from position `from` on are ready one after the
    /// other. `head` says whether `from` is the head of the queue.
    pub open spec fn ready_count(self, from: int, head: bool) -> nat
        decreases self.entries.len() - from,
    {
        if 0 <= from < self.entries.len() && self.entries[from].is_ready(head) {
            1 + self.ready_count(from + 1, false)
        } else {
            0
        }
    }

    /// The queue for the encoder: the entry under the pointer and the
    /// entries that follow it by id, as far as they are ready without a gap.
    /// A status text that names no status, where the queue ends, is an
    /// error.
    pub open spec fn ready(self) -> Result<Seq<EntryRow>, Error> {
        match self.pointer_index() {
            None => Ok(Seq::empty()),
            Some(k) => {
                let n = self.ready_count(k, true);
                if k + n < self.entries.len() && self.entries[k + n].state() is None {
                    Err(Error::InvalidState)
                } else {
                    Ok(self.entries.subrange(k, k + n))
                }
            },
        }
    }

    /// A run of ready entries stays within the playlist, and every entry of
    /// it is ready.
    pub proof fn lemma_ready_count(self, from: int, head: bool)
        requires
            0 <= from <= self.entries.len(),
        ensures
            from + self.ready_count(from, head) <= self.entries.len(),
            forall|j: int|
                0 <= j < self.ready_count(from, head) ==> (#[trigger] self.entries[from
                    + j]).is_ready(head && j == 0),
        decreases self.entries.len() - from,
    {
        if from < self.entries.len() && self.entries[from].is_ready(head) {
            self.lemma_ready_count(from + 1, false);
            assert forall|j: int| 0 <= j < self.ready_count(from, head) implies (
            #[trigger] self.entries[from + j]).is_ready(head && j == 0) by {
                if j > 0 {
                    assert(self.entries[from + 1 + (j - 1)].is_ready(false));
                }
            }
        }
    }

    /// The queue for the encoder only holds entries that are on disk, in
    /// playback order: by ascending id, without a gap in the playlist.
    pub proof fn lemma_ready_in_playback_order(self)
        requires
            self.wf(),
        ensures
            self.ready() matches Ok(queue) ==> {
                &&& forall|j: int|
                    0 <= j < queue.len() ==> (#[trigger] queue[j]).state() == Some(
                        PlaylistEntryStatus::Downloaded,
                    ) || queue[j].state() == Some(PlaylistEntryStatus::Active)
                &&& forall|i: int, j: int|
                    0 <= i < j < queue.len() ==> (#[trigger] queue[i]).id < (#[trigger] queue[j]).id
                &&& queue.len() > 0 ==> self.active == Some(queue[0].id)
            },
    {
        self.lemma_pointer_in_range();
        if self.pointer_index() is Some {
            let k = self.pointer_index()->0;
            self.lemma_ready_count(k, true);
            if self.ready() is Ok {
                let queue = self.ready()->Ok_0;
                assert forall|j: int| 0 <= j < queue.len() implies (#[trigger] queue[j]).state()
                    == Some(PlaylistEntryStatus::Downloaded) || queue[j].state() == Some(
                    PlaylistEntryStatus::Active,
                ) by {
                    assert(self.entries[k + j].is_ready(j == 0));
                }
                assert forall|i: int, j: int| 0 <= i < j < queue.len() implies (
                #[trigger] queue[i]).id < (#[trigger] queue[j]).id by {
                    assert(self.entries[k + i].id < self.entries[k + j].id);
                }
            }
        }
    }
}

/// A reference to a video: by its archive identifier, or by the id of its
/// catalog row.
pub enum VideoRef {
    Identifier(Seq<char>),
    Row(int),
}

/// What a reference to a video resolves to.
pub struct Resolution {
    /// The archive identifier under which the video is downloaded.
    pub identifier: Seq<char>,
    /// The id of the catalog row, where the catalog has the video.
    pub video_id: Option<int>,
}

impl Store {
    /// Resolves a reference to a video. A row id must name a catalog row; an
    /// archive identifier stands for itself, whether or not the catalog has
    /// it yet.
    pub open spec fn resolve(self, id: VideoRef) -> Result<Resolution, Error> {
        match id {
            VideoRef::Identifier(identifier) => Ok(
                Resolution {
                    identifier,
                    video_id: match self.video_by_identifier(identifier) {
                        Some(k) => Some(self.videos[k].id),
                        None => None,
                    },
                },
            ),
            VideoRef::Row(id) => match self.video_by_id(id) {
                Some(k) => Ok(
                    Resolution { identifier: self.videos[k].identifier, video_id: Some(id) },
                ),
                None => Err(Error::NotFound),
            },
        }
    }

    /// The start of a download: the reference is resolved and the entry of
    /// the video is marked Pending. The result is the identifier to fetch.
    pub open spec fn begin_download(self, id: VideoRef) -> (Store, Result<Seq<char>, Error>) {
        match self.resolve(id) {
            Err(e) => (self, Err(e)),
            Ok(resolved) => match self.mark_pending(resolved.identifier) {
                Ok(s) => (s, Ok(resolved.identifier)),
                Err(e) => (self, Err(e)),
            },
        }
    }

    /// The end of a download: a file on disk marks the entry Downloaded, a
    /// failure leaves the store as it is, with the entry still Pending.
    pub open spec fn finish_download(
        self,
        identifier: Seq<char>,
        outcome: Result<Seq<char>, Error>,
    ) -> (Store, Result<(), Error>) {
        match outcome {
            Err(e) => (self, Err(e)),
            Ok(path) => match self.mark_downloaded(identifier, path) {
                Ok(s) => (s, Ok(())),
                Err(e) => (self, Err(e)),
            },
        }
    }

    /// The start of several downloads, one after the other.
    pub open spec fn begin_downloads(self, ids: Seq<VideoRef>) -> (
        Store,
        Seq<Result<Seq<char>, Error>>,
    )
        decreases ids.len(),
    {
        if ids.len() == 0 {
            (self, Seq::empty())
        } else {
            let (before, started) = self.begin_downloads(ids.drop_last());
            let (after, last) = before.begin_download(ids.last());
            (after, started.push(last))
        }
    }

    /// The end of several downloads, one after the other: every download
    /// that succeeded is recorded, and the errors of the others are
    /// collected in order.
    pub open spec fn finish_downloads(
        self,
        outcomes: Seq<(Seq<char>, Result<Seq<char>, Error>)>,
    ) -> (Store, Seq<Error>)
        decreases outcomes.len(),
    {
        if outcomes.len() == 0 {
            (self, Seq::empty())
        } else {
            let (before, errors) = self.finish_downloads(outcomes.drop_last());
            let (after, last) = before.finish_download(outcomes.last().0, outcomes.last().1);
            match last {
                Ok(()) => (after, errors),
                Err(e) => (after, errors.push(e)),
            }
        }
    }

    /// Starting and ending downloads keeps the store well formed and never
    /// touches the catalog.
    pub proof fn lemma_download_steps_wf(
        self,
        id: VideoRef,
        identifier: Seq<char>,
        outcome: Result<Seq<char>, Error>,
    )
        requires
            self.wf(),
        ensures
            self.begin_download(id).0.wf(),
            self.begin_download(id).0.videos == self.videos,
            self.finish_download(identifier, outcome).0.wf(),
            self.finish_download(identifier, outcome).0.videos == self.videos,
    {
        if self.resolve(id) is Ok {
            self.lemma_mark_wf(self.resolve(id)->Ok_0.identifier, Seq::empty());
        }
        if outcome is Ok {
            self.lemma_mark_wf(identifier, outcome->Ok_0);
        }
    }

    /// A failed download leaves its entry Pending: the store is exactly as
    /// it was when the download started.
    pub proof fn lemma_failed_download_stays_pending(self, identifier: Seq<char>, e: Error)
        ensures
            self.finish_download(identifier, Err(e)) == (self, Err::<(), Error>(e)),
    {
    }
}

/// Filtering for Unplayed entries keeps ids in ascending order.
pub proof fn lemma_filter_keeps_order(entries: Seq<EntryRow>)
    requires
        forall|i: int, j: int|
            0 <= i < j < entries.len() ==> (#[trigger] entries[i]).id < (#[trigger] entries[j]).id,
    ensures
        forall|i: int, j: int|
            0 <= i < j < entries.filter(is_unplayed()).len() ==> (#[trigger] entries.filter(
                is_unplayed(),
            )[i]).id < (#[trigger] entries.filter(is_unplayed())[j]).id,
        forall|i: int|
            0 <= i < entries.filter(is_unplayed()).len() && entries.len() > 0 ==> (
            #[trigger] entries.filter(is_unplayed())[i]).id <= entries.last().id,
        forall|i: int|
            0 <= i < entries.filter(is_unplayed()).len() ==> (#[trigger] entries.filter(
                is_unplayed(),
            )[i]).state() == Some(PlaylistEntryStatus::Unplayed) && entries.contains(
                entries.filter(is_unplayed())[i],
            ),
    decreases entries.len(),
{
    reveal(Seq::filter);
    if entries.len() > 0 {
        let front = entries.drop_last();
        assert forall|i: int, j: int| 0 <= i < j < front.len() implies (#[trigger] front[i]).id < (
        #[trigger] front[j]).id by {
            assert(front[i] == entries[i] && front[j] == entries[j]);
        }
        lemma_filter_keeps_order(front);
        let kept = front.filter(is_unplayed());
        assert forall|i: int| 0 <= i < kept.len() implies (#[trigger] kept[i]).id
            < entries.last().id && entries.contains(kept[i]) by {
            assert(kept[i].id <= front.last().id);
            assert(front.last() == entries[entries.len() - 2]);
            let k = choose|k: int| 0 <= k < front.len() && front[k] == kept[i];
            assert(entries[k] == kept[i]);
        }
        assert(entries.contains(entries.last())) by {
            assert(entries[entries.len() - 1] == entries.last());
        }
    }
}

} // verus!
