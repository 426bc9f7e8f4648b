//! The manifest that the encoder reads: one line per video, in the order
//! in which the videos play.

use vstd::prelude::*;
use crate::db::{PlaylistEntry, PlaylistEntryStatus};
use crate::error::Error;
use crate::model::EntryRow;
use crate::text::opt_text;

verus! {

/// The file name without its extension, as the path library reads `path`;
/// `None` for a path without a file name.
pub uninterp spec fn path_stem(path: Seq<char>) -> Option<Seq<char>>;

/// The extension of the file name, as the path library reads `path`;
/// `None` for a path whose file name has none.
pub uninterp spec fn path_extension(path: Seq<char>) -> Option<Seq<char>>;

/// The path `path` with its file name replaced by `name`.
pub uninterp spec fn path_with_file_name(path: Seq<char>, name: Seq<char>) -> Seq<char>;

/// `camino::Utf8Path::file_stem`. The contract only names the result.
#[verifier::external_body]
fn file_stem(path: &str) -> (stem: Option<String>)
    ensures
        opt_text(stem) == path_stem(path@),
{
    camino::Utf8Path::new(path).file_stem().map(String::from)
}

/// `camino::Utf8Path::extension`. The contract only names the result.
#[verifier::external_body]
fn extension(path: &str) -> (ext: Option<String>)
    ensures
        opt_text(ext) == path_extension(path@),
{
    camino::Utf8Path::new(path).extension().map(String::from)
}

/// `camino::Utf8Path::with_file_name`. The contract only names the result.
#[verifier::external_body]
fn with_file_name(path: &str, name: &str) -> (renamed: String)
    ensures
        renamed@ == path_with_file_name(path@, name@),
{
    camino::Utf8Path::new(path).with_file_name(name).into_string()
}

/// The manifest line for one video file.
pub open spec fn manifest_line(path: Seq<char>) -> Seq<char> {
    "file '"@ + path + "'"@
}

/// The manifest: one line per file, in order, separated by line feeds.
pub open spec fn manifest_text(paths: Seq<Seq<char>>) -> Seq<char>
    decreases paths.len(),
{
    if paths.len() == 0 {
        Seq::empty()
    } else if paths.len() == 1 {
        manifest_line(paths[0])
    } else {
        manifest_text(paths.drop_last()) + "\n"@ + manifest_line(paths.last())
    }
}

/// The name of the temporary file for a manifest with this stem and extension.
pub open spec fn temp_file_name(stem: Seq<char>, extension: Seq<char>) -> Seq<char> {
    stem + "_temp."@ + extension
}

/// The path of the temporary file next to the manifest `path`; `None` for
/// a path without a stem or without an extension.
pub open spec fn temp_path_of(path: Seq<char>) -> Option<Seq<char>> {
    match (path_stem(path), path_extension(path)) {
        (Some(stem), Some(extension)) => Some(
            path_with_file_name(path, temp_file_name(stem, extension)),
        ),
        _ => None,
    }
}

/// The name of the temporary file for a manifest with this stem and
/// extension: `list.txt` is written as `list_temp.txt` first.
pub fn temp_name(stem: &str, extension: &str) -> (name: String)
    ensures
        name@ == temp_file_name(stem@, extension@),
{
    let mut name = stem.to_owned();
    name.append("_temp.");
    name.append(extension);
    name
}

/// A manifest to write: the content goes to `temp_path`, which is then
/// renamed to `path`, so that a reader never sees half a manifest.
#[derive(Debug, PartialEq, Eq)]
pub struct ManifestWrite {
    pub temp_path: String,
    pub content: String,
    pub path: String,
}

/// One line of the manifest: a playlist entry and its file on disk.
#[derive(Debug, PartialEq, Eq)]
pub struct ManifestEntry {
    /// The id of the playlist entry.
    pub entry_id: i64,
    /// The path of the entry's file.
    pub path: String,
}

/// The ids of the playlist entries behind the lines of a manifest, in order.
pub open spec fn entry_ids(queued: Seq<ManifestEntry>) -> Seq<int> {
    Seq::new(queued.len(), |i: int| queued[i].entry_id as int)
}

/// The files that the lines of a manifest name, in order.
pub open spec fn entry_paths(queued: Seq<ManifestEntry>) -> Seq<Seq<char>> {
    Seq::new(queued.len(), |i: int| queued[i].path@)
}

/// Whether a list of ids ascends strictly.
pub open spec fn ascending(ids: Seq<int>) -> bool {
    forall|i: int, j: int| 0 <= i < j < ids.len() ==> ids[i] < ids[j]
}

/// The manifest of the videos that are queued for the encoder.
///
/// A manifest only lists files of entries that were on disk when they were
/// added, and lists them in playback order: by ascending entry id.
#[derive(Debug)]
pub struct ConcatFile {
    path: String,
    queued: Vec<ManifestEntry>,
}

impl ConcatFile {
    #[verifier::type_invariant]
    spec fn in_playback_order(self) -> bool {
        ascending(entry_ids(self.queued@))
    }

    /// The path of the manifest.
    pub closed spec fn location(&self) -> Seq<char> {
        self.path@
    }

    /// The files that the manifest lists, in order.
    pub closed spec fn files(&self) -> Seq<Seq<char>> {
        entry_paths(self.queued@)
    }

    /// The ids of the playlist entries whose files the manifest lists, in order.
    pub closed spec fn ids(&self) -> Seq<int> {
        entry_ids(self.queued@)
    }

    /// Whether `entry` may be added: it is on disk, that is Downloaded or
    /// already Active, it has a file, and it plays after every entry that the
    /// manifest lists.
    pub open spec fn accepts(&self, entry: EntryRow) -> bool {
        &&& entry.state() == Some(PlaylistEntryStatus::Downloaded) || entry.state() == Some(
            PlaylistEntryStatus::Active,
        )
        &&& entry.file_path is Some
        &&& self.ids().len() > 0 ==> self.ids().last() < entry.id
    }

    /// An empty manifest at `path`.
    pub fn new(path: String) -> (manifest: ConcatFile)
        ensures
            manifest.location() == path@,
            manifest.files() == Seq::<Seq<char>>::empty(),
            manifest.ids() == Seq::<int>::empty(),
    {
        let manifest = ConcatFile { path, queued: Vec::new() };
        assert(manifest.files() =~= Seq::<Seq<char>>::empty());
        assert(manifest.ids() =~= Seq::<int>::empty());
        manifest
    }

    /// The lines of the manifest: entry ids and files, in playback order.
    pub fn queued(&self) -> (queued: &Vec<ManifestEntry>)
        ensures
            entry_ids(queued@) == self.ids(),
            entry_paths(queued@) == self.files(),
            ascending(self.ids()),
    {
        proof {
            use_type_invariant(self);
        }
        &self.queued
    }

    /// The text of the manifest.
    pub fn file_content(&self) -> (content: String)
        ensures
            content@ == manifest_text(self.files()),
    {
        let mut content = String::new();
        let mut i: usize = 0;
        let ghost files = entry_paths(self.queued@);
        assert(files.take(0) =~= Seq::<Seq<char>>::empty());
        while i < self.queued.len()
            invariant
                i <= self.queued.len(),
                files == entry_paths(self.queued@),
                content@ == manifest_text(files.take(i as int)),
            decreases self.queued.len() - i,
        {
            let ghost before = content@;
            if i > 0 {
                content.append("\n");
            }
            content.append("file '");
            content.append(self.queued[i].path.as_str());
            content.append("'");
            proof {
                let seen = files.take(i as int + 1);
                assert(seen.drop_last() =~= files.take(i as int));
                assert(seen.last() == self.queued@[i as int].path@);
                if i == 0 {
                    assert(before =~= Seq::<char>::empty());
                    assert(seen[0] == seen.last());
                    assert(content@ =~= manifest_line(seen[0]));
                } else {
                    assert(content@ =~= before + "\n"@ + manifest_line(seen.last()));
                }
            }
            i += 1;
        }
        assert(files.take(i as int) =~= files);
        content
    }

    /// Adds the file of `entry` at the end of the manifest and says what to
    /// write where.
    ///
    /// Fails with `InvalidState` when the entry may not be added: it is not
    /// on disk yet, it is Finished, it has no file, or it does not play after the
    /// entries that are listed. Fails with `FilesystemIO` when the
    /// manifest's own path has no stem or no extension to name the temporary
    /// file by. A failure changes nothing.
    pub fn append_video(&mut self, entry: &PlaylistEntry) -> (res: Result<ManifestWrite, Error>)
        ensures
            final(self).location() == old(self).location(),
            ascending(final(self).ids()),
            res is Err ==> final(self).files() == old(self).files() && final(self).ids() == old(
                self,
            ).ids(),
            !old(self).accepts(entry@) ==> (res matches Err(e) && e == Error::InvalidState),
            old(self).accepts(entry@) ==> match temp_path_of(old(self).location()) {
                Some(temp) => final(self).files() == old(self).files().push(
                    entry@.file_path->0,
                ) && final(self).ids() == old(self).ids().push(entry@.id) && (
                res matches Ok(write) && write.temp_path@ == temp && write.content@ == manifest_text(
                    final(self).files(),
                ) && write.path@ == old(self).location()),
                None => res matches Err(e) && e == Error::FilesystemIO,
            },
    {
        proof {
            use_type_invariant(&*self);
        }
        let on_disk = match entry.parsed_status() {
            Ok(PlaylistEntryStatus::Downloaded) | Ok(PlaylistEntryStatus::Active) => true,
            _ => false,
        };
        let in_order = self.queued.len() == 0 || self.queued[self.queued.len() - 1].entry_id
            < entry.id;
        assert(self.queued.len() > 0 ==> self.ids().last() == self.queued@[self.queued.len()
            - 1].entry_id);
        if !on_disk || !in_order {
            return Err(Error::InvalidState);
        }
        let file = match &entry.file_path {
            Some(file) => file.clone(),
            None => {
                return Err(Error::InvalidState);
            },
        };
        let stem = file_stem(self.path.as_str());
        let ext = extension(self.path.as_str());
        match (stem, ext) {
            (Some(stem), Some(ext)) => {
                let name = temp_name(stem.as_str(), ext.as_str());
                let temp_path = with_file_name(self.path.as_str(), name.as_str());
                let ghost before = self.queued@;
                let mut queued: Vec<ManifestEntry> = Vec::new();
                core::mem::swap(&mut self.queued, &mut queued);
                queued.push(ManifestEntry { entry_id: entry.id, path: file });
                proof {
                    assert(entry_ids(queued@) =~= entry_ids(before).push(entry@.id));
                    assert(entry_paths(queued@) =~= entry_paths(before).push(entry@.file_path->0));
                    assert forall|i: int, j: int| 0 <= i < j < entry_ids(queued@).len() implies entry_ids(
                        queued@,
                    )[i] < entry_ids(queued@)[j] by {
                        if j == before.len() {
                            if i < before.len() - 1 {
                                assert(entry_ids(before)[i] < entry_ids(before)[before.len() - 1]);
                            }
                        } else {
                            assert(entry_ids(before)[i] < entry_ids(before)[j]);
                        }
                    }
                }
                core::mem::swap(&mut self.queued, &mut queued);
                let content = self.file_content();
                Ok(ManifestWrite { temp_path, content, path: self.path.clone() })
            },
            _ => Err(Error::FilesystemIO),
        }
    }
}

} // verus!
