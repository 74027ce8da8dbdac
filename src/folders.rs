//! Directory entries as the caller reports them, and the discovery of
//! date-named media folders among them.
use vstd::prelude::*;

use crate::date::{
    CalendarDate, date_lt, date_of_name, is_media_folder_name, lemma_date_determines_name, parse_media_folder_name,
};

verus! {

broadcast use {vstd::seq_lib::to_multiset_build, vstd::seq_lib::to_multiset_insert};

/// What the file system reports of an entry.
#[derive(Clone, Copy, Debug, PartialEq, Eq, Structural)]
pub struct FileMeta {
    pub is_dir: bool,
    pub len: u64,
    /// Seconds since the Unix epoch, where the file system reports it.
    pub modified_secs: Option<u64>,
}

/// One entry of a directory listing whose metadata could be read.
#[derive(Clone, Debug)]
pub struct DirEntry {
    pub name: String,
    pub meta: FileMeta,
}

/// A folder of the data root named after the day its photos were taken.
#[derive(Clone, Debug)]
pub struct MediaFolder {
    pub path: String,
    pub date: CalendarDate,
}

pub open spec fn folder_view(f: MediaFolder) -> (Seq<char>, CalendarDate) {
    (f.path@, f.date)
}

pub open spec fn folders_view(fs: Seq<MediaFolder>) -> Seq<(Seq<char>, CalendarDate)> {
    fs.map_values(|f: MediaFolder| folder_view(f))
}

/// An entry counts as a media folder when it is a directory with a date name.
pub open spec fn is_media_folder_entry(e: DirEntry) -> bool {
    e.meta.is_dir && is_media_folder_name(e.name@)
}

/// The media folders among `entries`, in listing order, each with the root
/// put in front of its name.
pub open spec fn media_folders_in(root: Seq<char>, entries: Seq<DirEntry>) -> Seq<(Seq<char>, CalendarDate)>
    decreases entries.len(),
{
    if entries.len() == 0 {
        Seq::empty()
    } else {
        let rest = media_folders_in(root, entries.drop_last());
        let e = entries.last();
        if is_media_folder_entry(e) {
            rest.push((root + e.name@, date_of_name(e.name@)))
        } else {
            rest
        }
    }
}

/// Most recent first.
pub open spec fn is_newest_first(fs: Seq<(Seq<char>, CalendarDate)>) -> bool {
    forall|i: int, j: int| 0 <= i < j < fs.len() ==> !date_lt(#[trigger] fs[i].1, #[trigger] fs[j].1)
}

/// Picks the media folders out of a listing of the data root and orders them
/// most recent first. The result holds each media folder of the listing once,
/// with its path (the root followed by the name) and its date.
pub fn find_media_folders(data_path: &str, entries: &Vec<DirEntry>) -> (r: Vec<MediaFolder>)
    ensures
        is_newest_first(folders_view(r@)),
        folders_view(r@).to_multiset() == media_folders_in(data_path@, entries@).to_multiset(),
{
    let mut out: Vec<MediaFolder> = Vec::new();
    let mut i: usize = 0;
    assert(folders_view(out@) == Seq::<(Seq<char>, CalendarDate)>::empty());
    assert(entries@.subrange(0, 0).len() == 0);
    while i < entries.len()
        invariant
            i <= entries@.len(),
            is_newest_first(folders_view(out@)),
            folders_view(out@).to_multiset() == media_folders_in(data_path@, entries@.subrange(0, i as int)).to_multiset(),
        decreases entries.len() - i,
    {
        let e = &entries[i];
        assert(entries@.subrange(0, i + 1).drop_last() == entries@.subrange(0, i as int));
        if e.meta.is_dir {
            if let Some(date) = parse_media_folder_name(e.name.as_str()) {
                let mut path = String::from_str(data_path);
                path.append(e.name.as_str());
                let folder = MediaFolder { path, date };
                let j = insert_position(&out, &date);
                let ghost before = folders_view(out@);
                out.insert(j, folder);
                assert(folders_view(out@) == before.insert(j as int, folder_view(folder)));
                proof {
                    assert forall|a: int, b: int| 0 <= a < b < folders_view(out@).len() implies !date_lt(
                        #[trigger] folders_view(out@)[a].1,
                        #[trigger] folders_view(out@)[b].1,
                    ) by {
                        if a < j && b > j {
                            assert(folders_view(out@)[b] == before[b - 1]);
                        }
                        if b > j && a > j {
                            assert(folders_view(out@)[a] == before[a - 1]);
                            assert(folders_view(out@)[b] == before[b - 1]);
                        }
                    }
                }
            }
        }
        i += 1;
    }
    assert(entries@.subrange(0, entries@.len() as int) == entries@);
    out
}

/// The place for a new folder: after every folder at least as recent, so that
/// folders of the same day keep their listing order.
fn insert_position(out: &Vec<MediaFolder>, date: &CalendarDate) -> (j: usize)
    requires
        is_newest_first(folders_view(out@)),
    ensures
        j <= out@.len(),
        forall|k: int| 0 <= k < j ==> !date_lt(#[trigger] out@[k].date, *date),
        forall|k: int| j <= k < out@.len() ==> date_lt(#[trigger] out@[k].date, *date),
{
    let mut j: usize = 0;
    while j < out.len()
        invariant
            j <= out@.len(),
            is_newest_first(folders_view(out@)),
            forall|k: int| 0 <= k < j ==> !date_lt(#[trigger] out@[k].date, *date),
        decreases out.len() - j,
    {
        if date_before(&out[j].date, date) {
            proof {
                assert forall|k: int| j <= k < out@.len() implies date_lt(#[trigger] out@[k].date, *date) by {
                    if k > j {
                        assert(folders_view(out@)[j as int].1 == out@[j as int].date);
                        assert(folders_view(out@)[k].1 == out@[k].date);
                    }
                }
            }
            return j;
        }
        j += 1;
    }
    j
}

/// Whether `a` is an earlier day than `b`.
fn date_before(a: &CalendarDate, b: &CalendarDate) -> (r: bool)
    ensures
        r == date_lt(*a, *b),
{
    a.year < b.year || (a.year == b.year && (a.month < b.month || (a.month == b.month && a.day < b.day)))
}

proof fn lemma_media_folder_shape(root: Seq<char>, entries: Seq<DirEntry>, k: int)
    requires
        0 <= k < media_folders_in(root, entries).len(),
    ensures
        exists|name: Seq<char>|
            is_media_folder_name(name) && #[trigger] media_folders_in(root, entries)[k] == (root + name, date_of_name(name)),
    decreases entries.len(),
{
    let rest = media_folders_in(root, entries.drop_last());
    if k < rest.len() {
        lemma_media_folder_shape(root, entries.drop_last(), k);
    } else {
        let name = entries.last().name@;
        assert(media_folders_in(root, entries)[k] == (root + name, date_of_name(name)));
    }
}

/// Two media folders of one listing with the same date are the same folder,
/// so ordering by date leaves nothing to break ties on.
pub proof fn lemma_same_day_same_folder(root: Seq<char>, entries: Seq<DirEntry>, a: int, b: int)
    requires
        0 <= a < media_folders_in(root, entries).len(),
        0 <= b < media_folders_in(root, entries).len(),
        media_folders_in(root, entries)[a].1 == media_folders_in(root, entries)[b].1,
    ensures
        media_folders_in(root, entries)[a] == media_folders_in(root, entries)[b],
{
    lemma_media_folder_shape(root, entries, a);
    lemma_media_folder_shape(root, entries, b);
    let fs = media_folders_in(root, entries);
    let na = choose|name: Seq<char>| is_media_folder_name(name) && #[trigger] fs[a] == (root + name, date_of_name(name));
    let nb = choose|name: Seq<char>| is_media_folder_name(name) && #[trigger] fs[b] == (root + name, date_of_name(name));
    lemma_date_determines_name(na, nb);
}

} // verus!
