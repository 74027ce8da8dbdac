//! The index snapshot that the request layer reads from.
use vstd::prelude::*;

use crate::folders::{MediaFolder, folders_view, is_newest_first};
use crate::items::{
    FolderItems, MediaItem, ScannedFile, all_distinct, discover_media_folders, indexed_items, is_proper_listing,
    items_view, lemma_indexed_paths_distinct, lemma_map_entries_nonempty, lemma_map_folder_listed,
    lemma_map_folders_distinct, lemma_map_paths_indexed, map_view, media_map_of, paths_of, strings_view,
};
use crate::metadata::{enriched, exif_enrich_media_items, exif_view};

verus! {

/// The folder list, the item index and the folder-to-items map, built once
/// and read afterwards.
pub struct GxData {
    pub data_path: String,
    pub cache_path: String,
    pub media_folders: Vec<MediaFolder>,
    pub media_items: Vec<MediaItem>,
    pub media_map: Vec<FolderItems>,
}

pub open spec fn folder_paths(fs: Seq<MediaFolder>) -> Seq<Seq<char>> {
    fs.map_values(|f: MediaFolder| f.path@)
}

/// The items of the first map entry for `key`, if there is one.
pub open spec fn find_folder(m: Seq<(Seq<char>, Seq<Seq<char>>)>, key: Seq<char>) -> Option<Seq<Seq<char>>>
    decreases m.len(),
{
    if m.len() == 0 {
        None
    } else if m[0].0 == key {
        Some(m[0].1)
    } else {
        find_folder(m.drop_first(), key)
    }
}

/// Each listed folder that has items, with its first item as its preview,
/// in the order of the folder list.
pub open spec fn list_data(folders: Seq<MediaFolder>, m: Seq<(Seq<char>, Seq<Seq<char>>)>) -> Seq<(Seq<char>, Seq<char>)>
    decreases folders.len(),
{
    if folders.len() == 0 {
        Seq::empty()
    } else {
        let rest = list_data(folders.drop_last(), m);
        let f = folders.last().path@;
        match find_folder(m, f) {
            Some(items) => if items.len() > 0 {
                rest.push((f, items[0]))
            } else {
                rest
            },
            None => rest,
        }
    }
}

pub open spec fn pairs_view(v: Seq<(String, String)>) -> Seq<(Seq<char>, Seq<char>)> {
    v.map_values(|p: (String, String)| (p.0@, p.1@))
}

/// Each path paired with itself: the identifier and the link of an item.
pub open spec fn self_pairs(items: Seq<Seq<char>>) -> Seq<(Seq<char>, Seq<char>)> {
    items.map_values(|p: Seq<char>| (p, p))
}

proof fn lemma_find_folder_entry(m: Seq<(Seq<char>, Seq<Seq<char>>)>, key: Seq<char>)
    requires
        find_folder(m, key) is Some,
    ensures
        exists|a: int| 0 <= a < m.len() && #[trigger] m[a].1 == find_folder(m, key)->0,
    decreases m.len(),
{
    if m[0].0 != key {
        lemma_find_folder_entry(m.drop_first(), key);
        let a = choose|a: int| 0 <= a < m.drop_first().len() && #[trigger] m.drop_first()[a].1 == find_folder(m.drop_first(), key)->0;
        assert(m[a + 1] == m.drop_first()[a]);
    } else {
        assert(m[0].1 == find_folder(m, key)->0);
    }
}

proof fn lemma_list_data_entry(folders: Seq<MediaFolder>, m: Seq<(Seq<char>, Seq<Seq<char>>)>, i: int)
    requires
        0 <= i < list_data(folders, m).len(),
    ensures
        folder_paths(folders).contains(list_data(folders, m)[i].0),
        exists|a: int|
            0 <= a < m.len() && m[a].1.len() > 0 && #[trigger] m[a].1[0] == list_data(folders, m)[i].1,
    decreases folders.len(),
{
    let pre = folders.drop_last();
    let n = folders.len() - 1;
    if i < list_data(pre, m).len() {
        lemma_list_data_entry(pre, m, i);
        let c = choose|c: int| 0 <= c < folder_paths(pre).len() && folder_paths(pre)[c] == list_data(pre, m)[i].0;
        assert(folder_paths(folders)[c] == folder_paths(pre)[c]);
    } else {
        let f = folders[n].path@;
        assert(folder_paths(folders)[n] == f);
        lemma_find_folder_entry(m, f);
    }
}

impl GxData {
    /// The snapshot is well formed: folders newest first; item paths and map
    /// folders are keys, each present once; each map entry names one of the
    /// folders and lists at least one item, each an indexed item.
    pub open spec fn wf(&self) -> bool {
        let m = map_view(self.media_map@);
        &&& is_newest_first(folders_view(self.media_folders@))
        &&& all_distinct(paths_of(items_view(self.media_items@)))
        &&& all_distinct(m.map_values(|e: (Seq<char>, Seq<Seq<char>>)| e.0))
        &&& forall|a: int|
            0 <= a < m.len() ==> (#[trigger] m[a]).1.len() > 0 && folder_paths(self.media_folders@).contains(m[a].0)
        &&& forall|a: int, b: int|
            0 <= a < m.len() && 0 <= b < m[a].1.len() ==> paths_of(items_view(self.media_items@)).contains(
                #[trigger] m[a].1[b],
            )
    }
}

/// The position of the first map entry for `key`.
fn find_entry(map: &Vec<FolderItems>, key: &String) -> (r: Option<usize>)
    ensures
        match r {
            Some(i) => i < map@.len() && find_folder(map_view(map@), key@) == Some(strings_view(map@[i as int].items@)),
            None => find_folder(map_view(map@), key@) is None,
        },
{
    let mut i: usize = 0;
    assert(map_view(map@).subrange(0, map_view(map@).len() as int) == map_view(map@));
    while i < map.len()
        invariant
            i <= map@.len(),
            find_folder(map_view(map@), key@) == find_folder(map_view(map@).subrange(i as int, map@.len() as int), key@),
        decreases map.len() - i,
    {
        let ghost rest = map_view(map@).subrange(i as int, map@.len() as int);
        assert(rest.drop_first() == map_view(map@).subrange(i + 1, map@.len() as int));
        if map[i].folder == *key {
            return Some(i);
        }
        i += 1;
    }
    None
}

impl GxData {
    /// Builds the snapshot from the media folders, newest first, and the
    /// listing of each (`scans[i]` lists `media_folders[i]`): items and map are
    /// those of `discover_media_folders`, with no EXIF data yet. Folder paths
    /// are distinct and each listing has distinct names without `/`, as a file
    /// system gives them.
    pub fn new(data_path: String, cache_path: String, media_folders: Vec<MediaFolder>, scans: &Vec<Vec<ScannedFile>>) -> (r:
        GxData)
        requires
            scans@.len() == media_folders@.len(),
            is_newest_first(folders_view(media_folders@)),
            all_distinct(folder_paths(media_folders@)),
            forall|i: int| 0 <= i < scans@.len() ==> is_proper_listing(#[trigger] scans@[i]@),
        ensures
            r.wf(),
            r.data_path == data_path,
            r.cache_path == cache_path,
            r.media_folders == media_folders,
            items_view(r.media_items@) == indexed_items(media_folders@, scans@),
            map_view(r.media_map@) == media_map_of(media_folders@, scans@),
            forall|k: int| 0 <= k < r.media_items@.len() ==> (#[trigger] r.media_items@[k]).exif is None,
    {
        let index = discover_media_folders(&media_folders, scans);
        let r = GxData { data_path, cache_path, media_folders, media_items: index.items, media_map: index.map };
        proof {
            let m = map_view(r.media_map@);
            lemma_indexed_paths_distinct(r.media_folders@, scans@);
            lemma_map_folders_distinct(r.media_folders@, scans@);
            assert forall|a: int| 0 <= a < m.len() implies (#[trigger] m[a]).1.len() > 0 && folder_paths(
                r.media_folders@,
            ).contains(m[a].0) by {
                lemma_map_entries_nonempty(r.media_folders@, scans@, a);
                lemma_map_folder_listed(r.media_folders@, scans@, a);
            }
            assert forall|a: int, b: int| 0 <= a < m.len() && 0 <= b < m[a].1.len() implies paths_of(
                items_view(r.media_items@),
            ).contains(#[trigger] m[a].1[b]) by {
                lemma_map_paths_indexed(r.media_folders@, scans@, a, b);
            }
        }
        r
    }

    /// Attaches EXIF data to every item, as `exif_enrich_media_items` does;
    /// the snapshot stays well formed.
    pub fn enrich(&mut self, contents: &Vec<Option<Vec<u8>>>)
        requires
            old(self).wf(),
            contents@.len() == old(self).media_items@.len(),
        ensures
            final(self).wf(),
            final(self).data_path == old(self).data_path,
            final(self).cache_path == old(self).cache_path,
            final(self).media_folders == old(self).media_folders,
            final(self).media_map == old(self).media_map,
            items_view(final(self).media_items@) == items_view(old(self).media_items@),
            forall|k: int|
                0 <= k < final(self).media_items@.len() ==> exif_view((#[trigger] final(self).media_items@[k]).exif)
                    == enriched(contents@[k]),
    {
        exif_enrich_media_items(&mut self.media_items, contents);
        assert(items_view(self.media_items@) =~= items_view(old(self).media_items@));
    }

    /// The landing-page grid: each folder with items, with its first item,
    /// most recent folder first.
    pub fn build_list_data(&self) -> (r: Vec<(String, String)>)
        ensures
            pairs_view(r@) == list_data(self.media_folders@, map_view(self.media_map@)),
            self.wf() ==> forall|i: int|
                0 <= i < r@.len() ==> folder_paths(self.media_folders@).contains((#[trigger] r@[i]).0@) && paths_of(
                    items_view(self.media_items@),
                ).contains(r@[i].1@),
    {
        let mut out: Vec<(String, String)> = Vec::new();
        let mut i: usize = 0;
        assert(pairs_view(out@) == Seq::<(Seq<char>, Seq<char>)>::empty());
        assert(self.media_folders@.subrange(0, 0).len() == 0);
        while i < self.media_folders.len()
            invariant
                i <= self.media_folders@.len(),
                pairs_view(out@) == list_data(self.media_folders@.subrange(0, i as int), map_view(self.media_map@)),
            decreases self.media_folders.len() - i,
        {
            let folder = &self.media_folders[i].path;
            let ghost pre = self.media_folders@.subrange(0, i as int);
            assert(self.media_folders@.subrange(0, i + 1).drop_last() == pre);
            if let Some(j) = find_entry(&self.media_map, folder) {
                let items = &self.media_map[j].items;
                assert(strings_view(items@).len() == items@.len());
                if items.len() > 0 {
                    let ghost before = out@;
                    let first = items[0].clone();
                    out.push((folder.clone(), first));
                    assert(pairs_view(out@) == pairs_view(before).push((folder@, strings_view(items@)[0])));
                }
            }
            i += 1;
        }
        assert(self.media_folders@.subrange(0, self.media_folders@.len() as int) == self.media_folders@);
        proof {
            if self.wf() {
                let m = map_view(self.media_map@);
                assert forall|i: int| 0 <= i < out@.len() implies folder_paths(self.media_folders@).contains(
                    (#[trigger] out@[i]).0@,
                ) && paths_of(items_view(self.media_items@)).contains(out@[i].1@) by {
                    assert(pairs_view(out@)[i] == (out@[i].0@, out@[i].1@));
                    lemma_list_data_entry(self.media_folders@, m, i);
                    let a = choose|a: int|
                        0 <= a < m.len() && m[a].1.len() > 0 && #[trigger] m[a].1[0] == list_data(
                            self.media_folders@,
                            m,
                        )[i].1;
                    assert(paths_of(items_view(self.media_items@)).contains(m[a].1[0]));
                }
            }
        }
        out
    }

    /// The items of one folder, each as identifier and link; `None` for a
    /// folder that has no entry in the map.
    pub fn build_folder_data(&self, folder: &str) -> (r: Option<Vec<(String, String)>>)
        ensures
            match find_folder(map_view(self.media_map@), folder@) {
                None => r is None,
                Some(items) => r is Some && pairs_view(r->0@) == self_pairs(items),
            },
    {
        let key = String::from_str(folder);
        let j = match find_entry(&self.media_map, &key) {
            Some(j) => j,
            None => return None,
        };
        let items = &self.media_map[j].items;
        let mut out: Vec<(String, String)> = Vec::new();
        let mut k: usize = 0;
        while k < items.len()
            invariant
                k <= items@.len(),
                pairs_view(out@) == self_pairs(strings_view(items@).subrange(0, k as int)),
            decreases items.len() - k,
        {
            let ghost before = out@;
            out.push((items[k].clone(), items[k].clone()));
            assert(pairs_view(out@) == pairs_view(before).push((items@[k as int]@, items@[k as int]@)));
            assert(strings_view(items@).subrange(0, k + 1) == strings_view(items@).subrange(0, k as int).push(items@[k as int]@));
            k += 1;
        }
        assert(strings_view(items@).subrange(0, items@.len() as int) == strings_view(items@));
        Some(out)
    }

    /// Whether `path` is an indexed item, the condition for serving its
    /// thumbnail.
    pub fn has_item(&self, path: &str) -> (r: bool)
        ensures
            r == exists|k: int| 0 <= k < self.media_items@.len() && (#[trigger] self.media_items@[k]).path@ == path@,
    {
        let key = String::from_str(path);
        let mut k: usize = 0;
        while k < self.media_items.len()
            invariant
                k <= self.media_items@.len(),
                key@ == path@,
                forall|j: int| 0 <= j < k ==> (#[trigger] self.media_items@[j]).path@ != path@,
            decreases self.media_items.len() - k,
        {
            if self.media_items[k].path == key {
                return true;
            }
            k += 1;
        }
        false
    }
}

} // verus!
