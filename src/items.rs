//! Discovery of the image files inside the media folders, and the index that
//! records them.
use vstd::prelude::*;

use crate::folders::{FileMeta, MediaFolder};
use crate::names::{is_image_file, is_image_name};

verus! {

/// One entry of a media folder's listing. `head` holds the leading bytes of
/// the file (up to sixteen) where they could be read; the caller reads them
/// only for names that `is_image_file` accepts.
#[derive(Clone, Debug)]
pub struct ScannedFile {
    pub name: String,
    pub meta: FileMeta,
    pub head: Option<Vec<u8>>,
}

/// One decoded EXIF field: its tag number, the directory it came from, and
/// its value as text.
#[derive(Clone, Debug)]
pub struct ExifField {
    pub tag: u16,
    pub ifd: u16,
    pub value: String,
}

/// An indexed image, keyed by its full path.
#[derive(Clone, Debug)]
pub struct MediaItem {
    pub path: String,
    pub meta: FileMeta,
    pub exif: Option<Vec<ExifField>>,
}

/// The images of one folder, in listing order.
#[derive(Clone, Debug)]
pub struct FolderItems {
    pub folder: String,
    pub items: Vec<String>,
}

/// The item index and the folder-to-items map built by discovery.
#[derive(Clone, Debug)]
pub struct MediaIndex {
    pub items: Vec<MediaItem>,
    pub map: Vec<FolderItems>,
}

pub open spec fn starts_with(s: Seq<u8>, p: Seq<u8>) -> bool {
    p.len() <= s.len() && s.subrange(0, p.len() as int) == p
}

pub open spec fn png_signature() -> Seq<u8> {
    seq![0x89u8, 0x50, 0x4e, 0x47, 0x0d, 0x0a, 0x1a, 0x0a]
}

pub open spec fn jpeg_signature() -> Seq<u8> {
    seq![0xffu8, 0xd8, 0xff]
}

pub open spec fn gif89a_signature() -> Seq<u8> {
    seq![0x47u8, 0x49, 0x46, 0x38, 0x39, 0x61]
}

pub open spec fn gif87a_signature() -> Seq<u8> {
    seq![0x47u8, 0x49, 0x46, 0x38, 0x37, 0x61]
}

pub open spec fn bmp_signature() -> Seq<u8> {
    seq![0x42u8, 0x4d]
}

/// The leading bytes of a JPEG, PNG, GIF or BMP file.
pub open spec fn is_supported_image_head(head: Seq<u8>) -> bool {
    ||| starts_with(head, jpeg_signature())
    ||| starts_with(head, png_signature())
    ||| starts_with(head, gif89a_signature())
    ||| starts_with(head, gif87a_signature())
    ||| starts_with(head, bmp_signature())
}

/// The format that content sniffing finds; `Other` for a format outside the
/// supported set.
#[derive(Clone, Copy, Debug, PartialEq, Eq, Structural)]
pub enum ImageKind {
    Jpeg,
    Png,
    Gif,
    Bmp,
    Other,
}

/// Relies on image's `guess_format`, which compares the bytes with a table of
/// magic numbers that begin with distinct bytes for PNG (0x89), JPEG (0xff),
/// GIF (`G`) and BMP (`B`): a format among these is found exactly when the
/// bytes begin with its signature.
#[verifier::external_body]
fn sniff_image(head: &[u8]) -> (r: Option<ImageKind>)
    ensures
        r == Some(ImageKind::Png) <==> starts_with(head@, png_signature()),
        r == Some(ImageKind::Jpeg) <==> starts_with(head@, jpeg_signature()),
        r == Some(ImageKind::Gif) <==> starts_with(head@, gif89a_signature()) || starts_with(head@, gif87a_signature()),
        r == Some(ImageKind::Bmp) <==> starts_with(head@, bmp_signature()),
{
    match image::guess_format(head) {
        Ok(image::ImageFormat::Png) => Some(ImageKind::Png),
        Ok(image::ImageFormat::Jpeg) => Some(ImageKind::Jpeg),
        Ok(image::ImageFormat::Gif) => Some(ImageKind::Gif),
        Ok(image::ImageFormat::Bmp) => Some(ImageKind::Bmp),
        Ok(_) => Some(ImageKind::Other),
        Err(_) => None,
    }
}

/// A file is indexed when its name has an image extension and its leading
/// bytes sniff as JPEG, PNG, GIF or BMP; the extension alone is not enough.
pub open spec fn is_accepted(f: ScannedFile) -> bool {
    is_image_name(f.name@) && f.head is Some && is_supported_image_head(f.head->0@)
}

/// The full path of an entry of a folder.
pub open spec fn item_path(dir: Seq<char>, name: Seq<char>) -> Seq<char> {
    dir + seq!['/'] + name
}

/// The accepted files of one folder listing, in listing order, with path and
/// metadata.
pub open spec fn accepted_in(dir: Seq<char>, files: Seq<ScannedFile>) -> Seq<(Seq<char>, FileMeta)>
    decreases files.len(),
{
    if files.len() == 0 {
        Seq::empty()
    } else {
        let rest = accepted_in(dir, files.drop_last());
        let f = files.last();
        if is_accepted(f) {
            rest.push((item_path(dir, f.name@), f.meta))
        } else {
            rest
        }
    }
}

pub open spec fn paths_of(v: Seq<(Seq<char>, FileMeta)>) -> Seq<Seq<char>> {
    v.map_values(|p: (Seq<char>, FileMeta)| p.0)
}

/// Every accepted file of every folder, folder by folder.
pub open spec fn indexed_items(folders: Seq<MediaFolder>, scans: Seq<Vec<ScannedFile>>) -> Seq<(Seq<char>, FileMeta)>
    decreases folders.len(),
{
    if folders.len() == 0 {
        Seq::empty()
    } else {
        let n = folders.len() - 1;
        indexed_items(folders.drop_last(), scans) + accepted_in(folders[n].path@, scans[n]@)
    }
}

/// Each folder with at least one accepted file, with the paths of its files.
pub open spec fn media_map_of(folders: Seq<MediaFolder>, scans: Seq<Vec<ScannedFile>>) -> Seq<(Seq<char>, Seq<Seq<char>>)>
    decreases folders.len(),
{
    if folders.len() == 0 {
        Seq::empty()
    } else {
        let n = folders.len() - 1;
        let rest = media_map_of(folders.drop_last(), scans);
        let found = accepted_in(folders[n].path@, scans[n]@);
        if found.len() > 0 {
            rest.push((folders[n].path@, paths_of(found)))
        } else {
            rest
        }
    }
}

pub open spec fn strings_view(v: Seq<String>) -> Seq<Seq<char>> {
    v.map_values(|s: String| s@)
}

pub open spec fn item_view(m: MediaItem) -> (Seq<char>, FileMeta) {
    (m.path@, m.meta)
}

pub open spec fn items_view(v: Seq<MediaItem>) -> Seq<(Seq<char>, FileMeta)> {
    v.map_values(|m: MediaItem| item_view(m))
}

pub open spec fn folder_items_view(f: FolderItems) -> (Seq<char>, Seq<Seq<char>>) {
    (f.folder@, strings_view(f.items@))
}

pub open spec fn map_view(v: Seq<FolderItems>) -> Seq<(Seq<char>, Seq<Seq<char>>)> {
    v.map_values(|f: FolderItems| folder_items_view(f))
}

/// Whether one scanned entry belongs in the index.
pub fn accepts_file(f: &ScannedFile) -> (r: bool)
    ensures
        r == is_accepted(*f),
{
    if !is_image_file(f.name.as_str()) {
        return false;
    }
    match &f.head {
        None => false,
        Some(head) => match sniff_image(head.as_slice()) {
            Some(ImageKind::Other) | None => false,
            Some(_) => true,
        },
    }
}

/// The accepted files of one folder listing, appended to `items`; returns
/// their paths.
fn collect_folder(dir: &String, files: &Vec<ScannedFile>, items: &mut Vec<MediaItem>) -> (r: Vec<String>)
    ensures
        items_view(final(items)@) == items_view(old(items)@) + accepted_in(dir@, files@),
        strings_view(r@) == paths_of(accepted_in(dir@, files@)),
        forall|k: int| 0 <= k < old(items)@.len() ==> #[trigger] final(items)@[k] == old(items)@[k],
        forall|k: int| old(items)@.len() <= k < final(items)@.len() ==> (#[trigger] final(items)@[k]).exif is None,
{
    let mut paths: Vec<String> = Vec::new();
    let mut k: usize = 0;
    let ghost start = items_view(items@);
    assert(files@.subrange(0, 0).len() == 0);
    assert(strings_view(paths@) == Seq::<Seq<char>>::empty());
    assert(start + accepted_in(dir@, files@.subrange(0, 0)) == start);
    while k < files.len()
        invariant
            k <= files@.len(),
            start == items_view(old(items)@),
            items_view(items@) == start + accepted_in(dir@, files@.subrange(0, k as int)),
            strings_view(paths@) == paths_of(accepted_in(dir@, files@.subrange(0, k as int))),
            old(items)@.len() <= items@.len(),
            forall|j: int| 0 <= j < old(items)@.len() ==> #[trigger] items@[j] == old(items)@[j],
            forall|j: int| old(items)@.len() <= j < items@.len() ==> (#[trigger] items@[j]).exif is None,
        decreases files.len() - k,
    {
        let f = &files[k];
        let ghost pre = files@.subrange(0, k as int);
        assert(files@.subrange(0, k + 1).drop_last() == pre);
        assert(files@.subrange(0, k + 1).last() == *f);
        if accepts_file(f) {
            let mut path = dir.clone();
            path.append("/");
            path.append(f.name.as_str());
            proof {
                reveal_strlit("/");
                assert(path@ == item_path(dir@, f.name@));
            }
            let item = MediaItem { path: path.clone(), meta: f.meta, exif: None };
            let ghost old_items = items@;
            let ghost old_paths = paths@;
            items.push(item);
            paths.push(path);
            assert(items_view(items@) == items_view(old_items).push(item_view(item)));
            assert(strings_view(paths@) == strings_view(old_paths).push(path@));
            assert(paths_of(accepted_in(dir@, pre).push((path@, f.meta))) == paths_of(accepted_in(dir@, pre)).push(path@));
        }
        k += 1;
    }
    assert(files@.subrange(0, files@.len() as int) == files@);
    paths
}

/// Builds the item index and the folder-to-items map from the listing of
/// each media folder (`scans[i]` lists `folders[i]`). Items are taken folder
/// by folder, each folder in listing order, with no EXIF data yet; a folder
/// without accepted files gets no entry in the map.
pub fn discover_media_folders(folders: &Vec<MediaFolder>, scans: &Vec<Vec<ScannedFile>>) -> (r: MediaIndex)
    requires
        scans@.len() == folders@.len(),
    ensures
        items_view(r.items@) == indexed_items(folders@, scans@),
        map_view(r.map@) == media_map_of(folders@, scans@),
        forall|k: int| 0 <= k < r.items@.len() ==> (#[trigger] r.items@[k]).exif is None,
{
    let mut items: Vec<MediaItem> = Vec::new();
    let mut map: Vec<FolderItems> = Vec::new();
    let mut i: usize = 0;
    assert(items_view(items@) == Seq::<(Seq<char>, FileMeta)>::empty());
    assert(map_view(map@) == Seq::<(Seq<char>, Seq<Seq<char>>)>::empty());
    assert(folders@.subrange(0, 0).len() == 0);
    while i < folders.len()
        invariant
            i <= folders@.len(),
            scans@.len() == folders@.len(),
            items_view(items@) == indexed_items(folders@.subrange(0, i as int), scans@),
            map_view(map@) == media_map_of(folders@.subrange(0, i as int), scans@),
            forall|k: int| 0 <= k < items@.len() ==> (#[trigger] items@[k]).exif is None,
        decreases folders.len() - i,
    {
        let folder = &folders[i];
        let ghost pre = folders@.subrange(0, i as int);
        let ghost next = folders@.subrange(0, i + 1);
        assert(next.drop_last() == pre);
        assert(next[i as int] == *folder);
        let found = collect_folder(&folder.path, &scans[i], &mut items);
        assert(strings_view(found@).len() == found@.len());
        assert(accepted_in(folder.path@, scans@[i as int]@).len() == found@.len());
        if found.len() > 0 {
            let entry = FolderItems { folder: folder.path.clone(), items: found };
            let ghost old_map = map@;
            map.push(entry);
            assert(map_view(map@) == map_view(old_map).push(folder_items_view(entry)));
        }
        i += 1;
    }
    assert(folders@.subrange(0, folders@.len() as int) == folders@);
    MediaIndex { items, map }
}

/// Each item found in a folder comes from one of its entries that has an
/// image extension and whose leading bytes could be read and sniff as an
/// image; an entry whose read failed is never indexed.
pub proof fn lemma_accepted_in_sources(dir: Seq<char>, files: Seq<ScannedFile>, k: int)
    requires
        0 <= k < accepted_in(dir, files).len(),
    ensures
        exists|j: int|
            0 <= j < files.len() && is_accepted(#[trigger] files[j]) && files[j].head is Some
                && accepted_in(dir, files)[k] == (item_path(dir, files[j].name@), files[j].meta),
    decreases files.len(),
{
    let rest = accepted_in(dir, files.drop_last());
    if k < rest.len() {
        lemma_accepted_in_sources(dir, files.drop_last(), k);
        let j = choose|j: int|
            0 <= j < files.drop_last().len() && is_accepted(#[trigger] files.drop_last()[j])
                && files.drop_last()[j].head is Some && rest[k] == (
                item_path(dir, files.drop_last()[j].name@),
                files.drop_last()[j].meta,
            );
        assert(files[j] == files.drop_last()[j]);
    } else {
        assert(files[files.len() - 1] == files.last());
    }
}

/// Every indexed item comes from an accepted entry of the listing of one of
/// the media folders: its name has an image extension, its leading bytes were
/// read and sniff as an image, and its path is the folder path, `/` and the
/// name.
pub proof fn lemma_indexed_items_sources(folders: Seq<MediaFolder>, scans: Seq<Vec<ScannedFile>>, k: int)
    requires
        scans.len() == folders.len(),
        0 <= k < indexed_items(folders, scans).len(),
    ensures
        exists|i: int, j: int|
            0 <= i < folders.len() && 0 <= j < scans[i]@.len() && is_accepted(#[trigger] scans[i]@[j])
                && indexed_items(folders, scans)[k] == (
                item_path(folders[i].path@, scans[i]@[j].name@),
                scans[i]@[j].meta,
            ),
{
    lemma_sources_within(folders, scans, k);
}

proof fn lemma_sources_within(folders: Seq<MediaFolder>, scans: Seq<Vec<ScannedFile>>, k: int)
    requires
        scans.len() >= folders.len(),
        0 <= k < indexed_items(folders, scans).len(),
    ensures
        exists|i: int, j: int|
            0 <= i < folders.len() && 0 <= j < scans[i]@.len() && is_accepted(#[trigger] scans[i]@[j])
                && indexed_items(folders, scans)[k] == (
                item_path(folders[i].path@, scans[i]@[j].name@),
                scans[i]@[j].meta,
            ),
    decreases folders.len(),
{
    let n = folders.len() - 1;
    let pre = folders.drop_last();
    let front = indexed_items(pre, scans);
    let last = accepted_in(folders[n].path@, scans[n]@);
    assert(indexed_items(folders, scans) == front + last);
    if k < front.len() {
        lemma_sources_within(pre, scans, k);
        let (i, j) = choose|i: int, j: int|
            0 <= i < pre.len() && 0 <= j < scans[i]@.len() && is_accepted(#[trigger] scans[i]@[j])
                && front[k] == (item_path(pre[i].path@, scans[i]@[j].name@), scans[i]@[j].meta);
        assert(pre[i] == folders[i]);
        assert(is_accepted(scans[i]@[j]));
    } else {
        lemma_accepted_in_sources(folders[n].path@, scans[n]@, k - front.len());
        let j = choose|j: int|
            0 <= j < scans[n]@.len() && is_accepted(#[trigger] scans[n]@[j]) && scans[n]@[j].head is Some
                && last[k - front.len()] == (item_path(folders[n].path@, scans[n]@[j].name@), scans[n]@[j].meta);
        assert(is_accepted(scans[n]@[j]));
    }
}

/// A folder enters the map only with at least one item.
pub proof fn lemma_map_entries_nonempty(folders: Seq<MediaFolder>, scans: Seq<Vec<ScannedFile>>, a: int)
    requires
        scans.len() >= folders.len(),
        0 <= a < media_map_of(folders, scans).len(),
    ensures
        media_map_of(folders, scans)[a].1.len() > 0,
    decreases folders.len(),
{
    let rest = media_map_of(folders.drop_last(), scans);
    if a < rest.len() {
        lemma_map_entries_nonempty(folders.drop_last(), scans, a);
    }
}

/// Every folder of the map is one of the media folders.
pub proof fn lemma_map_folder_listed(folders: Seq<MediaFolder>, scans: Seq<Vec<ScannedFile>>, a: int)
    requires
        scans.len() >= folders.len(),
        0 <= a < media_map_of(folders, scans).len(),
    ensures
        folders.map_values(|f: MediaFolder| f.path@).contains(media_map_of(folders, scans)[a].0),
    decreases folders.len(),
{
    let n = folders.len() - 1;
    let pre = folders.drop_last();
    let fp = folders.map_values(|f: MediaFolder| f.path@);
    if a < media_map_of(pre, scans).len() {
        lemma_map_folder_listed(pre, scans, a);
        let pp = pre.map_values(|f: MediaFolder| f.path@);
        let c = choose|c: int| 0 <= c < pp.len() && #[trigger] pp[c] == media_map_of(pre, scans)[a].0;
        assert(fp[c] == pre[c].path@);
    } else {
        assert(fp[n] == folders[n].path@);
    }
}

/// Every path that the map lists for a folder is an indexed item.
pub proof fn lemma_map_paths_indexed(folders: Seq<MediaFolder>, scans: Seq<Vec<ScannedFile>>, a: int, b: int)
    requires
        scans.len() >= folders.len(),
        0 <= a < media_map_of(folders, scans).len(),
        0 <= b < media_map_of(folders, scans)[a].1.len(),
    ensures
        paths_of(indexed_items(folders, scans)).contains(media_map_of(folders, scans)[a].1[b]),
    decreases folders.len(),
{
    let n = folders.len() - 1;
    let pre = folders.drop_last();
    let rest = media_map_of(pre, scans);
    let front = indexed_items(pre, scans);
    let found = accepted_in(folders[n].path@, scans[n]@);
    let all = indexed_items(folders, scans);
    assert(all == front + found);
    let p = media_map_of(folders, scans)[a].1[b];
    if a < rest.len() {
        lemma_map_paths_indexed(pre, scans, a, b);
        let c = choose|c: int| 0 <= c < paths_of(front).len() && paths_of(front)[c] == p;
        assert(paths_of(all)[c] == p);
    } else {
        assert(paths_of(all)[front.len() + b] == p);
    }
}

/// No two elements are equal.
pub open spec fn all_distinct<T>(s: Seq<T>) -> bool {
    forall|i: int, j: int| 0 <= i < s.len() && 0 <= j < s.len() && i != j ==> #[trigger] s[i] != #[trigger] s[j]
}

pub open spec fn slash_free(n: Seq<char>) -> bool {
    forall|i: int| 0 <= i < n.len() ==> #[trigger] n[i] != '/'
}

/// What a file system guarantees of one directory listing: names are
/// distinct and hold no `/`.
pub open spec fn is_proper_listing(files: Seq<ScannedFile>) -> bool {
    &&& forall|j: int| 0 <= j < files.len() ==> slash_free(#[trigger] files[j].name@)
    &&& all_distinct(files.map_values(|f: ScannedFile| f.name@))
}

proof fn lemma_item_path_injective(d1: Seq<char>, a: Seq<char>, d2: Seq<char>, b: Seq<char>)
    requires
        slash_free(a),
        slash_free(b),
        item_path(d1, a) == item_path(d2, b),
    ensures
        d1 == d2,
        a == b,
{
    let p = item_path(d1, a);
    let q1 = d1 + seq!['/'];
    let q2 = d2 + seq!['/'];
    assert(p == q1 + a);
    assert(p == q2 + b);
    assert(forall|k: int| 0 <= k < a.len() ==> p[q1.len() + k] == a[k]);
    assert(forall|k: int| 0 <= k < b.len() ==> p[q2.len() + k] == b[k]);
    assert(p[d1.len() as int] == '/');
    assert(p[d2.len() as int] == '/');
    if d1.len() < d2.len() {
        let k = d2.len() - d1.len() - 1;
        assert(p[d1.len() + 1 + k] == a[k]);
    } else if d2.len() < d1.len() {
        let k = d1.len() - d2.len() - 1;
        assert(p[d2.len() + 1 + k] == b[k]);
    }
    assert(d1 =~= p.subrange(0, d1.len() as int));
    assert(d2 =~= p.subrange(0, d2.len() as int));
    assert(a =~= p.subrange(d1.len() as int + 1, p.len() as int));
    assert(b =~= p.subrange(d2.len() as int + 1, p.len() as int));
}

proof fn lemma_accepted_in_distinct(dir: Seq<char>, files: Seq<ScannedFile>)
    requires
        is_proper_listing(files),
    ensures
        all_distinct(paths_of(accepted_in(dir, files))),
    decreases files.len(),
{
    if files.len() > 0 {
        let pre = files.drop_last();
        let names = files.map_values(|f: ScannedFile| f.name@);
        assert forall|j: int| 0 <= j < pre.len() implies slash_free(#[trigger] pre[j].name@) by {
            assert(pre[j] == files[j]);
        }
        assert(pre.map_values(|f: ScannedFile| f.name@) == names.drop_last());
        lemma_accepted_in_distinct(dir, pre);
        let rest = accepted_in(dir, pre);
        let f = files.last();
        if is_accepted(f) {
            let all = paths_of(accepted_in(dir, files));
            assert(slash_free(files[files.len() - 1].name@));
            assert forall|k: int| 0 <= k < rest.len() implies #[trigger] rest[k].0 != item_path(dir, f.name@) by {
                lemma_accepted_in_sources(dir, pre, k);
                let j = choose|j: int|
                    0 <= j < pre.len() && is_accepted(#[trigger] pre[j]) && pre[j].head is Some && rest[k] == (
                        item_path(dir, pre[j].name@),
                        pre[j].meta,
                    );
                assert(pre[j] == files[j]);
                assert(names[j] != names[files.len() - 1]);
                if rest[k].0 == item_path(dir, f.name@) {
                    lemma_item_path_injective(dir, pre[j].name@, dir, f.name@);
                }
            }
            assert forall|x: int, y: int| 0 <= x < all.len() && 0 <= y < all.len() && x != y implies #[trigger] all[x]
                != #[trigger] all[y] by {
                if x < rest.len() && y < rest.len() {
                    assert(all[x] == paths_of(rest)[x] && all[y] == paths_of(rest)[y]);
                } else if x < rest.len() {
                    assert(all[x] == rest[x].0);
                } else if y < rest.len() {
                    assert(all[y] == rest[y].0);
                }
            }
        }
    }
}

/// Where folder paths are distinct and every listing is a proper one, no
/// item path is indexed twice.
pub proof fn lemma_indexed_paths_distinct(folders: Seq<MediaFolder>, scans: Seq<Vec<ScannedFile>>)
    requires
        scans.len() >= folders.len(),
        all_distinct(folders.map_values(|f: MediaFolder| f.path@)),
        forall|i: int| 0 <= i < folders.len() ==> is_proper_listing(#[trigger] scans[i]@),
    ensures
        all_distinct(paths_of(indexed_items(folders, scans))),
    decreases folders.len(),
{
    if folders.len() > 0 {
        let n = folders.len() - 1;
        let pre = folders.drop_last();
        let fp = folders.map_values(|f: MediaFolder| f.path@);
        assert(pre.map_values(|f: MediaFolder| f.path@) == fp.drop_last());
        lemma_indexed_paths_distinct(pre, scans);
        lemma_accepted_in_distinct(folders[n].path@, scans[n]@);
        let front = indexed_items(pre, scans);
        let last = accepted_in(folders[n].path@, scans[n]@);
        let all = paths_of(indexed_items(folders, scans));
        assert(indexed_items(folders, scans) == front + last);
        assert forall|x: int, y: int| 0 <= x < front.len() && 0 <= y < last.len() implies #[trigger] front[x].0
            != #[trigger] last[y].0 by {
            lemma_sources_within(pre, scans, x);
            let (i, j) = choose|i: int, j: int|
                0 <= i < pre.len() && 0 <= j < scans[i]@.len() && is_accepted(#[trigger] scans[i]@[j])
                    && front[x] == (item_path(pre[i].path@, scans[i]@[j].name@), scans[i]@[j].meta);
            lemma_accepted_in_sources(folders[n].path@, scans[n]@, y);
            let j2 = choose|j2: int|
                0 <= j2 < scans[n]@.len() && is_accepted(#[trigger] scans[n]@[j2]) && scans[n]@[j2].head is Some
                    && last[y] == (item_path(folders[n].path@, scans[n]@[j2].name@), scans[n]@[j2].meta);
            assert(pre[i] == folders[i]);
            assert(is_proper_listing(scans[i]@));
            assert(slash_free(scans[i]@[j].name@));
            assert(slash_free(scans[n]@[j2].name@));
            assert(fp[i] != fp[n]);
            if front[x].0 == last[y].0 {
                lemma_item_path_injective(folders[i].path@, scans[i]@[j].name@, folders[n].path@, scans[n]@[j2].name@);
            }
        }
        assert forall|x: int, y: int| 0 <= x < all.len() && 0 <= y < all.len() && x != y implies #[trigger] all[x]
            != #[trigger] all[y] by {
            if x < front.len() && y < front.len() {
                assert(all[x] == paths_of(front)[x] && all[y] == paths_of(front)[y]);
            } else if x >= front.len() && y >= front.len() {
                assert(all[x] == paths_of(last)[x - front.len()] && all[y] == paths_of(last)[y - front.len()]);
            } else if x < front.len() {
                assert(all[x] == front[x].0 && all[y] == last[y - front.len()].0);
            } else {
                assert(all[y] == front[y].0 && all[x] == last[x - front.len()].0);
            }
        }
    }
}

/// Where folder paths are distinct, no folder has two entries in the map.
pub proof fn lemma_map_folders_distinct(folders: Seq<MediaFolder>, scans: Seq<Vec<ScannedFile>>)
    requires
        scans.len() >= folders.len(),
        all_distinct(folders.map_values(|f: MediaFolder| f.path@)),
    ensures
        all_distinct(media_map_of(folders, scans).map_values(|e: (Seq<char>, Seq<Seq<char>>)| e.0)),
    decreases folders.len(),
{
    if folders.len() > 0 {
        let n = folders.len() - 1;
        let pre = folders.drop_last();
        let fp = folders.map_values(|f: MediaFolder| f.path@);
        let pp = pre.map_values(|f: MediaFolder| f.path@);
        assert(pp == fp.drop_last());
        lemma_map_folders_distinct(pre, scans);
        let rest = media_map_of(pre, scans);
        let all = media_map_of(folders, scans);
        let keys = all.map_values(|e: (Seq<char>, Seq<Seq<char>>)| e.0);
        if all.len() > rest.len() {
            assert forall|a: int| 0 <= a < rest.len() implies #[trigger] rest[a].0 != folders[n].path@ by {
                lemma_map_folder_listed(pre, scans, a);
                let c = choose|c: int| 0 <= c < pp.len() && #[trigger] pp[c] == rest[a].0;
                assert(fp[c] == pp[c] && fp[n] == folders[n].path@);
            }
            assert forall|x: int, y: int| 0 <= x < keys.len() && 0 <= y < keys.len() && x != y implies #[trigger] keys[x]
                != #[trigger] keys[y] by {
                let rk = rest.map_values(|e: (Seq<char>, Seq<Seq<char>>)| e.0);
                if x < rest.len() && y < rest.len() {
                    assert(keys[x] == rk[x] && keys[y] == rk[y]);
                } else if x < rest.len() {
                    assert(keys[x] == rest[x].0);
                } else if y < rest.len() {
                    assert(keys[y] == rest[y].0);
                }
            }
        } else {
            assert(all == rest);
        }
    }
}

} // verus!
