//! Metadata enrichment: attaching decoded EXIF fields to indexed items.
use vstd::prelude::*;

use crate::folders::FileMeta;
use crate::items::{ExifField, MediaItem};

verus! {

pub type ExifView = Seq<(u16, u16, Seq<char>)>;

pub open spec fn exif_field_view(f: ExifField) -> (u16, u16, Seq<char>) {
    (f.tag, f.ifd, f.value@)
}

pub open spec fn exif_fields_view(v: Seq<ExifField>) -> ExifView {
    v.map_values(|f: ExifField| exif_field_view(f))
}

pub open spec fn exif_view(e: Option<Vec<ExifField>>) -> Option<ExifView> {
    match e {
        Some(v) => Some(exif_fields_view(v@)),
        None => None,
    }
}

/// The fields decoded from a file's EXIF segment (tag, directory, value
/// text), or `None` where the file has no EXIF segment that can be decoded.
pub uninterp spec fn exif_of(file: Seq<u8>) -> Option<ExifView>;

/// Relies on kamadak-exif's `Reader::read_from_container`, which finds and
/// decodes the EXIF segment of a JPEG, TIFF, HEIF, PNG or WebP file held in
/// memory. Each decoded field is carried over with its tag number, its IFD
/// number and its value as the crate displays it.
#[verifier::external_body]
fn read_exif(file: &[u8]) -> (r: Option<Vec<ExifField>>)
    ensures
        exif_view(r) == exif_of(file@),
{
    let exif = exif::Reader::new().read_from_container(&mut std::io::Cursor::new(file)).ok()?;
    Some(
        exif.fields().map(
            |f| ExifField { tag: f.tag.number(), ifd: f.ifd_num.index(), value: f.display_value().to_string() },
        ).collect(),
    )
}

/// The EXIF data an item holds after enrichment with the file's content
/// (`None` where the file could not be read): the decoded fields where
/// decoding succeeds, else nothing. What the item held before plays no part.
pub open spec fn enriched(content: Option<Vec<u8>>) -> Option<ExifView> {
    match content {
        Some(bytes) => exif_of(bytes@),
        None => None,
    }
}

/// Attaches EXIF data to each item: `contents[k]` is the content of the file
/// of `items[k]`, or `None` where it could not be read. Each item's EXIF data
/// is replaced by what this run decodes, and left unset where the file could
/// not be read or carries no decodable EXIF; paths and metadata are not
/// touched.
pub fn exif_enrich_media_items(items: &mut Vec<MediaItem>, contents: &Vec<Option<Vec<u8>>>)
    requires
        contents@.len() == old(items)@.len(),
    ensures
        final(items)@.len() == old(items)@.len(),
        forall|k: int|
            0 <= k < final(items)@.len() ==> {
                &&& (#[trigger] final(items)@[k]).path@ == old(items)@[k].path@
                &&& final(items)@[k].meta == old(items)@[k].meta
                &&& exif_view(final(items)@[k].exif) == enriched(contents@[k])
            },
{
    let mut k: usize = 0;
    while k < items.len()
        invariant
            contents@.len() == old(items)@.len(),
            items@.len() == old(items)@.len(),
            k <= items@.len(),
            forall|j: int|
                0 <= j < items@.len() ==> {
                    &&& (#[trigger] items@[j]).path@ == old(items)@[j].path@
                    &&& items@[j].meta == old(items)@[j].meta
                    &&& exif_view(items@[j].exif) == if j < k {
                        enriched(contents@[j])
                    } else {
                        exif_view(old(items)@[j].exif)
                    }
                },
        decreases items.len() - k,
    {
        let exif = match &contents[k] {
            Some(bytes) => read_exif(bytes.as_slice()),
            None => None,
        };
        let ghost before = items@;
        let path = items[k].path.clone();
        let meta: FileMeta = items[k].meta;
        items.set(k, MediaItem { path, meta, exif });
        assert(forall|j: int| 0 <= j < items@.len() && j != k ==> items@[j] == before[j]);
        k += 1;
    }
}

} // verus!
