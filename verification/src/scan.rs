//! Classifying and grouping the files of a source (SD card or folder): a primary file (RAW,
//! image or video) with its attachments (paired JPEG, sidecars).

use crate::datetime::DateTime;
use crate::meta::CaptureMeta;
use crate::paths::{self, comps_less, comps_lt, components, extension, file_name, file_stem, parent, path_components};
use crate::text::{self, ascii_lower_seq, has_prefix, has_suffix};
use vstd::prelude::*;

verus! {

/// What a file is.
#[derive(Clone, Copy, PartialEq, Eq, Structural, Debug, Hash)]
pub enum Kind {
    Raw,
    Image,
    Video,
    Sidecar,
    Other,
}

impl Kind {
    pub open spec fn name(self) -> Seq<char> {
        match self {
            Kind::Raw => "raw"@,
            Kind::Image => "image"@,
            Kind::Video => "video"@,
            Kind::Sidecar => "sidecar"@,
            Kind::Other => "other"@,
        }
    }

    /// The kind's name as used in templates and the catalog.
    pub fn as_str(self) -> (r: &'static str)
        ensures
            r@ == self.name(),
    {
        match self {
            Kind::Raw => "raw",
            Kind::Image => "image",
            Kind::Video => "video",
            Kind::Sidecar => "sidecar",
            Kind::Other => "other",
        }
    }

    pub open spec fn primary_kind(self) -> bool {
        self == Kind::Raw || self == Kind::Image || self == Kind::Video
    }

    /// Photos and videos lead a group; sidecars and unknown files attach to one.
    pub fn is_primary(self) -> (r: bool)
        ensures
            r == self.primary_kind(),
    {
        match self {
            Kind::Raw | Kind::Image | Kind::Video => true,
            _ => false,
        }
    }
}

pub open spec fn is_raw_ext(e: Seq<char>) -> bool {
    ||| e == "raf"@ ||| e == "arw"@ ||| e == "dng"@ ||| e == "cr2"@ ||| e == "cr3"@
    ||| e == "nef"@ ||| e == "nrw"@ ||| e == "orf"@ ||| e == "rw2"@ ||| e == "pef"@
    ||| e == "srw"@ ||| e == "x3f"@ ||| e == "3fr"@ ||| e == "iiq"@ ||| e == "srf"@
    ||| e == "sr2"@ ||| e == "erf"@ ||| e == "mrw"@ ||| e == "rwl"@ ||| e == "kdc"@
    ||| e == "dcr"@ ||| e == "mos"@ ||| e == "mef"@ ||| e == "crw"@ ||| e == "fff"@
}

pub open spec fn is_image_ext(e: Seq<char>) -> bool {
    ||| e == "jpg"@ ||| e == "jpeg"@ ||| e == "heif"@ ||| e == "heic"@ ||| e == "hif"@
    ||| e == "png"@ ||| e == "tif"@ ||| e == "tiff"@ ||| e == "webp"@ ||| e == "avif"@
}

pub open spec fn is_video_ext(e: Seq<char>) -> bool {
    ||| e == "mp4"@ ||| e == "mov"@ ||| e == "m4v"@ ||| e == "avi"@ ||| e == "mts"@
    ||| e == "m2ts"@ ||| e == "mxf"@ ||| e == "mkv"@ ||| e == "3gp"@
}

pub open spec fn is_sidecar_ext(e: Seq<char>) -> bool {
    ||| e == "xml"@ ||| e == "thm"@ ||| e == "xmp"@ ||| e == "bim"@ ||| e == "srt"@
    ||| e == "lrv"@ ||| e == "wav"@ ||| e == "aae"@ ||| e == "txt"@
}

/// The kind of the file at `path`: by its extension, ignoring case; the small JPEGs Sony
/// writes for clips under a `THMBNL` folder are not photos.
pub open spec fn classify_spec(path: Seq<char>) -> Kind {
    let e = ascii_lower_seq(extension(path));
    if file_name(parent(path)) == "THMBNL"@ {
        Kind::Other
    } else if is_raw_ext(e) {
        Kind::Raw
    } else if is_image_ext(e) {
        Kind::Image
    } else if is_video_ext(e) {
        Kind::Video
    } else if is_sidecar_ext(e) {
        Kind::Sidecar
    } else {
        Kind::Other
    }
}

fn is_raw_ext_exec(e: &Vec<char>) -> (b: bool)
    ensures
        b == is_raw_ext(e@),
{
    text::eq_str(e, "raf") || text::eq_str(e, "arw") || text::eq_str(e, "dng") || text::eq_str(e, "cr2")
        || text::eq_str(e, "cr3") || text::eq_str(e, "nef") || text::eq_str(e, "nrw")
        || text::eq_str(e, "orf") || text::eq_str(e, "rw2") || text::eq_str(e, "pef")
        || text::eq_str(e, "srw") || text::eq_str(e, "x3f") || text::eq_str(e, "3fr")
        || text::eq_str(e, "iiq") || text::eq_str(e, "srf") || text::eq_str(e, "sr2")
        || text::eq_str(e, "erf") || text::eq_str(e, "mrw") || text::eq_str(e, "rwl")
        || text::eq_str(e, "kdc") || text::eq_str(e, "dcr") || text::eq_str(e, "mos")
        || text::eq_str(e, "mef") || text::eq_str(e, "crw") || text::eq_str(e, "fff")
}

fn is_image_ext_exec(e: &Vec<char>) -> (b: bool)
    ensures
        b == is_image_ext(e@),
{
    text::eq_str(e, "jpg") || text::eq_str(e, "jpeg") || text::eq_str(e, "heif") || text::eq_str(
        e,
        "heic",
    ) || text::eq_str(e, "hif") || text::eq_str(e, "png") || text::eq_str(e, "tif")
        || text::eq_str(e, "tiff") || text::eq_str(e, "webp") || text::eq_str(e, "avif")
}

fn is_video_ext_exec(e: &Vec<char>) -> (b: bool)
    ensures
        b == is_video_ext(e@),
{
    text::eq_str(e, "mp4") || text::eq_str(e, "mov") || text::eq_str(e, "m4v") || text::eq_str(e, "avi")
        || text::eq_str(e, "mts") || text::eq_str(e, "m2ts") || text::eq_str(e, "mxf")
        || text::eq_str(e, "mkv") || text::eq_str(e, "3gp")
}

fn is_sidecar_ext_exec(e: &Vec<char>) -> (b: bool)
    ensures
        b == is_sidecar_ext(e@),
{
    text::eq_str(e, "xml") || text::eq_str(e, "thm") || text::eq_str(e, "xmp") || text::eq_str(e, "bim")
        || text::eq_str(e, "srt") || text::eq_str(e, "lrv") || text::eq_str(e, "wav")
        || text::eq_str(e, "aae") || text::eq_str(e, "txt")
}

proof fn lemma_image_not_raw()
    ensures
        "jpg"@ != "raf"@,
        "jpg"@ != "arw"@,
        "jpg"@ != "dng"@,
        "jpg"@ != "cr2"@,
        "jpg"@ != "cr3"@,
        "jpg"@ != "nef"@,
        "jpg"@ != "nrw"@,
        "jpg"@ != "orf"@,
        "jpg"@ != "rw2"@,
        "jpg"@ != "pef"@,
        "jpg"@ != "srw"@,
        "jpg"@ != "x3f"@,
        "jpg"@ != "3fr"@,
        "jpg"@ != "iiq"@,
        "jpg"@ != "srf"@,
        "jpg"@ != "sr2"@,
        "jpg"@ != "erf"@,
        "jpg"@ != "mrw"@,
        "jpg"@ != "rwl"@,
        "jpg"@ != "kdc"@,
        "jpg"@ != "dcr"@,
        "jpg"@ != "mos"@,
        "jpg"@ != "mef"@,
        "jpg"@ != "crw"@,
        "jpg"@ != "fff"@,
        "jpeg"@ != "raf"@,
        "jpeg"@ != "arw"@,
        "jpeg"@ != "dng"@,
        "jpeg"@ != "cr2"@,
        "jpeg"@ != "cr3"@,
        "jpeg"@ != "nef"@,
        "jpeg"@ != "nrw"@,
        "jpeg"@ != "orf"@,
        "jpeg"@ != "rw2"@,
        "jpeg"@ != "pef"@,
        "jpeg"@ != "srw"@,
        "jpeg"@ != "x3f"@,
        "jpeg"@ != "3fr"@,
        "jpeg"@ != "iiq"@,
        "jpeg"@ != "srf"@,
        "jpeg"@ != "sr2"@,
        "jpeg"@ != "erf"@,
        "jpeg"@ != "mrw"@,
        "jpeg"@ != "rwl"@,
        "jpeg"@ != "kdc"@,
        "jpeg"@ != "dcr"@,
        "jpeg"@ != "mos"@,
        "jpeg"@ != "mef"@,
        "jpeg"@ != "crw"@,
        "jpeg"@ != "fff"@,
        "heif"@ != "raf"@,
        "heif"@ != "arw"@,
        "heif"@ != "dng"@,
        "heif"@ != "cr2"@,
        "heif"@ != "cr3"@,
        "heif"@ != "nef"@,
        "heif"@ != "nrw"@,
        "heif"@ != "orf"@,
        "heif"@ != "rw2"@,
        "heif"@ != "pef"@,
        "heif"@ != "srw"@,
        "heif"@ != "x3f"@,
        "heif"@ != "3fr"@,
        "heif"@ != "iiq"@,
        "heif"@ != "srf"@,
        "heif"@ != "sr2"@,
        "heif"@ != "erf"@,
        "heif"@ != "mrw"@,
        "heif"@ != "rwl"@,
        "heif"@ != "kdc"@,
        "heif"@ != "dcr"@,
        "heif"@ != "mos"@,
        "heif"@ != "mef"@,
        "heif"@ != "crw"@,
        "heif"@ != "fff"@,
        "heic"@ != "raf"@,
        "heic"@ != "arw"@,
        "heic"@ != "dng"@,
        "heic"@ != "cr2"@,
        "heic"@ != "cr3"@,
        "heic"@ != "nef"@,
        "heic"@ != "nrw"@,
        "heic"@ != "orf"@,
        "heic"@ != "rw2"@,
        "heic"@ != "pef"@,
        "heic"@ != "srw"@,
        "heic"@ != "x3f"@,
        "heic"@ != "3fr"@,
        "heic"@ != "iiq"@,
        "heic"@ != "srf"@,
        "heic"@ != "sr2"@,
        "heic"@ != "erf"@,
        "heic"@ != "mrw"@,
        "heic"@ != "rwl"@,
        "heic"@ != "kdc"@,
        "heic"@ != "dcr"@,
        "heic"@ != "mos"@,
        "heic"@ != "mef"@,
        "heic"@ != "crw"@,
        "heic"@ != "fff"@,
        "hif"@ != "raf"@,
        "hif"@ != "arw"@,
        "hif"@ != "dng"@,
        "hif"@ != "cr2"@,
        "hif"@ != "cr3"@,
        "hif"@ != "nef"@,
        "hif"@ != "nrw"@,
        "hif"@ != "orf"@,
        "hif"@ != "rw2"@,
        "hif"@ != "pef"@,
        "hif"@ != "srw"@,
        "hif"@ != "x3f"@,
        "hif"@ != "3fr"@,
        "hif"@ != "iiq"@,
        "hif"@ != "srf"@,
        "hif"@ != "sr2"@,
        "hif"@ != "erf"@,
        "hif"@ != "mrw"@,
        "hif"@ != "rwl"@,
        "hif"@ != "kdc"@,
        "hif"@ != "dcr"@,
        "hif"@ != "mos"@,
        "hif"@ != "mef"@,
        "hif"@ != "crw"@,
        "hif"@ != "fff"@,
        "png"@ != "raf"@,
        "png"@ != "arw"@,
        "png"@ != "dng"@,
        "png"@ != "cr2"@,
        "png"@ != "cr3"@,
        "png"@ != "nef"@,
        "png"@ != "nrw"@,
        "png"@ != "orf"@,
        "png"@ != "rw2"@,
        "png"@ != "pef"@,
        "png"@ != "srw"@,
        "png"@ != "x3f"@,
        "png"@ != "3fr"@,
        "png"@ != "iiq"@,
        "png"@ != "srf"@,
        "png"@ != "sr2"@,
        "png"@ != "erf"@,
        "png"@ != "mrw"@,
        "png"@ != "rwl"@,
        "png"@ != "kdc"@,
        "png"@ != "dcr"@,
        "png"@ != "mos"@,
        "png"@ != "mef"@,
        "png"@ != "crw"@,
        "png"@ != "fff"@,
        "tif"@ != "raf"@,
        "tif"@ != "arw"@,
        "tif"@ != "dng"@,
        "tif"@ != "cr2"@,
        "tif"@ != "cr3"@,
        "tif"@ != "nef"@,
        "tif"@ != "nrw"@,
        "tif"@ != "orf"@,
        "tif"@ != "rw2"@,
        "tif"@ != "pef"@,
        "tif"@ != "srw"@,
        "tif"@ != "x3f"@,
        "tif"@ != "3fr"@,
        "tif"@ != "iiq"@,
        "tif"@ != "srf"@,
        "tif"@ != "sr2"@,
        "tif"@ != "erf"@,
        "tif"@ != "mrw"@,
        "tif"@ != "rwl"@,
        "tif"@ != "kdc"@,
        "tif"@ != "dcr"@,
        "tif"@ != "mos"@,
        "tif"@ != "mef"@,
        "tif"@ != "crw"@,
        "tif"@ != "fff"@,
        "tiff"@ != "raf"@,
        "tiff"@ != "arw"@,
        "tiff"@ != "dng"@,
        "tiff"@ != "cr2"@,
        "tiff"@ != "cr3"@,
        "tiff"@ != "nef"@,
        "tiff"@ != "nrw"@,
        "tiff"@ != "orf"@,
        "tiff"@ != "rw2"@,
        "tiff"@ != "pef"@,
        "tiff"@ != "srw"@,
        "tiff"@ != "x3f"@,
        "tiff"@ != "3fr"@,
        "tiff"@ != "iiq"@,
        "tiff"@ != "srf"@,
        "tiff"@ != "sr2"@,
        "tiff"@ != "erf"@,
        "tiff"@ != "mrw"@,
        "tiff"@ != "rwl"@,
        "tiff"@ != "kdc"@,
        "tiff"@ != "dcr"@,
        "tiff"@ != "mos"@,
        "tiff"@ != "mef"@,
        "tiff"@ != "crw"@,
        "tiff"@ != "fff"@,
        "webp"@ != "raf"@,
        "webp"@ != "arw"@,
        "webp"@ != "dng"@,
        "webp"@ != "cr2"@,
        "webp"@ != "cr3"@,
        "webp"@ != "nef"@,
        "webp"@ != "nrw"@,
        "webp"@ != "orf"@,
        "webp"@ != "rw2"@,
        "webp"@ != "pef"@,
        "webp"@ != "srw"@,
        "webp"@ != "x3f"@,
        "webp"@ != "3fr"@,
        "webp"@ != "iiq"@,
        "webp"@ != "srf"@,
        "webp"@ != "sr2"@,
        "webp"@ != "erf"@,
        "webp"@ != "mrw"@,
        "webp"@ != "rwl"@,
        "webp"@ != "kdc"@,
        "webp"@ != "dcr"@,
        "webp"@ != "mos"@,
        "webp"@ != "mef"@,
        "webp"@ != "crw"@,
        "webp"@ != "fff"@,
        "avif"@ != "raf"@,
        "avif"@ != "arw"@,
        "avif"@ != "dng"@,
        "avif"@ != "cr2"@,
        "avif"@ != "cr3"@,
        "avif"@ != "nef"@,
        "avif"@ != "nrw"@,
        "avif"@ != "orf"@,
        "avif"@ != "rw2"@,
        "avif"@ != "pef"@,
        "avif"@ != "srw"@,
        "avif"@ != "x3f"@,
        "avif"@ != "3fr"@,
        "avif"@ != "iiq"@,
        "avif"@ != "srf"@,
        "avif"@ != "sr2"@,
        "avif"@ != "erf"@,
        "avif"@ != "mrw"@,
        "avif"@ != "rwl"@,
        "avif"@ != "kdc"@,
        "avif"@ != "dcr"@,
        "avif"@ != "mos"@,
        "avif"@ != "mef"@,
        "avif"@ != "crw"@,
        "avif"@ != "fff"@,
{
    reveal_strlit("jpg");
    reveal_strlit("jpeg");
    reveal_strlit("heif");
    reveal_strlit("heic");
    reveal_strlit("hif");
    reveal_strlit("png");
    reveal_strlit("tif");
    reveal_strlit("tiff");
    reveal_strlit("webp");
    reveal_strlit("avif");
    reveal_strlit("raf");
    reveal_strlit("arw");
    reveal_strlit("dng");
    reveal_strlit("cr2");
    reveal_strlit("cr3");
    reveal_strlit("nef");
    reveal_strlit("nrw");
    reveal_strlit("orf");
    reveal_strlit("rw2");
    reveal_strlit("pef");
    reveal_strlit("srw");
    reveal_strlit("x3f");
    reveal_strlit("3fr");
    reveal_strlit("iiq");
    reveal_strlit("srf");
    reveal_strlit("sr2");
    reveal_strlit("erf");
    reveal_strlit("mrw");
    reveal_strlit("rwl");
    reveal_strlit("kdc");
    reveal_strlit("dcr");
    reveal_strlit("mos");
    reveal_strlit("mef");
    reveal_strlit("crw");
    reveal_strlit("fff");
    assert("jpg"@[0] != "raf"@[0]);
    assert("jpg"@[0] != "arw"@[0]);
    assert("jpg"@[0] != "dng"@[0]);
    assert("jpg"@[0] != "cr2"@[0]);
    assert("jpg"@[0] != "cr3"@[0]);
    assert("jpg"@[0] != "nef"@[0]);
    assert("jpg"@[0] != "nrw"@[0]);
    assert("jpg"@[0] != "orf"@[0]);
    assert("jpg"@[0] != "rw2"@[0]);
    assert("jpg"@[0] != "pef"@[0]);
    assert("jpg"@[0] != "srw"@[0]);
    assert("jpg"@[0] != "x3f"@[0]);
    assert("jpg"@[0] != "3fr"@[0]);
    assert("jpg"@[0] != "iiq"@[0]);
    assert("jpg"@[0] != "srf"@[0]);
    assert("jpg"@[0] != "sr2"@[0]);
    assert("jpg"@[0] != "erf"@[0]);
    assert("jpg"@[0] != "mrw"@[0]);
    assert("jpg"@[0] != "rwl"@[0]);
    assert("jpg"@[0] != "kdc"@[0]);
    assert("jpg"@[0] != "dcr"@[0]);
    assert("jpg"@[0] != "mos"@[0]);
    assert("jpg"@[0] != "mef"@[0]);
    assert("jpg"@[0] != "crw"@[0]);
    assert("jpg"@[0] != "fff"@[0]);
    assert("jpeg"@.len() != "raf"@.len());
    assert("jpeg"@.len() != "arw"@.len());
    assert("jpeg"@.len() != "dng"@.len());
    assert("jpeg"@.len() != "cr2"@.len());
    assert("jpeg"@.len() != "cr3"@.len());
    assert("jpeg"@.len() != "nef"@.len());
    assert("jpeg"@.len() != "nrw"@.len());
    assert("jpeg"@.len() != "orf"@.len());
    assert("jpeg"@.len() != "rw2"@.len());
    assert("jpeg"@.len() != "pef"@.len());
    assert("jpeg"@.len() != "srw"@.len());
    assert("jpeg"@.len() != "x3f"@.len());
    assert("jpeg"@.len() != "3fr"@.len());
    assert("jpeg"@.len() != "iiq"@.len());
    assert("jpeg"@.len() != "srf"@.len());
    assert("jpeg"@.len() != "sr2"@.len());
    assert("jpeg"@.len() != "erf"@.len());
    assert("jpeg"@.len() != "mrw"@.len());
    assert("jpeg"@.len() != "rwl"@.len());
    assert("jpeg"@.len() != "kdc"@.len());
    assert("jpeg"@.len() != "dcr"@.len());
    assert("jpeg"@.len() != "mos"@.len());
    assert("jpeg"@.len() != "mef"@.len());
    assert("jpeg"@.len() != "crw"@.len());
    assert("jpeg"@.len() != "fff"@.len());
    assert("heif"@.len() != "raf"@.len());
    assert("heif"@.len() != "arw"@.len());
    assert("heif"@.len() != "dng"@.len());
    assert("heif"@.len() != "cr2"@.len());
    assert("heif"@.len() != "cr3"@.len());
    assert("heif"@.len() != "nef"@.len());
    assert("heif"@.len() != "nrw"@.len());
    assert("heif"@.len() != "orf"@.len());
    assert("heif"@.len() != "rw2"@.len());
    assert("heif"@.len() != "pef"@.len());
    assert("heif"@.len() != "srw"@.len());
    assert("heif"@.len() != "x3f"@.len());
    assert("heif"@.len() != "3fr"@.len());
    assert("heif"@.len() != "iiq"@.len());
    assert("heif"@.len() != "srf"@.len());
    assert("heif"@.len() != "sr2"@.len());
    assert("heif"@.len() != "erf"@.len());
    assert("heif"@.len() != "mrw"@.len());
    assert("heif"@.len() != "rwl"@.len());
    assert("heif"@.len() != "kdc"@.len());
    assert("heif"@.len() != "dcr"@.len());
    assert("heif"@.len() != "mos"@.len());
    assert("heif"@.len() != "mef"@.len());
    assert("heif"@.len() != "crw"@.len());
    assert("heif"@.len() != "fff"@.len());
    assert("heic"@.len() != "raf"@.len());
    assert("heic"@.len() != "arw"@.len());
    assert("heic"@.len() != "dng"@.len());
    assert("heic"@.len() != "cr2"@.len());
    assert("heic"@.len() != "cr3"@.len());
    assert("heic"@.len() != "nef"@.len());
    assert("heic"@.len() != "nrw"@.len());
    assert("heic"@.len() != "orf"@.len());
    assert("heic"@.len() != "rw2"@.len());
    assert("heic"@.len() != "pef"@.len());
    assert("heic"@.len() != "srw"@.len());
    assert("heic"@.len() != "x3f"@.len());
    assert("heic"@.len() != "3fr"@.len());
    assert("heic"@.len() != "iiq"@.len());
    assert("heic"@.len() != "srf"@.len());
    assert("heic"@.len() != "sr2"@.len());
    assert("heic"@.len() != "erf"@.len());
    assert("heic"@.len() != "mrw"@.len());
    assert("heic"@.len() != "rwl"@.len());
    assert("heic"@.len() != "kdc"@.len());
    assert("heic"@.len() != "dcr"@.len());
    assert("heic"@.len() != "mos"@.len());
    assert("heic"@.len() != "mef"@.len());
    assert("heic"@.len() != "crw"@.len());
    assert("heic"@.len() != "fff"@.len());
    assert("hif"@[0] != "raf"@[0]);
    assert("hif"@[0] != "arw"@[0]);
    assert("hif"@[0] != "dng"@[0]);
    assert("hif"@[0] != "cr2"@[0]);
    assert("hif"@[0] != "cr3"@[0]);
    assert("hif"@[0] != "nef"@[0]);
    assert("hif"@[0] != "nrw"@[0]);
    assert("hif"@[0] != "orf"@[0]);
    assert("hif"@[0] != "rw2"@[0]);
    assert("hif"@[0] != "pef"@[0]);
    assert("hif"@[0] != "srw"@[0]);
    assert("hif"@[0] != "x3f"@[0]);
    assert("hif"@[0] != "3fr"@[0]);
    assert("hif"@[0] != "iiq"@[0]);
    assert("hif"@[0] != "srf"@[0]);
    assert("hif"@[0] != "sr2"@[0]);
    assert("hif"@[0] != "erf"@[0]);
    assert("hif"@[0] != "mrw"@[0]);
    assert("hif"@[0] != "rwl"@[0]);
    assert("hif"@[0] != "kdc"@[0]);
    assert("hif"@[0] != "dcr"@[0]);
    assert("hif"@[0] != "mos"@[0]);
    assert("hif"@[0] != "mef"@[0]);
    assert("hif"@[0] != "crw"@[0]);
    assert("hif"@[0] != "fff"@[0]);
    assert("png"@[0] != "raf"@[0]);
    assert("png"@[0] != "arw"@[0]);
    assert("png"@[0] != "dng"@[0]);
    assert("png"@[0] != "cr2"@[0]);
    assert("png"@[0] != "cr3"@[0]);
    assert("png"@[0] != "nef"@[0]);
    assert("png"@[0] != "nrw"@[0]);
    assert("png"@[0] != "orf"@[0]);
    assert("png"@[0] != "rw2"@[0]);
    assert("png"@[1] != "pef"@[1]);
    assert("png"@[0] != "srw"@[0]);
    assert("png"@[0] != "x3f"@[0]);
    assert("png"@[0] != "3fr"@[0]);
    assert("png"@[0] != "iiq"@[0]);
    assert("png"@[0] != "srf"@[0]);
    assert("png"@[0] != "sr2"@[0]);
    assert("png"@[0] != "erf"@[0]);
    assert("png"@[0] != "mrw"@[0]);
    assert("png"@[0] != "rwl"@[0]);
    assert("png"@[0] != "kdc"@[0]);
    assert("png"@[0] != "dcr"@[0]);
    assert("png"@[0] != "mos"@[0]);
    assert("png"@[0] != "mef"@[0]);
    assert("png"@[0] != "crw"@[0]);
    assert("png"@[0] != "fff"@[0]);
    assert("tif"@[0] != "raf"@[0]);
    assert("tif"@[0] != "arw"@[0]);
    assert("tif"@[0] != "dng"@[0]);
    assert("tif"@[0] != "cr2"@[0]);
    assert("tif"@[0] != "cr3"@[0]);
    assert("tif"@[0] != "nef"@[0]);
    assert("tif"@[0] != "nrw"@[0]);
    assert("tif"@[0] != "orf"@[0]);
    assert("tif"@[0] != "rw2"@[0]);
    assert("tif"@[0] != "pef"@[0]);
    assert("tif"@[0] != "srw"@[0]);
    assert("tif"@[0] != "x3f"@[0]);
    assert("tif"@[0] != "3fr"@[0]);
    assert("tif"@[0] != "iiq"@[0]);
    assert("tif"@[0] != "srf"@[0]);
    assert("tif"@[0] != "sr2"@[0]);
    assert("tif"@[0] != "erf"@[0]);
    assert("tif"@[0] != "mrw"@[0]);
    assert("tif"@[0] != "rwl"@[0]);
    assert("tif"@[0] != "kdc"@[0]);
    assert("tif"@[0] != "dcr"@[0]);
    assert("tif"@[0] != "mos"@[0]);
    assert("tif"@[0] != "mef"@[0]);
    assert("tif"@[0] != "crw"@[0]);
    assert("tif"@[0] != "fff"@[0]);
    assert("tiff"@.len() != "raf"@.len());
    assert("tiff"@.len() != "arw"@.len());
    assert("tiff"@.len() != "dng"@.len());
    assert("tiff"@.len() != "cr2"@.len());
    assert("tiff"@.len() != "cr3"@.len());
    assert("tiff"@.len() != "nef"@.len());
    assert("tiff"@.len() != "nrw"@.len());
    assert("tiff"@.len() != "orf"@.len());
    assert("tiff"@.len() != "rw2"@.len());
    assert("tiff"@.len() != "pef"@.len());
    assert("tiff"@.len() != "srw"@.len());
    assert("tiff"@.len() != "x3f"@.len());
    assert("tiff"@.len() != "3fr"@.len());
    assert("tiff"@.len() != "iiq"@.len());
    assert("tiff"@.len() != "srf"@.len());
    assert("tiff"@.len() != "sr2"@.len());
    assert("tiff"@.len() != "erf"@.len());
    assert("tiff"@.len() != "mrw"@.len());
    assert("tiff"@.len() != "rwl"@.len());
    assert("tiff"@.len() != "kdc"@.len());
    assert("tiff"@.len() != "dcr"@.len());
    assert("tiff"@.len() != "mos"@.len());
    assert("tiff"@.len() != "mef"@.len());
    assert("tiff"@.len() != "crw"@.len());
    assert("tiff"@.len() != "fff"@.len());
    assert("webp"@.len() != "raf"@.len());
    assert("webp"@.len() != "arw"@.len());
    assert("webp"@.len() != "dng"@.len());
    assert("webp"@.len() != "cr2"@.len());
    assert("webp"@.len() != "cr3"@.len());
    assert("webp"@.len() != "nef"@.len());
    assert("webp"@.len() != "nrw"@.len());
    assert("webp"@.len() != "orf"@.len());
    assert("webp"@.len() != "rw2"@.len());
    assert("webp"@.len() != "pef"@.len());
    assert("webp"@.len() != "srw"@.len());
    assert("webp"@.len() != "x3f"@.len());
    assert("webp"@.len() != "3fr"@.len());
    assert("webp"@.len() != "iiq"@.len());
    assert("webp"@.len() != "srf"@.len());
    assert("webp"@.len() != "sr2"@.len());
    assert("webp"@.len() != "erf"@.len());
    assert("webp"@.len() != "mrw"@.len());
    assert("webp"@.len() != "rwl"@.len());
    assert("webp"@.len() != "kdc"@.len());
    assert("webp"@.len() != "dcr"@.len());
    assert("webp"@.len() != "mos"@.len());
    assert("webp"@.len() != "mef"@.len());
    assert("webp"@.len() != "crw"@.len());
    assert("webp"@.len() != "fff"@.len());
    assert("avif"@.len() != "raf"@.len());
    assert("avif"@.len() != "arw"@.len());
    assert("avif"@.len() != "dng"@.len());
    assert("avif"@.len() != "cr2"@.len());
    assert("avif"@.len() != "cr3"@.len());
    assert("avif"@.len() != "nef"@.len());
    assert("avif"@.len() != "nrw"@.len());
    assert("avif"@.len() != "orf"@.len());
    assert("avif"@.len() != "rw2"@.len());
    assert("avif"@.len() != "pef"@.len());
    assert("avif"@.len() != "srw"@.len());
    assert("avif"@.len() != "x3f"@.len());
    assert("avif"@.len() != "3fr"@.len());
    assert("avif"@.len() != "iiq"@.len());
    assert("avif"@.len() != "srf"@.len());
    assert("avif"@.len() != "sr2"@.len());
    assert("avif"@.len() != "erf"@.len());
    assert("avif"@.len() != "mrw"@.len());
    assert("avif"@.len() != "rwl"@.len());
    assert("avif"@.len() != "kdc"@.len());
    assert("avif"@.len() != "dcr"@.len());
    assert("avif"@.len() != "mos"@.len());
    assert("avif"@.len() != "mef"@.len());
    assert("avif"@.len() != "crw"@.len());
    assert("avif"@.len() != "fff"@.len());
}

proof fn lemma_video_not_earlier()
    ensures
        "mp4"@ != "raf"@,
        "mp4"@ != "arw"@,
        "mp4"@ != "dng"@,
        "mp4"@ != "cr2"@,
        "mp4"@ != "cr3"@,
        "mp4"@ != "nef"@,
        "mp4"@ != "nrw"@,
        "mp4"@ != "orf"@,
        "mp4"@ != "rw2"@,
        "mp4"@ != "pef"@,
        "mp4"@ != "srw"@,
        "mp4"@ != "x3f"@,
        "mp4"@ != "3fr"@,
        "mp4"@ != "iiq"@,
        "mp4"@ != "srf"@,
        "mp4"@ != "sr2"@,
        "mp4"@ != "erf"@,
        "mp4"@ != "mrw"@,
        "mp4"@ != "rwl"@,
        "mp4"@ != "kdc"@,
        "mp4"@ != "dcr"@,
        "mp4"@ != "mos"@,
        "mp4"@ != "mef"@,
        "mp4"@ != "crw"@,
        "mp4"@ != "fff"@,
        "mp4"@ != "jpg"@,
        "mp4"@ != "jpeg"@,
        "mp4"@ != "heif"@,
        "mp4"@ != "heic"@,
        "mp4"@ != "hif"@,
        "mp4"@ != "png"@,
        "mp4"@ != "tif"@,
        "mp4"@ != "tiff"@,
        "mp4"@ != "webp"@,
        "mp4"@ != "avif"@,
        "mov"@ != "raf"@,
        "mov"@ != "arw"@,
        "mov"@ != "dng"@,
        "mov"@ != "cr2"@,
        "mov"@ != "cr3"@,
        "mov"@ != "nef"@,
        "mov"@ != "nrw"@,
        "mov"@ != "orf"@,
        "mov"@ != "rw2"@,
        "mov"@ != "pef"@,
        "mov"@ != "srw"@,
        "mov"@ != "x3f"@,
        "mov"@ != "3fr"@,
        "mov"@ != "iiq"@,
        "mov"@ != "srf"@,
        "mov"@ != "sr2"@,
        "mov"@ != "erf"@,
        "mov"@ != "mrw"@,
        "mov"@ != "rwl"@,
        "mov"@ != "kdc"@,
        "mov"@ != "dcr"@,
        "mov"@ != "mos"@,
        "mov"@ != "mef"@,
        "mov"@ != "crw"@,
        "mov"@ != "fff"@,
        "mov"@ != "jpg"@,
        "mov"@ != "jpeg"@,
        "mov"@ != "heif"@,
        "mov"@ != "heic"@,
        "mov"@ != "hif"@,
        "mov"@ != "png"@,
        "mov"@ != "tif"@,
        "mov"@ != "tiff"@,
        "mov"@ != "webp"@,
        "mov"@ != "avif"@,
        "m4v"@ != "raf"@,
        "m4v"@ != "arw"@,
        "m4v"@ != "dng"@,
        "m4v"@ != "cr2"@,
        "m4v"@ != "cr3"@,
        "m4v"@ != "nef"@,
        "m4v"@ != "nrw"@,
        "m4v"@ != "orf"@,
        "m4v"@ != "rw2"@,
        "m4v"@ != "pef"@,
        "m4v"@ != "srw"@,
        "m4v"@ != "x3f"@,
        "m4v"@ != "3fr"@,
        "m4v"@ != "iiq"@,
        "m4v"@ != "srf"@,
        "m4v"@ != "sr2"@,
        "m4v"@ != "erf"@,
        "m4v"@ != "mrw"@,
        "m4v"@ != "rwl"@,
        "m4v"@ != "kdc"@,
        "m4v"@ != "dcr"@,
        "m4v"@ != "mos"@,
        "m4v"@ != "mef"@,
        "m4v"@ != "crw"@,
        "m4v"@ != "fff"@,
        "m4v"@ != "jpg"@,
        "m4v"@ != "jpeg"@,
        "m4v"@ != "heif"@,
        "m4v"@ != "heic"@,
        "m4v"@ != "hif"@,
        "m4v"@ != "png"@,
        "m4v"@ != "tif"@,
        "m4v"@ != "tiff"@,
        "m4v"@ != "webp"@,
        "m4v"@ != "avif"@,
        "avi"@ != "raf"@,
        "avi"@ != "arw"@,
        "avi"@ != "dng"@,
        "avi"@ != "cr2"@,
        "avi"@ != "cr3"@,
        "avi"@ != "nef"@,
        "avi"@ != "nrw"@,
        "avi"@ != "orf"@,
        "avi"@ != "rw2"@,
        "avi"@ != "pef"@,
        "avi"@ != "srw"@,
        "avi"@ != "x3f"@,
        "avi"@ != "3fr"@,
        "avi"@ != "iiq"@,
        "avi"@ != "srf"@,
        "avi"@ != "sr2"@,
        "avi"@ != "erf"@,
        "avi"@ != "mrw"@,
        "avi"@ != "rwl"@,
        "avi"@ != "kdc"@,
        "avi"@ != "dcr"@,
        "avi"@ != "mos"@,
        "avi"@ != "mef"@,
        "avi"@ != "crw"@,
        "avi"@ != "fff"@,
        "avi"@ != "jpg"@,
        "avi"@ != "jpeg"@,
        "avi"@ != "heif"@,
        "avi"@ != "heic"@,
        "avi"@ != "hif"@,
        "avi"@ != "png"@,
        "avi"@ != "tif"@,
        "avi"@ != "tiff"@,
        "avi"@ != "webp"@,
        "avi"@ != "avif"@,
        "mts"@ != "raf"@,
        "mts"@ != "arw"@,
        "mts"@ != "dng"@,
        "mts"@ != "cr2"@,
        "mts"@ != "cr3"@,
        "mts"@ != "nef"@,
        "mts"@ != "nrw"@,
        "mts"@ != "orf"@,
        "mts"@ != "rw2"@,
        "mts"@ != "pef"@,
        "mts"@ != "srw"@,
        "mts"@ != "x3f"@,
        "mts"@ != "3fr"@,
        "mts"@ != "iiq"@,
        "mts"@ != "srf"@,
        "mts"@ != "sr2"@,
        "mts"@ != "erf"@,
        "mts"@ != "mrw"@,
        "mts"@ != "rwl"@,
        "mts"@ != "kdc"@,
        "mts"@ != "dcr"@,
        "mts"@ != "mos"@,
        "mts"@ != "mef"@,
        "mts"@ != "crw"@,
        "mts"@ != "fff"@,
        "mts"@ != "jpg"@,
        "mts"@ != "jpeg"@,
        "mts"@ != "heif"@,
        "mts"@ != "heic"@,
        "mts"@ != "hif"@,
        "mts"@ != "png"@,
        "mts"@ != "tif"@,
        "mts"@ != "tiff"@,
        "mts"@ != "webp"@,
        "mts"@ != "avif"@,
        "m2ts"@ != "raf"@,
        "m2ts"@ != "arw"@,
        "m2ts"@ != "dng"@,
        "m2ts"@ != "cr2"@,
        "m2ts"@ != "cr3"@,
        "m2ts"@ != "nef"@,
        "m2ts"@ != "nrw"@,
        "m2ts"@ != "orf"@,
        "m2ts"@ != "rw2"@,
        "m2ts"@ != "pef"@,
        "m2ts"@ != "srw"@,
        "m2ts"@ != "x3f"@,
        "m2ts"@ != "3fr"@,
        "m2ts"@ != "iiq"@,
        "m2ts"@ != "srf"@,
        "m2ts"@ != "sr2"@,
        "m2ts"@ != "erf"@,
        "m2ts"@ != "mrw"@,
        "m2ts"@ != "rwl"@,
        "m2ts"@ != "kdc"@,
        "m2ts"@ != "dcr"@,
        "m2ts"@ != "mos"@,
        "m2ts"@ != "mef"@,
        "m2ts"@ != "crw"@,
        "m2ts"@ != "fff"@,
        "m2ts"@ != "jpg"@,
        "m2ts"@ != "jpeg"@,
        "m2ts"@ != "heif"@,
        "m2ts"@ != "heic"@,
        "m2ts"@ != "hif"@,
        "m2ts"@ != "png"@,
        "m2ts"@ != "tif"@,
        "m2ts"@ != "tiff"@,
        "m2ts"@ != "webp"@,
        "m2ts"@ != "avif"@,
        "mxf"@ != "raf"@,
        "mxf"@ != "arw"@,
        "mxf"@ != "dng"@,
        "mxf"@ != "cr2"@,
        "mxf"@ != "cr3"@,
        "mxf"@ != "nef"@,
        "mxf"@ != "nrw"@,
        "mxf"@ != "orf"@,
        "mxf"@ != "rw2"@,
        "mxf"@ != "pef"@,
        "mxf"@ != "srw"@,
        "mxf"@ != "x3f"@,
        "mxf"@ != "3fr"@,
        "mxf"@ != "iiq"@,
        "mxf"@ != "srf"@,
        "mxf"@ != "sr2"@,
        "mxf"@ != "erf"@,
        "mxf"@ != "mrw"@,
        "mxf"@ != "rwl"@,
        "mxf"@ != "kdc"@,
        "mxf"@ != "dcr"@,
        "mxf"@ != "mos"@,
        "mxf"@ != "mef"@,
        "mxf"@ != "crw"@,
        "mxf"@ != "fff"@,
        "mxf"@ != "jpg"@,
        "mxf"@ != "jpeg"@,
        "mxf"@ != "heif"@,
        "mxf"@ != "heic"@,
        "mxf"@ != "hif"@,
        "mxf"@ != "png"@,
        "mxf"@ != "tif"@,
        "mxf"@ != "tiff"@,
        "mxf"@ != "webp"@,
        "mxf"@ != "avif"@,
        "mkv"@ != "raf"@,
        "mkv"@ != "arw"@,
        "mkv"@ != "dng"@,
        "mkv"@ != "cr2"@,
        "mkv"@ != "cr3"@,
        "mkv"@ != "nef"@,
        "mkv"@ != "nrw"@,
        "mkv"@ != "orf"@,
        "mkv"@ != "rw2"@,
        "mkv"@ != "pef"@,
        "mkv"@ != "srw"@,
        "mkv"@ != "x3f"@,
        "mkv"@ != "3fr"@,
        "mkv"@ != "iiq"@,
        "mkv"@ != "srf"@,
        "mkv"@ != "sr2"@,
        "mkv"@ != "erf"@,
        "mkv"@ != "mrw"@,
        "mkv"@ != "rwl"@,
        "mkv"@ != "kdc"@,
        "mkv"@ != "dcr"@,
        "mkv"@ != "mos"@,
        "mkv"@ != "mef"@,
        "mkv"@ != "crw"@,
        "mkv"@ != "fff"@,
        "mkv"@ != "jpg"@,
        "mkv"@ != "jpeg"@,
        "mkv"@ != "heif"@,
        "mkv"@ != "heic"@,
        "mkv"@ != "hif"@,
        "mkv"@ != "png"@,
        "mkv"@ != "tif"@,
        "mkv"@ != "tiff"@,
        "mkv"@ != "webp"@,
        "mkv"@ != "avif"@,
        "3gp"@ != "raf"@,
        "3gp"@ != "arw"@,
        "3gp"@ != "dng"@,
        "3gp"@ != "cr2"@,
        "3gp"@ != "cr3"@,
        "3gp"@ != "nef"@,
        "3gp"@ != "nrw"@,
        "3gp"@ != "orf"@,
        "3gp"@ != "rw2"@,
        "3gp"@ != "pef"@,
        "3gp"@ != "srw"@,
        "3gp"@ != "x3f"@,
        "3gp"@ != "3fr"@,
        "3gp"@ != "iiq"@,
        "3gp"@ != "srf"@,
        "3gp"@ != "sr2"@,
        "3gp"@ != "erf"@,
        "3gp"@ != "mrw"@,
        "3gp"@ != "rwl"@,
        "3gp"@ != "kdc"@,
        "3gp"@ != "dcr"@,
        "3gp"@ != "mos"@,
        "3gp"@ != "mef"@,
        "3gp"@ != "crw"@,
        "3gp"@ != "fff"@,
        "3gp"@ != "jpg"@,
        "3gp"@ != "jpeg"@,
        "3gp"@ != "heif"@,
        "3gp"@ != "heic"@,
        "3gp"@ != "hif"@,
        "3gp"@ != "png"@,
        "3gp"@ != "tif"@,
        "3gp"@ != "tiff"@,
        "3gp"@ != "webp"@,
        "3gp"@ != "avif"@,
{
    reveal_strlit("mp4");
    reveal_strlit("mov");
    reveal_strlit("m4v");
    reveal_strlit("avi");
    reveal_strlit("mts");
    reveal_strlit("m2ts");
    reveal_strlit("mxf");
    reveal_strlit("mkv");
    reveal_strlit("3gp");
    reveal_strlit("raf");
    reveal_strlit("arw");
    reveal_strlit("dng");
    reveal_strlit("cr2");
    reveal_strlit("cr3");
    reveal_strlit("nef");
    reveal_strlit("nrw");
    reveal_strlit("orf");
    reveal_strlit("rw2");
    reveal_strlit("pef");
    reveal_strlit("srw");
    reveal_strlit("x3f");
    reveal_strlit("3fr");
    reveal_strlit("iiq");
    reveal_strlit("srf");
    reveal_strlit("sr2");
    reveal_strlit("erf");
    reveal_strlit("mrw");
    reveal_strlit("rwl");
    reveal_strlit("kdc");
    reveal_strlit("dcr");
    reveal_strlit("mos");
    reveal_strlit("mef");
    reveal_strlit("crw");
    reveal_strlit("fff");
    reveal_strlit("jpg");
    reveal_strlit("jpeg");
    reveal_strlit("heif");
    reveal_strlit("heic");
    reveal_strlit("hif");
    reveal_strlit("png");
    reveal_strlit("tif");
    reveal_strlit("tiff");
    reveal_strlit("webp");
    reveal_strlit("avif");
    assert("mp4"@[0] != "raf"@[0]);
    assert("mp4"@[0] != "arw"@[0]);
    assert("mp4"@[0] != "dng"@[0]);
    assert("mp4"@[0] != "cr2"@[0]);
    assert("mp4"@[0] != "cr3"@[0]);
    assert("mp4"@[0] != "nef"@[0]);
    assert("mp4"@[0] != "nrw"@[0]);
    assert("mp4"@[0] != "orf"@[0]);
    assert("mp4"@[0] != "rw2"@[0]);
    assert("mp4"@[0] != "pef"@[0]);
    assert("mp4"@[0] != "srw"@[0]);
    assert("mp4"@[0] != "x3f"@[0]);
    assert("mp4"@[0] != "3fr"@[0]);
    assert("mp4"@[0] != "iiq"@[0]);
    assert("mp4"@[0] != "srf"@[0]);
    assert("mp4"@[0] != "sr2"@[0]);
    assert("mp4"@[0] != "erf"@[0]);
    assert("mp4"@[1] != "mrw"@[1]);
    assert("mp4"@[0] != "rwl"@[0]);
    assert("mp4"@[0] != "kdc"@[0]);
    assert("mp4"@[0] != "dcr"@[0]);
    assert("mp4"@[1] != "mos"@[1]);
    assert("mp4"@[1] != "mef"@[1]);
    assert("mp4"@[0] != "crw"@[0]);
    assert("mp4"@[0] != "fff"@[0]);
    assert("mp4"@[0] != "jpg"@[0]);
    assert("mp4"@.len() != "jpeg"@.len());
    assert("mp4"@.len() != "heif"@.len());
    assert("mp4"@.len() != "heic"@.len());
    assert("mp4"@[0] != "hif"@[0]);
    assert("mp4"@[0] != "png"@[0]);
    assert("mp4"@[0] != "tif"@[0]);
    assert("mp4"@.len() != "tiff"@.len());
    assert("mp4"@.len() != "webp"@.len());
    assert("mp4"@.len() != "avif"@.len());
    assert("mov"@[0] != "raf"@[0]);
    assert("mov"@[0] != "arw"@[0]);
    assert("mov"@[0] != "dng"@[0]);
    assert("mov"@[0] != "cr2"@[0]);
    assert("mov"@[0] != "cr3"@[0]);
    assert("mov"@[0] != "nef"@[0]);
    assert("mov"@[0] != "nrw"@[0]);
    assert("mov"@[0] != "orf"@[0]);
    assert("mov"@[0] != "rw2"@[0]);
    assert("mov"@[0] != "pef"@[0]);
    assert("mov"@[0] != "srw"@[0]);
    assert("mov"@[0] != "x3f"@[0]);
    assert("mov"@[0] != "3fr"@[0]);
    assert("mov"@[0] != "iiq"@[0]);
    assert("mov"@[0] != "srf"@[0]);
    assert("mov"@[0] != "sr2"@[0]);
    assert("mov"@[0] != "erf"@[0]);
    assert("mov"@[1] != "mrw"@[1]);
    assert("mov"@[0] != "rwl"@[0]);
    assert("mov"@[0] != "kdc"@[0]);
    assert("mov"@[0] != "dcr"@[0]);
    assert("mov"@[2] != "mos"@[2]);
    assert("mov"@[1] != "mef"@[1]);
    assert("mov"@[0] != "crw"@[0]);
    assert("mov"@[0] != "fff"@[0]);
    assert("mov"@[0] != "jpg"@[0]);
    assert("mov"@.len() != "jpeg"@.len());
    assert("mov"@.len() != "heif"@.len());
    assert("mov"@.len() != "heic"@.len());
    assert("mov"@[0] != "hif"@[0]);
    assert("mov"@[0] != "png"@[0]);
    assert("mov"@[0] != "tif"@[0]);
    assert("mov"@.len() != "tiff"@.len());
    assert("mov"@.len() != "webp"@.len());
    assert("mov"@.len() != "avif"@.len());
    assert("m4v"@[0] != "raf"@[0]);
    assert("m4v"@[0] != "arw"@[0]);
    assert("m4v"@[0] != "dng"@[0]);
    assert("m4v"@[0] != "cr2"@[0]);
    assert("m4v"@[0] != "cr3"@[0]);
    assert("m4v"@[0] != "nef"@[0]);
    assert("m4v"@[0] != "nrw"@[0]);
    assert("m4v"@[0] != "orf"@[0]);
    assert("m4v"@[0] != "rw2"@[0]);
    assert("m4v"@[0] != "pef"@[0]);
    assert("m4v"@[0] != "srw"@[0]);
    assert("m4v"@[0] != "x3f"@[0]);
    assert("m4v"@[0] != "3fr"@[0]);
    assert("m4v"@[0] != "iiq"@[0]);
    assert("m4v"@[0] != "srf"@[0]);
    assert("m4v"@[0] != "sr2"@[0]);
    assert("m4v"@[0] != "erf"@[0]);
    assert("m4v"@[1] != "mrw"@[1]);
    assert("m4v"@[0] != "rwl"@[0]);
    assert("m4v"@[0] != "kdc"@[0]);
    assert("m4v"@[0] != "dcr"@[0]);
    assert("m4v"@[1] != "mos"@[1]);
    assert("m4v"@[1] != "mef"@[1]);
    assert("m4v"@[0] != "crw"@[0]);
    assert("m4v"@[0] != "fff"@[0]);
    assert("m4v"@[0] != "jpg"@[0]);
    assert("m4v"@.len() != "jpeg"@.len());
    assert("m4v"@.len() != "heif"@.len());
    assert("m4v"@.len() != "heic"@.len());
    assert("m4v"@[0] != "hif"@[0]);
    assert("m4v"@[0] != "png"@[0]);
    assert("m4v"@[0] != "tif"@[0]);
    assert("m4v"@.len() != "tiff"@.len());
    assert("m4v"@.len() != "webp"@.len());
    assert("m4v"@.len() != "avif"@.len());
    assert("avi"@[0] != "raf"@[0]);
    assert("avi"@[1] != "arw"@[1]);
    assert("avi"@[0] != "dng"@[0]);
    assert("avi"@[0] != "cr2"@[0]);
    assert("avi"@[0] != "cr3"@[0]);
    assert("avi"@[0] != "nef"@[0]);
    assert("avi"@[0] != "nrw"@[0]);
    assert("avi"@[0] != "orf"@[0]);
    assert("avi"@[0] != "rw2"@[0]);
    assert("avi"@[0] != "pef"@[0]);
    assert("avi"@[0] != "srw"@[0]);
    assert("avi"@[0] != "x3f"@[0]);
    assert("avi"@[0] != "3fr"@[0]);
    assert("avi"@[0] != "iiq"@[0]);
    assert("avi"@[0] != "srf"@[0]);
    assert("avi"@[0] != "sr2"@[0]);
    assert("avi"@[0] != "erf"@[0]);
    assert("avi"@[0] != "mrw"@[0]);
    assert("avi"@[0] != "rwl"@[0]);
    assert("avi"@[0] != "kdc"@[0]);
    assert("avi"@[0] != "dcr"@[0]);
    assert("avi"@[0] != "mos"@[0]);
    assert("avi"@[0] != "mef"@[0]);
    assert("avi"@[0] != "crw"@[0]);
    assert("avi"@[0] != "fff"@[0]);
    assert("avi"@[0] != "jpg"@[0]);
    assert("avi"@.len() != "jpeg"@.len());
    assert("avi"@.len() != "heif"@.len());
    assert("avi"@.len() != "heic"@.len());
    assert("avi"@[0] != "hif"@[0]);
    assert("avi"@[0] != "png"@[0]);
    assert("avi"@[0] != "tif"@[0]);
    assert("avi"@.len() != "tiff"@.len());
    assert("avi"@.len() != "webp"@.len());
    assert("avi"@.len() != "avif"@.len());
    assert("mts"@[0] != "raf"@[0]);
    assert("mts"@[0] != "arw"@[0]);
    assert("mts"@[0] != "dng"@[0]);
    assert("mts"@[0] != "cr2"@[0]);
    assert("mts"@[0] != "cr3"@[0]);
    assert("mts"@[0] != "nef"@[0]);
    assert("mts"@[0] != "nrw"@[0]);
    assert("mts"@[0] != "orf"@[0]);
    assert("mts"@[0] != "rw2"@[0]);
    assert("mts"@[0] != "pef"@[0]);
    assert("mts"@[0] != "srw"@[0]);
    assert("mts"@[0] != "x3f"@[0]);
    assert("mts"@[0] != "3fr"@[0]);
    assert("mts"@[0] != "iiq"@[0]);
    assert("mts"@[0] != "srf"@[0]);
    assert("mts"@[0] != "sr2"@[0]);
    assert("mts"@[0] != "erf"@[0]);
    assert("mts"@[1] != "mrw"@[1]);
    assert("mts"@[0] != "rwl"@[0]);
    assert("mts"@[0] != "kdc"@[0]);
    assert("mts"@[0] != "dcr"@[0]);
    assert("mts"@[1] != "mos"@[1]);
    assert("mts"@[1] != "mef"@[1]);
    assert("mts"@[0] != "crw"@[0]);
    assert("mts"@[0] != "fff"@[0]);
    assert("mts"@[0] != "jpg"@[0]);
    assert("mts"@.len() != "jpeg"@.len());
    assert("mts"@.len() != "heif"@.len());
    assert("mts"@.len() != "heic"@.len());
    assert("mts"@[0] != "hif"@[0]);
    assert("mts"@[0] != "png"@[0]);
    assert("mts"@[0] != "tif"@[0]);
    assert("mts"@.len() != "tiff"@.len());
    assert("mts"@.len() != "webp"@.len());
    assert("mts"@.len() != "avif"@.len());
    assert("m2ts"@.len() != "raf"@.len());
    assert("m2ts"@.len() != "arw"@.len());
    assert("m2ts"@.len() != "dng"@.len());
    assert("m2ts"@.len() != "cr2"@.len());
    assert("m2ts"@.len() != "cr3"@.len());
    assert("m2ts"@.len() != "nef"@.len());
    assert("m2ts"@.len() != "nrw"@.len());
    assert("m2ts"@.len() != "orf"@.len());
    assert("m2ts"@.len() != "rw2"@.len());
    assert("m2ts"@.len() != "pef"@.len());
    assert("m2ts"@.len() != "srw"@.len());
    assert("m2ts"@.len() != "x3f"@.len());
    assert("m2ts"@.len() != "3fr"@.len());
    assert("m2ts"@.len() != "iiq"@.len());
    assert("m2ts"@.len() != "srf"@.len());
    assert("m2ts"@.len() != "sr2"@.len());
    assert("m2ts"@.len() != "erf"@.len());
    assert("m2ts"@.len() != "mrw"@.len());
    assert("m2ts"@.len() != "rwl"@.len());
    assert("m2ts"@.len() != "kdc"@.len());
    assert("m2ts"@.len() != "dcr"@.len());
    assert("m2ts"@.len() != "mos"@.len());
    assert("m2ts"@.len() != "mef"@.len());
    assert("m2ts"@.len() != "crw"@.len());
    assert("m2ts"@.len() != "fff"@.len());
    assert("m2ts"@.len() != "jpg"@.len());
    assert("m2ts"@[0] != "jpeg"@[0]);
    assert("m2ts"@[0] != "heif"@[0]);
    assert("m2ts"@[0] != "heic"@[0]);
    assert("m2ts"@.len() != "hif"@.len());
    assert("m2ts"@.len() != "png"@.len());
    assert("m2ts"@.len() != "tif"@.len());
    assert("m2ts"@[0] != "tiff"@[0]);
    assert("m2ts"@[0] != "webp"@[0]);
    assert("m2ts"@[0] != "avif"@[0]);
    assert("mxf"@[0] != "raf"@[0]);
    assert("mxf"@[0] != "arw"@[0]);
    assert("mxf"@[0] != "dng"@[0]);
    assert("mxf"@[0] != "cr2"@[0]);
    assert("mxf"@[0] != "cr3"@[0]);
    assert("mxf"@[0] != "nef"@[0]);
    assert("mxf"@[0] != "nrw"@[0]);
    assert("mxf"@[0] != "orf"@[0]);
    assert("mxf"@[0] != "rw2"@[0]);
    assert("mxf"@[0] != "pef"@[0]);
    assert("mxf"@[0] != "srw"@[0]);
    assert("mxf"@[0] != "x3f"@[0]);
    assert("mxf"@[0] != "3fr"@[0]);
    assert("mxf"@[0] != "iiq"@[0]);
    assert("mxf"@[0] != "srf"@[0]);
    assert("mxf"@[0] != "sr2"@[0]);
    assert("mxf"@[0] != "erf"@[0]);
    assert("mxf"@[1] != "mrw"@[1]);
    assert("mxf"@[0] != "rwl"@[0]);
    assert("mxf"@[0] != "kdc"@[0]);
    assert("mxf"@[0] != "dcr"@[0]);
    assert("mxf"@[1] != "mos"@[1]);
    assert("mxf"@[1] != "mef"@[1]);
    assert("mxf"@[0] != "crw"@[0]);
    assert("mxf"@[0] != "fff"@[0]);
    assert("mxf"@[0] != "jpg"@[0]);
    assert("mxf"@.len() != "jpeg"@.len());
    assert("mxf"@.len() != "heif"@.len());
    assert("mxf"@.len() != "heic"@.len());
    assert("mxf"@[0] != "hif"@[0]);
    assert("mxf"@[0] != "png"@[0]);
    assert("mxf"@[0] != "tif"@[0]);
    assert("mxf"@.len() != "tiff"@.len());
    assert("mxf"@.len() != "webp"@.len());
    assert("mxf"@.len() != "avif"@.len());
    assert("mkv"@[0] != "raf"@[0]);
    assert("mkv"@[0] != "arw"@[0]);
    assert("mkv"@[0] != "dng"@[0]);
    assert("mkv"@[0] != "cr2"@[0]);
    assert("mkv"@[0] != "cr3"@[0]);
    assert("mkv"@[0] != "nef"@[0]);
    assert("mkv"@[0] != "nrw"@[0]);
    assert("mkv"@[0] != "orf"@[0]);
    assert("mkv"@[0] != "rw2"@[0]);
    assert("mkv"@[0] != "pef"@[0]);
    assert("mkv"@[0] != "srw"@[0]);
    assert("mkv"@[0] != "x3f"@[0]);
    assert("mkv"@[0] != "3fr"@[0]);
    assert("mkv"@[0] != "iiq"@[0]);
    assert("mkv"@[0] != "srf"@[0]);
    assert("mkv"@[0] != "sr2"@[0]);
    assert("mkv"@[0] != "erf"@[0]);
    assert("mkv"@[1] != "mrw"@[1]);
    assert("mkv"@[0] != "rwl"@[0]);
    assert("mkv"@[0] != "kdc"@[0]);
    assert("mkv"@[0] != "dcr"@[0]);
    assert("mkv"@[1] != "mos"@[1]);
    assert("mkv"@[1] != "mef"@[1]);
    assert("mkv"@[0] != "crw"@[0]);
    assert("mkv"@[0] != "fff"@[0]);
    assert("mkv"@[0] != "jpg"@[0]);
    assert("mkv"@.len() != "jpeg"@.len());
    assert("mkv"@.len() != "heif"@.len());
    assert("mkv"@.len() != "heic"@.len());
    assert("mkv"@[0] != "hif"@[0]);
    assert("mkv"@[0] != "png"@[0]);
    assert("mkv"@[0] != "tif"@[0]);
    assert("mkv"@.len() != "tiff"@.len());
    assert("mkv"@.len() != "webp"@.len());
    assert("mkv"@.len() != "avif"@.len());
    assert("3gp"@[0] != "raf"@[0]);
    assert("3gp"@[0] != "arw"@[0]);
    assert("3gp"@[0] != "dng"@[0]);
    assert("3gp"@[0] != "cr2"@[0]);
    assert("3gp"@[0] != "cr3"@[0]);
    assert("3gp"@[0] != "nef"@[0]);
    assert("3gp"@[0] != "nrw"@[0]);
    assert("3gp"@[0] != "orf"@[0]);
    assert("3gp"@[0] != "rw2"@[0]);
    assert("3gp"@[0] != "pef"@[0]);
    assert("3gp"@[0] != "srw"@[0]);
    assert("3gp"@[0] != "x3f"@[0]);
    assert("3gp"@[1] != "3fr"@[1]);
    assert("3gp"@[0] != "iiq"@[0]);
    assert("3gp"@[0] != "srf"@[0]);
    assert("3gp"@[0] != "sr2"@[0]);
    assert("3gp"@[0] != "erf"@[0]);
    assert("3gp"@[0] != "mrw"@[0]);
    assert("3gp"@[0] != "rwl"@[0]);
    assert("3gp"@[0] != "kdc"@[0]);
    assert("3gp"@[0] != "dcr"@[0]);
    assert("3gp"@[0] != "mos"@[0]);
    assert("3gp"@[0] != "mef"@[0]);
    assert("3gp"@[0] != "crw"@[0]);
    assert("3gp"@[0] != "fff"@[0]);
    assert("3gp"@[0] != "jpg"@[0]);
    assert("3gp"@.len() != "jpeg"@.len());
    assert("3gp"@.len() != "heif"@.len());
    assert("3gp"@.len() != "heic"@.len());
    assert("3gp"@[0] != "hif"@[0]);
    assert("3gp"@[0] != "png"@[0]);
    assert("3gp"@[0] != "tif"@[0]);
    assert("3gp"@.len() != "tiff"@.len());
    assert("3gp"@.len() != "webp"@.len());
    assert("3gp"@.len() != "avif"@.len());
}

proof fn lemma_sidecar_not_earlier()
    ensures
        "xml"@ != "raf"@,
        "xml"@ != "arw"@,
        "xml"@ != "dng"@,
        "xml"@ != "cr2"@,
        "xml"@ != "cr3"@,
        "xml"@ != "nef"@,
        "xml"@ != "nrw"@,
        "xml"@ != "orf"@,
        "xml"@ != "rw2"@,
        "xml"@ != "pef"@,
        "xml"@ != "srw"@,
        "xml"@ != "x3f"@,
        "xml"@ != "3fr"@,
        "xml"@ != "iiq"@,
        "xml"@ != "srf"@,
        "xml"@ != "sr2"@,
        "xml"@ != "erf"@,
        "xml"@ != "mrw"@,
        "xml"@ != "rwl"@,
        "xml"@ != "kdc"@,
        "xml"@ != "dcr"@,
        "xml"@ != "mos"@,
        "xml"@ != "mef"@,
        "xml"@ != "crw"@,
        "xml"@ != "fff"@,
        "xml"@ != "jpg"@,
        "xml"@ != "jpeg"@,
        "xml"@ != "heif"@,
        "xml"@ != "heic"@,
        "xml"@ != "hif"@,
        "xml"@ != "png"@,
        "xml"@ != "tif"@,
        "xml"@ != "tiff"@,
        "xml"@ != "webp"@,
        "xml"@ != "avif"@,
        "xml"@ != "mp4"@,
        "xml"@ != "mov"@,
        "xml"@ != "m4v"@,
        "xml"@ != "avi"@,
        "xml"@ != "mts"@,
        "xml"@ != "m2ts"@,
        "xml"@ != "mxf"@,
        "xml"@ != "mkv"@,
        "xml"@ != "3gp"@,
        "thm"@ != "raf"@,
        "thm"@ != "arw"@,
        "thm"@ != "dng"@,
        "thm"@ != "cr2"@,
        "thm"@ != "cr3"@,
        "thm"@ != "nef"@,
        "thm"@ != "nrw"@,
        "thm"@ != "orf"@,
        "thm"@ != "rw2"@,
        "thm"@ != "pef"@,
        "thm"@ != "srw"@,
        "thm"@ != "x3f"@,
        "thm"@ != "3fr"@,
        "thm"@ != "iiq"@,
        "thm"@ != "srf"@,
        "thm"@ != "sr2"@,
        "thm"@ != "erf"@,
        "thm"@ != "mrw"@,
        "thm"@ != "rwl"@,
        "thm"@ != "kdc"@,
        "thm"@ != "dcr"@,
        "thm"@ != "mos"@,
        "thm"@ != "mef"@,
        "thm"@ != "crw"@,
        "thm"@ != "fff"@,
        "thm"@ != "jpg"@,
        "thm"@ != "jpeg"@,
        "thm"@ != "heif"@,
        "thm"@ != "heic"@,
        "thm"@ != "hif"@,
        "thm"@ != "png"@,
        "thm"@ != "tif"@,
        "thm"@ != "tiff"@,
        "thm"@ != "webp"@,
        "thm"@ != "avif"@,
        "thm"@ != "mp4"@,
        "thm"@ != "mov"@,
        "thm"@ != "m4v"@,
        "thm"@ != "avi"@,
        "thm"@ != "mts"@,
        "thm"@ != "m2ts"@,
        "thm"@ != "mxf"@,
        "thm"@ != "mkv"@,
        "thm"@ != "3gp"@,
        "xmp"@ != "raf"@,
        "xmp"@ != "arw"@,
        "xmp"@ != "dng"@,
        "xmp"@ != "cr2"@,
        "xmp"@ != "cr3"@,
        "xmp"@ != "nef"@,
        "xmp"@ != "nrw"@,
        "xmp"@ != "orf"@,
        "xmp"@ != "rw2"@,
        "xmp"@ != "pef"@,
        "xmp"@ != "srw"@,
        "xmp"@ != "x3f"@,
        "xmp"@ != "3fr"@,
        "xmp"@ != "iiq"@,
        "xmp"@ != "srf"@,
        "xmp"@ != "sr2"@,
        "xmp"@ != "erf"@,
        "xmp"@ != "mrw"@,
        "xmp"@ != "rwl"@,
        "xmp"@ != "kdc"@,
        "xmp"@ != "dcr"@,
        "xmp"@ != "mos"@,
        "xmp"@ != "mef"@,
        "xmp"@ != "crw"@,
        "xmp"@ != "fff"@,
        "xmp"@ != "jpg"@,
        "xmp"@ != "jpeg"@,
        "xmp"@ != "heif"@,
        "xmp"@ != "heic"@,
        "xmp"@ != "hif"@,
        "xmp"@ != "png"@,
        "xmp"@ != "tif"@,
        "xmp"@ != "tiff"@,
        "xmp"@ != "webp"@,
        "xmp"@ != "avif"@,
        "xmp"@ != "mp4"@,
        "xmp"@ != "mov"@,
        "xmp"@ != "m4v"@,
        "xmp"@ != "avi"@,
        "xmp"@ != "mts"@,
        "xmp"@ != "m2ts"@,
        "xmp"@ != "mxf"@,
        "xmp"@ != "mkv"@,
        "xmp"@ != "3gp"@,
        "bim"@ != "raf"@,
        "bim"@ != "arw"@,
        "bim"@ != "dng"@,
        "bim"@ != "cr2"@,
        "bim"@ != "cr3"@,
        "bim"@ != "nef"@,
        "bim"@ != "nrw"@,
        "bim"@ != "orf"@,
        "bim"@ != "rw2"@,
        "bim"@ != "pef"@,
        "bim"@ != "srw"@,
        "bim"@ != "x3f"@,
        "bim"@ != "3fr"@,
        "bim"@ != "iiq"@,
        "bim"@ != "srf"@,
        "bim"@ != "sr2"@,
        "bim"@ != "erf"@,
        "bim"@ != "mrw"@,
        "bim"@ != "rwl"@,
        "bim"@ != "kdc"@,
        "bim"@ != "dcr"@,
        "bim"@ != "mos"@,
        "bim"@ != "mef"@,
        "bim"@ != "crw"@,
        "bim"@ != "fff"@,
        "bim"@ != "jpg"@,
        "bim"@ != "jpeg"@,
        "bim"@ != "heif"@,
        "bim"@ != "heic"@,
        "bim"@ != "hif"@,
        "bim"@ != "png"@,
        "bim"@ != "tif"@,
        "bim"@ != "tiff"@,
        "bim"@ != "webp"@,
        "bim"@ != "avif"@,
        "bim"@ != "mp4"@,
        "bim"@ != "mov"@,
        "bim"@ != "m4v"@,
        "bim"@ != "avi"@,
        "bim"@ != "mts"@,
        "bim"@ != "m2ts"@,
        "bim"@ != "mxf"@,
        "bim"@ != "mkv"@,
        "bim"@ != "3gp"@,
        "srt"@ != "raf"@,
        "srt"@ != "arw"@,
        "srt"@ != "dng"@,
        "srt"@ != "cr2"@,
        "srt"@ != "cr3"@,
        "srt"@ != "nef"@,
        "srt"@ != "nrw"@,
        "srt"@ != "orf"@,
        "srt"@ != "rw2"@,
        "srt"@ != "pef"@,
        "srt"@ != "srw"@,
        "srt"@ != "x3f"@,
        "srt"@ != "3fr"@,
        "srt"@ != "iiq"@,
        "srt"@ != "srf"@,
        "srt"@ != "sr2"@,
        "srt"@ != "erf"@,
        "srt"@ != "mrw"@,
        "srt"@ != "rwl"@,
        "srt"@ != "kdc"@,
        "srt"@ != "dcr"@,
        "srt"@ != "mos"@,
        "srt"@ != "mef"@,
        "srt"@ != "crw"@,
        "srt"@ != "fff"@,
        "srt"@ != "jpg"@,
        "srt"@ != "jpeg"@,
        "srt"@ != "heif"@,
        "srt"@ != "heic"@,
        "srt"@ != "hif"@,
        "srt"@ != "png"@,
        "srt"@ != "tif"@,
        "srt"@ != "tiff"@,
        "srt"@ != "webp"@,
        "srt"@ != "avif"@,
        "srt"@ != "mp4"@,
        "srt"@ != "mov"@,
        "srt"@ != "m4v"@,
        "srt"@ != "avi"@,
        "srt"@ != "mts"@,
        "srt"@ != "m2ts"@,
        "srt"@ != "mxf"@,
        "srt"@ != "mkv"@,
        "srt"@ != "3gp"@,
        "lrv"@ != "raf"@,
        "lrv"@ != "arw"@,
        "lrv"@ != "dng"@,
        "lrv"@ != "cr2"@,
        "lrv"@ != "cr3"@,
        "lrv"@ != "nef"@,
        "lrv"@ != "nrw"@,
        "lrv"@ != "orf"@,
        "lrv"@ != "rw2"@,
        "lrv"@ != "pef"@,
        "lrv"@ != "srw"@,
        "lrv"@ != "x3f"@,
        "lrv"@ != "3fr"@,
        "lrv"@ != "iiq"@,
        "lrv"@ != "srf"@,
        "lrv"@ != "sr2"@,
        "lrv"@ != "erf"@,
        "lrv"@ != "mrw"@,
        "lrv"@ != "rwl"@,
        "lrv"@ != "kdc"@,
        "lrv"@ != "dcr"@,
        "lrv"@ != "mos"@,
        "lrv"@ != "mef"@,
        "lrv"@ != "crw"@,
        "lrv"@ != "fff"@,
        "lrv"@ != "jpg"@,
        "lrv"@ != "jpeg"@,
        "lrv"@ != "heif"@,
        "lrv"@ != "heic"@,
        "lrv"@ != "hif"@,
        "lrv"@ != "png"@,
        "lrv"@ != "tif"@,
        "lrv"@ != "tiff"@,
        "lrv"@ != "webp"@,
        "lrv"@ != "avif"@,
        "lrv"@ != "mp4"@,
        "lrv"@ != "mov"@,
        "lrv"@ != "m4v"@,
        "lrv"@ != "avi"@,
        "lrv"@ != "mts"@,
        "lrv"@ != "m2ts"@,
        "lrv"@ != "mxf"@,
        "lrv"@ != "mkv"@,
        "lrv"@ != "3gp"@,
        "wav"@ != "raf"@,
        "wav"@ != "arw"@,
        "wav"@ != "dng"@,
        "wav"@ != "cr2"@,
        "wav"@ != "cr3"@,
        "wav"@ != "nef"@,
        "wav"@ != "nrw"@,
        "wav"@ != "orf"@,
        "wav"@ != "rw2"@,
        "wav"@ != "pef"@,
        "wav"@ != "srw"@,
        "wav"@ != "x3f"@,
        "wav"@ != "3fr"@,
        "wav"@ != "iiq"@,
        "wav"@ != "srf"@,
        "wav"@ != "sr2"@,
        "wav"@ != "erf"@,
        "wav"@ != "mrw"@,
        "wav"@ != "rwl"@,
        "wav"@ != "kdc"@,
        "wav"@ != "dcr"@,
        "wav"@ != "mos"@,
        "wav"@ != "mef"@,
        "wav"@ != "crw"@,
        "wav"@ != "fff"@,
        "wav"@ != "jpg"@,
        "wav"@ != "jpeg"@,
        "wav"@ != "heif"@,
        "wav"@ != "heic"@,
        "wav"@ != "hif"@,
        "wav"@ != "png"@,
        "wav"@ != "tif"@,
        "wav"@ != "tiff"@,
        "wav"@ != "webp"@,
        "wav"@ != "avif"@,
        "wav"@ != "mp4"@,
        "wav"@ != "mov"@,
        "wav"@ != "m4v"@,
        "wav"@ != "avi"@,
        "wav"@ != "mts"@,
        "wav"@ != "m2ts"@,
        "wav"@ != "mxf"@,
        "wav"@ != "mkv"@,
        "wav"@ != "3gp"@,
        "aae"@ != "raf"@,
        "aae"@ != "arw"@,
        "aae"@ != "dng"@,
        "aae"@ != "cr2"@,
        "aae"@ != "cr3"@,
        "aae"@ != "nef"@,
        "aae"@ != "nrw"@,
        "aae"@ != "orf"@,
        "aae"@ != "rw2"@,
        "aae"@ != "pef"@,
        "aae"@ != "srw"@,
        "aae"@ != "x3f"@,
        "aae"@ != "3fr"@,
        "aae"@ != "iiq"@,
        "aae"@ != "srf"@,
        "aae"@ != "sr2"@,
        "aae"@ != "erf"@,
        "aae"@ != "mrw"@,
        "aae"@ != "rwl"@,
        "aae"@ != "kdc"@,
        "aae"@ != "dcr"@,
        "aae"@ != "mos"@,
        "aae"@ != "mef"@,
        "aae"@ != "crw"@,
        "aae"@ != "fff"@,
        "aae"@ != "jpg"@,
        "aae"@ != "jpeg"@,
        "aae"@ != "heif"@,
        "aae"@ != "heic"@,
        "aae"@ != "hif"@,
        "aae"@ != "png"@,
        "aae"@ != "tif"@,
        "aae"@ != "tiff"@,
        "aae"@ != "webp"@,
        "aae"@ != "avif"@,
        "aae"@ != "mp4"@,
        "aae"@ != "mov"@,
        "aae"@ != "m4v"@,
        "aae"@ != "avi"@,
        "aae"@ != "mts"@,
        "aae"@ != "m2ts"@,
        "aae"@ != "mxf"@,
        "aae"@ != "mkv"@,
        "aae"@ != "3gp"@,
        "txt"@ != "raf"@,
        "txt"@ != "arw"@,
        "txt"@ != "dng"@,
        "txt"@ != "cr2"@,
        "txt"@ != "cr3"@,
        "txt"@ != "nef"@,
        "txt"@ != "nrw"@,
        "txt"@ != "orf"@,
        "txt"@ != "rw2"@,
        "txt"@ != "pef"@,
        "txt"@ != "srw"@,
        "txt"@ != "x3f"@,
        "txt"@ != "3fr"@,
        "txt"@ != "iiq"@,
        "txt"@ != "srf"@,
        "txt"@ != "sr2"@,
        "txt"@ != "erf"@,
        "txt"@ != "mrw"@,
        "txt"@ != "rwl"@,
        "txt"@ != "kdc"@,
        "txt"@ != "dcr"@,
        "txt"@ != "mos"@,
        "txt"@ != "mef"@,
        "txt"@ != "crw"@,
        "txt"@ != "fff"@,
        "txt"@ != "jpg"@,
        "txt"@ != "jpeg"@,
        "txt"@ != "heif"@,
        "txt"@ != "heic"@,
        "txt"@ != "hif"@,
        "txt"@ != "png"@,
        "txt"@ != "tif"@,
        "txt"@ != "tiff"@,
        "txt"@ != "webp"@,
        "txt"@ != "avif"@,
        "txt"@ != "mp4"@,
        "txt"@ != "mov"@,
        "txt"@ != "m4v"@,
        "txt"@ != "avi"@,
        "txt"@ != "mts"@,
        "txt"@ != "m2ts"@,
        "txt"@ != "mxf"@,
        "txt"@ != "mkv"@,
        "txt"@ != "3gp"@,
{
    reveal_strlit("xml");
    reveal_strlit("thm");
    reveal_strlit("xmp");
    reveal_strlit("bim");
    reveal_strlit("srt");
    reveal_strlit("lrv");
    reveal_strlit("wav");
    reveal_strlit("aae");
    reveal_strlit("txt");
    reveal_strlit("raf");
    reveal_strlit("arw");
    reveal_strlit("dng");
    reveal_strlit("cr2");
    reveal_strlit("cr3");
    reveal_strlit("nef");
    reveal_strlit("nrw");
    reveal_strlit("orf");
    reveal_strlit("rw2");
    reveal_strlit("pef");
    reveal_strlit("srw");
    reveal_strlit("x3f");
    reveal_strlit("3fr");
    reveal_strlit("iiq");
    reveal_strlit("srf");
    reveal_strlit("sr2");
    reveal_strlit("erf");
    reveal_strlit("mrw");
    reveal_strlit("rwl");
    reveal_strlit("kdc");
    reveal_strlit("dcr");
    reveal_strlit("mos");
    reveal_strlit("mef");
    reveal_strlit("crw");
    reveal_strlit("fff");
    reveal_strlit("jpg");
    reveal_strlit("jpeg");
    reveal_strlit("heif");
    reveal_strlit("heic");
    reveal_strlit("hif");
    reveal_strlit("png");
    reveal_strlit("tif");
    reveal_strlit("tiff");
    reveal_strlit("webp");
    reveal_strlit("avif");
    reveal_strlit("mp4");
    reveal_strlit("mov");
    reveal_strlit("m4v");
    reveal_strlit("avi");
    reveal_strlit("mts");
    reveal_strlit("m2ts");
    reveal_strlit("mxf");
    reveal_strlit("mkv");
    reveal_strlit("3gp");
    assert("xml"@[0] != "raf"@[0]);
    assert("xml"@[0] != "arw"@[0]);
    assert("xml"@[0] != "dng"@[0]);
    assert("xml"@[0] != "cr2"@[0]);
    assert("xml"@[0] != "cr3"@[0]);
    assert("xml"@[0] != "nef"@[0]);
    assert("xml"@[0] != "nrw"@[0]);
    assert("xml"@[0] != "orf"@[0]);
    assert("xml"@[0] != "rw2"@[0]);
    assert("xml"@[0] != "pef"@[0]);
    assert("xml"@[0] != "srw"@[0]);
    assert("xml"@[1] != "x3f"@[1]);
    assert("xml"@[0] != "3fr"@[0]);
    assert("xml"@[0] != "iiq"@[0]);
    assert("xml"@[0] != "srf"@[0]);
    assert("xml"@[0] != "sr2"@[0]);
    assert("xml"@[0] != "erf"@[0]);
    assert("xml"@[0] != "mrw"@[0]);
    assert("xml"@[0] != "rwl"@[0]);
    assert("xml"@[0] != "kdc"@[0]);
    assert("xml"@[0] != "dcr"@[0]);
    assert("xml"@[0] != "mos"@[0]);
    assert("xml"@[0] != "mef"@[0]);
    assert("xml"@[0] != "crw"@[0]);
    assert("xml"@[0] != "fff"@[0]);
    assert("xml"@[0] != "jpg"@[0]);
    assert("xml"@.len() != "jpeg"@.len());
    assert("xml"@.len() != "heif"@.len());
    assert("xml"@.len() != "heic"@.len());
    assert("xml"@[0] != "hif"@[0]);
    assert("xml"@[0] != "png"@[0]);
    assert("xml"@[0] != "tif"@[0]);
    assert("xml"@.len() != "tiff"@.len());
    assert("xml"@.len() != "webp"@.len());
    assert("xml"@.len() != "avif"@.len());
    assert("xml"@[0] != "mp4"@[0]);
    assert("xml"@[0] != "mov"@[0]);
    assert("xml"@[0] != "m4v"@[0]);
    assert("xml"@[0] != "avi"@[0]);
    assert("xml"@[0] != "mts"@[0]);
    assert("xml"@.len() != "m2ts"@.len());
    assert("xml"@[0] != "mxf"@[0]);
    assert("xml"@[0] != "mkv"@[0]);
    assert("xml"@[0] != "3gp"@[0]);
    assert("thm"@[0] != "raf"@[0]);
    assert("thm"@[0] != "arw"@[0]);
    assert("thm"@[0] != "dng"@[0]);
    assert("thm"@[0] != "cr2"@[0]);
    assert("thm"@[0] != "cr3"@[0]);
    assert("thm"@[0] != "nef"@[0]);
    assert("thm"@[0] != "nrw"@[0]);
    assert("thm"@[0] != "orf"@[0]);
    assert("thm"@[0] != "rw2"@[0]);
    assert("thm"@[0] != "pef"@[0]);
    assert("thm"@[0] != "srw"@[0]);
    assert("thm"@[0] != "x3f"@[0]);
    assert("thm"@[0] != "3fr"@[0]);
    assert("thm"@[0] != "iiq"@[0]);
    assert("thm"@[0] != "srf"@[0]);
    assert("thm"@[0] != "sr2"@[0]);
    assert("thm"@[0] != "erf"@[0]);
    assert("thm"@[0] != "mrw"@[0]);
    assert("thm"@[0] != "rwl"@[0]);
    assert("thm"@[0] != "kdc"@[0]);
    assert("thm"@[0] != "dcr"@[0]);
    assert("thm"@[0] != "mos"@[0]);
    assert("thm"@[0] != "mef"@[0]);
    assert("thm"@[0] != "crw"@[0]);
    assert("thm"@[0] != "fff"@[0]);
    assert("thm"@[0] != "jpg"@[0]);
    assert("thm"@.len() != "jpeg"@.len());
    assert("thm"@.len() != "heif"@.len());
    assert("thm"@.len() != "heic"@.len());
    assert("thm"@[0] != "hif"@[0]);
    assert("thm"@[0] != "png"@[0]);
    assert("thm"@[1] != "tif"@[1]);
    assert("thm"@.len() != "tiff"@.len());
    assert("thm"@.len() != "webp"@.len());
    assert("thm"@.len() != "avif"@.len());
    assert("thm"@[0] != "mp4"@[0]);
    assert("thm"@[0] != "mov"@[0]);
    assert("thm"@[0] != "m4v"@[0]);
    assert("thm"@[0] != "avi"@[0]);
    assert("thm"@[0] != "mts"@[0]);
    assert("thm"@.len() != "m2ts"@.len());
    assert("thm"@[0] != "mxf"@[0]);
    assert("thm"@[0] != "mkv"@[0]);
    assert("thm"@[0] != "3gp"@[0]);
    assert("xmp"@[0] != "raf"@[0]);
    assert("xmp"@[0] != "arw"@[0]);
    assert("xmp"@[0] != "dng"@[0]);
    assert("xmp"@[0] != "cr2"@[0]);
    assert("xmp"@[0] != "cr3"@[0]);
    assert("xmp"@[0] != "nef"@[0]);
    assert("xmp"@[0] != "nrw"@[0]);
    assert("xmp"@[0] != "orf"@[0]);
    assert("xmp"@[0] != "rw2"@[0]);
    assert("xmp"@[0] != "pef"@[0]);
    assert("xmp"@[0] != "srw"@[0]);
    assert("xmp"@[1] != "x3f"@[1]);
    assert("xmp"@[0] != "3fr"@[0]);
    assert("xmp"@[0] != "iiq"@[0]);
    assert("xmp"@[0] != "srf"@[0]);
    assert("xmp"@[0] != "sr2"@[0]);
    assert("xmp"@[0] != "erf"@[0]);
    assert("xmp"@[0] != "mrw"@[0]);
    assert("xmp"@[0] != "rwl"@[0]);
    assert("xmp"@[0] != "kdc"@[0]);
    assert("xmp"@[0] != "dcr"@[0]);
    assert("xmp"@[0] != "mos"@[0]);
    assert("xmp"@[0] != "mef"@[0]);
    assert("xmp"@[0] != "crw"@[0]);
    assert("xmp"@[0] != "fff"@[0]);
    assert("xmp"@[0] != "jpg"@[0]);
    assert("xmp"@.len() != "jpeg"@.len());
    assert("xmp"@.len() != "heif"@.len());
    assert("xmp"@.len() != "heic"@.len());
    assert("xmp"@[0] != "hif"@[0]);
    assert("xmp"@[0] != "png"@[0]);
    assert("xmp"@[0] != "tif"@[0]);
    assert("xmp"@.len() != "tiff"@.len());
    assert("xmp"@.len() != "webp"@.len());
    assert("xmp"@.len() != "avif"@.len());
    assert("xmp"@[0] != "mp4"@[0]);
    assert("xmp"@[0] != "mov"@[0]);
    assert("xmp"@[0] != "m4v"@[0]);
    assert("xmp"@[0] != "avi"@[0]);
    assert("xmp"@[0] != "mts"@[0]);
    assert("xmp"@.len() != "m2ts"@.len());
    assert("xmp"@[0] != "mxf"@[0]);
    assert("xmp"@[0] != "mkv"@[0]);
    assert("xmp"@[0] != "3gp"@[0]);
    assert("bim"@[0] != "raf"@[0]);
    assert("bim"@[0] != "arw"@[0]);
    assert("bim"@[0] != "dng"@[0]);
    assert("bim"@[0] != "cr2"@[0]);
    assert("bim"@[0] != "cr3"@[0]);
    assert("bim"@[0] != "nef"@[0]);
    assert("bim"@[0] != "nrw"@[0]);
    assert("bim"@[0] != "orf"@[0]);
    assert("bim"@[0] != "rw2"@[0]);
    assert("bim"@[0] != "pef"@[0]);
    assert("bim"@[0] != "srw"@[0]);
    assert("bim"@[0] != "x3f"@[0]);
    assert("bim"@[0] != "3fr"@[0]);
    assert("bim"@[0] != "iiq"@[0]);
    assert("bim"@[0] != "srf"@[0]);
    assert("bim"@[0] != "sr2"@[0]);
    assert("bim"@[0] != "erf"@[0]);
    assert("bim"@[0] != "mrw"@[0]);
    assert("bim"@[0] != "rwl"@[0]);
    assert("bim"@[0] != "kdc"@[0]);
    assert("bim"@[0] != "dcr"@[0]);
    assert("bim"@[0] != "mos"@[0]);
    assert("bim"@[0] != "mef"@[0]);
    assert("bim"@[0] != "crw"@[0]);
    assert("bim"@[0] != "fff"@[0]);
    assert("bim"@[0] != "jpg"@[0]);
    assert("bim"@.len() != "jpeg"@.len());
    assert("bim"@.len() != "heif"@.len());
    assert("bim"@.len() != "heic"@.len());
    assert("bim"@[0] != "hif"@[0]);
    assert("bim"@[0] != "png"@[0]);
    assert("bim"@[0] != "tif"@[0]);
    assert("bim"@.len() != "tiff"@.len());
    assert("bim"@.len() != "webp"@.len());
    assert("bim"@.len() != "avif"@.len());
    assert("bim"@[0] != "mp4"@[0]);
    assert("bim"@[0] != "mov"@[0]);
    assert("bim"@[0] != "m4v"@[0]);
    assert("bim"@[0] != "avi"@[0]);
    assert("bim"@[0] != "mts"@[0]);
    assert("bim"@.len() != "m2ts"@.len());
    assert("bim"@[0] != "mxf"@[0]);
    assert("bim"@[0] != "mkv"@[0]);
    assert("bim"@[0] != "3gp"@[0]);
    assert("srt"@[0] != "raf"@[0]);
    assert("srt"@[0] != "arw"@[0]);
    assert("srt"@[0] != "dng"@[0]);
    assert("srt"@[0] != "cr2"@[0]);
    assert("srt"@[0] != "cr3"@[0]);
    assert("srt"@[0] != "nef"@[0]);
    assert("srt"@[0] != "nrw"@[0]);
    assert("srt"@[0] != "orf"@[0]);
    assert("srt"@[0] != "rw2"@[0]);
    assert("srt"@[0] != "pef"@[0]);
    assert("srt"@[2] != "srw"@[2]);
    assert("srt"@[0] != "x3f"@[0]);
    assert("srt"@[0] != "3fr"@[0]);
    assert("srt"@[0] != "iiq"@[0]);
    assert("srt"@[2] != "srf"@[2]);
    assert("srt"@[2] != "sr2"@[2]);
    assert("srt"@[0] != "erf"@[0]);
    assert("srt"@[0] != "mrw"@[0]);
    assert("srt"@[0] != "rwl"@[0]);
    assert("srt"@[0] != "kdc"@[0]);
    assert("srt"@[0] != "dcr"@[0]);
    assert("srt"@[0] != "mos"@[0]);
    assert("srt"@[0] != "mef"@[0]);
    assert("srt"@[0] != "crw"@[0]);
    assert("srt"@[0] != "fff"@[0]);
    assert("srt"@[0] != "jpg"@[0]);
    assert("srt"@.len() != "jpeg"@.len());
    assert("srt"@.len() != "heif"@.len());
    assert("srt"@.len() != "heic"@.len());
    assert("srt"@[0] != "hif"@[0]);
    assert("srt"@[0] != "png"@[0]);
    assert("srt"@[0] != "tif"@[0]);
    assert("srt"@.len() != "tiff"@.len());
    assert("srt"@.len() != "webp"@.len());
    assert("srt"@.len() != "avif"@.len());
    assert("srt"@[0] != "mp4"@[0]);
    assert("srt"@[0] != "mov"@[0]);
    assert("srt"@[0] != "m4v"@[0]);
    assert("srt"@[0] != "avi"@[0]);
    assert("srt"@[0] != "mts"@[0]);
    assert("srt"@.len() != "m2ts"@.len());
    assert("srt"@[0] != "mxf"@[0]);
    assert("srt"@[0] != "mkv"@[0]);
    assert("srt"@[0] != "3gp"@[0]);
    assert("lrv"@[0] != "raf"@[0]);
    assert("lrv"@[0] != "arw"@[0]);
    assert("lrv"@[0] != "dng"@[0]);
    assert("lrv"@[0] != "cr2"@[0]);
    assert("lrv"@[0] != "cr3"@[0]);
    assert("lrv"@[0] != "nef"@[0]);
    assert("lrv"@[0] != "nrw"@[0]);
    assert("lrv"@[0] != "orf"@[0]);
    assert("lrv"@[0] != "rw2"@[0]);
    assert("lrv"@[0] != "pef"@[0]);
    assert("lrv"@[0] != "srw"@[0]);
    assert("lrv"@[0] != "x3f"@[0]);
    assert("lrv"@[0] != "3fr"@[0]);
    assert("lrv"@[0] != "iiq"@[0]);
    assert("lrv"@[0] != "srf"@[0]);
    assert("lrv"@[0] != "sr2"@[0]);
    assert("lrv"@[0] != "erf"@[0]);
    assert("lrv"@[0] != "mrw"@[0]);
    assert("lrv"@[0] != "rwl"@[0]);
    assert("lrv"@[0] != "kdc"@[0]);
    assert("lrv"@[0] != "dcr"@[0]);
    assert("lrv"@[0] != "mos"@[0]);
    assert("lrv"@[0] != "mef"@[0]);
    assert("lrv"@[0] != "crw"@[0]);
    assert("lrv"@[0] != "fff"@[0]);
    assert("lrv"@[0] != "jpg"@[0]);
    assert("lrv"@.len() != "jpeg"@.len());
    assert("lrv"@.len() != "heif"@.len());
    assert("lrv"@.len() != "heic"@.len());
    assert("lrv"@[0] != "hif"@[0]);
    assert("lrv"@[0] != "png"@[0]);
    assert("lrv"@[0] != "tif"@[0]);
    assert("lrv"@.len() != "tiff"@.len());
    assert("lrv"@.len() != "webp"@.len());
    assert("lrv"@.len() != "avif"@.len());
    assert("lrv"@[0] != "mp4"@[0]);
    assert("lrv"@[0] != "mov"@[0]);
    assert("lrv"@[0] != "m4v"@[0]);
    assert("lrv"@[0] != "avi"@[0]);
    assert("lrv"@[0] != "mts"@[0]);
    assert("lrv"@.len() != "m2ts"@.len());
    assert("lrv"@[0] != "mxf"@[0]);
    assert("lrv"@[0] != "mkv"@[0]);
    assert("lrv"@[0] != "3gp"@[0]);
    assert("wav"@[0] != "raf"@[0]);
    assert("wav"@[0] != "arw"@[0]);
    assert("wav"@[0] != "dng"@[0]);
    assert("wav"@[0] != "cr2"@[0]);
    assert("wav"@[0] != "cr3"@[0]);
    assert("wav"@[0] != "nef"@[0]);
    assert("wav"@[0] != "nrw"@[0]);
    assert("wav"@[0] != "orf"@[0]);
    assert("wav"@[0] != "rw2"@[0]);
    assert("wav"@[0] != "pef"@[0]);
    assert("wav"@[0] != "srw"@[0]);
    assert("wav"@[0] != "x3f"@[0]);
    assert("wav"@[0] != "3fr"@[0]);
    assert("wav"@[0] != "iiq"@[0]);
    assert("wav"@[0] != "srf"@[0]);
    assert("wav"@[0] != "sr2"@[0]);
    assert("wav"@[0] != "erf"@[0]);
    assert("wav"@[0] != "mrw"@[0]);
    assert("wav"@[0] != "rwl"@[0]);
    assert("wav"@[0] != "kdc"@[0]);
    assert("wav"@[0] != "dcr"@[0]);
    assert("wav"@[0] != "mos"@[0]);
    assert("wav"@[0] != "mef"@[0]);
    assert("wav"@[0] != "crw"@[0]);
    assert("wav"@[0] != "fff"@[0]);
    assert("wav"@[0] != "jpg"@[0]);
    assert("wav"@.len() != "jpeg"@.len());
    assert("wav"@.len() != "heif"@.len());
    assert("wav"@.len() != "heic"@.len());
    assert("wav"@[0] != "hif"@[0]);
    assert("wav"@[0] != "png"@[0]);
    assert("wav"@[0] != "tif"@[0]);
    assert("wav"@.len() != "tiff"@.len());
    assert("wav"@.len() != "webp"@.len());
    assert("wav"@.len() != "avif"@.len());
    assert("wav"@[0] != "mp4"@[0]);
    assert("wav"@[0] != "mov"@[0]);
    assert("wav"@[0] != "m4v"@[0]);
    assert("wav"@[0] != "avi"@[0]);
    assert("wav"@[0] != "mts"@[0]);
    assert("wav"@.len() != "m2ts"@.len());
    assert("wav"@[0] != "mxf"@[0]);
    assert("wav"@[0] != "mkv"@[0]);
    assert("wav"@[0] != "3gp"@[0]);
    assert("aae"@[0] != "raf"@[0]);
    assert("aae"@[1] != "arw"@[1]);
    assert("aae"@[0] != "dng"@[0]);
    assert("aae"@[0] != "cr2"@[0]);
    assert("aae"@[0] != "cr3"@[0]);
    assert("aae"@[0] != "nef"@[0]);
    assert("aae"@[0] != "nrw"@[0]);
    assert("aae"@[0] != "orf"@[0]);
    assert("aae"@[0] != "rw2"@[0]);
    assert("aae"@[0] != "pef"@[0]);
    assert("aae"@[0] != "srw"@[0]);
    assert("aae"@[0] != "x3f"@[0]);
    assert("aae"@[0] != "3fr"@[0]);
    assert("aae"@[0] != "iiq"@[0]);
    assert("aae"@[0] != "srf"@[0]);
    assert("aae"@[0] != "sr2"@[0]);
    assert("aae"@[0] != "erf"@[0]);
    assert("aae"@[0] != "mrw"@[0]);
    assert("aae"@[0] != "rwl"@[0]);
    assert("aae"@[0] != "kdc"@[0]);
    assert("aae"@[0] != "dcr"@[0]);
    assert("aae"@[0] != "mos"@[0]);
    assert("aae"@[0] != "mef"@[0]);
    assert("aae"@[0] != "crw"@[0]);
    assert("aae"@[0] != "fff"@[0]);
    assert("aae"@[0] != "jpg"@[0]);
    assert("aae"@.len() != "jpeg"@.len());
    assert("aae"@.len() != "heif"@.len());
    assert("aae"@.len() != "heic"@.len());
    assert("aae"@[0] != "hif"@[0]);
    assert("aae"@[0] != "png"@[0]);
    assert("aae"@[0] != "tif"@[0]);
    assert("aae"@.len() != "tiff"@.len());
    assert("aae"@.len() != "webp"@.len());
    assert("aae"@.len() != "avif"@.len());
    assert("aae"@[0] != "mp4"@[0]);
    assert("aae"@[0] != "mov"@[0]);
    assert("aae"@[0] != "m4v"@[0]);
    assert("aae"@[1] != "avi"@[1]);
    assert("aae"@[0] != "mts"@[0]);
    assert("aae"@.len() != "m2ts"@.len());
    assert("aae"@[0] != "mxf"@[0]);
    assert("aae"@[0] != "mkv"@[0]);
    assert("aae"@[0] != "3gp"@[0]);
    assert("txt"@[0] != "raf"@[0]);
    assert("txt"@[0] != "arw"@[0]);
    assert("txt"@[0] != "dng"@[0]);
    assert("txt"@[0] != "cr2"@[0]);
    assert("txt"@[0] != "cr3"@[0]);
    assert("txt"@[0] != "nef"@[0]);
    assert("txt"@[0] != "nrw"@[0]);
    assert("txt"@[0] != "orf"@[0]);
    assert("txt"@[0] != "rw2"@[0]);
    assert("txt"@[0] != "pef"@[0]);
    assert("txt"@[0] != "srw"@[0]);
    assert("txt"@[0] != "x3f"@[0]);
    assert("txt"@[0] != "3fr"@[0]);
    assert("txt"@[0] != "iiq"@[0]);
    assert("txt"@[0] != "srf"@[0]);
    assert("txt"@[0] != "sr2"@[0]);
    assert("txt"@[0] != "erf"@[0]);
    assert("txt"@[0] != "mrw"@[0]);
    assert("txt"@[0] != "rwl"@[0]);
    assert("txt"@[0] != "kdc"@[0]);
    assert("txt"@[0] != "dcr"@[0]);
    assert("txt"@[0] != "mos"@[0]);
    assert("txt"@[0] != "mef"@[0]);
    assert("txt"@[0] != "crw"@[0]);
    assert("txt"@[0] != "fff"@[0]);
    assert("txt"@[0] != "jpg"@[0]);
    assert("txt"@.len() != "jpeg"@.len());
    assert("txt"@.len() != "heif"@.len());
    assert("txt"@.len() != "heic"@.len());
    assert("txt"@[0] != "hif"@[0]);
    assert("txt"@[0] != "png"@[0]);
    assert("txt"@[1] != "tif"@[1]);
    assert("txt"@.len() != "tiff"@.len());
    assert("txt"@.len() != "webp"@.len());
    assert("txt"@.len() != "avif"@.len());
    assert("txt"@[0] != "mp4"@[0]);
    assert("txt"@[0] != "mov"@[0]);
    assert("txt"@[0] != "m4v"@[0]);
    assert("txt"@[0] != "avi"@[0]);
    assert("txt"@[0] != "mts"@[0]);
    assert("txt"@.len() != "m2ts"@.len());
    assert("txt"@[0] != "mxf"@[0]);
    assert("txt"@[0] != "mkv"@[0]);
    assert("txt"@[0] != "3gp"@[0]);
}

proof fn lemma_ext_lists_disjoint(e: Seq<char>)
    ensures
        (e == "jpg"@ || e == "jpeg"@ || e == "heif"@ || e == "heic"@ || e == "hif"@ || e == "png"@ || e == "tif"@ || e == "tiff"@ || e == "webp"@ || e == "avif"@) ==> !is_raw_ext(e),
        (e == "mp4"@ || e == "mov"@ || e == "m4v"@ || e == "avi"@ || e == "mts"@ || e == "m2ts"@ || e == "mxf"@ || e == "mkv"@ || e == "3gp"@) ==> !is_raw_ext(e) && !is_image_ext(e),
        (e == "xml"@ || e == "thm"@ || e == "xmp"@ || e == "bim"@ || e == "srt"@ || e == "lrv"@ || e == "wav"@ || e == "aae"@ || e == "txt"@) ==> !is_raw_ext(e) && !is_image_ext(e) && !is_video_ext(e),
{
    lemma_image_not_raw();
    lemma_video_not_earlier();
    lemma_sidecar_not_earlier();
}

/// A file's kind follows its extension, in any case, wherever it lies outside a `THMBNL`
/// folder: `raf`, `arw`, `dng`, `cr2`, `cr3`, `nef`, `nrw`, `orf`, `rw2`, `pef`, `srw`, `x3f`,
/// `3fr`, `iiq`, `srf`, `sr2`, `erf`, `mrw`, `rwl`, `kdc`, `dcr`, `mos`, `mef`, `crw` and `fff`
/// are RAW (and nothing else is); `jpg`, `jpeg`, `heif`, `heic`, `hif`, `png`, `tif`, `tiff`,
/// `webp` and `avif` images; `mp4`, `mov`, `m4v`, `avi`, `mts`, `m2ts`, `mxf`, `mkv` and `3gp`
/// video; `xml`, `thm`, `xmp`, `bim`, `srt`, `lrv`, `wav`, `aae` and `txt` sidecars. Inside a
/// `THMBNL` folder every file is other.
pub proof fn law_kind_by_extension(path: Seq<char>)
    ensures
        ({
            let e = ascii_lower_seq(extension(path));
            let outside = file_name(parent(path)) != "THMBNL"@;
            &&& outside ==> ((classify_spec(path) == Kind::Raw) <==> (e == "raf"@ || e == "arw"@ || e == "dng"@ || e == "cr2"@ || e == "cr3"@ || e == "nef"@ || e == "nrw"@ || e == "orf"@ || e == "rw2"@ || e == "pef"@ || e == "srw"@ || e == "x3f"@ || e == "3fr"@ || e == "iiq"@ || e == "srf"@ || e == "sr2"@ || e == "erf"@ || e == "mrw"@ || e == "rwl"@ || e == "kdc"@ || e == "dcr"@ || e == "mos"@ || e == "mef"@ || e == "crw"@ || e == "fff"@))
            &&& outside && (e == "jpg"@ || e == "jpeg"@ || e == "heif"@ || e == "heic"@ || e == "hif"@ || e == "png"@ || e == "tif"@ || e == "tiff"@ || e == "webp"@ || e == "avif"@) ==> classify_spec(path) == Kind::Image
            &&& outside && (e == "mp4"@ || e == "mov"@ || e == "m4v"@ || e == "avi"@ || e == "mts"@ || e == "m2ts"@ || e == "mxf"@ || e == "mkv"@ || e == "3gp"@) ==> classify_spec(path) == Kind::Video
            &&& outside && (e == "xml"@ || e == "thm"@ || e == "xmp"@ || e == "bim"@ || e == "srt"@ || e == "lrv"@ || e == "wav"@ || e == "aae"@ || e == "txt"@) ==> classify_spec(path) == Kind::Sidecar
            &&& !outside ==> classify_spec(path) == Kind::Other
        }),
{
    lemma_ext_lists_disjoint(ascii_lower_seq(extension(path)));
}

/// The kind of the file at `path`.
pub fn classify(path: &str) -> (k: Kind)
    ensures
        k == classify_spec(path@),
{
    let p = text::chars_of(path);
    let e = text::lower_ascii(&paths::extension_of(&p));
    let dir = paths::parent_of(&p);
    let dir_name = paths::file_name_of(&dir);
    if text::eq_str(&dir_name, "THMBNL") {
        Kind::Other
    } else if is_raw_ext_exec(&e) {
        Kind::Raw
    } else if is_image_ext_exec(&e) {
        Kind::Image
    } else if is_video_ext_exec(&e) {
        Kind::Video
    } else if is_sidecar_ext_exec(&e) {
        Kind::Sidecar
    } else {
        Kind::Other
    }
}

/// Another program's library bundle: Lightroom, Capture One, Photos, Aperture. These hold
/// thousands of preview and cache files and no originals worth indexing.
pub open spec fn is_library_package_spec(name: Seq<char>) -> bool {
    let lower = ascii_lower_seq(name);
    ||| has_suffix(lower, ".lrdata"@)
    ||| has_suffix(lower, ".lrcat"@)
    ||| has_suffix(lower, ".lrcat-data"@)
    ||| has_suffix(lower, ".cocatalog"@)
    ||| has_suffix(lower, ".cosessiondb"@)
    ||| has_suffix(lower, ".photoslibrary"@)
    ||| has_suffix(lower, ".aplibrary"@)
    ||| has_suffix(lower, ".migratedaperturelibrary"@)
    ||| has_suffix(lower, ".photolibrary"@)
}

/// Names a walk skips: dot files, Windows thumbnail caches, other programs' library bundles.
pub open spec fn is_hidden_spec(name: Seq<char>) -> bool {
    ||| (name.len() > 0 && name[0] == '.')
    ||| name == "Thumbs.db"@
    ||| name == "desktop.ini"@
    ||| is_library_package_spec(name)
}

fn ends_with_str(s: &Vec<char>, p: &str) -> (b: bool)
    ensures
        b == has_suffix(s@, p@),
{
    let pv = text::chars_of(p);
    text::ends_with(s, &pv)
}

/// Whether `name` is another program's library bundle.
pub fn is_library_package(name: &str) -> (b: bool)
    ensures
        b == is_library_package_spec(name@),
{
    let lower = text::lower_ascii(&text::chars_of(name));
    ends_with_str(&lower, ".lrdata") || ends_with_str(&lower, ".lrcat") || ends_with_str(
        &lower,
        ".lrcat-data",
    ) || ends_with_str(&lower, ".cocatalog") || ends_with_str(&lower, ".cosessiondb")
        || ends_with_str(&lower, ".photoslibrary") || ends_with_str(&lower, ".aplibrary")
        || ends_with_str(&lower, ".migratedaperturelibrary") || ends_with_str(&lower, ".photolibrary")
}

/// Whether a walk skips the entry called `name`.
pub fn is_hidden(name: &str) -> (b: bool)
    ensures
        b == is_hidden_spec(name@),
{
    let v = text::chars_of(name);
    (v.len() > 0 && v[0] == '.') || text::eq_str(&v, "Thumbs.db") || text::eq_str(&v, "desktop.ini")
        || is_library_package(name)
}


/// A file's position in its scan.
#[derive(Clone, Copy, PartialEq, Eq, Structural, Debug, Hash, PartialOrd, Ord)]
pub struct FileId(pub u32);

/// A group's position in its scan.
#[derive(Clone, Copy, PartialEq, Eq, Structural, Debug, Hash, PartialOrd, Ord)]
pub struct GroupId(pub u32);

/// One file of a source.
#[derive(Clone, Debug)]
pub struct ScannedFile {
    pub id: FileId,
    /// Where the file is, `/`-separated.
    pub path: String,
    /// Path relative to the source root.
    pub rel: String,
    pub kind: Kind,
    pub size: u64,
    /// The modification time as local wall-clock time, when it could be read.
    pub mtime: Option<DateTime>,
}

/// `rel`'s directory with `\` written as `/`, or `.` when the file is at the root.
pub open spec fn rel_dir_spec(rel: Seq<char>) -> Seq<char> {
    let p = parent(rel);
    if p.len() > 0 {
        p.map_values(|c: char| if c == '\\' { '/' } else { c })
    } else {
        "."@
    }
}

impl ScannedFile {
    /// The file name without its extension.
    pub fn stem(&self) -> (r: String)
        ensures
            r@ == file_stem(self.path@),
    {
        text::string_of(&paths::file_stem_of(&text::chars_of(self.path.as_str())))
    }

    /// The extension, without the dot; empty when there is none.
    pub fn ext(&self) -> (r: String)
        ensures
            r@ == extension(self.path@),
    {
        text::string_of(&paths::extension_of(&text::chars_of(self.path.as_str())))
    }

    /// Directory of the file relative to the source root, `.` at the root.
    pub fn rel_dir(&self) -> (r: String)
        ensures
            r@ == rel_dir_spec(self.rel@),
    {
        let p = paths::parent_of(&text::chars_of(self.rel.as_str()));
        if p.len() > 0 {
            let mut out: Vec<char> = Vec::new();
            let mut i: usize = 0;
            while i < p.len()
                invariant
                    i <= p.len(),
                    out@ == p@.take(i as int).map_values(|c: char| if c == '\\' { '/' } else { c }),
                decreases p.len() - i,
            {
                out.push(if p[i] == '\\' { '/' } else { p[i] });
                i = i + 1;
                assert(out@ =~= p@.take(i as int).map_values(|c: char| if c == '\\' { '/' } else { c }));
            }
            assert(p@.take(p.len() as int) =~= p@);
            text::string_of(&out)
        } else {
            text::string_of(&text::chars_of("."))
        }
    }
}

/// Where a group's preview comes from.
#[derive(Clone, Copy, PartialEq, Eq, Structural, Debug)]
pub enum PreviewSource {
    /// A camera JPEG shot alongside the RAW.
    SidecarJpeg,
    /// The camera's preview embedded inside the RAW container.
    EmbeddedPreview,
    /// The file itself is a viewable image.
    Itself,
    /// A frame out of a video.
    VideoFrame,
    NoPreview,
}

/// A primary file with its attachments (paired JPEG, sidecars).
#[derive(Clone, Debug)]
pub struct Group {
    pub id: GroupId,
    pub primary: FileId,
    pub attachments: Vec<FileId>,
    pub kind: Kind,
    pub meta: CaptureMeta,
    pub preview: PreviewSource,
    /// The file to read the preview from (sidecar JPEG, or the RAW itself).
    pub preview_file: Option<FileId>,
}

/// The directory a file is in.
pub open spec fn dir_of(f: ScannedFile) -> Seq<char> {
    parent(f.path@)
}

/// A file's stem, lowercased (ASCII), which is what grouping compares.
pub open spec fn lstem(f: ScannedFile) -> Seq<char> {
    ascii_lower_seq(file_stem(f.path@))
}

/// Which of two primaries with the same stem leads: RAW, then image, then video.
pub open spec fn rank(k: Kind) -> int {
    match k {
        Kind::Raw => 0,
        Kind::Image => 1,
        Kind::Video => 2,
        _ => 3,
    }
}

/// Of a RAW and another photo or a video with the same stem (ignoring case) in one directory,
/// the other never leads a group: the RAW goes first, and an image goes before a video.
pub proof fn law_raw_leads_its_pair(files: Seq<ScannedFile>, i: int, j: int)
    requires
        same_class(files, i, j),
        i != j,
    ensures
        files[i].kind == Kind::Raw && (files[j].kind == Kind::Image || files[j].kind == Kind::Video) ==> !is_leader(
            files,
            j,
        ),
        files[i].kind == Kind::Image && files[j].kind == Kind::Video ==> !is_leader(files, j),
{
    assert(same_class(files, j, i));
}

/// Files are identified by their positions.
pub open spec fn ids_are_positions(files: Seq<ScannedFile>) -> bool {
    forall|i: int| 0 <= i < files.len() ==> (#[trigger] files[i]).id.0 == i
}

/// Two primaries in one directory with the same stem (ignoring case).
pub open spec fn same_class(files: Seq<ScannedFile>, i: int, j: int) -> bool {
    &&& 0 <= i < files.len()
    &&& 0 <= j < files.len()
    &&& files[i].kind.primary_kind()
    &&& files[j].kind.primary_kind()
    &&& dir_of(files[i]) == dir_of(files[j])
    &&& lstem(files[i]) == lstem(files[j])
}

/// File `j` goes before file `i` when choosing a leader: lower rank, then earlier position.
pub open spec fn goes_before(files: Seq<ScannedFile>, j: int, i: int) -> bool {
    rank(files[j].kind) < rank(files[i].kind) || (rank(files[j].kind) == rank(files[i].kind) && j < i)
}

/// A primary that no other file of its class goes before: it starts a group.
pub open spec fn is_leader(files: Seq<ScannedFile>, i: int) -> bool {
    &&& 0 <= i < files.len()
    &&& files[i].kind.primary_kind()
    &&& forall|j: int| #[trigger] same_class(files, i, j) && j != i ==> !goes_before(files, j, i)
}

/// Leader `l` is in the same directory as file `i` and its stem starts `i`'s (ignoring case).
pub open spec fn matches_leader(files: Seq<ScannedFile>, l: int, i: int) -> bool {
    &&& is_leader(files, l)
    &&& 0 <= i < files.len()
    &&& dir_of(files[l]) == dir_of(files[i])
    &&& has_prefix(lstem(files[i]), lstem(files[l]))
}

/// Leader `l` is the match with the longest stem for the non-primary file `i`.
pub open spec fn best_leader(files: Seq<ScannedFile>, l: int, i: int) -> bool {
    &&& matches_leader(files, l, i)
    &&& forall|m: int| #[trigger] matches_leader(files, m, i) ==> lstem(files[m]).len() <= lstem(
        files[l],
    ).len()
}

/// File `i` belongs to the group whose primary is `p`: a primary belongs with the leader of its
/// class; any other file with the matching leader of the longest stem, or alone when none
/// matches.
pub open spec fn belongs_to(files: Seq<ScannedFile>, i: int, p: int) -> bool {
    &&& 0 <= i < files.len()
    &&& if files[i].kind.primary_kind() {
        is_leader(files, p) && (p == i || same_class(files, i, p))
    } else {
        best_leader(files, p, i) || (p == i && forall|l: int| !#[trigger] matches_leader(files, l, i))
    }
}

/// Whether file `i` is the primary or an attachment of group `g`.
pub open spec fn in_group(g: Group, i: int) -> bool {
    g.primary.0 == i || g.attachments@.contains(FileId(i as u32))
}

/// Whether file `i` is in one of the groups `gs`.
pub open spec fn grouped(gs: Seq<Group>, i: int) -> bool {
    exists|g: int| 0 <= g < gs.len() && #[trigger] in_group(gs[g], i)
}

/// A camera JPEG among a group's files: an image with a `jpg`/`jpeg` extension in any case.
pub open spec fn is_camera_jpeg(f: ScannedFile) -> bool {
    f.kind == Kind::Image && (ascii_lower_seq(extension(f.path@)) == "jpg"@ || ascii_lower_seq(
        extension(f.path@),
    ) == "jpeg"@)
}

/// The first camera JPEG among `att[k..]`.
pub open spec fn first_jpeg(files: Seq<ScannedFile>, att: Seq<FileId>, k: int) -> Option<FileId>
    decreases att.len() - k,
{
    if k < 0 || k >= att.len() {
        None
    } else if 0 <= att[k].0 < files.len() && is_camera_jpeg(files[att[k].0 as int]) {
        Some(att[k])
    } else {
        first_jpeg(files, att, k + 1)
    }
}

/// Where a group's preview comes from and which file holds it.
pub open spec fn preview_spec(files: Seq<ScannedFile>, kind: Kind, primary: FileId, att: Seq<FileId>) -> (
    PreviewSource,
    Option<FileId>,
) {
    match kind {
        Kind::Raw => match first_jpeg(files, att, 0) {
            Some(id) => (PreviewSource::SidecarJpeg, Some(id)),
            None => (PreviewSource::EmbeddedPreview, Some(primary)),
        },
        Kind::Image => (PreviewSource::Itself, Some(primary)),
        _ => (PreviewSource::NoPreview, None),
    }
}

/// What `build_groups` promises of each group it returns.
pub open spec fn group_ok(files: Seq<ScannedFile>, g: Group) -> bool {
    let p = g.primary.0 as int;
    let att = g.attachments@;
    &&& 0 <= p < files.len()
    &&& belongs_to(files, p, p)
    &&& g.kind == files[p].kind
    &&& forall|a: int| 0 <= a < att.len() ==> att[a].0 != p && #[trigger] belongs_to(files, att[a].0 as int, p)
    &&& forall|a: int, b: int| 0 <= a < b < att.len() ==> att[a].0 < att[b].0
    &&& g.meta == CaptureMeta::from_time_spec(files[p].mtime)
    &&& (g.preview, g.preview_file) == preview_spec(files, g.kind, g.primary, att)
}

/// How many of the first `i` files are not primaries.
pub open spec fn secondary_count(files: Seq<ScannedFile>, i: int) -> int
    decreases i,
{
    if i <= 0 {
        0
    } else {
        secondary_count(files, i - 1) + if files[i - 1].kind.primary_kind() {
            0int
        } else {
            1int
        }
    }
}

pub proof fn lemma_secondary_count_mono(files: Seq<ScannedFile>, i: int, j: int)
    requires
        0 <= i <= j,
    ensures
        secondary_count(files, i) <= secondary_count(files, j),
        secondary_count(files, j) - secondary_count(files, i) <= j - i,
    decreases j - i,
{
    if i < j {
        lemma_secondary_count_mono(files, i, j - 1);
    }
}

/// Two leaders of one class are the same file.
pub proof fn lemma_leader_unique(files: Seq<ScannedFile>, a: int, b: int)
    requires
        is_leader(files, a),
        is_leader(files, b),
        same_class(files, a, b),
    ensures
        a == b,
{
    if a != b {
        assert(same_class(files, b, a));
        assert(!goes_before(files, b, a));
        assert(!goes_before(files, a, b));
    }
}

/// A file belongs to at most one group primary.
pub proof fn lemma_belongs_unique(files: Seq<ScannedFile>, i: int, p: int, q: int)
    requires
        belongs_to(files, i, p),
        belongs_to(files, i, q),
    ensures
        p == q,
{
    if files[i].kind.primary_kind() {
        assert(same_class(files, i, i));
        assert(same_class(files, p, q));
        lemma_leader_unique(files, p, q);
    } else {
        if best_leader(files, p, i) && best_leader(files, q, i) {
            assert(lstem(files[p]).len() == lstem(files[q]).len());
            assert(lstem(files[p]) =~= lstem(files[i]).take(lstem(files[p]).len() as int));
            assert(lstem(files[q]) =~= lstem(files[i]).take(lstem(files[q]).len() as int));
            assert(same_class(files, p, q));
            lemma_leader_unique(files, p, q);
        } else if best_leader(files, p, i) {
            assert(matches_leader(files, p, i));
        } else if best_leader(files, q, i) {
            assert(matches_leader(files, q, i));
        }
    }
}

/// Every file of a scan is in exactly one of the groups `build_groups` makes: given groups
/// as it promises them, a file found in two of them found them to be the same group.
pub proof fn lemma_groups_partition(files: Seq<ScannedFile>, gs: Seq<Group>, i: int, g1: int, g2: int)
    requires
        files.len() <= u32::MAX,
        0 <= i < files.len(),
        0 <= g1 < gs.len(),
        0 <= g2 < gs.len(),
        forall|g: int| 0 <= g < gs.len() ==> group_ok(files, #[trigger] gs[g]),
        forall|a: int, b: int|
            0 <= a < gs.len() && 0 <= b < gs.len() && a != b ==> #[trigger] gs[a].primary != #[trigger] gs[b].primary,
        in_group(gs[g1], i),
        in_group(gs[g2], i),
    ensures
        g1 == g2,
{
    let p1 = gs[g1].primary.0 as int;
    let p2 = gs[g2].primary.0 as int;
    assert(group_ok(files, gs[g1]));
    assert(group_ok(files, gs[g2]));
    assert(belongs_to(files, i, p1)) by {
        if gs[g1].primary.0 != i {
            let a = choose|a: int| 0 <= a < gs[g1].attachments@.len() && gs[g1].attachments@[a] == FileId(i as u32);
            assert(belongs_to(files, gs[g1].attachments@[a].0 as int, p1));
        }
    }
    assert(belongs_to(files, i, p2)) by {
        if gs[g2].primary.0 != i {
            let a = choose|a: int| 0 <= a < gs[g2].attachments@.len() && gs[g2].attachments@[a] == FileId(i as u32);
            assert(belongs_to(files, gs[g2].attachments@[a].0 as int, p2));
        }
    }
    lemma_belongs_unique(files, i, p1, p2);
    if g1 != g2 {
        assert(gs[g1].primary != gs[g2].primary);
        assert(gs[g1].primary.0 != gs[g2].primary.0);
    }
}

fn rank_of(k: Kind) -> (r: u8)
    ensures
        r as int == rank(k),
{
    match k {
        Kind::Raw => 0,
        Kind::Image => 1,
        Kind::Video => 2,
        _ => 3,
    }
}

pub open spec fn keys_ok(files: Seq<ScannedFile>, dirs: Seq<Vec<char>>, stems: Seq<Vec<char>>) -> bool {
    &&& dirs.len() == files.len()
    &&& stems.len() == files.len()
    &&& forall|i: int| 0 <= i < files.len() ==> (#[trigger] dirs[i])@ == dir_of(files[i])
    &&& forall|i: int| 0 <= i < files.len() ==> (#[trigger] stems[i])@ == lstem(files[i])
}

fn grouping_keys(files: &Vec<ScannedFile>) -> (r: (Vec<Vec<char>>, Vec<Vec<char>>))
    ensures
        keys_ok(files@, r.0@, r.1@),
{
    let mut dirs: Vec<Vec<char>> = Vec::new();
    let mut stems: Vec<Vec<char>> = Vec::new();
    let mut i: usize = 0;
    while i < files.len()
        invariant
            i <= files.len(),
            dirs.len() == i,
            stems.len() == i,
            forall|k: int| 0 <= k < i ==> (#[trigger] dirs@[k])@ == dir_of(files@[k]),
            forall|k: int| 0 <= k < i ==> (#[trigger] stems@[k])@ == lstem(files@[k]),
        decreases files.len() - i,
    {
        let p = text::chars_of(files[i].path.as_str());
        dirs.push(paths::parent_of(&p));
        stems.push(text::lower_ascii(&paths::file_stem_of(&p)));
        i = i + 1;
    }
    (dirs, stems)
}

fn same_class_exec(files: &Vec<ScannedFile>, dirs: &Vec<Vec<char>>, stems: &Vec<Vec<char>>, i: usize, j: usize) -> (b: bool)
    requires
        keys_ok(files@, dirs@, stems@),
        i < files.len(),
        j < files.len(),
    ensures
        b == same_class(files@, i as int, j as int),
{
    files[i].kind.is_primary() && files[j].kind.is_primary() && text::eq_chars(&dirs[i], &dirs[j])
        && text::eq_chars(&stems[i], &stems[j])
}

fn goes_before_exec(files: &Vec<ScannedFile>, j: usize, i: usize) -> (b: bool)
    requires
        i < files.len(),
        j < files.len(),
    ensures
        b == goes_before(files@, j as int, i as int),
{
    let rj = rank_of(files[j].kind);
    let ri = rank_of(files[i].kind);
    rj < ri || (rj == ri && j < i)
}

/// The leader of the class of the primary file `i`.
fn class_leader(files: &Vec<ScannedFile>, dirs: &Vec<Vec<char>>, stems: &Vec<Vec<char>>, i: usize) -> (l: usize)
    requires
        keys_ok(files@, dirs@, stems@),
        i < files.len(),
        files@[i as int].kind.primary_kind(),
    ensures
        l < files.len(),
        same_class(files@, i as int, l as int),
        is_leader(files@, l as int),
{
    let mut best = i;
    let mut j: usize = 0;
    assert(same_class(files@, i as int, i as int));
    while j < files.len()
        invariant
            j <= files.len(),
            best < files.len(),
            keys_ok(files@, dirs@, stems@),
            same_class(files@, i as int, best as int),
            forall|k: int|
                0 <= k < j && #[trigger] same_class(files@, i as int, k) ==> k == best || !goes_before(
                    files@,
                    k,
                    best as int,
                ),
        decreases files.len() - j,
    {
        if same_class_exec(files, dirs, stems, i, j) && goes_before_exec(files, j, best) {
            best = j;
        }
        j = j + 1;
    }
    assert forall|k: int| #[trigger] same_class(files@, best as int, k) && k != best implies !goes_before(
        files@,
        k,
        best as int,
    ) by {
        assert(same_class(files@, i as int, k));
    }
    best
}

fn is_camera_jpeg_exec(f: &ScannedFile) -> (b: bool)
    ensures
        b == is_camera_jpeg(*f),
{
    if f.kind != Kind::Image {
        return false;
    }
    let e = text::lower_ascii(&paths::extension_of(&text::chars_of(f.path.as_str())));
    text::eq_str(&e, "jpg") || text::eq_str(&e, "jpeg")
}

fn preview_of(files: &Vec<ScannedFile>, kind: Kind, primary: FileId, att: &Vec<FileId>) -> (r: (
    PreviewSource,
    Option<FileId>,
))
    ensures
        r == preview_spec(files@, kind, primary, att@),
{
    match kind {
        Kind::Raw => {
            let mut k: usize = 0;
            while k < att.len()
                invariant
                    kind == Kind::Raw,
                    k <= att.len(),
                    first_jpeg(files@, att@, 0) == first_jpeg(files@, att@, k as int),
                decreases att.len() - k,
            {
                let id = att[k];
                if (id.0 as usize) < files.len() && is_camera_jpeg_exec(&files[id.0 as usize]) {
                    return (PreviewSource::SidecarJpeg, Some(id));
                }
                k = k + 1;
            }
            (PreviewSource::EmbeddedPreview, Some(primary))
        },
        Kind::Image => (PreviewSource::Itself, Some(primary)),
        _ => (PreviewSource::NoPreview, None),
    }
}

/// Group files by directory and stem prefix. Every file ends up in exactly one group: a
/// primary (RAW, image, video) leads a group unless another primary in its directory with the
/// same stem (ignoring case) ranks before it (RAW, then image, then video, then position), in
/// which case it attaches to that one; any other file attaches to the primary in its directory
/// with the longest stem that starts its own, or stands alone. Attachments come in position
/// order.
pub fn build_groups(files: &Vec<ScannedFile>) -> (gs: Vec<Group>)
    requires
        ids_are_positions(files@),
        files.len() <= u32::MAX,
    ensures
        forall|g: int| 0 <= g < gs.len() ==> group_ok(files@, #[trigger] gs@[g]),
        forall|i: int| 0 <= i < files.len() ==> #[trigger] grouped(gs@, i),
        forall|i: int, a: int, b: int|
            0 <= i < files.len() && 0 <= a < gs.len() && 0 <= b < gs.len() && #[trigger] in_group(gs@[a], i) && #[trigger] in_group(
                gs@[b],
                i,
            ) ==> a == b,
        forall|g: int| 0 <= g < gs.len() ==> (#[trigger] gs@[g]).id == GroupId(g as u32),
        forall|a: int, b: int|
            0 <= a < gs.len() && 0 <= b < gs.len() && a != b ==> #[trigger] gs@[a].primary != #[trigger] gs@[b].primary,
{
    let n = files.len();
    let (dirs, stems) = grouping_keys(files);
    // The leader of each primary's class; `n` for other files.
    let mut leader_of: Vec<usize> = Vec::new();
    let mut i: usize = 0;
    while i < n
        invariant
            n == files.len(),
            i <= n,
            keys_ok(files@, dirs@, stems@),
            leader_of.len() == i,
            forall|k: int|
                0 <= k < i ==> if files@[k].kind.primary_kind() {
                    (#[trigger] leader_of@[k]) < n && same_class(files@, k, leader_of@[k] as int)
                        && is_leader(files@, leader_of@[k] as int)
                } else {
                    leader_of@[k] == n
                },
        decreases n - i,
    {
        if files[i].kind.is_primary() {
            let l = class_leader(files, &dirs, &stems, i);
            leader_of.push(l);
        } else {
            leader_of.push(n);
        }
        i = i + 1;
    }
    // Leaders are exactly the primaries that lead their own class.
    assert forall|k: int| 0 <= k < n implies (#[trigger] is_leader(files@, k)) == (files@[k].kind.primary_kind()
        && leader_of@[k] == k) by {
        if is_leader(files@, k) {
            lemma_leader_unique(files@, k, leader_of@[k] as int);
        }
    }
    // One group per leader, in position order.
    let mut prims: Vec<usize> = Vec::new();
    let mut owner: Vec<usize> = Vec::new();
    i = 0;
    while i < n
        invariant
            n == files.len(),
            i <= n,
            leader_of.len() == n,
            owner.len() == i,
            forall|k: int| 0 <= k < n ==> (#[trigger] is_leader(files@, k)) == (files@[k].kind.primary_kind()
                && leader_of@[k] == k),
            forall|k: int| 0 <= k < i && is_leader(files@, k) ==> (#[trigger] owner@[k]) < prims.len() && prims@[owner@[k] as int] == k,
            forall|g: int| 0 <= g < prims.len() ==> (#[trigger] prims@[g]) < i && is_leader(files@, prims@[g] as int),
            forall|a: int, b: int| 0 <= a < b < prims.len() ==> #[trigger] prims@[a] < #[trigger] prims@[b],
            prims.len() + secondary_count(files@, i as int) <= i,
        decreases n - i,
    {
        if files[i].kind.is_primary() && leader_of[i] == i {
            owner.push(prims.len());
            prims.push(i);
        } else {
            owner.push(n);
        }
        i = i + 1;
    }
    let ghost lead_count = prims.len();
    assert(lead_count + secondary_count(files@, n as int) <= n);
    // The group of every file.
    let mut grp: Vec<usize> = Vec::new();
    i = 0;
    while i < n
        invariant
            n == files.len(),
            i <= n,
            keys_ok(files@, dirs@, stems@),
            leader_of.len() == n,
            owner.len() == n,
            grp.len() == i,
            lead_count <= prims.len(),
            lead_count + secondary_count(files@, n as int) <= n,
            prims.len() <= lead_count + secondary_count(files@, i as int),
            forall|k: int| 0 <= k < n ==> (#[trigger] is_leader(files@, k)) == (files@[k].kind.primary_kind()
                && leader_of@[k] == k),
            forall|k: int|
                0 <= k < n && files@[k].kind.primary_kind() ==> (#[trigger] leader_of@[k]) < n && same_class(
                    files@,
                    k,
                    leader_of@[k] as int,
                ) && is_leader(files@, leader_of@[k] as int),
            forall|k: int| 0 <= k < n && is_leader(files@, k) ==> (#[trigger] owner@[k]) < lead_count && prims@[owner@[k] as int] == k,
            forall|g: int| 0 <= g < prims.len() ==> (#[trigger] prims@[g]) < n && belongs_to(files@, prims@[g] as int, prims@[g] as int),
            forall|g: int| 0 <= g < lead_count ==> is_leader(files@, #[trigger] prims@[g] as int),
            forall|g: int| lead_count <= g < prims.len() ==> (#[trigger] prims@[g]) < i && !files@[prims@[g] as int].kind.primary_kind(),
            forall|a: int, b: int| 0 <= a < b < prims.len() ==> #[trigger] prims@[a] < #[trigger] prims@[b] || a < lead_count,
            forall|a: int, b: int| 0 <= a < b < prims.len() ==> #[trigger] prims@[a] != #[trigger] prims@[b],
            forall|k: int| 0 <= k < i ==> (#[trigger] grp@[k]) < prims.len() && belongs_to(files@, k, prims@[grp@[k] as int] as int),
            forall|g: int| 0 <= g < prims.len() && prims@[g] < i ==> grp@[#[trigger] prims@[g] as int] == g,
        decreases n - i,
    {
        if files[i].kind.is_primary() {
            let l = leader_of[i];
            let g = owner[l];
            grp.push(g);
            proof {
                assert(is_leader(files@, l as int));
                if l == i {
                    assert(is_leader(files@, i as int));
                }
            }
        } else {
            // The leader in this directory with the longest stem that starts this file's.
            let mut best: Option<usize> = None;
            let mut j: usize = 0;
            while j < n
                invariant
                    n == files.len(),
                    i < n,
                    j <= n,
                    keys_ok(files@, dirs@, stems@),
                    leader_of.len() == n,
                    forall|k: int| 0 <= k < n ==> (#[trigger] is_leader(files@, k)) == (
                    files@[k].kind.primary_kind() && leader_of@[k] == k),
                    match best {
                        None => forall|m: int| 0 <= m < j ==> !#[trigger] matches_leader(files@, m, i as int),
                        Some(l) => l < n && matches_leader(files@, l as int, i as int) && forall|m: int|
                            0 <= m < j && #[trigger] matches_leader(files@, m, i as int) ==> lstem(files@[m]).len()
                                <= lstem(files@[l as int]).len(),
                    },
                decreases n - j,
            {
                let lead = files[j].kind.is_primary() && leader_of[j] == j;
                assert(lead == is_leader(files@, j as int));
                if lead && text::eq_chars(&dirs[j], &dirs[i]) && text::starts_with(&stems[i], &stems[j]) {
                    assert(matches_leader(files@, j as int, i as int));
                    match best {
                        None => {
                            best = Some(j);
                        },
                        Some(l) => {
                            if stems[j].len() > stems[l].len() {
                                best = Some(j);
                            }
                        },
                    }
                } else {
                    assert(!matches_leader(files@, j as int, i as int));
                }
                j = j + 1;
            }
            match best {
                Some(l) => {
                    let g = owner[l];
                    grp.push(g);
                    assert(best_leader(files@, l as int, i as int));
                    assert(belongs_to(files@, i as int, l as int));
                },
                None => {
                    grp.push(prims.len());
                    prims.push(i);
                    assert(belongs_to(files@, i as int, i as int));
                },
            }
        }
        i = i + 1;
    }
    proof {
        lemma_secondary_count_mono(files@, 0, n as int);
    }
    // The groups.
    let mut gs: Vec<Group> = Vec::new();
    let mut g: usize = 0;
    while g < prims.len()
        invariant
            n == files.len(),
            n <= u32::MAX,
            ids_are_positions(files@),
            grp.len() == n,
            gs.len() == g,
            g <= prims.len(),
            prims.len() <= n,
            forall|q: int| 0 <= q < prims.len() ==> (#[trigger] prims@[q]) < n && belongs_to(files@, prims@[q] as int, prims@[q] as int),
            forall|a: int, b: int| 0 <= a < b < prims.len() ==> #[trigger] prims@[a] != #[trigger] prims@[b],
            forall|k: int| 0 <= k < n ==> (#[trigger] grp@[k]) < prims.len() && belongs_to(files@, k, prims@[grp@[k] as int] as int),
            forall|q: int| 0 <= q < prims.len() ==> grp@[#[trigger] prims@[q] as int] == q,
            forall|q: int| 0 <= q < g ==> group_ok(files@, #[trigger] gs@[q]) && gs@[q].primary.0 == prims@[q],
            forall|q: int, k: int| 0 <= q < g && 0 <= k < n && grp@[k] == q ==> #[trigger] in_group(gs@[q], k),
            forall|q: int, k: int| 0 <= q < g && 0 <= k < n && #[trigger] in_group(gs@[q], k) ==> grp@[k] == q,
            forall|q: int| 0 <= q < g ==> (#[trigger] gs@[q]).id == GroupId(q as u32),
        decreases prims.len() - g,
    {
        let p = prims[g];
        let mut att: Vec<FileId> = Vec::new();
        let mut k: usize = 0;
        while k < n
            invariant
                n == files.len(),
                n <= u32::MAX,
                p < n,
                k <= n,
                grp.len() == n,
                forall|a: int| 0 <= a < att.len() ==> (#[trigger] att@[a]).0 < k && att@[a].0 != p && grp@[att@[a].0 as int] == g,
                forall|a: int, b: int| 0 <= a < b < att.len() ==> (#[trigger] att@[a]).0 < (#[trigger] att@[b]).0,
                forall|m: int| 0 <= m < k && grp@[m] == g && m != p ==> #[trigger] att@.contains(FileId(m as u32)),
            decreases n - k,
        {
            if grp[k] == g && k != p {
                let ghost before = att@;
                att.push(FileId(k as u32));
                proof {
                    assert(att@[att.len() - 1] == FileId(k as u32));
                    assert forall|m: int| 0 <= m < k && grp@[m] == g && m != p implies #[trigger] att@.contains(FileId(m as u32)) by {
                        assert(before.contains(FileId(m as u32)));
                        let a = choose|a: int| 0 <= a < before.len() && before[a] == FileId(m as u32);
                        assert(att@[a] == FileId(m as u32));
                    }
                }
            }
            k = k + 1;
        }
        let f = &files[p];
        let kind = f.kind;
        let (preview, preview_file) = preview_of(files, kind, FileId(p as u32), &att);
        let group = Group {
            id: GroupId(g as u32),
            primary: FileId(p as u32),
            attachments: att,
            kind,
            meta: CaptureMeta::from_time(f.mtime),
            preview,
            preview_file,
        };
        proof {
            assert(grp@[p as int] == g);
            assert forall|a: int| 0 <= a < group.attachments@.len() implies group.attachments@[a].0 != p
                && #[trigger] belongs_to(files@, group.attachments@[a].0 as int, p as int) by {
                let m = group.attachments@[a].0 as int;
                assert(grp@[m] == g);
            }
        }
        gs.push(group);
        proof {
            assert forall|q: int, k: int| 0 <= q < g + 1 && 0 <= k < n && grp@[k] == q implies #[trigger] in_group(gs@[q], k) by {
                if q == g && k != p {
                    assert(gs@[q].attachments@.contains(FileId(k as u32)));
                }
            }
            assert forall|q: int, k: int| 0 <= q < g + 1 && 0 <= k < n && #[trigger] in_group(gs@[q], k) implies grp@[k] == q by {
                if q == g && k != p {
                    let a = choose|a: int| 0 <= a < gs@[q].attachments@.len() && gs@[q].attachments@[a] == FileId(k as u32);
                    assert(gs@[q].attachments@[a].0 < n);
                }
            }
        }
        g = g + 1;
    }
    proof {
        assert forall|i: int| 0 <= i < files.len() implies #[trigger] grouped(gs@, i) by {
            assert(in_group(gs@[grp@[i] as int], i));
        }
    }
    gs
}

/// Where a scan was read from.
#[derive(Clone, Debug)]
pub struct SourceInfo {
    pub root: String,
    /// Volume label for cards, folder name otherwise.
    pub label: String,
    pub is_volume: bool,
}

/// Whether `root` is a mounted volume: `/Volumes/<name>`.
pub open spec fn is_volume_spec(root: Seq<char>) -> bool {
    &&& has_prefix(root, "/Volumes"@)
    &&& (root.len() == "/Volumes"@.len() || root["/Volumes"@.len() as int] == '/')
    &&& text::pieces(root, text::Class::Slash).len() == 2
}

/// The name a source is shown under: its last path component, or `source`.
pub open spec fn source_label(root: Seq<char>) -> Seq<char> {
    if file_name(root).len() > 0 {
        file_name(root)
    } else {
        "source"@
    }
}

/// Describe the source rooted at `root`.
pub fn source_info(root: &str) -> (r: SourceInfo)
    ensures
        r.root@ == root@,
        r.label@ == source_label(root@),
        r.is_volume == is_volume_spec(root@),
{
    let v = text::chars_of(root);
    let prefix = text::chars_of("/Volumes");
    let starts = text::starts_with(&v, &prefix);
    let boundary = starts && (v.len() == prefix.len() || v[prefix.len()] == '/');

    let count = count_pieces(&v, text::Class::Slash);
    let name = paths::file_name_of(&v);
    let label = if name.len() > 0 {
        text::string_of(&name)
    } else {
        text::string_of(&text::chars_of("source"))
    };
    SourceInfo { root: text::string_of(&v), label, is_volume: boundary && count == 2 }
}

/// The number of maximal runs of characters outside class `t` in `s`.
fn count_pieces(s: &Vec<char>, t: text::Class) -> (r: usize)
    ensures
        r == text::pieces(s@, t).len(),
{
    let mut count: usize = 0;
    let mut i: usize = 0;
    while i < s.len()
        invariant
            i <= s.len(),
            count == text::pieces(s@.take(i as int), t).len(),
            count <= i,
        decreases s.len() - i,
    {
        let ghost pre = s@.take(i as int);
        let ghost cur = s@.take(i + 1);
        proof {
            assert(cur.drop_last() =~= pre);
            text::lemma_pieces_empty_iff(pre, t);
            if i > 0 {
                assert(cur[cur.len() - 2] == s@[i - 1]);
            }
        }
        if !text::char_in_class(t, s[i]) && !(i > 0 && !text::char_in_class(t, s[i - 1])) {
            count = count + 1;
        }
        i = i + 1;
    }
    assert(s@.take(s.len() as int) =~= s@);
    count
}

/// Everything a scan found.
#[derive(Clone, Debug)]
pub struct Scan {
    pub source: SourceInfo,
    pub files: Vec<ScannedFile>,
    /// Groups in capture order (undated last, then by path).
    pub groups: Vec<Group>,
    /// Files that were skipped because they could not be read, with why.
    pub errors: Vec<(String, String)>,
}

/// The sum of the sizes of `files`.
pub open spec fn total_size(files: Seq<ScannedFile>) -> nat
    decreases files.len(),
{
    if files.len() == 0 {
        0
    } else {
        total_size(files.drop_last()) + files.last().size as nat
    }
}

impl Scan {
    /// The file with id `id`.
    pub fn file(&self, id: FileId) -> (f: &ScannedFile)
        requires
            (id.0 as int) < self.files.len(),
        ensures
            *f == self.files@[id.0 as int],
    {
        &self.files[id.0 as usize]
    }

    /// The group with id `id`.
    pub fn group(&self, id: GroupId) -> (g: &Group)
        requires
            (id.0 as int) < self.groups.len(),
        ensures
            *g == self.groups@[id.0 as int],
    {
        &self.groups[id.0 as usize]
    }

    /// The size of everything found.
    pub fn total_bytes(&self) -> (r: u64)
        requires
            total_size(self.files@) <= u64::MAX,
        ensures
            r == total_size(self.files@),
    {
        let mut sum: u64 = 0;
        let mut i: usize = 0;
        while i < self.files.len()
            invariant
                i <= self.files.len(),
                sum == total_size(self.files@.take(i as int)),
                total_size(self.files@) <= u64::MAX,
            decreases self.files.len() - i,
        {
            proof {
                assert(self.files@.take(i + 1).drop_last() =~= self.files@.take(i as int));
                lemma_total_size_prefix(self.files@, i + 1);
            }
            sum = sum + self.files[i].size;
            i = i + 1;
        }
        assert(self.files@.take(i as int) =~= self.files@);
        sum
    }
}

proof fn lemma_total_size_prefix(files: Seq<ScannedFile>, k: int)
    requires
        0 <= k <= files.len(),
    ensures
        total_size(files.take(k)) <= total_size(files),
    decreases files.len() - k,
{
    if k < files.len() {
        lemma_total_size_prefix(files, k + 1);
        assert(files.take(k + 1).drop_last() =~= files.take(k));
    } else {
        assert(files.take(k) =~= files);
    }
}
/// `a` is earlier than `b`, field by field from the year down to the second.
pub open spec fn dt_lt(a: DateTime, b: DateTime) -> bool {
    if a.year != b.year {
        a.year < b.year
    } else if a.month != b.month {
        a.month < b.month
    } else if a.day != b.day {
        a.day < b.day
    } else if a.hour != b.hour {
        a.hour < b.hour
    } else if a.minute != b.minute {
        a.minute < b.minute
    } else {
        a.second < b.second
    }
}

fn dt_less(a: &DateTime, b: &DateTime) -> (r: bool)
    ensures
        r == dt_lt(*a, *b),
{
    if a.year != b.year {
        a.year < b.year
    } else if a.month != b.month {
        a.month < b.month
    } else if a.day != b.day {
        a.day < b.day
    } else if a.hour != b.hour {
        a.hour < b.hour
    } else if a.minute != b.minute {
        a.minute < b.minute
    } else {
        a.second < b.second
    }
}

/// Group `a` comes before `b` in capture order: dated before undated, then by capture time,
/// then by the primary's path below the source root (component by component).
pub open spec fn capture_lt(files: Seq<ScannedFile>, a: Group, b: Group) -> bool {
    let ra = components(files[a.primary.0 as int].rel@);
    let rb = components(files[b.primary.0 as int].rel@);
    match (a.meta.captured_at, b.meta.captured_at) {
        (Some(x), None) => true,
        (None, Some(y)) => false,
        (Some(x), Some(y)) => dt_lt(x, y) || (x == y && comps_lt(ra, rb)),
        (None, None) => comps_lt(ra, rb),
    }
}

/// Where `x` goes among `t`: before the first group it does not come after.
pub open spec fn capture_place(files: Seq<ScannedFile>, t: Seq<Group>, x: Group) -> int
    decreases t.len(),
{
    if t.len() == 0 {
        0
    } else if !capture_lt(files, t[0], x) {
        0
    } else {
        1 + capture_place(files, t.drop_first(), x)
    }
}

/// `gs` in capture order; groups that tie keep their order.
pub open spec fn capture_sorted(files: Seq<ScannedFile>, gs: Seq<Group>) -> Seq<Group>
    decreases gs.len(),
{
    if gs.len() == 0 {
        seq![]
    } else {
        let t = capture_sorted(files, gs.drop_first());
        let p = capture_place(files, t, gs[0]);
        t.take(p).push(gs[0]) + t.skip(p)
    }
}

proof fn lemma_capture_sorted_len(files: Seq<ScannedFile>, gs: Seq<Group>)
    ensures
        capture_sorted(files, gs).len() == gs.len(),
    decreases gs.len(),
{
    if gs.len() > 0 {
        lemma_capture_sorted_len(files, gs.drop_first());
        lemma_capture_place(files, capture_sorted(files, gs.drop_first()), gs[0]);
    }
}

proof fn lemma_capture_place(files: Seq<ScannedFile>, t: Seq<Group>, x: Group)
    ensures
        0 <= capture_place(files, t, x) <= t.len(),
    decreases t.len(),
{
    if t.len() > 0 {
        lemma_capture_place(files, t.drop_first(), x);
    }
}

/// `g` numbered `i`.
pub open spec fn numbered(g: Group, i: int) -> Group {
    Group {
        id: GroupId(i as u32),
        primary: g.primary,
        attachments: g.attachments,
        kind: g.kind,
        meta: g.meta,
        preview: g.preview,
        preview_file: g.preview_file,
    }
}

fn capture_less(files: &Vec<ScannedFile>, a: &Group, b: &Group) -> (r: bool)
    requires
        (a.primary.0 as int) < files.len(),
        (b.primary.0 as int) < files.len(),
    ensures
        r == capture_lt(files@, *a, *b),
{
    let ra = path_components(files[a.primary.0 as usize].rel.as_str());
    let rb = path_components(files[b.primary.0 as usize].rel.as_str());
    match (&a.meta.captured_at, &b.meta.captured_at) {
        (Some(_), None) => true,
        (None, Some(_)) => false,
        (Some(x), Some(y)) => dt_less(x, y) || (*x == *y && comps_less(&ra, &rb)),
        (None, None) => comps_less(&ra, &rb),
    }
}

/// The groups in capture order (undated last, then by path), numbered from 0 in that order.
pub fn capture_order(files: &Vec<ScannedFile>, groups: Vec<Group>) -> (r: Vec<Group>)
    requires
        groups.len() <= u32::MAX,
        forall|g: int| 0 <= g < groups.len() ==> (#[trigger] groups@[g].primary.0 as int) < files.len(),
    ensures
        r.len() == groups.len(),
        forall|i: int| 0 <= i < r.len() ==> #[trigger] r@[i] == numbered(capture_sorted(files@, groups@)[i], i),
{
    let ghost gs = groups@;
    let n = groups.len();
    let mut rest = groups;
    let mut out: Vec<Group> = Vec::new();
    assert(gs.skip(n as int) =~= Seq::<Group>::empty());
    while rest.len() > 0
        invariant
            rest.len() <= n,
            n == gs.len(),
            rest@ == gs.take(rest.len() as int),
            forall|g: int| 0 <= g < gs.len() ==> (#[trigger] gs[g].primary.0 as int) < files.len(),
            out@ == capture_sorted(files@, gs.skip(rest.len() as int)),
            forall|g: int| 0 <= g < out.len() ==> (#[trigger] out@[g].primary.0 as int) < files.len(),
        decreases rest.len(),
    {
        let k = rest.len();
        let x = rest.pop().unwrap();
        assert(x == gs[k - 1]);
        let ghost t = out@;
        assert(gs.skip(k - 1).drop_first() =~= gs.skip(k as int));
        assert(gs.skip(k - 1)[0] == x);
        let mut p: usize = 0;
        assert(t.skip(0) =~= t);
        while p < out.len() && capture_less(files, &out[p], &x)
            invariant
                p <= out.len(),
                t == out@,
                (x.primary.0 as int) < files.len(),
                forall|g: int| 0 <= g < out.len() ==> (#[trigger] out@[g].primary.0 as int) < files.len(),
                capture_place(files@, t, x) == p + capture_place(files@, t.skip(p as int), x),
            decreases out.len() - p,
        {
            assert(t.skip(p as int)[0] == t[p as int]);
            assert(t.skip(p as int).drop_first() =~= t.skip(p + 1));
            p = p + 1;
        }
        proof {
            if p < out.len() {
                assert(t.skip(p as int)[0] == t[p as int]);
            }
        }
        out.insert(p, x);
        assert(out@ =~= t.take(p as int).push(x) + t.skip(p as int));
        assert forall|g: int| 0 <= g < out.len() implies (#[trigger] out@[g].primary.0 as int) < files.len() by {
            if g < p {
                assert(out@[g] == t[g]);
            } else if g > p {
                assert(out@[g] == t[g - 1]);
            }
        }
        assert(rest@ =~= gs.take(rest.len() as int));
    }
    assert(gs.skip(0) =~= gs);
    proof {
        lemma_capture_sorted_len(files@, gs);
    }
    let ghost sorted = out@;
    // Number them: off the end into `rev`, then back in order.
    let mut rev: Vec<Group> = Vec::new();
    while out.len() > 0
        invariant
            out.len() + rev.len() == n,
            sorted.len() == n,
            n <= u32::MAX,
            out@ == sorted.take(out.len() as int),
            forall|j: int| 0 <= j < rev.len() ==> #[trigger] rev@[j] == numbered(sorted[n - 1 - j], n - 1 - j),
        decreases out.len(),
    {
        let i = out.len() - 1;
        let mut g = out.pop().unwrap();
        assert(g == sorted[i as int]);
        g.id = GroupId(i as u32);
        rev.push(g);
        assert(out@ =~= sorted.take(out.len() as int));
    }
    let mut fin: Vec<Group> = Vec::new();
    while rev.len() > 0
        invariant
            fin.len() + rev.len() == n,
            sorted.len() == n,
            forall|j: int| 0 <= j < rev.len() ==> #[trigger] rev@[j] == numbered(sorted[n - 1 - j], n - 1 - j),
            forall|i: int| 0 <= i < fin.len() ==> #[trigger] fin@[i] == numbered(sorted[i], i),
        decreases rev.len(),
    {
        let j = rev.len() - 1;
        let g = rev.pop().unwrap();
        assert(g == numbered(sorted[n - 1 - j], n - 1 - j));
        fin.push(g);
    }
    fin
}

} // verus!
