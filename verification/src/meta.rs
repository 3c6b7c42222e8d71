//! Capture metadata: when and with what a file was shot, and the clean-up its text fields need.

use crate::datetime::{self, chrono_parse, chrono_rfc3339, DateTime};
use crate::text::{self, collapse_ws, has_prefix, trim, trim_by, trim_start_by, Class};
use vstd::prelude::*;

verus! {

/// Where a group's capture metadata came from.
#[derive(Clone, Copy, PartialEq, Eq, Structural, Debug)]
pub enum MetaSource {
    /// Parsed from the RAW container.
    Raw,
    /// EXIF from a JPEG/HEIF.
    Exif,
    /// A video container's own creation date.
    Container,
    /// File modification time only.
    Mtime,
}

/// When and with what a file was shot.
#[derive(Clone, PartialEq, Eq, Debug)]
pub struct CaptureMeta {
    /// Camera-local wall clock time, as written by the camera.
    pub captured_at: Option<DateTime>,
    pub make: Option<String>,
    pub model: Option<String>,
    /// Normalised model name suitable for folder names, e.g. `X-T5`, `ILCE-7RM5`.
    pub camera: Option<String>,
    pub iso: Option<u32>,
    pub lens: Option<String>,
    /// EXIF orientation tag value (1 = upright), when known.
    pub orientation: Option<u16>,
    pub source: MetaSource,
}

impl CaptureMeta {
    pub open spec fn from_time_spec(captured_at: Option<DateTime>) -> CaptureMeta {
        CaptureMeta {
            captured_at,
            make: None,
            model: None,
            camera: None,
            iso: None,
            lens: None,
            orientation: None,
            source: MetaSource::Mtime,
        }
    }

    /// Metadata that knows only a time (the file's modification time, when it could be read).
    pub fn from_time(captured_at: Option<DateTime>) -> (m: CaptureMeta)
        ensures
            m == CaptureMeta::from_time_spec(captured_at),
    {
        CaptureMeta {
            captured_at,
            make: None,
            model: None,
            camera: None,
            iso: None,
            lens: None,
            orientation: None,
            source: MetaSource::Mtime,
        }
    }
}

/// The characters of `s` before its first double quote (all of `s` when it has none).
pub open spec fn before_quote(s: Seq<char>) -> Seq<char>
    decreases s.len(),
{
    if s.len() == 0 || s[0] == '"' {
        seq![]
    } else {
        seq![s[0]] + before_quote(s.drop_first())
    }
}

/// The tidied form of an EXIF text value: surrounding whitespace, leading quotes, everything
/// from the next quote on, then NUL padding and whitespace at either end all go; `None` when
/// nothing is left.
pub open spec fn tidy_text_spec(s: Seq<char>) -> Option<Seq<char>> {
    let t = trim_by(before_quote(trim_start_by(trim(s), Class::Quote)), Class::NulOrSpace);
    if t.len() > 0 {
        Some(t)
    } else {
        None
    }
}

/// `s` without the prefix `p` when it starts with it.
pub open spec fn strip_prefix(s: Seq<char>, p: Seq<char>) -> Seq<char> {
    if has_prefix(s, p) {
        s.skip(p.len() as int)
    } else {
        s
    }
}

/// A model string with the maker prefixes some bodies repeat removed (each in turn, in this
/// order) and whitespace collapsed.
pub open spec fn normalise_model_spec(model: Seq<char>) -> Seq<char> {
    let m = trim(model);
    let m = strip_prefix(m, "FUJIFILM "@);
    let m = strip_prefix(m, "Fujifilm "@);
    let m = strip_prefix(m, "SONY "@);
    let m = strip_prefix(m, "Sony "@);
    let m = strip_prefix(m, "Canon "@);
    let m = strip_prefix(m, "NIKON "@);
    let m = strip_prefix(m, "Nikon "@);
    collapse_ws(m)
}

proof fn lemma_not_prefix(s: Seq<char>, q: Seq<char>, k: int)
    requires
        0 <= k < q.len(),
        k < s.len(),
        s[k] != q[k],
    ensures
        !has_prefix(s, q),
{
    if has_prefix(s, q) {
        assert(s.take(q.len() as int)[k] == s[k]);
    }
}

/// One of the maker prefixes some bodies repeat in the model string.
pub open spec fn maker_prefix(p: Seq<char>) -> bool {
    ||| p == "FUJIFILM "@
    ||| p == "Fujifilm "@
    ||| p == "SONY "@
    ||| p == "Sony "@
    ||| p == "Canon "@
    ||| p == "NIKON "@
    ||| p == "Nikon "@
}

/// A maker prefix in front of a tidy model name (single-spaced, trimmed, not itself starting
/// with a maker prefix) is dropped: what is left is the model name.
pub proof fn law_maker_prefix_dropped(p: Seq<char>, m: Seq<char>)
    requires
        maker_prefix(p),
        m.len() > 0,
        collapse_ws(m) == m,
        forall|q: Seq<char>| maker_prefix(q) ==> !#[trigger] has_prefix(m, q),
    ensures
        normalise_model_spec(p + m) == m,
{
    reveal_strlit("FUJIFILM ");
    reveal_strlit("Fujifilm ");
    reveal_strlit("SONY ");
    reveal_strlit("Sony ");
    reveal_strlit("Canon ");
    reveal_strlit("NIKON ");
    reveal_strlit("Nikon ");
    let s = p + m;
    text::lemma_pieces_clean(m, Class::Space);
    text::lemma_join_ends(text::pieces(m, Class::Space), Class::Space, ' ');
    assert(!text::is_ws(m[0]) && !text::is_ws(m.last()));
    assert(s[0] == p[0]);
    assert(s.last() == m.last());
    assert(text::trim_start_by(s, Class::Space) == s);
    assert(text::trim_end_by(s, Class::Space) == s);
    assert(trim(s) == s);
    assert(!has_prefix(m, "FUJIFILM "@) && !has_prefix(m, "Fujifilm "@) && !has_prefix(m, "SONY "@));
    assert(!has_prefix(m, "Sony "@) && !has_prefix(m, "Canon "@) && !has_prefix(m, "NIKON "@));
    assert(!has_prefix(m, "Nikon "@));
    if p == "FUJIFILM "@ {
        assert(s.take("FUJIFILM "@.len() as int) =~= "FUJIFILM "@);
        assert(s.skip("FUJIFILM "@.len() as int) =~= m);
    }     else if p == "Fujifilm "@ {
        lemma_not_prefix(s, "FUJIFILM "@, 1);
        assert(s.take("Fujifilm "@.len() as int) =~= "Fujifilm "@);
        assert(s.skip("Fujifilm "@.len() as int) =~= m);
    }     else if p == "SONY "@ {
        lemma_not_prefix(s, "FUJIFILM "@, 0);
        lemma_not_prefix(s, "Fujifilm "@, 0);
        assert(s.take("SONY "@.len() as int) =~= "SONY "@);
        assert(s.skip("SONY "@.len() as int) =~= m);
    }     else if p == "Sony "@ {
        lemma_not_prefix(s, "FUJIFILM "@, 0);
        lemma_not_prefix(s, "Fujifilm "@, 0);
        lemma_not_prefix(s, "SONY "@, 1);
        assert(s.take("Sony "@.len() as int) =~= "Sony "@);
        assert(s.skip("Sony "@.len() as int) =~= m);
    }     else if p == "Canon "@ {
        lemma_not_prefix(s, "FUJIFILM "@, 0);
        lemma_not_prefix(s, "Fujifilm "@, 0);
        lemma_not_prefix(s, "SONY "@, 0);
        lemma_not_prefix(s, "Sony "@, 0);
        assert(s.take("Canon "@.len() as int) =~= "Canon "@);
        assert(s.skip("Canon "@.len() as int) =~= m);
    }     else if p == "NIKON "@ {
        lemma_not_prefix(s, "FUJIFILM "@, 0);
        lemma_not_prefix(s, "Fujifilm "@, 0);
        lemma_not_prefix(s, "SONY "@, 0);
        lemma_not_prefix(s, "Sony "@, 0);
        lemma_not_prefix(s, "Canon "@, 0);
        assert(s.take("NIKON "@.len() as int) =~= "NIKON "@);
        assert(s.skip("NIKON "@.len() as int) =~= m);
    }     else if p == "Nikon "@ {
        lemma_not_prefix(s, "FUJIFILM "@, 0);
        lemma_not_prefix(s, "Fujifilm "@, 0);
        lemma_not_prefix(s, "SONY "@, 0);
        lemma_not_prefix(s, "Sony "@, 0);
        lemma_not_prefix(s, "Canon "@, 0);
        lemma_not_prefix(s, "NIKON "@, 1);
        assert(s.take("Nikon "@.len() as int) =~= "Nikon "@);
        assert(s.skip("Nikon "@.len() as int) =~= m);
    }
}

/// A normalised model name is single-spaced with no whitespace at either end: normalising
/// collapses whitespace once and for all.
pub proof fn law_model_single_spaced(model: Seq<char>)
    ensures
        collapse_ws(normalise_model_spec(model)) == normalise_model_spec(model),
{
    let m = trim(model);
    let m = strip_prefix(m, "FUJIFILM "@);
    let m = strip_prefix(m, "Fujifilm "@);
    let m = strip_prefix(m, "SONY "@);
    let m = strip_prefix(m, "Sony "@);
    let m = strip_prefix(m, "Canon "@);
    let m = strip_prefix(m, "NIKON "@);
    let m = strip_prefix(m, "Nikon "@);
    text::lemma_rejoin_idempotent(m, Class::Space, ' ');
}

fn before_quote_chars(s: &Vec<char>) -> (r: Vec<char>)
    ensures
        r@ == before_quote(s@),
{
    let mut i: usize = 0;
    while i < s.len() && s[i] != '"'
        invariant
            i <= s.len(),
            forall|j: int| 0 <= j < i ==> s@[j] != '"',
        decreases s.len() - i,
    {
        i = i + 1;
    }
    proof {
        lemma_before_quote(s@, i as int);
    }
    text::slice_chars(s, 0, i)
}

proof fn lemma_before_quote(s: Seq<char>, i: int)
    requires
        0 <= i <= s.len(),
        forall|j: int| 0 <= j < i ==> s[j] != '"',
        i == s.len() || s[i] == '"',
    ensures
        before_quote(s) == s.subrange(0, i),
    decreases s.len(),
{
    if s.len() == 0 || s[0] == '"' {
        assert(s.subrange(0, i) =~= seq![]);
    } else {
        assert forall|j: int| 0 <= j < i - 1 implies s.drop_first()[j] != '"' by {
            assert(s.drop_first()[j] == s[j + 1]);
        }
        lemma_before_quote(s.drop_first(), i - 1);
        assert(seq![s[0]] + s.drop_first().subrange(0, i - 1) =~= s.subrange(0, i));
    }
}

/// Clean an EXIF text value: NUL padding, surrounding quotes and whitespace go; so does the
/// `", "", "...` tail older builds recorded for multi-part ASCII fields. `None` when empty.
pub fn tidy_text(s: &str) -> (r: Option<String>)
    ensures
        r matches Some(t) ==> tidy_text_spec(s@) == Some(t@),
        r is None ==> tidy_text_spec(s@) is None,
{
    let v = text::chars_of(s);
    let v = text::trim_chars(&v);
    let v = text::trim_start_chars(&v, Class::Quote);
    let v = before_quote_chars(&v);
    let v = text::trim_chars_by(&v, Class::NulOrSpace);
    if v.len() > 0 {
        Some(text::string_of(&v))
    } else {
        None
    }
}

fn strip_prefix_str(s: Vec<char>, p: &str) -> (r: Vec<char>)
    ensures
        r@ == strip_prefix(s@, p@),
{
    let pv = text::chars_of(p);
    if text::starts_with(&s, &pv) {
        text::slice_chars(&s, pv.len(), s.len())
    } else {
        s
    }
}

/// Strip the maker prefix some bodies repeat in the model string and tidy whitespace.
pub fn normalise_model(model: &str) -> (r: String)
    ensures
        r@ == normalise_model_spec(model@),
{
    let v = text::chars_of(model);
    let m = text::trim_chars(&v);
    let m = strip_prefix_str(m, "FUJIFILM ");
    let m = strip_prefix_str(m, "Fujifilm ");
    let m = strip_prefix_str(m, "SONY ");
    let m = strip_prefix_str(m, "Sony ");
    let m = strip_prefix_str(m, "Canon ");
    let m = strip_prefix_str(m, "NIKON ");
    let m = strip_prefix_str(m, "Nikon ");
    let out = text::collapse_whitespace(&m);
    text::string_of(&out)
}

/// EXIF stores `YYYY:MM:DD HH:MM:SS`; the value is trimmed first.
pub fn parse_exif_datetime(s: &str) -> (r: Option<DateTime>)
    ensures
        r matches Some(d) ==> chrono_parse(trim(s@), "%Y:%m:%d %H:%M:%S"@) == Some(d.fields()),
        r is None ==> chrono_parse(trim(s@), "%Y:%m:%d %H:%M:%S"@) is None,
{
    let v = text::chars_of(s);
    let t = text::string_of(&text::trim_chars(&v));
    datetime::parse(t.as_str(), "%Y:%m:%d %H:%M:%S")
}

/// The first of the patterns a video container's date comes in that reads `s`.
pub open spec fn video_date_patterns(s: Seq<char>) -> Option<(i32, u32, u32, u32, u32, u32)> {
    match chrono_parse(s, "%Y-%m-%dT%H:%M:%S%z"@) {
        Some(f) => Some(f),
        None => match chrono_parse(s, "%Y-%m-%d %H:%M:%S"@) {
            Some(f) => Some(f),
            None => match chrono_parse(s, "%Y:%m:%d %H:%M:%S"@) {
                Some(f) => Some(f),
                None => chrono_parse(s, "%Y-%m-%dT%H:%M:%S"@),
            },
        },
    }
}

/// A video container's creation date, which comes in a few shapes: an RFC 3339 timestamp
/// (read as its local time), else the first of the date patterns that reads it.
pub open spec fn video_date(s: Seq<char>) -> Option<(i32, u32, u32, u32, u32, u32)> {
    let t = trim(s);
    match chrono_rfc3339(t) {
        Some(f) => Some(f),
        None => video_date_patterns(t),
    }
}

/// Reads a video container's creation date (see [`video_date`]).
pub fn parse_video_date(s: &str) -> (r: Option<DateTime>)
    ensures
        r matches Some(d) ==> video_date(s@) == Some(d.fields()),
        r is None ==> video_date(s@) is None,
{
    let v = text::chars_of(s);
    let t = text::string_of(&text::trim_chars(&v));
    if let Some(d) = datetime::parse_rfc3339(t.as_str()) {
        return Some(d);
    }
    if let Some(d) = datetime::parse(t.as_str(), "%Y-%m-%dT%H:%M:%S%z") {
        return Some(d);
    }
    if let Some(d) = datetime::parse(t.as_str(), "%Y-%m-%d %H:%M:%S") {
        return Some(d);
    }
    if let Some(d) = datetime::parse(t.as_str(), "%Y:%m:%d %H:%M:%S") {
        return Some(d);
    }
    datetime::parse(t.as_str(), "%Y-%m-%dT%H:%M:%S")
}

/// How the catalog writes where metadata came from.
pub open spec fn meta_source_name(s: MetaSource) -> Seq<char> {
    match s {
        MetaSource::Raw => "raw"@,
        MetaSource::Exif => "exif"@,
        MetaSource::Container => "container"@,
        MetaSource::Mtime => "mtime"@,
    }
}

/// The name of a metadata source, as the catalog stores it.
pub fn meta_source_str(s: MetaSource) -> (r: &'static str)
    ensures
        r@ == meta_source_name(s),
{
    match s {
        MetaSource::Raw => "raw",
        MetaSource::Exif => "exif",
        MetaSource::Container => "container",
        MetaSource::Mtime => "mtime",
    }
}

} // verus!
