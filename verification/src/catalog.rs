//! The catalog's naming rules: what a file is to its asset, the kinds of roots, how kinds are
//! read back from their stored names, and which keyword sources are accepted.

use crate::decode::{signed_decimal, signed_decimal_of};
use crate::paths::{self, extension, join_path};
use crate::scan::Kind;
use crate::text::{self, ascii_lower_seq, collapse_ws, has_prefix};
use std::collections::HashMap;
use vstd::std_specs::hash::spec_keys_iter;
use vstd::std_specs::iter::IteratorSpec;
use vstd::prelude::*;

verus! {

/// What a file is to its asset.
#[derive(Clone, Copy, PartialEq, Eq, Structural, Debug)]
pub enum Role {
    Raw,
    /// A camera JPEG next to a RAW (the "sidecar JPEG").
    Jpeg,
    /// The asset's own image (lone JPEG/HEIF), or a non-JPEG image next to a RAW.
    Image,
    Video,
    Xmp,
    Sidecar,
    Other,
}

impl Role {
    pub open spec fn name(self) -> Seq<char> {
        match self {
            Role::Raw => "raw"@,
            Role::Jpeg => "jpeg"@,
            Role::Image => "image"@,
            Role::Video => "video"@,
            Role::Xmp => "xmp"@,
            Role::Sidecar => "sidecar"@,
            Role::Other => "other"@,
        }
    }

    /// The role's stored name.
    pub fn as_str(self) -> (r: &'static str)
        ensures
            r@ == self.name(),
    {
        match self {
            Role::Raw => "raw",
            Role::Jpeg => "jpeg",
            Role::Image => "image",
            Role::Video => "video",
            Role::Xmp => "xmp",
            Role::Sidecar => "sidecar",
            Role::Other => "other",
        }
    }

    /// The role of the file called `name` of kind `kind` in its group: a JPEG that is not the
    /// group's primary is the camera JPEG of a RAW; an `.xmp` file that is no photo or video
    /// is an XMP sidecar.
    pub open spec fn of_file(name: Seq<char>, kind: Kind, is_primary: bool) -> Role {
        let ext = ascii_lower_seq(extension(name));
        match kind {
            Kind::Raw => Role::Raw,
            Kind::Image => if !is_primary && (ext == "jpg"@ || ext == "jpeg"@) {
                Role::Jpeg
            } else {
                Role::Image
            },
            Kind::Video => Role::Video,
            _ => if ext == "xmp"@ {
                Role::Xmp
            } else if kind == Kind::Sidecar {
                Role::Sidecar
            } else {
                Role::Other
            },
        }
    }

    pub fn for_file(name: &str, kind: Kind, is_primary: bool) -> (r: Role)
        ensures
            r == Role::of_file(name@, kind, is_primary),
    {
        let ext = text::lower_ascii(&paths::extension_of(&text::chars_of(name)));
        match kind {
            Kind::Raw => Role::Raw,
            Kind::Image => {
                if !is_primary && (text::eq_str(&ext, "jpg") || text::eq_str(&ext, "jpeg")) {
                    Role::Jpeg
                } else {
                    Role::Image
                }
            },
            Kind::Video => Role::Video,
            _ => {
                if text::eq_str(&ext, "xmp") {
                    Role::Xmp
                } else if kind == Kind::Sidecar {
                    Role::Sidecar
                } else {
                    Role::Other
                }
            },
        }
    }
}

/// The kinds of catalog roots.
#[derive(Clone, Copy, PartialEq, Eq, Structural, Debug)]
pub enum RootKind {
    /// Written by imports (token-template layout); manifests live in `.spektrorganize/`.
    Archive,
    /// An existing folder indexed in place; never moved or renamed.
    Folder,
    /// Render ("print") outputs. Not walked for assets.
    Render,
}

impl RootKind {
    pub open spec fn name(self) -> Seq<char> {
        match self {
            RootKind::Archive => "archive"@,
            RootKind::Folder => "folder"@,
            RootKind::Render => "render"@,
        }
    }

    /// The kind a stored name stands for; any name but `archive` and `render` is a folder.
    pub open spec fn named(s: Seq<char>) -> RootKind {
        if s == "archive"@ {
            RootKind::Archive
        } else if s == "render"@ {
            RootKind::Render
        } else {
            RootKind::Folder
        }
    }

    pub fn as_str(self) -> (r: &'static str)
        ensures
            r@ == self.name(),
    {
        match self {
            RootKind::Archive => "archive",
            RootKind::Folder => "folder",
            RootKind::Render => "render",
        }
    }

    pub fn parse(s: &str) -> (r: RootKind)
        ensures
            r == RootKind::named(s@),
    {
        let v = text::chars_of(s);
        if text::eq_str(&v, "archive") {
            RootKind::Archive
        } else if text::eq_str(&v, "render") {
            RootKind::Render
        } else {
            RootKind::Folder
        }
    }
}

/// Reading back the stored name of a root kind gives the same kind.
pub proof fn lemma_root_kind_round_trip(k: RootKind)
    ensures
        RootKind::named(k.name()) == k,
{
    reveal_strlit("archive");
    reveal_strlit("render");
    reveal_strlit("folder");
    assert("render"@[0] != "archive"@[0]);
    assert("folder"@[0] != "archive"@[0]);
    assert("folder"@[0] != "render"@[0]);
}

/// The file kind a stored name stands for; unknown names are `Other`.
pub open spec fn kind_named(s: Seq<char>) -> Kind {
    if s == "raw"@ {
        Kind::Raw
    } else if s == "image"@ {
        Kind::Image
    } else if s == "video"@ {
        Kind::Video
    } else if s == "sidecar"@ {
        Kind::Sidecar
    } else {
        Kind::Other
    }
}

pub fn kind_from_str(s: &str) -> (k: Kind)
    ensures
        k == kind_named(s@),
{
    let v = text::chars_of(s);
    if text::eq_str(&v, "raw") {
        Kind::Raw
    } else if text::eq_str(&v, "image") {
        Kind::Image
    } else if text::eq_str(&v, "video") {
        Kind::Video
    } else if text::eq_str(&v, "sidecar") {
        Kind::Sidecar
    } else {
        Kind::Other
    }
}

/// Reading back the stored name of a file kind gives the same kind.
pub proof fn lemma_kind_round_trip(k: Kind)
    ensures
        kind_named(k.name()) == k,
{
    reveal_strlit("raw");
    reveal_strlit("image");
    reveal_strlit("video");
    reveal_strlit("sidecar");
    reveal_strlit("other");
    assert("image"@[0] != "raw"@[0]);
    assert("video"@[0] != "raw"@[0] && "video"@[0] != "image"@[0]);
    assert("sidecar"@[0] != "raw"@[0] && "sidecar"@[0] != "image"@[0] && "sidecar"@[0] != "video"@[0]);
    assert("other"@[0] != "raw"@[0] && "other"@[0] != "image"@[0] && "other"@[0] != "video"@[0]
        && "other"@[0] != "sidecar"@[0]);
}

/// Rank for choosing an asset's primary file: RAW beats image beats video.
pub open spec fn rank_of(kind: Kind) -> u8 {
    match kind {
        Kind::Raw => 0,
        Kind::Image => 1,
        Kind::Video => 2,
        _ => 3,
    }
}

pub fn primary_rank(kind: Kind) -> (r: u8)
    ensures
        r == rank_of(kind),
{
    match kind {
        Kind::Raw => 0,
        Kind::Image => 1,
        Kind::Video => 2,
        _ => 3,
    }
}

/// Only photos and videos become assets; loose sidecars and unknown files are indexed as
/// files.
pub fn is_asset_kind(kind: Kind) -> (r: bool)
    ensures
        r == kind.primary_kind(),
{
    match kind {
        Kind::Raw | Kind::Image | Kind::Video => true,
        _ => false,
    }
}

/// `s` with every backslash turned into a forward slash.
pub open spec fn forward_slashes(s: Seq<char>) -> Seq<char> {
    Seq::new(s.len(), |i: int| if s[i] == '\\' { '/' } else { s[i] })
}

/// Forward-slash relative path string.
pub fn rel_string(p: &str) -> (r: String)
    ensures
        r@ == forward_slashes(p@),
{
    let v = text::chars_of(p);
    let mut out: Vec<char> = Vec::new();
    let mut i: usize = 0;
    while i < v.len()
        invariant
            i <= v.len(),
            v@ == p@,
            out@ =~= forward_slashes(v@.take(i as int)),
        decreases v.len() - i,
    {
        let c = v[i];
        if c == '\\' {
            out.push('/');
        } else {
            out.push(c);
        }
        i = i + 1;
        assert(out@ =~= forward_slashes(v@.take(i as int)));
    }
    assert(v@.take(v.len() as int) == v@);
    text::string_of(&out)
}

// ---------- keywords ----------

/// Why a keyword operation was refused.
#[derive(Clone, PartialEq, Eq, Debug)]
pub enum KeywordError {
    /// The source is neither `user` nor `ai:<name>`.
    BadSource(String),
    /// Clearing by this prefix would reach the user's own keywords.
    ClearsUser,
    /// Machine labels were offered under the user's source.
    LabelsNeedAi,
}

impl KeywordError {
    pub open spec fn message_spec(self) -> Seq<char> {
        match self {
            KeywordError::BadSource(s) => "keyword source must be 'user' or 'ai:<name>', got '"@ + s@ + "'"@,
            KeywordError::ClearsUser => "refusing to clear user keywords"@,
            KeywordError::LabelsNeedAi => "labels need an 'ai:<name>' source"@,
        }
    }

    /// The error as the user sees it.
    pub fn message(&self) -> (r: String)
        ensures
            r@ == self.message_spec(),
    {
        match self {
            KeywordError::BadSource(s) => {
                let mut out: Vec<char> = Vec::new();
                text::push_str(&mut out, "keyword source must be 'user' or 'ai:<name>', got '");
                text::push_str(&mut out, s.as_str());
                text::push_str(&mut out, "'");
                text::string_of(&out)
            },
            KeywordError::ClearsUser => "refusing to clear user keywords".to_string(),
            KeywordError::LabelsNeedAi => "labels need an 'ai:<name>' source".to_string(),
        }
    }
}

/// A keyword with its runs of whitespace collapsed to single spaces and its ends trimmed;
/// `None` when that leaves nothing or more than 64 characters.
pub open spec fn normalized(name: Seq<char>) -> Option<Seq<char>> {
    let s = collapse_ws(name);
    if s.len() > 0 && s.len() <= 64 {
        Some(s)
    } else {
        None
    }
}

/// A normalised keyword normalises to itself.
pub proof fn law_normalize_idempotent(name: Seq<char>)
    ensures
        normalized(name) matches Some(s) ==> normalized(s) == Some(s),
{
    text::lemma_rejoin_idempotent(name, text::Class::Space, ' ');
}

/// Trim, collapse whitespace; `None` for empty or absurdly long input.
pub fn normalize(name: &str) -> (r: Option<String>)
    ensures
        r matches Some(s) ==> normalized(name@) == Some(s@),
        r is None ==> normalized(name@) is None,
{
    let s = text::collapse_whitespace(&text::chars_of(name));
    if s.len() > 0 && s.len() <= 64 {
        Some(text::string_of(&s))
    } else {
        None
    }
}

/// A keyword source is `user`, or `ai:` followed by a name.
pub open spec fn valid_source(s: Seq<char>) -> bool {
    s == "user"@ || (has_prefix(s, "ai:"@) && s.len() > "ai:"@.len())
}

pub fn check_source(source: &str) -> (r: Result<(), KeywordError>)
    ensures
        r is Ok <==> valid_source(source@),
        r matches Err(e) ==> e matches KeywordError::BadSource(s) && s@ == source@,
{
    let v = text::chars_of(source);
    let user = text::chars_of("user");
    let ai = text::chars_of("ai:");
    if text::eq_chars(&v, &user) || (text::starts_with(&v, &ai) && v.len() > ai.len()) {
        Ok(())
    } else {
        Err(KeywordError::BadSource(text::string_of(&v)))
    }
}

/// Clearing by `prefix` would reach the user's own keywords: every source starts with the
/// empty prefix, and `user` starts with any prefix of itself.
pub open spec fn clears_user(prefix: Seq<char>) -> bool {
    prefix.len() == 0 || has_prefix("user"@, prefix)
}

/// Clearing keywords by source prefix never touches the user's: a prefix that `user` starts
/// with is refused.
pub fn check_clear_prefix(prefix: &str) -> (r: Result<(), KeywordError>)
    ensures
        r is Ok <==> !clears_user(prefix@),
        r is Err ==> r == Err::<(), KeywordError>(KeywordError::ClearsUser),
{
    let v = text::chars_of(prefix);
    let user = text::chars_of("user");
    if v.len() == 0 || text::starts_with(&user, &v) {
        Err(KeywordError::ClearsUser)
    } else {
        Ok(())
    }
}

/// Machine labels are stored under an `ai:<name>` source only.
pub fn check_label_source(source: &str) -> (r: Result<(), KeywordError>)
    ensures
        r is Ok <==> valid_source(source@) && source@ != "user"@,
        r matches Err(e) ==> if valid_source(source@) {
            e == KeywordError::LabelsNeedAi
        } else {
            e matches KeywordError::BadSource(s) && s@ == source@
        },
{
    check_source(source)?;
    if text::eq_str(&text::chars_of(source), "user") {
        Err(KeywordError::LabelsNeedAi)
    } else {
        Ok(())
    }
}

// ---------- duplicates found at import ----------

/// What a scan's groups turned out to be.
#[derive(Clone, Debug, Default)]
pub struct ImportDupes {
    /// Group -> the group in this same scan it is a copy of (the one that will be imported).
    pub copies: HashMap<u32, u32>,
    /// Groups whose bytes are already in the catalog, with where they are.
    pub known: HashMap<u32, String>,
    /// Files read to settle a name-and-size match.
    pub hashed: usize,
}

impl ImportDupes {
    /// Nothing is a copy and nothing is already held.
    pub fn is_empty(&self) -> (r: bool)
        ensures
            r == (self.copies@.dom().is_empty() && self.known@.dom().is_empty()),
    {
        let a = self.copies.is_empty();
        let b = self.known.is_empty();
        proof {
            if !a {
                assert(!self.copies@.is_empty());
                assert(self.copies@.dom() != Set::<u32>::empty());
            }
            if !b {
                assert(self.known@.dom() != Set::<u32>::empty());
            }
        }
        a && b
    }

    /// Groups to leave out of the import: every copy, and everything already held. Copies
    /// come first; within each part the order is the maps' own.
    pub fn to_exclude(&self) -> (r: Vec<u32>)
        ensures
            r@.len() == self.copies@.dom().len() + self.known@.dom().len(),
            r@.take(self.copies@.dom().len() as int).to_set() == self.copies@.dom(),
            r@.skip(self.copies@.dom().len() as int).to_set() == self.known@.dom(),
            r@.take(self.copies@.dom().len() as int).no_duplicates(),
            r@.skip(self.copies@.dom().len() as int).no_duplicates(),
    {
        broadcast use vstd::std_specs::hash::group_hash_axioms;
        let ghost first = spec_keys_iter(&self.copies).remaining().unref();
        let ghost second = spec_keys_iter(&self.known).remaining().unref();
        let mut out: Vec<u32> = Vec::new();
        for k in it: self.copies.keys()
            invariant
                it.seq() == spec_keys_iter(&self.copies).remaining(),
                first == it.seq().unref(),
                out@ == first.take(it.index() as int),
        {
            out.push(*k);
            assert(out@ =~= first.take(it.index() + 1));
        }
        assert(out@ =~= first);
        for k in it2: self.known.keys()
            invariant
                it2.seq() == spec_keys_iter(&self.known).remaining(),
                second == it2.seq().unref(),
                out@ == first + second.take(it2.index() as int),
        {
            out.push(*k);
            assert(out@ =~= first + second.take(it2.index() + 1));
        }
        proof {
            assert(out@ =~= first + second);
            assert(out@.take(first.len() as int) =~= first);
            assert(out@.skip(first.len() as int) =~= second);
        }
        out
    }
}

// ---------- thumbnails ----------

/// `a / 1000` rounded toward zero, as Rust's integer division does.
pub open spec fn thousands(a: int) -> int {
    if a >= 0 {
        a / 1000
    } else {
        -((-a) / 1000)
    }
}

/// A thumbnail's cache file: `<dir>/<size>/<asset / 1000>/<asset>.jpg`.
pub open spec fn thumb_file(dir: Seq<char>, asset: i64, size: u32) -> Seq<char> {
    join_path(
        join_path(join_path(dir, text::decimal(size as nat)), signed_decimal(thousands(asset as int))),
        signed_decimal(asset as int) + ".jpg"@,
    )
}

pub fn thumb_path(dir: &str, asset: i64, size: u32) -> (r: String)
    ensures
        r@ == thumb_file(dir@, asset, size),
{
    let q: i64 = if asset >= 0 {
        asset / 1000
    } else if asset == i64::MIN {
        -9223372036854775i64
    } else {
        -((-asset) / 1000)
    };
    assert(q == thousands(asset as int));
    let d1 = paths::join_path_chars(&text::chars_of(dir), &text::decimal_of(size as u64));
    let d2 = paths::join_path_chars(&d1, &signed_decimal_of(q));
    let mut name = signed_decimal_of(asset);
    text::push_str(&mut name, ".jpg");
    text::string_of(&paths::join_path_chars(&d2, &name))
}

// ---------- roots ----------

/// `p` is `r` or lies under it, comparing whole path components.
pub open spec fn under(p: Seq<char>, r: Seq<char>) -> bool {
    ||| p == r
    ||| (r.len() > 0 && r.last() == '/' && has_prefix(p, r))
    ||| has_prefix(p, r.push('/'))
}

pub fn is_under(p: &Vec<char>, r: &Vec<char>) -> (b: bool)
    ensures
        b == under(p@, r@),
{
    if text::eq_chars(p, r) {
        return true;
    }
    if r.len() > 0 && r[r.len() - 1] == '/' && text::starts_with(p, r) {
        return true;
    }
    let mut rs = r.clone();
    rs.push('/');
    assert(rs@ == r@.push('/'));
    text::starts_with(p, &rs)
}

/// Of the roots at `paths`, the one with the longest path that `p` lies under (the last
/// such, among equally long ones).
pub open spec fn deepest_root(paths: Seq<Seq<char>>, p: Seq<char>, n: int) -> Option<int>
    decreases n,
{
    if n <= 0 {
        None
    } else {
        let best = deepest_root(paths, p, n - 1);
        if under(p, paths[n - 1]) {
            match best {
                Some(b) => if paths[n - 1].len() >= paths[b].len() {
                    Some(n - 1)
                } else {
                    Some(b)
                },
                None => Some(n - 1),
            }
        } else {
            best
        }
    }
}

/// The root that contains `p` (itself or an ancestor), if any.
pub fn root_containing(paths: &Vec<String>, p: &str) -> (r: Option<usize>)
    ensures
        match r {
            Some(k) => deepest_root(strings(paths@), p@, paths.len() as int) == Some(k as int),
            None => deepest_root(strings(paths@), p@, paths.len() as int) is None,
        },
{
    let pv = text::chars_of(p);
    let ghost ps = strings(paths@);
    let mut best: Option<usize> = None;
    let mut i: usize = 0;
    while i < paths.len()
        invariant
            i <= paths.len(),
            ps == strings(paths@),
            pv@ == p@,
            match best {
                Some(b) => deepest_root(ps, p@, i as int) == Some(b as int) && b < i,
                None => deepest_root(ps, p@, i as int) is None,
            },
        decreases paths.len() - i,
    {
        let r = text::chars_of(paths[i].as_str());
        assert(ps[i as int] == r@);
        if is_under(&pv, &r) {
            best = match best {
                Some(b) => {
                    assert(ps[b as int] == paths@[b as int]@);
                    if r.len() >= paths[b].as_str().unicode_len() {
                        Some(i)
                    } else {
                        Some(b)
                    }
                },
                None => Some(i),
            };
        }
        i = i + 1;
    }
    best
}

pub open spec fn strings(v: Seq<String>) -> Seq<Seq<char>> {
    v.map_values(|s: String| s@)
}

/// Why a root cannot be added.
#[derive(Clone, PartialEq, Eq, Debug)]
pub enum RootError {
    /// The folder is already a root of the other family (render versus photo).
    OtherKind { path: String, existing: RootKind },
    /// The folder lies inside a photo root that is already indexed.
    Nested { path: String, parent: String, parent_kind: RootKind, parent_id: i64 },
}

impl RootError {
    pub open spec fn message_spec(self) -> Seq<char> {
        match self {
            RootError::OtherKind { path, existing } => path@ + " is already in the catalog as a "@ + existing.name()
                + " root"@,
            RootError::Nested { path, parent, parent_kind, parent_id } => path@ + " is inside "@ + parent@ + " ("@
                + parent_kind.name() + " root #"@ + signed_decimal(parent_id as int)
                + "), which is already indexed; rescan that root instead"@,
        }
    }

    pub fn message(&self) -> (r: String)
        ensures
            r@ == self.message_spec(),
    {
        let mut out: Vec<char> = Vec::new();
        match self {
            RootError::OtherKind { path, existing } => {
                text::push_str(&mut out, path.as_str());
                text::push_str(&mut out, " is already in the catalog as a ");
                text::push_str(&mut out, existing.as_str());
                text::push_str(&mut out, " root");
            },
            RootError::Nested { path, parent, parent_kind, parent_id } => {
                text::push_str(&mut out, path.as_str());
                text::push_str(&mut out, " is inside ");
                text::push_str(&mut out, parent.as_str());
                text::push_str(&mut out, " (");
                text::push_str(&mut out, parent_kind.as_str());
                text::push_str(&mut out, " root #");
                text::push_chars(&mut out, &signed_decimal_of(*parent_id));
                text::push_str(&mut out, "), which is already indexed; rescan that root instead");
            },
        }
        text::string_of(&out)
    }
}

/// Adding a root of kind `kind` at `path`: a folder already in the catalog is reused unless
/// it is a root of the other family (render versus photo); a new photo root may not lie
/// inside an indexed photo root. `existing` is the root already at `path`; `parent` the
/// deepest root that contains `path`, as (path, kind, id).
pub open spec fn root_admission(
    kind: RootKind,
    existing: Option<RootKind>,
    parent: Option<(Seq<char>, RootKind, i64)>,
) -> Option<int> {
    match existing {
        Some(e) => if e != kind && (e == RootKind::Render) != (kind == RootKind::Render) {
            Some(0)
        } else {
            None
        },
        None => match parent {
            Some((_, pk, _)) => if kind != RootKind::Render && pk != RootKind::Render {
                Some(1)
            } else {
                None
            },
            None => None,
        },
    }
}

/// The refusal, if any, for adding a root of kind `kind` at `path` (see `root_admission`).
pub fn check_new_root(
    path: &str,
    kind: RootKind,
    existing: Option<RootKind>,
    parent: &Option<(String, RootKind, i64)>,
) -> (r: Result<(), RootError>)
    ensures
        ({
            let pv = match parent {
                Some((pp, pk, pid)) => Some((pp@, *pk, *pid)),
                None => None,
            };
            match root_admission(kind, existing, pv) {
                None => r is Ok,
                Some(c) => match r {
                    Ok(_) => false,
                    Err(RootError::OtherKind { path: p2, existing: e2 }) => c == 0 && p2@ == path@ && Some(e2) == existing,
                    Err(RootError::Nested { path: p2, parent: pp, parent_kind: pk, parent_id: pid }) => c == 1 && p2@
                        == path@ && pv == Some((pp@, pk, pid)),
                },
            }
        }),
{
    match existing {
        Some(e) => {
            if e != kind && (e == RootKind::Render) != (kind == RootKind::Render) {
                return Err(RootError::OtherKind { path: path.to_string(), existing: e });
            }
            Ok(())
        },
        None => match parent {
            Some((pp, pk, pid)) => {
                if kind != RootKind::Render && *pk != RootKind::Render {
                    return Err(RootError::Nested { path: path.to_string(), parent: pp.clone(), parent_kind: *pk, parent_id: *pid });
                }
                Ok(())
            },
            None => Ok(()),
        },
    }
}

/// Relocating a root is refused, unless forced, when none of the sampled files exist at the
/// new place.
pub fn relocation_refused(force: bool, sampled: usize, found: usize) -> (r: bool)
    ensures
        r == (!force && sampled > 0 && found == 0),
{
    !force && sampled > 0 && found == 0
}

} // verus!
