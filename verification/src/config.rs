//! User configuration: roots, templates, outputs, preset.

use crate::paths::{self, join_path};
use crate::template::Template;
use crate::text::{self, has_prefix, trim_start_by, Class};
use vstd::prelude::*;

verus! {

/// The templates destinations are rendered with.
#[derive(Clone, Debug)]
pub struct Templates {
    /// RAW files.
    pub raw: Template,
    /// JPEG/HEIF shot alongside a RAW. Default: next to the RAW.
    pub paired_image: Template,
    /// Images without a RAW.
    pub image: Template,
    pub video: Template,
    /// Sidecars and unrecognised files. Attachments of a RAW/video follow their primary instead.
    pub other: Template,
    pub render_exr: Template,
    pub render_jpeg: Template,
}

impl Templates {
    /// The default layout: `{year}/{date}/{camera}/{stem}.{ext}` for photos, a `video` folder
    /// for clips, the import date and source folder for anything else.
    pub fn defaults() -> (t: Templates)
        ensures
            t.raw.source_spec() == "{year}/{date}/{camera}/{stem}.{ext}"@,
            t.paired_image.source_spec() == "{year}/{date}/{camera}/{stem}.{ext}"@,
            t.image.source_spec() == "{year}/{date}/{camera}/{stem}.{ext}"@,
            t.video.source_spec() == "{year}/{date}/video/{stem}.{ext}"@,
            t.other.source_spec() == "{import_date}/other/{rel_dir}/{stem}.{ext}"@,
            t.render_exr.source_spec() == "{year}/{date}/{camera}/{stem}.exr"@,
            t.render_jpeg.source_spec() == "{year}/{date}/{camera}/{stem}.jpg"@,
    {
        Templates {
            raw: Template::builtin("{year}/{date}/{camera}/{stem}.{ext}"),
            paired_image: Template::builtin("{year}/{date}/{camera}/{stem}.{ext}"),
            image: Template::builtin("{year}/{date}/{camera}/{stem}.{ext}"),
            video: Template::builtin("{year}/{date}/video/{stem}.{ext}"),
            other: Template::builtin("{import_date}/other/{rel_dir}/{stem}.{ext}"),
            render_exr: Template::builtin("{year}/{date}/{camera}/{stem}.exr"),
            render_jpeg: Template::builtin("{year}/{date}/{camera}/{stem}.jpg"),
        }
    }
}

/// How a copy is checked.
#[derive(Clone, Copy, PartialEq, Eq, Structural, Debug)]
pub enum Verify {
    /// Re-read the destination and compare BLAKE3 hashes.
    Hash,
    /// Trust the copy if sizes match.
    SizeOnly,
}

/// What the film stage writes.
#[derive(Clone, Debug)]
pub struct Outputs {
    pub exr: bool,
    pub jpeg: bool,
    /// spektrafilm output colour space name for EXR: `Rec. 2020` or `ACES2065-1`.
    pub exr_color_space: String,
    pub jpeg_quality: u8,
}

impl Outputs {
    /// JPEG only, at quality 92; EXR in Rec. 2020 when switched on.
    pub fn defaults() -> (o: Outputs)
        ensures
            !o.exr && o.jpeg,
            o.exr_color_space@ == "Rec. 2020"@,
            o.jpeg_quality == 92,
    {
        Outputs { exr: false, jpeg: true, exr_color_space: "Rec. 2020".to_string(), jpeg_quality: 92 }
    }
}

/// The user's configuration.
#[derive(Clone, Debug)]
pub struct Config {
    /// Where RAWs and images go.
    pub archive_root: String,
    /// Where videos go. Defaults to `archive_root`.
    pub video_root: Option<String>,
    /// Where sidecars/unknown files go. Defaults to `archive_root`.
    pub other_root: Option<String>,
    /// Where rendered EXR/JPEG go.
    pub render_root: String,
    pub templates: Templates,
    pub outputs: Outputs,
    /// Preset file (JSON) for the film stage.
    pub preset: String,
    /// spektrafilm data directory. `None` = next to the executable / vendored default.
    pub data_dir: Option<String>,
    pub verify: Verify,
    /// Skip a file if the destination already exists with the same size.
    pub skip_existing: bool,
    /// Number of parallel RAW decodes feeding the single GPU render thread.
    pub decode_threads: usize,
}

/// `home` joined with `rel`.
pub fn home_join(home: &str, rel: &str) -> (r: String)
    ensures
        r@ == join_path(home@, rel@),
{
    let h = text::chars_of(home);
    let r = text::chars_of(rel);
    text::string_of(&paths::join_path_chars(&h, &r))
}

/// The decode thread count for a machine with `cores` available: half of them, between 2 and
/// 4; 2 when the count is unknown.
pub open spec fn decode_threads_for(cores: Option<usize>) -> usize {
    match cores {
        Some(n) => if n / 2 < 2 {
            2
        } else if n / 2 > 4 {
            4
        } else {
            n / 2
        },
        None => 2,
    }
}

/// A path with a leading `~` component replaced by `home`.
pub open spec fn expand_home_spec(p: Seq<char>, home: Seq<char>) -> Seq<char> {
    if p == seq!['~'] {
        join_path(home, seq![])
    } else if has_prefix(p, seq!['~', '/']) {
        join_path(home, trim_start_by(p.skip(2), Class::Slash))
    } else {
        p
    }
}

pub open spec fn expand_opt(p: Option<String>, home: Seq<char>) -> Option<Seq<char>> {
    match p {
        Some(s) => Some(expand_home_spec(s@, home)),
        None => None,
    }
}

pub open spec fn opt_view(p: Option<String>) -> Option<Seq<char>> {
    match p {
        Some(s) => Some(s@),
        None => None,
    }
}

fn expand_path(p: &String, home: &str) -> (r: String)
    ensures
        r@ == expand_home_spec(p@, home@),
{
    let v = text::chars_of(p.as_str());
    let h = text::chars_of(home);
    if v.len() == 1 && v[0] == '~' {
        assert(v@ =~= seq!['~']);
        text::string_of(&paths::join_path_chars(&h, &Vec::new()))
    } else if v.len() >= 2 && v[0] == '~' && v[1] == '/' {
        assert(v@.take(2) =~= seq!['~', '/']);
        let rest = text::slice_chars(&v, 2, v.len());
        assert(rest@ =~= v@.skip(2));
        let rest = text::trim_start_chars(&rest, Class::Slash);
        text::string_of(&paths::join_path_chars(&h, &rest))
    } else {
        proof {
            if v@ == seq!['~'] {
            }
            if has_prefix(v@, seq!['~', '/']) {
                assert(v@.take(2)[0] == v@[0]);
                assert(v@.take(2)[1] == v@[1]);
            }
        }
        p.clone()
    }
}

fn expand_opt_path(p: &Option<String>, home: &str) -> (r: Option<String>)
    ensures
        opt_view(r) == expand_opt(*p, home@),
{
    match p {
        Some(s) => Some(expand_path(s, home)),
        None => None,
    }
}

impl Config {
    /// The defaults for a user whose home directory is `home`, on a machine with `cores`
    /// available (when known).
    pub fn defaults(home: &str, cores: Option<usize>) -> (c: Config)
        ensures
            c.archive_root@ == join_path(home@, "Pictures/Archive"@),
            c.render_root@ == join_path(home@, "Pictures/Renders"@),
            c.video_root is None && c.other_root is None && c.data_dir is None,
            c.preset@ == "default.json"@,
            c.verify == Verify::Hash,
            c.skip_existing,
            c.decode_threads == decode_threads_for(cores),
    {
        let threads: usize = match cores {
            Some(n) => if n / 2 < 2 {
                2
            } else if n / 2 > 4 {
                4
            } else {
                n / 2
            },
            None => 2,
        };
        Config {
            archive_root: home_join(home, "Pictures/Archive"),
            video_root: None,
            other_root: None,
            render_root: home_join(home, "Pictures/Renders"),
            templates: Templates::defaults(),
            outputs: Outputs::defaults(),
            preset: "default.json".to_string(),
            data_dir: None,
            verify: Verify::Hash,
            skip_existing: true,
            decode_threads: threads,
        }
    }

    pub open spec fn video_root_spec(self) -> Seq<char> {
        match self.video_root {
            Some(v) => v@,
            None => self.archive_root@,
        }
    }

    pub open spec fn other_root_spec(self) -> Seq<char> {
        match self.other_root {
            Some(v) => v@,
            None => self.archive_root@,
        }
    }

    /// Where videos go: `video_root`, else the archive root.
    pub fn video_root(&self) -> (r: &String)
        ensures
            r@ == self.video_root_spec(),
    {
        match &self.video_root {
            Some(v) => v,
            None => &self.archive_root,
        }
    }

    /// Where sidecars and unknown files go: `other_root`, else the archive root.
    pub fn other_root(&self) -> (r: &String)
        ensures
            r@ == self.other_root_spec(),
    {
        match &self.other_root {
            Some(v) => v,
            None => &self.archive_root,
        }
    }

    /// Replace a leading `~` in every path setting by the home directory `home`.
    pub fn expand_home(&mut self, home: &str)
        ensures
            final(self).archive_root@ == expand_home_spec(old(self).archive_root@, home@),
            final(self).render_root@ == expand_home_spec(old(self).render_root@, home@),
            final(self).preset@ == expand_home_spec(old(self).preset@, home@),
            opt_view(final(self).video_root) == expand_opt(old(self).video_root, home@),
            opt_view(final(self).other_root) == expand_opt(old(self).other_root, home@),
            opt_view(final(self).data_dir) == expand_opt(old(self).data_dir, home@),
            final(self).verify == old(self).verify,
            final(self).skip_existing == old(self).skip_existing,
            final(self).decode_threads == old(self).decode_threads,
    {
        self.archive_root = expand_path(&self.archive_root, home);
        self.render_root = expand_path(&self.render_root, home);
        self.preset = expand_path(&self.preset, home);
        self.video_root = expand_opt_path(&self.video_root, home);
        self.other_root = expand_opt_path(&self.other_root, home);
        self.data_dir = expand_opt_path(&self.data_dir, home);
    }
}

} // verus!
