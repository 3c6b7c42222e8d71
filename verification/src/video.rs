//! What video output can be asked for, and how a clip's length is captioned.

use crate::text;
use vstd::prelude::*;

verus! {

/// A failure of the video layer.
#[derive(Clone, Debug, PartialEq, Eq)]
pub enum VideoError {
    /// This build has no video support.
    Unsupported,
    Failed(String),
}

impl VideoError {
    pub open spec fn message_spec(self) -> Seq<char> {
        match self {
            VideoError::Unsupported => "video needs macOS (AVFoundation); this build has no video support"@,
            VideoError::Failed(s) => s@,
        }
    }

    pub fn message(&self) -> (r: String)
        ensures
            r@ == self.message_spec(),
    {
        match self {
            VideoError::Unsupported => "video needs macOS (AVFoundation); this build has no video support".to_string(),
            VideoError::Failed(s) => s.clone(),
        }
    }
}

/// How a clip's picture is treated.
#[derive(Clone, Copy, Debug, PartialEq, Eq, Structural)]
pub enum LookMode {
    /// Copy the picture through untouched (a format change, nothing more).
    NoLook,
    /// Bake the preset into a colour cube and apply that to every frame.
    Lut,
    /// Run the whole film pipeline on every frame. Slow, and the only way to get grain.
    Full,
}

/// What comes out the other end.
#[derive(Clone, Copy, Debug, PartialEq, Eq, Structural)]
pub enum OutCodec {
    /// H.264 in MP4 — the one that plays everywhere and posts anywhere.
    H264,
    /// HEVC in MP4: smaller at the same quality, fussier about where it plays.
    Hevc,
    /// ProRes 422 in a QuickTime movie, for editing rather than posting.
    ProRes422,
    /// ProRes 4444, when the extra weight is worth it.
    ProRes4444,
}

impl OutCodec {
    pub open spec fn prores(self) -> bool {
        self == OutCodec::ProRes422 || self == OutCodec::ProRes4444
    }

    /// ProRes goes in a QuickTime movie, the others in MP4.
    pub fn extension(self) -> (r: &'static str)
        ensures
            r@ == (if self.prores() { "mov"@ } else { "mp4"@ }),
    {
        match self {
            OutCodec::H264 | OutCodec::Hevc => "mp4",
            OutCodec::ProRes422 | OutCodec::ProRes4444 => "mov",
        }
    }

    pub open spec fn av_codec_spec(self) -> Seq<char> {
        match self {
            OutCodec::H264 => "avc1"@,
            OutCodec::Hevc => "hvc1"@,
            OutCodec::ProRes422 => "apcn"@,
            OutCodec::ProRes4444 => "ap4h"@,
        }
    }

    /// The AVFoundation codec key.
    pub fn av_codec(self) -> (r: &'static str)
        ensures
            r@ == self.av_codec_spec(),
    {
        match self {
            OutCodec::H264 => "avc1",
            OutCodec::Hevc => "hvc1",
            OutCodec::ProRes422 => "apcn",
            OutCodec::ProRes4444 => "ap4h",
        }
    }

    pub fn is_prores(self) -> (r: bool)
        ensures
            r == self.prores(),
    {
        match self {
            OutCodec::ProRes422 | OutCodec::ProRes4444 => true,
            _ => false,
        }
    }
}

/// The four-character codes of HEVC, the expensive one to decode.
pub open spec fn hevc_code(codec: Seq<char>) -> bool {
    codec == "hvc1"@ || codec == "hev1"@ || codec == "hvcC"@ || codec == "dvh1"@ || codec == "dvhe"@
}

pub fn is_hevc(codec: &str) -> (r: bool)
    ensures
        r == hevc_code(codec@),
{
    let c = text::chars_of(codec);
    text::eq_str(&c, "hvc1") || text::eq_str(&c, "hev1") || text::eq_str(&c, "hvcC") || text::eq_str(&c, "dvh1")
        || text::eq_str(&c, "dvhe")
}

/// `h:mm:ss` when the clip runs an hour or more, else `m:ss`, from its length in whole
/// seconds.
pub open spec fn duration_caption(total: nat) -> Seq<char> {
    let h = total / 3600;
    let m = (total % 3600) / 60;
    let s = total % 60;
    if h > 0 {
        text::decimal(h) + seq![':'] + text::zero_pad(text::decimal(m), 2) + seq![':'] + text::zero_pad(text::decimal(s), 2)
    } else {
        text::decimal(m) + seq![':'] + text::zero_pad(text::decimal(s), 2)
    }
}

/// `1:02:03` / `4:07`, for a caption.
pub fn duration_text(total: u64) -> (r: String)
    ensures
        r@ == duration_caption(total as nat),
{
    let h = total / 3600;
    let m = (total % 3600) / 60;
    let s = total % 60;
    let mut out: Vec<char> = Vec::new();
    if h > 0 {
        text::push_chars(&mut out, &text::decimal_of(h));
        out.push(':');
        text::push_chars(&mut out, &text::zero_pad_chars(&text::decimal_of(m), 2));
    } else {
        text::push_chars(&mut out, &text::decimal_of(m));
    }
    out.push(':');
    text::push_chars(&mut out, &text::zero_pad_chars(&text::decimal_of(s), 2));
    text::string_of(&out)
}

} // verus!
