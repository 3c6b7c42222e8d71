//! What the RAW decoder reports back: its errors, the white-balance choices, which files it
//! takes, and how its flip code maps onto an EXIF orientation.

use crate::paths;
use crate::text::{self, ascii_lower_seq};
use crate::paths::extension;
use vstd::prelude::*;

verus! {

/// A failure of the RAW decoder.
#[derive(Clone, Debug, PartialEq, Eq)]
pub enum DecodeError {
    /// LibRaw refused an operation, with its code and its own message.
    LibRaw { op: String, code: i32, msg: String },
    BadPath,
    /// LibRaw returned an unexpected image layout.
    Layout(String),
}

/// An integer written in decimal, with a leading `-` when negative.
pub open spec fn signed_decimal(i: int) -> Seq<char> {
    if i < 0 {
        seq!['-'] + text::decimal((-i) as nat)
    } else {
        text::decimal(i as nat)
    }
}

pub fn signed_decimal_of(i: i64) -> (r: Vec<char>)
    ensures
        r@ == signed_decimal(i as int),
{
    if i < 0 {
        let m: u64 = if i == i64::MIN {
            9223372036854775808u64
        } else {
            (-i) as u64
        };
        let mut out: Vec<char> = Vec::new();
        out.push('-');
        text::push_chars(&mut out, &text::decimal_of(m));
        out
    } else {
        text::decimal_of(i as u64)
    }
}

impl DecodeError {
    pub open spec fn message_spec(self) -> Seq<char> {
        match self {
            DecodeError::LibRaw { op, code, msg } => op@ + ": "@ + msg@ + " ("@ + signed_decimal(code as int) + ")"@,
            DecodeError::BadPath => "path is not valid UTF-8/C string"@,
            DecodeError::Layout(s) => "LibRaw returned an unexpected image layout: "@ + s@,
        }
    }

    /// The error as the user sees it.
    pub fn message(&self) -> (r: String)
        ensures
            r@ == self.message_spec(),
    {
        match self {
            DecodeError::LibRaw { op, code, msg } => {
                let mut out = text::chars_of(op.as_str());
                text::push_str(&mut out, ": ");
                text::push_str(&mut out, msg.as_str());
                text::push_str(&mut out, " (");
                text::push_chars(&mut out, &signed_decimal_of(*code as i64));
                text::push_str(&mut out, ")");
                text::string_of(&out)
            },
            DecodeError::BadPath => "path is not valid UTF-8/C string".to_string(),
            DecodeError::Layout(s) => {
                let mut out = text::chars_of("LibRaw returned an unexpected image layout: ");
                text::push_str(&mut out, s.as_str());
                text::string_of(&out)
            },
        }
    }
}

/// How the RAW's white balance is set.
#[derive(Clone, Copy, Debug, Default, PartialEq, Eq, Structural)]
pub enum WhiteBalance {
    #[default]
    AsShot,
    Daylight,
    Tungsten,
    Custom,
}

/// Every file that is not one of the ordinary image formats goes to the RAW decoder.
pub open spec fn raw_path(p: Seq<char>) -> bool {
    let e = ascii_lower_seq(extension(p));
    !(e == "jpg"@ || e == "jpeg"@ || e == "png"@ || e == "tif"@ || e == "tiff"@ || e == "webp"@)
}

/// The ordinary image formats (`jpg`, `jpeg`, `png`, `tif`, `tiff`, `webp`, in any case) go
/// to the image decoder, and every other file, RAW or not, to the RAW decoder.
pub proof fn law_raw_decoder_takes_the_rest(p: Seq<char>)
    ensures
        ({
            let e = ascii_lower_seq(extension(p));
            raw_path(p) <==> !(e == "jpg"@ || e == "jpeg"@ || e == "png"@ || e == "tif"@ || e == "tiff"@ || e
                == "webp"@)
        }),
{
}

pub fn is_raw_path(path: &str) -> (r: bool)
    ensures
        r == raw_path(path@),
{
    let e = text::lower_ascii(&paths::extension_of(&text::chars_of(path)));
    !(text::eq_str(&e, "jpg") || text::eq_str(&e, "jpeg") || text::eq_str(&e, "png") || text::eq_str(&e, "tif")
        || text::eq_str(&e, "tiff") || text::eq_str(&e, "webp"))
}

/// LibRaw's `flip` as an EXIF orientation: 3 is upside down, 5 and 6 are the two quarter
/// turns; anything else is upright.
pub open spec fn exif_of_flip(flip: i32) -> u16 {
    if flip == 3 {
        3
    } else if flip == 5 {
        8
    } else if flip == 6 {
        6
    } else {
        1
    }
}

pub fn flip_to_exif_orientation(flip: i32) -> (r: u16)
    ensures
        r == exif_of_flip(flip),
{
    match flip {
        0 => 1,
        3 => 3,
        5 => 8,
        6 => 6,
        _ => 1,
    }
}

} // verus!
