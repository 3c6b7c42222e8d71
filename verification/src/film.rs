//! Where looks (film presets) are kept, and the file names they are saved under.

use crate::config::home_join;
use crate::paths::{self, file_name, join_path};
use crate::print::slug_run;
use crate::text::{self, has_suffix, trim_by, trim_start_by, Class};
use vstd::prelude::*;

verus! {

/// Where new and imported looks are saved, under the home directory `home`.
pub fn user_preset_dir(home: &str) -> (r: String)
    ensures
        r@ == join_path(home@, ".config/spektrorganize/presets"@),
{
    home_join(home, ".config/spektrorganize/presets")
}

/// A look's file name: its name as lowercase letters, digits and single inner dashes
/// (`look` when nothing is left), with `.json` after it.
pub open spec fn preset_file(name: Seq<char>) -> Seq<char> {
    let t = trim_by(slug_run(name), Class::Dash);
    (if t.len() == 0 {
        "look"@
    } else {
        t
    }) + ".json"@
}

/// A character a look's file stem may hold: a lowercase ASCII letter, a digit or a dash.
pub open spec fn stem_char(c: char) -> bool {
    ('a' <= c && c <= 'z') || ('0' <= c && c <= '9') || c == '-'
}

/// Runs of lowercase letters and digits joined by single dashes: `[a-z0-9]+(-[a-z0-9]+)*`.
pub open spec fn dashed_runs(st: Seq<char>) -> bool {
    &&& st.len() > 0
    &&& forall|k: int| 0 <= k < st.len() ==> stem_char(#[trigger] st[k])
    &&& st[0] != '-'
    &&& st.last() != '-'
    &&& forall|k: int| 0 <= k < st.len() - 1 ==> !(#[trigger] st[k] == '-' && st[k + 1] == '-')
}

proof fn lemma_lower_alnum(c: char)
    requires
        text::is_ascii_alnum(c),
    ensures
        stem_char(text::ascii_lower(c)),
        text::ascii_lower(c) != '-',
{
    if text::is_ascii_upper(c) {
        let u = c as u32;
        assert(65 <= u <= 90);
        assert(97 <= u + 32 <= 122);
        assert(((u + 32) as char) as u32 == u + 32);
    }
}

proof fn lemma_slug_run_shape(s: Seq<char>)
    ensures
        forall|k: int| 0 <= k < slug_run(s).len() ==> stem_char(#[trigger] slug_run(s)[k]),
        forall|k: int| 0 <= k < slug_run(s).len() - 1 ==> !(#[trigger] slug_run(s)[k] == '-' && slug_run(s)[k + 1] == '-'),
    decreases s.len(),
{
    if s.len() > 0 {
        let o = slug_run(s.drop_last());
        lemma_slug_run_shape(s.drop_last());
        let c = s.last();
        let r = slug_run(s);
        if text::is_ascii_alnum(c) {
            lemma_lower_alnum(c);
        }
        assert forall|k: int| 0 <= k < r.len() implies stem_char(#[trigger] r[k]) by {
            if k < o.len() {
                assert(r[k] == o[k]);
            }
        }
        assert forall|k: int| 0 <= k < r.len() - 1 implies !(#[trigger] r[k] == '-' && r[k + 1] == '-') by {
            if k + 1 < o.len() {
                assert(r[k] == o[k] && r[k + 1] == o[k + 1]);
            } else if r.len() > o.len() {
                assert(r[k] == o.last());
            }
        }
    }
}

/// The file name of every look is a stem of runs of lowercase letters and digits joined by
/// single dashes, then `.json`.
pub proof fn law_preset_file_shape(name: Seq<char>)
    ensures
        preset_file(name).len() > 5,
        has_suffix(preset_file(name), ".json"@),
        dashed_runs(preset_file(name).take(preset_file(name).len() - 5)),
{
    let sr = slug_run(name);
    lemma_slug_run_shape(name);
    let t = trim_by(sr, Class::Dash);
    text::lemma_trim_by_shape(sr, Class::Dash);
    let st = if t.len() == 0 {
        "look"@
    } else {
        t
    };
    reveal_strlit("look");
    reveal_strlit(".json");
    assert(preset_file(name) == st + ".json"@);
    assert(preset_file(name).take(preset_file(name).len() - 5) =~= st);
    assert(preset_file(name).skip(preset_file(name).len() - 5) =~= ".json"@);
    if t.len() > 0 {
        let off = sr.len() - trim_start_by(sr, Class::Dash).len();
        assert forall|k: int| 0 <= k < t.len() implies stem_char(#[trigger] t[k]) by {
            assert(t[k] == sr[off + k]);
        }
        assert forall|k: int| 0 <= k < t.len() - 1 implies !(#[trigger] t[k] == '-' && t[k + 1] == '-') by {
            assert(t[k] == sr[off + k] && t[k + 1] == sr[off + k + 1]);
        }
    }
}

/// A file name for a look: lowercase, alphanumerics and dashes.
pub fn preset_file_name(name: &str) -> (r: String)
    ensures
        r@ == preset_file(name@),
{
    let v = text::chars_of(name);
    let mut out: Vec<char> = Vec::new();
    let mut i: usize = 0;
    while i < v.len()
        invariant
            i <= v.len(),
            v@ == name@,
            out@ == slug_run(v@.take(i as int)),
        decreases v.len() - i,
    {
        let c = v[i];
        assert(v@.take(i + 1).drop_last() =~= v@.take(i as int));
        if text::char_is_ascii_alnum(c) {
            out.push(text::char_ascii_lower(c));
        } else if !(out.len() > 0 && out[out.len() - 1] == '-') {
            out.push('-');
        }
        i = i + 1;
    }
    assert(v@.take(v.len() as int) =~= v@);
    let t = text::trim_chars_by(&out, Class::Dash);
    let mut r = if t.len() == 0 {
        text::chars_of("look")
    } else {
        t
    };
    text::push_str(&mut r, ".json");
    text::string_of(&r)
}

/// A look found on disk.
#[derive(Clone, Debug)]
pub struct PresetSummary {
    pub name: String,
    pub film: String,
    pub print: String,
    pub path: String,
}

/// The name a relative preset reference is also looked for under: its last component, or
/// the whole reference when that is empty.
pub open spec fn preset_name_part(configured: Seq<char>) -> Seq<char> {
    if file_name(configured).len() > 0 {
        file_name(configured)
    } else {
        configured
    }
}

/// For the first `n` directories, the reference and then its name under each.
pub open spec fn dir_candidates(configured: Seq<char>, dirs: Seq<Seq<char>>, n: int) -> Seq<Seq<char>>
    decreases n,
{
    if n <= 0 {
        seq![]
    } else {
        dir_candidates(configured, dirs, n - 1) + seq![
            join_path(dirs[n - 1], configured),
            join_path(dirs[n - 1], preset_name_part(configured)),
        ]
    }
}

/// Where a configured preset reference may be, in the order it is looked for: an absolute
/// path only as itself; otherwise under each preset directory (as given, then by name), and
/// last under the working directory `cwd` when there is one.
pub open spec fn preset_candidates_spec(configured: Seq<char>, dirs: Seq<Seq<char>>, cwd: Option<Seq<char>>) -> Seq<Seq<char>> {
    if configured.len() > 0 && configured[0] == '/' {
        seq![configured]
    } else {
        dir_candidates(configured, dirs, dirs.len() as int) + match cwd {
            Some(c) => seq![join_path(c, configured)],
            None => seq![],
        }
    }
}

/// The paths to try for a configured preset, in order (see [`preset_candidates_spec`]); the
/// first that is a file is the preset.
pub fn preset_candidates(configured: &str, dirs: &Vec<String>, cwd: &Option<String>) -> (r: Vec<String>)
    ensures
        r@.map_values(|x: String| x@) == preset_candidates_spec(
            configured@,
            dirs@.map_values(|x: String| x@),
            match cwd {
                Some(c) => Some(c@),
                None => None,
            },
        ),
{
    let ghost dv = dirs@.map_values(|x: String| x@);
    let c = text::chars_of(configured);
    let mut out: Vec<String> = Vec::new();
    if c.len() > 0 && c[0] == '/' {
        out.push(text::string_of(&c));
        assert(out@.map_values(|x: String| x@) =~= seq![configured@]);
        return out;
    }
    let fname = paths::file_name_of(&c);
    let name = if fname.len() > 0 {
        fname
    } else {
        c.clone()
    };
    assert(name@ == preset_name_part(configured@));
    let mut i: usize = 0;
    assert(out@.map_values(|x: String| x@) =~= dir_candidates(configured@, dv, 0));
    while i < dirs.len()
        invariant
            i <= dirs.len(),
            dv == dirs@.map_values(|x: String| x@),
            c@ == configured@,
            name@ == preset_name_part(configured@),
            out@.map_values(|x: String| x@) == dir_candidates(configured@, dv, i as int),
        decreases dirs.len() - i,
    {
        let d = text::chars_of(dirs[i].as_str());
        assert(dv[i as int] == d@);
        let ghost before = out@.map_values(|x: String| x@);
        out.push(text::string_of(&paths::join_path_chars(&d, &c)));
        out.push(text::string_of(&paths::join_path_chars(&d, &name)));
        assert(out@.map_values(|x: String| x@) =~= before + seq![join_path(d@, c@), join_path(d@, name@)]);
        i = i + 1;
    }
    match cwd {
        Some(w) => {
            let ghost before = out@.map_values(|x: String| x@);
            out.push(text::string_of(&paths::join_path_chars(&text::chars_of(w.as_str()), &c)));
            assert(out@.map_values(|x: String| x@) =~= before + seq![join_path(w@, c@)]);
        },
        None => {
            assert(out@.map_values(|x: String| x@) =~= dir_candidates(configured@, dv, dirs.len() as int) + Seq::<Seq<char>>::empty());
        },
    }
    out
}

} // verus!
