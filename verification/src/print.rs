//! Naming the outputs of a print run: a preset's name as a file-name slug, a suffix or a new
//! extension put on a relative path, and the choice of a free output name.

use crate::catalog::{forward_slashes, rel_string};
use crate::paths::{self, extension, file_name, file_stem, parent, split_name};
use crate::text::{self, ascii_lower, is_ascii_alnum, trim_by, trim_start_by, Class};
use vstd::prelude::*;

verus! {

/// Letters and digits lowered, every other run of characters turned into one dash.
pub open spec fn slug_run(s: Seq<char>) -> Seq<char>
    decreases s.len(),
{
    if s.len() == 0 {
        seq![]
    } else {
        let o = slug_run(s.drop_last());
        let c = s.last();
        if is_ascii_alnum(c) {
            o.push(ascii_lower(c))
        } else if o.len() > 0 && o.last() == '-' {
            o
        } else {
            o.push('-')
        }
    }
}

/// A preset name as a file-name slug: lowercase ASCII letters and digits, other runs as one
/// dash, no dash at either end; `preset` when nothing is left.
pub open spec fn slug_of(name: Seq<char>) -> Seq<char> {
    let t = trim_by(slug_run(name), Class::Dash);
    if t.len() == 0 {
        "preset"@
    } else {
        t
    }
}

pub fn slug(name: &str) -> (r: String)
    ensures
        r@ == slug_of(name@),
{
    let v = text::chars_of(name);
    let mut out: Vec<char> = Vec::new();
    let mut i: usize = 0;
    while i < v.len()
        invariant
            i <= v.len(),
            v@ == name@,
            out@ == slug_run(v@.take(i as int)),
        decreases v.len() - i,
    {
        let c = v[i];
        assert(v@.take(i + 1).drop_last() =~= v@.take(i as int));
        if text::char_is_ascii_alnum(c) {
            out.push(text::char_ascii_lower(c));
        } else if !(out.len() > 0 && out[out.len() - 1] == '-') {
            out.push('-');
        }
        i = i + 1;
    }
    assert(v@.take(v.len() as int) =~= v@);
    let t = text::trim_chars_by(&out, Class::Dash);
    if t.len() == 0 {
        "preset".to_string()
    } else {
        text::string_of(&t)
    }
}

/// A lowercase ASCII letter, a digit or a dash.
pub open spec fn slug_char(c: char) -> bool {
    ('a' <= c && c <= 'z') || ('0' <= c && c <= '9') || c == '-'
}

/// Every character of a slug is a lowercase ASCII letter, a digit or a dash, and it neither
/// starts nor ends with a dash.
pub open spec fn is_slug(s: Seq<char>) -> bool {
    &&& s.len() > 0
    &&& forall|i: int| 0 <= i < s.len() ==> #[trigger] slug_char(s[i])
    &&& s[0] != '-'
    &&& s.last() != '-'
}

proof fn lemma_slug_run_chars(s: Seq<char>)
    ensures
        forall|i: int| 0 <= i < slug_run(s).len() ==> #[trigger] slug_char(slug_run(s)[i]),
    decreases s.len(),
{
    if s.len() > 0 {
        lemma_slug_run_chars(s.drop_last());
        let c = s.last();
        if is_ascii_alnum(c) && text::is_ascii_upper(c) {
            assert(65 <= (c as u32) <= 90);
            assert(slug_char(ascii_lower(c)));
        }
        let o = slug_run(s.drop_last());
        assert forall|i: int| 0 <= i < slug_run(s).len() implies #[trigger] slug_char(slug_run(s)[i]) by {
            if i < o.len() {
                assert(slug_run(s)[i] == o[i]);
            }
        }
    }
}

/// A slug is made of lowercase letters, digits and inner dashes only, whatever the name.
pub proof fn lemma_slug_shape(name: Seq<char>)
    ensures
        is_slug(slug_of(name)),
{
    let r = slug_run(name);
    lemma_slug_run_chars(name);
    text::lemma_trim_by_shape(r, Class::Dash);
    reveal_strlit("preset");
    let t = trim_by(r, Class::Dash);
    if t.len() > 0 {
        let off = r.len() - trim_start_by(r, Class::Dash).len();
        assert forall|i: int| 0 <= i < t.len() implies #[trigger] slug_char(t[i]) by {
            assert(t[i] == r[off + i]);
        }
    } else {
        assert(forall|i: int| 0 <= i < "preset"@.len() ==> #[trigger] slug_char("preset"@[i]));
    }
}

/// A file's stem, or `render` when the path names no file.
pub open spec fn stem_or_render(p: Seq<char>) -> Seq<char> {
    let n = file_name(p);
    if n.len() == 0 || n == seq!['.', '.'] {
        "render"@
    } else {
        file_stem(p)
    }
}

/// `name` put in the directory of `rel` (written with forward slashes), when it has one.
pub open spec fn beside(rel: Seq<char>, name: Seq<char>) -> Seq<char> {
    let d = parent(rel);
    if d.len() > 0 {
        forward_slashes(d) + seq!['/'] + name
    } else {
        name
    }
}

/// `rel` with `-suffix` added to its stem, before any extension.
pub open spec fn suffixed_name(rel: Seq<char>, suffix: Seq<char>) -> Seq<char> {
    let n = file_name(rel);
    let base = stem_or_render(rel) + seq!['-'] + suffix;
    let name = match split_name(n).1 {
        Some(ext) => base + seq!['.'] + ext,
        None => base,
    };
    beside(rel, name)
}

/// `rel` with its extension replaced (or added) by `ext`.
pub open spec fn with_ext(rel: Seq<char>, ext: Seq<char>) -> Seq<char> {
    beside(rel, stem_or_render(rel) + seq!['.'] + ext)
}

fn stem_or_render_exec(v: &Vec<char>) -> (r: Vec<char>)
    ensures
        r@ == stem_or_render(v@),
{
    let n = paths::file_name_of(v);
    if n.len() == 0 || (n.len() == 2 && n[0] == '.' && n[1] == '.') {
        proof {
            if n.len() == 2 && n@[0] == '.' && n@[1] == '.' {
                assert(n@ =~= seq!['.', '.']);
            }
        }
        text::chars_of("render")
    } else {
        proof {
            assert(n@ != seq!['.', '.']) by {
                if n@ == seq!['.', '.'] {
                    assert(n@.len() == 2 && n@[0] == '.' && n@[1] == '.');
                }
            }
        }
        paths::file_stem_of(v)
    }
}

fn beside_exec(v: &Vec<char>, name: &Vec<char>) -> (r: String)
    ensures
        r@ == beside(v@, name@),
{
    let d = paths::parent_of(v);
    if d.len() > 0 {
        let mut out = text::chars_of(rel_string(text::string_of(&d).as_str()).as_str());
        out.push('/');
        text::push_chars(&mut out, name);
        text::string_of(&out)
    } else {
        text::string_of(name)
    }
}

/// `rel` with `-suffix` added to the file's stem.
pub fn with_suffix(rel: &str, suffix: &str) -> (r: String)
    ensures
        r@ == suffixed_name(rel@, suffix@),
{
    let v = text::chars_of(rel);
    let n = paths::file_name_of(&v);
    let mut name = stem_or_render_exec(&v);
    name.push('-');
    text::push_str(&mut name, suffix);
    let parts = paths::split_name_of(&n);
    match parts.1 {
        Some(ext) => {
            name.push('.');
            text::push_chars(&mut name, &ext);
        },
        None => {},
    }
    beside_exec(&v, &name)
}

/// `rel` with the extension `ext` in place of its own.
pub fn with_extension(rel: &str, ext: &str) -> (r: String)
    ensures
        r@ == with_ext(rel@, ext@),
{
    let v = text::chars_of(rel);
    let mut name = stem_or_render_exec(&v);
    name.push('.');
    text::push_str(&mut name, ext);
    beside_exec(&v, &name)
}

/// The output names tried for `want` when printing with the preset called `name`, in order:
/// `want` itself, then `want` with the preset's slug, then with the slug and `-2` up to `-99`.
pub open spec fn candidate(want: Seq<char>, name: Seq<char>, i: int) -> Seq<char> {
    if i == 0 {
        want
    } else if i == 1 {
        suffixed_name(want, slug_of(name))
    } else {
        suffixed_name(want, slug_of(name) + seq!['-'] + text::decimal(i as nat))
    }
}

pub const CANDIDATES: usize = 100;

pub open spec fn strings(v: Seq<String>) -> Seq<Seq<char>> {
    v.map_values(|s: String| s@)
}

/// Why no output name was chosen.
#[derive(Clone, Debug, PartialEq, Eq)]
pub enum PrintError {
    /// Asking whether a name is free failed.
    Catalog(String),
    /// Every candidate name is taken.
    NoFreeName(String),
}

impl PrintError {
    pub open spec fn message_spec(self) -> Seq<char> {
        match self {
            PrintError::Catalog(e) => e@,
            PrintError::NoFreeName(w) => "no free output name for "@ + w@,
        }
    }

    pub fn message(&self) -> (r: String)
        ensures
            r@ == self.message_spec(),
    {
        match self {
            PrintError::Catalog(e) => e.clone(),
            PrintError::NoFreeName(w) => {
                let mut out: Vec<char> = Vec::new();
                text::push_str(&mut out, "no free output name for ");
                text::push_str(&mut out, w.as_str());
                text::string_of(&out)
            },
        }
    }
}

fn contains_string(v: &Vec<String>, s: &String) -> (r: bool)
    ensures
        r == strings(v@).contains(s@),
{
    let mut i: usize = 0;
    while i < v.len()
        invariant
            i <= v.len(),
            forall|j: int| 0 <= j < i ==> (#[trigger] v@[j])@ != s@,
        decreases v.len() - i,
    {
        if v[i] == *s {
            assert(strings(v@)[i as int] == s@);
            return true;
        }
        i = i + 1;
    }
    assert forall|j: int| 0 <= j < strings(v@).len() implies strings(v@)[j] != s@ by {
        assert(strings(v@)[j] == v@[j]@);
    }
    false
}

fn candidate_exec(want: &str, name: &str, i: usize) -> (r: String)
    requires
        i < CANDIDATES,
    ensures
        r@ == candidate(want@, name@, i as int),
{
    if i == 0 {
        want.to_string()
    } else if i == 1 {
        with_suffix(want, slug(name).as_str())
    } else {
        let mut sfx = text::chars_of(slug(name).as_str());
        sfx.push('-');
        text::push_chars(&mut sfx, &text::decimal_of(i as u64));
        with_suffix(want, text::string_of(&sfx).as_str())
    }
}

/// `c` is no name for this output: an earlier output of the run took it (it is in `taken`), or
/// `ours` can answer that it is not free.
pub open spec fn refused<F: Fn(&str) -> Result<bool, String>>(ours: F, taken: Seq<Seq<char>>, c: Seq<char>) -> bool {
    taken.contains(c) || exists|p: &str| p@ == c && #[trigger] call_ensures(ours, (p,), Ok::<bool, String>(false))
}

/// `ours` can answer that `c` is free.
pub open spec fn accepted<F: Fn(&str) -> Result<bool, String>>(ours: F, c: Seq<char>) -> bool {
    exists|p: &str| p@ == c && #[trigger] call_ensures(ours, (p,), Ok::<bool, String>(true))
}

/// `ours` can fail with the message `e` when asked about `c`.
pub open spec fn failed<F: Fn(&str) -> Result<bool, String>>(ours: F, c: Seq<char>, e: String) -> bool {
    exists|p: &str| p@ == c && #[trigger] call_ensures(ours, (p,), Err::<bool, String>(e))
}

/// What to do with a candidate name.
#[derive(Clone, Debug, PartialEq, Eq)]
pub enum Verdict {
    /// Use it.
    Take,
    /// Try the next candidate.
    Next,
    /// Stop: asking about it failed with this message.
    Fail(String),
}

/// The verdict on a candidate, from whether an earlier output of the run took it and, when it
/// did not, what asking whether it is free answered.
pub fn verdict(by_run: bool, answer: Option<Result<bool, String>>) -> (r: Verdict)
    ensures
        by_run ==> r == Verdict::Next,
        !by_run ==> r == match answer {
            Some(Ok(true)) => Verdict::Take,
            Some(Err(e)) => Verdict::Fail(e),
            _ => Verdict::Next,
        },
{
    if by_run {
        Verdict::Next
    } else {
        match answer {
            Some(Ok(true)) => Verdict::Take,
            Some(Err(e)) => Verdict::Fail(e),
            _ => Verdict::Next,
        }
    }
}

/// Choose the output name for `want`: the first candidate that no earlier output of this run
/// has taken and that `ours` accepts (`ours` answers whether a name is free for this asset and
/// preset: not yet rendered by another, and not a stranger's file). The name chosen is added
/// to `taken`. When `ours` fails on a candidate, its message is returned; when every candidate
/// is refused, `NoFreeName`.
pub fn choose_rel<F: Fn(&str) -> Result<bool, String>>(
    want: &str,
    preset_name: &str,
    taken: &mut Vec<String>,
    ours: &F,
) -> (r: Result<String, PrintError>)
    requires
        forall|p: &str| #[trigger] call_requires(*ours, (p,)),
    ensures
        match r {
            Ok(c) => {
                &&& strings(final(taken)@) == strings(old(taken)@).push(c@)
                &&& exists|i: int|
                    #![trigger candidate(want@, preset_name@, i)]
                    0 <= i < CANDIDATES && c@ == candidate(want@, preset_name@, i) && !strings(old(taken)@).contains(c@)
                        && accepted(*ours, c@) && forall|j: int|
                        0 <= j < i ==> #[trigger] refused(*ours, strings(old(taken)@), candidate(want@, preset_name@, j))
            },
            Err(PrintError::NoFreeName(w)) => {
                &&& w@ == want@
                &&& strings(final(taken)@) == strings(old(taken)@)
                &&& forall|j: int|
                    0 <= j < CANDIDATES ==> #[trigger] refused(*ours, strings(old(taken)@), candidate(want@, preset_name@, j))
            },
            Err(PrintError::Catalog(e)) => {
                &&& strings(final(taken)@) == strings(old(taken)@)
                &&& exists|i: int|
                    #![trigger candidate(want@, preset_name@, i)]
                    0 <= i < CANDIDATES && !strings(old(taken)@).contains(candidate(want@, preset_name@, i)) && failed(
                        *ours,
                        candidate(want@, preset_name@, i),
                        e,
                    ) && forall|j: int|
                        0 <= j < i ==> #[trigger] refused(*ours, strings(old(taken)@), candidate(want@, preset_name@, j))
            },
        },
{
    let mut i: usize = 0;
    while i < CANDIDATES
        invariant
            i <= CANDIDATES,
            forall|p: &str| #[trigger] call_requires(*ours, (p,)),
            *taken == *old(taken),
            forall|j: int| 0 <= j < i ==> #[trigger] refused(*ours, strings(old(taken)@), candidate(want@, preset_name@, j)),
        decreases CANDIDATES - i,
    {
        let c = candidate_exec(want, preset_name, i);
        let by_run = contains_string(taken, &c);
        let answer = if by_run {
            None
        } else {
            let cs = c.as_str();
            let a = ours(cs);
            proof {
                match &a {
                    Ok(true) => assert(accepted(*ours, c@)),
                    Ok(false) => assert(refused(*ours, strings(old(taken)@), c@)),
                    Err(e) => assert(failed(*ours, c@, *e)),
                }
            }
            Some(a)
        };
        match verdict(by_run, answer) {
            Verdict::Take => {
                let ghost before = taken@;
                taken.push(c.clone());
                assert(strings(taken@) =~= strings(before).push(c@));
                assert(candidate(want@, preset_name@, i as int) == c@);
                return Ok(c);
            },
            Verdict::Next => {
                assert(candidate(want@, preset_name@, i as int) == c@);
                assert(refused(*ours, strings(old(taken)@), c@));
            },
            Verdict::Fail(e) => {
                assert(candidate(want@, preset_name@, i as int) == c@);
                return Err(PrintError::Catalog(e));
            },
        }
        i = i + 1;
    }
    Err(PrintError::NoFreeName(want.to_string()))
}

} // verus!
