//! Token templates for destination paths.
//!
//! Syntax: `{token}` or `{token:arg}`; `{{` and `}}` are literal braces. Anything else is
//! copied verbatim. A template is a relative path; `/` separates directories.
//!
//! Tokens:
//! - `date[:strftime]`        capture time, default `%Y-%m-%d`
//! - `year`, `month`, `day`   capture time pieces, zero padded
//! - `time[:strftime]`        capture time, default `%H%M%S`
//! - `import_date[:strftime]` time of the import session, default `%Y-%m-%d`
//! - `camera`                 normalised camera model, e.g. `X-T5`
//! - `make`, `model`          raw EXIF strings
//! - `stem`, `ext[:lower]`    source file name pieces; `ext` has no leading dot
//! - `kind`                   `raw`, `image`, `video`, `sidecar`, `other`
//! - `volume`                 card label
//! - `rel_dir`                source directory relative to the card root, `.` at the root
//! - `seq[:width]`            1-based counter over the groups in an import, default width 4
//! - `iso`, `lens`            raw EXIF values; empty when unknown
//! - `preset`                 name of the film preset a render uses; empty outside renders

use crate::datetime::{self, DateTime};
use crate::text::{self, decimal, is_control, join, rejoin, str_lowercase, str_uppercase, trim, zero_pad, Class};
use vstd::prelude::*;

verus! {

/// One piece of a parsed template.
#[derive(Clone, PartialEq, Eq, Debug)]
pub enum Part {
    Literal(Vec<char>),
    Token { name: Vec<char>, arg: Option<Vec<char>> },
}

/// The mathematical value of a [`Part`].
pub enum PartView {
    Literal(Seq<char>),
    Token(Seq<char>, Option<Seq<char>>),
}

pub open spec fn opt_view(o: Option<Vec<char>>) -> Option<Seq<char>> {
    match o {
        Some(v) => Some(v@),
        None => None,
    }
}

impl View for Part {
    type V = PartView;

    open spec fn view(&self) -> PartView {
        match self {
            Part::Literal(s) => PartView::Literal(s@),
            Part::Token { name, arg } => PartView::Token(name@, opt_view(*arg)),
        }
    }
}

pub open spec fn parts_view(v: Seq<Part>) -> Seq<PartView> {
    v.map_values(|p: Part| p@)
}

/// A parsed template. Serialises as its source string.
#[derive(Clone, PartialEq, Eq, Debug)]
pub struct Template {
    source: String,
    parts: Vec<Part>,
}

pub struct TemplateView {
    pub source: Seq<char>,
    pub parts: Seq<PartView>,
}

impl View for Template {
    type V = TemplateView;

    closed spec fn view(&self) -> TemplateView {
        TemplateView { source: self.source@, parts: parts_view(self.parts@) }
    }
}

/// Why a template was refused, or could not be rendered.
#[derive(Clone, PartialEq, Eq, Debug)]
pub enum TemplateError {
    /// `{` at this byte offset has no closing `}`.
    Unclosed(usize),
    /// `}` at this byte offset closes nothing.
    StrayClose(usize),
    /// A token name that is not one of the known ones.
    UnknownToken(String),
    /// `{}` (or only whitespace inside) at this byte offset.
    EmptyToken(usize),
    /// The template renders to an empty path.
    EmptyResult,
    /// The template must be a relative path without `..` components.
    NotRelative,
    /// A date pattern (`{date:...}`, `{time:...}`, `{import_date:...}`) that `chrono` cannot
    /// format, or a date it cannot represent.
    BadDate,
}

pub enum ErrorView {
    Unclosed(int),
    StrayClose(int),
    UnknownToken(Seq<char>),
    EmptyToken(int),
    EmptyResult,
    NotRelative,
    BadDate,
}

impl View for TemplateError {
    type V = ErrorView;

    open spec fn view(&self) -> ErrorView {
        match self {
            TemplateError::Unclosed(p) => ErrorView::Unclosed(*p as int),
            TemplateError::StrayClose(p) => ErrorView::StrayClose(*p as int),
            TemplateError::UnknownToken(n) => ErrorView::UnknownToken(n@),
            TemplateError::EmptyToken(p) => ErrorView::EmptyToken(*p as int),
            TemplateError::EmptyResult => ErrorView::EmptyResult,
            TemplateError::NotRelative => ErrorView::NotRelative,
            TemplateError::BadDate => ErrorView::BadDate,
        }
    }
}

/// The token names, as the unknown-token message lists them.
pub const VALID_TOKENS: &'static str = "date, year, month, day, time, import_date, camera, make, model, stem, ext, kind, volume, rel_dir, seq, iso, lens, preset";

impl TemplateError {
    pub open spec fn message_spec(self) -> Seq<char> {
        match self {
            TemplateError::Unclosed(p) => "unclosed '{' at byte "@ + text::decimal(p as nat),
            TemplateError::StrayClose(p) => "unexpected '}' at byte "@ + text::decimal(p as nat),
            TemplateError::UnknownToken(n) => "unknown token '"@ + n@ + "' (valid: "@ + VALID_TOKENS@ + ")"@,
            TemplateError::EmptyToken(p) => "empty token at byte "@ + text::decimal(p as nat),
            TemplateError::EmptyResult => "template renders to an empty path"@,
            TemplateError::NotRelative => "template must be a relative path without '..' components"@,
            TemplateError::BadDate => "date pattern or date that cannot be formatted"@,
        }
    }

    /// The error's message.
    pub fn message(&self) -> (s: String)
        ensures
            s@ == self.message_spec(),
    {
        let mut out: Vec<char> = Vec::new();
        match self {
            TemplateError::Unclosed(p) => {
                text::push_str(&mut out, "unclosed '{' at byte ");
                text::push_chars(&mut out, &text::decimal_of(*p as u64));
            },
            TemplateError::StrayClose(p) => {
                text::push_str(&mut out, "unexpected '}' at byte ");
                text::push_chars(&mut out, &text::decimal_of(*p as u64));
            },
            TemplateError::UnknownToken(n) => {
                text::push_str(&mut out, "unknown token '");
                text::push_str(&mut out, n.as_str());
                text::push_str(&mut out, "' (valid: ");
                text::push_str(&mut out, VALID_TOKENS);
                text::push_str(&mut out, ")");
            },
            TemplateError::EmptyToken(p) => {
                text::push_str(&mut out, "empty token at byte ");
                text::push_chars(&mut out, &text::decimal_of(*p as u64));
            },
            TemplateError::EmptyResult => text::push_str(&mut out, "template renders to an empty path"),
            TemplateError::NotRelative => text::push_str(&mut out, "template must be a relative path without '..' components"),
            TemplateError::BadDate => text::push_str(&mut out, "date pattern or date that cannot be formatted"),
        }
        text::string_of(&out)
    }
}

/// The known token names.
pub open spec fn is_token_name(n: Seq<char>) -> bool {
    ||| n == "date"@
    ||| n == "year"@
    ||| n == "month"@
    ||| n == "day"@
    ||| n == "time"@
    ||| n == "import_date"@
    ||| n == "camera"@
    ||| n == "make"@
    ||| n == "model"@
    ||| n == "stem"@
    ||| n == "ext"@
    ||| n == "kind"@
    ||| n == "volume"@
    ||| n == "rel_dir"@
    ||| n == "seq"@
    ||| n == "iso"@
    ||| n == "lens"@
    ||| n == "preset"@
}

/// The position of the first `c` in `s` at or after `k`.
pub open spec fn find_from(s: Seq<char>, c: char, k: int) -> Option<int>
    decreases s.len() - k,
{
    if k < 0 || k >= s.len() {
        None
    } else if s[k] == c {
        Some(k)
    } else {
        find_from(s, c, k + 1)
    }
}

pub proof fn lemma_find_from(s: Seq<char>, c: char, k: int)
    ensures
        find_from(s, c, k) matches Some(j) ==> k <= j < s.len() && s[j] == c && forall|m: int|
            k <= m < j ==> s[m] != c,
        find_from(s, c, k) is None ==> forall|m: int| 0 <= k <= m < s.len() ==> s[m] != c,
    decreases s.len() - k,
{
    if k >= 0 && k < s.len() && s[k] != c {
        lemma_find_from(s, c, k + 1);
    }
}

/// The name and argument inside `{...}`: split at the first `:`, the name trimmed.
pub open spec fn token_of(inner: Seq<char>) -> (Seq<char>, Option<Seq<char>>) {
    match find_from(inner, ':', 0) {
        Some(k) => (trim(inner.take(k)), Some(inner.skip(k + 1))),
        None => (trim(inner), None),
    }
}

/// `parts` with the pending literal `lit` appended when it is not empty.
pub open spec fn flush(parts: Seq<PartView>, lit: Seq<char>) -> Seq<PartView> {
    if lit.len() > 0 {
        parts.push(PartView::Literal(lit))
    } else {
        parts
    }
}

/// The parts read from `s` starting at position `i`, given the literal text `lit` pending
/// and the parts `parts` read so far.
pub open spec fn scan(s: Seq<char>, i: int, lit: Seq<char>, parts: Seq<PartView>) -> Result<
    Seq<PartView>,
    ErrorView,
>
    decreases s.len() - i,
{
    if i < 0 || i >= s.len() {
        Ok(flush(parts, lit))
    } else if s[i] == '{' && i + 1 < s.len() && s[i + 1] == '{' {
        scan(s, i + 2, lit.push('{'), parts)
    } else if s[i] == '}' && i + 1 < s.len() && s[i + 1] == '}' {
        scan(s, i + 2, lit.push('}'), parts)
    } else if s[i] == '{' {
        match find_from(s, '}', i + 1) {
            None => Err(ErrorView::Unclosed(text::byte_pos(s, i) as int)),
            Some(j) => {
                let inner = s.subrange(i + 1, j);
                if trim(inner).len() == 0 {
                    Err(ErrorView::EmptyToken(text::byte_pos(s, i) as int))
                } else if !is_token_name(token_of(inner).0) {
                    Err(ErrorView::UnknownToken(token_of(inner).0))
                } else {
                    proof {
                        lemma_find_from(s, '}', i + 1);
                    }
                    scan(
                        s,
                        j + 1,
                        seq![],
                        flush(parts, lit).push(PartView::Token(token_of(inner).0, token_of(inner).1)),
                    )
                }
            },
        }
    } else if s[i] == '}' {
        Err(ErrorView::StrayClose(text::byte_pos(s, i) as int))
    } else {
        scan(s, i + 1, lit.push(s[i]), parts)
    }
}

/// Whether a `..` segment starts at position `i` of `s`.
pub open spec fn dotdot_at(s: Seq<char>, i: int) -> bool {
    0 <= i && i + 2 <= s.len() && s[i] == '.' && s[i + 1] == '.' && (i == 0 || s[i - 1] == '/') && (
    i + 2 == s.len() || s[i + 2] == '/')
}

/// Whether one of the `/`-separated segments of `s` is `..`.
pub open spec fn has_dotdot_segment(s: Seq<char>) -> bool {
    exists|i: int| #[trigger] dotdot_at(s, i)
}

/// A relative path: no leading `/` and no `..` segment.
pub open spec fn is_relative(s: Seq<char>) -> bool {
    !(s.len() > 0 && s[0] == '/') && !has_dotdot_segment(s)
}

/// What parsing `s` gives: its parts, or the first error met.
pub open spec fn parse_spec(s: Seq<char>) -> Result<Seq<PartView>, ErrorView> {
    match scan(s, 0, seq![], seq![]) {
        Err(e) => Err(e),
        Ok(p) => if is_relative(s) {
            Ok(p)
        } else {
            Err(ErrorView::NotRelative)
        },
    }
}

fn is_token_name_exec(n: &Vec<char>) -> (b: bool)
    ensures
        b == is_token_name(n@),
{
    text::eq_str(n, "date") || text::eq_str(n, "year") || text::eq_str(n, "month") || text::eq_str(
        n,
        "day",
    ) || text::eq_str(n, "time") || text::eq_str(n, "import_date") || text::eq_str(n, "camera")
        || text::eq_str(n, "make") || text::eq_str(n, "model") || text::eq_str(n, "stem")
        || text::eq_str(n, "ext") || text::eq_str(n, "kind") || text::eq_str(n, "volume")
        || text::eq_str(n, "rel_dir") || text::eq_str(n, "seq") || text::eq_str(n, "iso")
        || text::eq_str(n, "lens") || text::eq_str(n, "preset")
}

/// The position of the first `c` in `s` at or after `k`.
fn find_char_from(s: &Vec<char>, c: char, k: usize) -> (r: Option<usize>)
    ensures
        match r {
            Some(j) => find_from(s@, c, k as int) == Some(j as int),
            None => find_from(s@, c, k as int) is None,
        },
{
    let mut j = k;
    proof {
        lemma_find_from(s@, c, k as int);
    }
    while j < s.len()
        invariant
            k <= j,
            find_from(s@, c, k as int) == find_from(s@, c, j as int),
        decreases s.len() - j,
    {
        if s[j] == c {
            return Some(j);
        }
        j = j + 1;
    }
    None
}

fn token_of_exec(inner: &Vec<char>) -> (r: (Vec<char>, Option<Vec<char>>))
    ensures
        token_of(inner@) == (r.0@, opt_view(r.1)),
{
    match find_char_from(inner, ':', 0) {
        Some(k) => {
            proof {
                lemma_find_from(inner@, ':', 0);
            }
            assert(k < inner.len());
            let before = text::slice_chars(inner, 0, k);
            let name = text::trim_chars(&before);
            let arg = text::slice_chars(inner, k + 1, inner.len());
            assert(before@ == inner@.take(k as int));
            assert(arg@ == inner@.skip(k + 1));
            (name, Some(arg))
        },
        None => (text::trim_chars(inner), None),
    }
}

fn has_dotdot_segment_exec(s: &Vec<char>) -> (b: bool)
    ensures
        b == has_dotdot_segment(s@),
{
    let mut i: usize = 0;
    while s.len() >= 2 && i <= s.len() - 2
        invariant
            forall|m: int| 0 <= m < i ==> !#[trigger] dotdot_at(s@, m),
        decreases s.len() - i,
    {
        if s[i] == '.' && s[i + 1] == '.' && (i == 0 || s[i - 1] == '/') && (i + 2 == s.len()
            || s[i + 2] == '/') {
            assert(dotdot_at(s@, i as int));
            return true;
        }
        i = i + 1;
    }
    assert forall|m: int| !#[trigger] dotdot_at(s@, m) by {
        if 0 <= m && m < i {
        }
    }
    false
}

impl Template {
    /// The source text the template was parsed from.
    pub closed spec fn source_spec(&self) -> Seq<char> {
        self.source@
    }

    /// The parsed parts.
    pub closed spec fn parts_spec(&self) -> Seq<PartView> {
        parts_view(self.parts@)
    }

    /// Parse a template. Errors name the byte offset of the offending brace.
    pub fn parse(source: &str) -> (r: Result<Template, TemplateError>)
        ensures
            match r {
                Ok(t) => parse_spec(source@) == Ok::<Seq<PartView>, ErrorView>(t.parts_spec())
                    && t.source_spec() == source@,
                Err(e) => parse_spec(source@) == Err::<Seq<PartView>, ErrorView>(e@),
            },
    {
        let s = text::chars_of(source);
        let total = text::byte_len_of(source);
        let mut parts: Vec<Part> = Vec::new();
        let mut lit: Vec<char> = Vec::new();
        let mut i: usize = 0;
        assert(parts_view(parts@) =~= seq![]);
        while i < s.len()
            invariant
                i <= s.len(),
                s@ == source@,
                text::byte_len(s@) == total,
                scan(s@, 0, seq![], seq![]) == scan(s@, i as int, lit@, parts_view(parts@)),
            decreases s.len() - i,
        {
            let c = s[i];
            if c == '{' && i + 1 < s.len() && s[i + 1] == '{' {
                lit.push('{');
                i = i + 2;
            } else if c == '}' && i + 1 < s.len() && s[i + 1] == '}' {
                lit.push('}');
                i = i + 2;
            } else if c == '{' {
                let start = i;
                let j = match find_char_from(&s, '}', i + 1) {
                    Some(j) => j,
                    None => {
                        assert(scan(s@, i as int, lit@, parts_view(parts@)) == Err::<Seq<PartView>, ErrorView>(ErrorView::Unclosed(text::byte_pos(s@, i as int) as int)));
                        return Err(TemplateError::Unclosed(text::byte_pos_of(&s, start, total)));
                    },
                };
                proof {
                    lemma_find_from(s@, '}', i + 1);
                }
                let inner = text::slice_chars(&s, i + 1, j);
                let trimmed = text::trim_chars(&inner);
                if trimmed.len() == 0 {
                    assert(scan(s@, i as int, lit@, parts_view(parts@)) == Err::<Seq<PartView>, ErrorView>(ErrorView::EmptyToken(text::byte_pos(s@, i as int) as int)));
                    return Err(TemplateError::EmptyToken(text::byte_pos_of(&s, start, total)));
                }
                let (name, arg) = token_of_exec(&inner);
                if !is_token_name_exec(&name) {
                    return Err(TemplateError::UnknownToken(text::string_of(&name)));
                }
                let ghost old_parts = parts_view(parts@);
                let ghost old_lit = lit@;
                if lit.len() > 0 {
                    parts.push(Part::Literal(lit));
                    lit = Vec::new();
                }
                let tok = Part::Token { name, arg };
                parts.push(tok);
                proof {
                    assert(parts_view(parts@) =~= flush(old_parts, old_lit).push(
                        PartView::Token(token_of(inner@).0, token_of(inner@).1),
                    ));
                    assert(lit@ =~= seq![]);
                }
                i = j + 1;
            } else if c == '}' {
                return Err(TemplateError::StrayClose(text::byte_pos_of(&s, i, total)));
            } else {
                lit.push(c);
                i = i + 1;
            }
        }
        let ghost pv = parts_view(parts@);
        if lit.len() > 0 {
            parts.push(Part::Literal(lit));
        }
        proof {
            assert(parts_view(parts@) =~= flush(pv, lit@));
        }
        let t = Template { source: text::string_of(&s), parts };
        match t.check_relative() {
            Ok(()) => Ok(t),
            Err(e) => Err(e),
        }
    }

    /// A template must be a relative path: no leading `/` and no `..` segment.
    pub fn check_relative(&self) -> (r: Result<(), TemplateError>)
        ensures
            r is Ok <==> is_relative(self.source_spec()),
            r is Err ==> r == Err::<(), TemplateError>(TemplateError::NotRelative),
    {
        let s = text::chars_of(self.source.as_str());
        if s.len() > 0 && s[0] == '/' {
            return Err(TemplateError::NotRelative);
        }
        if has_dotdot_segment_exec(&s) {
            return Err(TemplateError::NotRelative);
        }
        Ok(())
    }

    /// The template's source text.
    pub fn source(&self) -> (r: String)
        ensures
            r@ == self.source_spec(),
    {
        self.source.clone()
    }
}


/// Directory segments under construction: text so far, and whether a token contributed.
pub open spec fn add_text(segs: Seq<(Seq<char>, bool)>, t: Seq<char>) -> Seq<(Seq<char>, bool)>
    decreases t.len(),
{
    if t.len() == 0 {
        segs
    } else {
        let r = add_text(segs, t.drop_last());
        let c = t.last();
        if c == '/' {
            r.push((seq![], false))
        } else {
            r.update(r.len() - 1, (r.last().0.push(c), r.last().1))
        }
    }
}

/// The segments a sequence of parts writes: literal text extends the current segment and a
/// `/` starts the next one; a token marks the current segment as produced by a token.
pub open spec fn segs_of(parts: Seq<PartView>) -> Seq<(Seq<char>, bool)>
    decreases parts.len(),
{
    if parts.len() == 0 {
        seq![(seq![], false)]
    } else {
        let r = segs_of(parts.drop_last());
        match parts.last() {
            PartView::Literal(t) => add_text(r, t),
            PartView::Token(_, _) => r.update(r.len() - 1, (r.last().0, true)),
        }
    }
}

/// `Some(name)` for a directory segment written out literally, `None` for one a token
/// contributes to; the file name (the last segment) is not included.
pub open spec fn dir_segments_spec(parts: Seq<PartView>) -> Seq<Option<Seq<char>>> {
    segs_of(parts).drop_last().map_values(
        |x: (Seq<char>, bool)|
            if x.1 {
                None
            } else {
                Some(x.0)
            },
    )
}

/// Names of the tokens in `parts`, in order of first appearance.
pub open spec fn token_names(parts: Seq<PartView>) -> Seq<Seq<char>>
    decreases parts.len(),
{
    if parts.len() == 0 {
        seq![]
    } else {
        let r = token_names(parts.drop_last());
        match parts.last() {
            PartView::Token(n, _) => if r.contains(n) {
                r
            } else {
                r.push(n)
            },
            PartView::Literal(_) => r,
        }
    }
}

/// Every token among `parts` has a known name.
pub open spec fn tokens_known(parts: Seq<PartView>) -> bool {
    forall|k: int| 0 <= k < parts.len() ==> (#[trigger] parts[k] matches PartView::Token(n, _)
        ==> is_token_name(n))
}

proof fn lemma_flush_known(parts: Seq<PartView>, lit: Seq<char>)
    requires
        tokens_known(parts),
    ensures
        tokens_known(flush(parts, lit)),
{
    if lit.len() > 0 {
        assert forall|k: int| 0 <= k < flush(parts, lit).len() implies (#[trigger] flush(parts, lit)[k] matches PartView::Token(n, _)
            ==> is_token_name(n)) by {
            if k < parts.len() {
                assert(flush(parts, lit)[k] == parts[k]);
            }
        }
    }
}

proof fn lemma_scan_known(s: Seq<char>, i: int, lit: Seq<char>, parts: Seq<PartView>)
    requires
        tokens_known(parts),
    ensures
        scan(s, i, lit, parts) matches Ok(p) ==> tokens_known(p),
    decreases s.len() - i,
{
    lemma_flush_known(parts, lit);
    if i < 0 || i >= s.len() {
    } else if s[i] == '{' && i + 1 < s.len() && s[i + 1] == '{' {
        lemma_scan_known(s, i + 2, lit.push('{'), parts);
    } else if s[i] == '}' && i + 1 < s.len() && s[i + 1] == '}' {
        lemma_scan_known(s, i + 2, lit.push('}'), parts);
    } else if s[i] == '{' {
        match find_from(s, '}', i + 1) {
            None => {},
            Some(j) => {
                lemma_find_from(s, '}', i + 1);
                let inner = s.subrange(i + 1, j);
                if trim(inner).len() != 0 && is_token_name(token_of(inner).0) {
                    let f = flush(parts, lit);
                    let np = f.push(PartView::Token(token_of(inner).0, token_of(inner).1));
                    assert forall|k: int| 0 <= k < np.len() implies (#[trigger] np[k] matches PartView::Token(n, _)
                        ==> is_token_name(n)) by {
                        if k < f.len() {
                            assert(np[k] == f[k]);
                        }
                    }
                    lemma_scan_known(s, j + 1, seq![], np);
                }
            },
        }
    } else if s[i] == '}' {
    } else {
        lemma_scan_known(s, i + 1, lit.push(s[i]), parts);
    }
}

proof fn lemma_token_names_from(parts: Seq<PartView>)
    ensures
        token_names(parts).no_duplicates(),
        forall|j: int| 0 <= j < token_names(parts).len() ==> exists|k: int| 0 <= k < parts.len()
            && (#[trigger] parts[k] matches PartView::Token(n, _) && n == #[trigger] token_names(parts)[j]),
    decreases parts.len(),
{
    if parts.len() > 0 {
        let q = parts.drop_last();
        lemma_token_names_from(q);
        let r = token_names(q);
        assert forall|j: int| 0 <= j < token_names(parts).len() implies exists|k: int| 0 <= k < parts.len()
            && (#[trigger] parts[k] matches PartView::Token(n, _) && n == #[trigger] token_names(parts)[j]) by {
            if j < r.len() {
                let k = choose|k: int| 0 <= k < q.len() && (#[trigger] q[k] matches PartView::Token(n, _) && n == r[j]);
                assert(parts[k] == q[k]);
            } else {
                assert(parts[parts.len() - 1] == parts.last());
            }
        }
    }
}

/// Every name that a parsed template's `tokens()` lists is one of the known token names, and
/// none is listed twice.
pub proof fn law_tokens_known(s: Seq<char>)
    ensures
        parse_spec(s) matches Ok(p) ==> token_names(p).no_duplicates() && forall|j: int|
            0 <= j < token_names(p).len() ==> is_token_name(#[trigger] token_names(p)[j]),
{
    assert(tokens_known(seq![]));
    lemma_scan_known(s, 0, seq![], seq![]);
    if let Ok(p) = parse_spec(s) {
        lemma_token_names_from(p);
        assert forall|j: int| 0 <= j < token_names(p).len() implies is_token_name(#[trigger] token_names(p)[j]) by {
            let k = choose|k: int| 0 <= k < p.len() && (#[trigger] p[k] matches PartView::Token(n, _) && n == token_names(p)[j]);
        }
    }
}

pub proof fn lemma_add_text_len(segs: Seq<(Seq<char>, bool)>, t: Seq<char>)
    requires
        segs.len() > 0,
    ensures
        add_text(segs, t).len() >= segs.len(),
    decreases t.len(),
{
    if t.len() > 0 {
        lemma_add_text_len(segs, t.drop_last());
    }
}

pub proof fn lemma_segs_nonempty(parts: Seq<PartView>)
    ensures
        segs_of(parts).len() > 0,
    decreases parts.len(),
{
    if parts.len() > 0 {
        lemma_segs_nonempty(parts.drop_last());
        match parts.last() {
            PartView::Literal(t) => lemma_add_text_len(segs_of(parts.drop_last()), t),
            PartView::Token(_, _) => {},
        }
    }
}

pub open spec fn segs_view(v: Seq<(Vec<char>, bool)>) -> Seq<(Seq<char>, bool)> {
    v.map_values(|x: (Vec<char>, bool)| (x.0@, x.1))
}

pub open spec fn opt_strings_view(v: Seq<Option<String>>) -> Seq<Option<Seq<char>>> {
    v.map_values(
        |x: Option<String>|
            match x {
                Some(s) => Some(s@),
                None => None,
            },
    )
}

pub open spec fn strings_view(v: Seq<String>) -> Seq<Seq<char>> {
    v.map_values(|x: String| x@)
}

fn add_text_exec(segs: &mut Vec<(Vec<char>, bool)>, t: &Vec<char>)
    requires
        old(segs).len() > 0,
    ensures
        segs_view(final(segs)@) == add_text(segs_view(old(segs)@), t@),
        final(segs).len() > 0,
{
    let ghost start = segs_view(segs@);
    let mut k: usize = 0;
    while k < t.len()
        invariant
            k <= t.len(),
            segs.len() > 0,
            segs_view(segs@) == add_text(start, t@.take(k as int)),
        decreases t.len() - k,
    {
        let c = t[k];
        let ghost before = segs_view(segs@);
        proof {
            assert(t@.take(k + 1).drop_last() =~= t@.take(k as int));
        }
        if c == '/' {
            segs.push((Vec::new(), false));
            assert(segs_view(segs@) =~= before.push((seq![], false)));
        } else {
            let (mut text, dynamic) = segs.pop().unwrap();
            text.push(c);
            segs.push((text, dynamic));
            assert(segs_view(segs@) =~= before.update(
                before.len() - 1,
                (before.last().0.push(c), before.last().1),
            ));
        }
        k = k + 1;
    }
    assert(t@.take(t.len() as int) =~= t@);
}

impl Template {
    /// The directory segments this template produces: `Some(name)` for a segment written out
    /// literally, `None` for one any token contributes to. The segments are those of the template
    /// text itself; a token value that holds `/` (sanitising keeps it) adds levels below such a
    /// segment when rendered. The file name is not included.
    pub fn dir_segments(&self) -> (r: Vec<Option<String>>)
        ensures
            opt_strings_view(r@) == dir_segments_spec(self.parts_spec()),
    {
        let mut segs: Vec<(Vec<char>, bool)> = Vec::new();
        segs.push((Vec::new(), false));
        let mut k: usize = 0;
        assert(segs_view(segs@) =~= segs_of(parts_view(self.parts@).take(0)));
        while k < self.parts.len()
            invariant
                k <= self.parts.len(),
                segs.len() > 0,
                segs_view(segs@) == segs_of(parts_view(self.parts@).take(k as int)),
            decreases self.parts.len() - k,
        {
            let ghost before = segs_view(segs@);
            proof {
                assert(parts_view(self.parts@).take(k + 1).drop_last() =~= parts_view(self.parts@).take(
                    k as int,
                ));
                assert(parts_view(self.parts@).take(k + 1).last() == self.parts@[k as int]@);
            }
            match &self.parts[k] {
                Part::Literal(t) => {
                    add_text_exec(&mut segs, t);
                },
                Part::Token { .. } => {
                    let (text, _) = segs.pop().unwrap();
                    segs.push((text, true));
                    assert(segs_view(segs@) =~= before.update(before.len() - 1, (before.last().0, true)));
                },
            }
            k = k + 1;
        }
        assert(parts_view(self.parts@).take(self.parts.len() as int) =~= parts_view(self.parts@));
        segs.pop();
        let ghost full = segs_view(segs@);
        let mut out: Vec<Option<String>> = Vec::new();
        let mut j: usize = 0;
        while j < segs.len()
            invariant
                j <= segs.len(),
                full == segs_view(segs@),
                opt_strings_view(out@) == dir_segments_spec(self.parts_spec()).take(j as int),
                dir_segments_spec(self.parts_spec()) == full.map_values(
                    |x: (Seq<char>, bool)|
                        if x.1 {
                            None
                        } else {
                            Some(x.0)
                        },
                ),
            decreases segs.len() - j,
        {
            assert(full[j as int] == (segs@[j as int].0@, segs@[j as int].1));
            let item = if segs[j].1 {
                None
            } else {
                Some(text::string_of(&segs[j].0))
            };
            let ghost prev = out@;
            let ghost iv: Option<Seq<char>> = match &item {
                Some(x) => Some(x@),
                None => None,
            };
            assert(iv == dir_segments_spec(self.parts_spec())[j as int]);
            out.push(item);
            assert(opt_strings_view(out@) =~= opt_strings_view(prev).push(iv));
            j = j + 1;
            assert(opt_strings_view(out@) =~= dir_segments_spec(self.parts_spec()).take(j as int));
        }
        assert(dir_segments_spec(self.parts_spec()).take(segs.len() as int) =~= dir_segments_spec(
            self.parts_spec(),
        ));
        out
    }

    /// Names of the tokens used, in order of first appearance.
    pub fn tokens(&self) -> (r: Vec<String>)
        ensures
            strings_view(r@) == token_names(self.parts_spec()),
    {
        let mut out: Vec<String> = Vec::new();
        let mut k: usize = 0;
        assert(strings_view(out@) =~= token_names(parts_view(self.parts@).take(0)));
        while k < self.parts.len()
            invariant
                k <= self.parts.len(),
                strings_view(out@) == token_names(parts_view(self.parts@).take(k as int)),
            decreases self.parts.len() - k,
        {
            proof {
                assert(parts_view(self.parts@).take(k + 1).drop_last() =~= parts_view(self.parts@).take(
                    k as int,
                ));
                assert(parts_view(self.parts@).take(k + 1).last() == self.parts@[k as int]@);
            }
            match &self.parts[k] {
                Part::Literal(_) => {},
                Part::Token { name, .. } => {
                    let ghost before = strings_view(out@);
                    let mut found = false;
                    let mut m: usize = 0;
                    while m < out.len()
                        invariant
                            m <= out.len(),
                            before == strings_view(out@),
                            found == exists|q: int| 0 <= q < m && before[q] == name@,
                        decreases out.len() - m,
                    {
                        let v = text::chars_of(out[m].as_str());
                        assert(before[m as int] == out@[m as int]@);
                        if text::eq_chars(&v, name) {
                            found = true;
                        }
                        m = m + 1;
                    }
                    proof {
                        if found {
                            let q = choose|q: int| 0 <= q < out.len() && before[q] == name@;
                            assert(before.contains(name@));
                        } else {
                            assert(!before.contains(name@));
                        }
                    }
                    if !found {
                        out.push(text::string_of(name));
                        assert(strings_view(out@) =~= before.push(name@));
                    }
                },
            }
            k = k + 1;
        }
        assert(parts_view(self.parts@).take(self.parts.len() as int) =~= parts_view(self.parts@));
        out
    }
}

/// Values available to a template.
#[derive(Clone, Debug)]
pub struct Context {
    pub captured: Option<DateTime>,
    pub imported: DateTime,
    pub camera: Option<String>,
    pub make: Option<String>,
    pub model: Option<String>,
    pub stem: String,
    pub ext: String,
    pub kind: String,
    pub volume: String,
    pub rel_dir: String,
    pub seq: u32,
    pub iso: Option<u32>,
    pub lens: Option<String>,
    /// Film preset name, for render templates.
    pub preset: Option<String>,
}

pub open spec fn opt_str(o: Option<String>) -> Option<Seq<char>> {
    match o {
        Some(s) => Some(s@),
        None => None,
    }
}

/// The values of a [`Context`], as character sequences.
pub struct ContextView {
    pub captured: Option<DateTime>,
    pub imported: DateTime,
    pub camera: Option<Seq<char>>,
    pub make: Option<Seq<char>>,
    pub model: Option<Seq<char>>,
    pub stem: Seq<char>,
    pub ext: Seq<char>,
    pub kind: Seq<char>,
    pub volume: Seq<char>,
    pub rel_dir: Seq<char>,
    pub seq: u32,
    pub iso: Option<u32>,
    pub lens: Option<Seq<char>>,
    pub preset: Option<Seq<char>>,
}

impl View for Context {
    type V = ContextView;

    open spec fn view(&self) -> ContextView {
        ContextView {
            captured: self.captured,
            imported: self.imported,
            camera: opt_str(self.camera),
            make: opt_str(self.make),
            model: opt_str(self.model),
            stem: self.stem@,
            ext: self.ext@,
            kind: self.kind@,
            volume: self.volume@,
            rel_dir: self.rel_dir@,
            seq: self.seq,
            iso: self.iso,
            lens: opt_str(self.lens),
            preset: opt_str(self.preset),
        }
    }
}

pub open spec fn or_else(o: Option<Seq<char>>, d: Seq<char>) -> Seq<char> {
    match o {
        Some(s) => s,
        None => d,
    }
}

/// The capture time under `fmt`, or `fallback` when there is none.
pub open spec fn date_or(t: Option<DateTime>, fmt: Seq<char>, fallback: Seq<char>) -> Option<Seq<char>> {
    match t {
        Some(d) => d.formatted(fmt),
        None => Some(fallback),
    }
}

/// The zero-padding width `{seq:width}` asks for: the argument as a number, else 4.
pub open spec fn seq_width(arg: Option<Seq<char>>) -> nat {
    match arg {
        Some(a) => match text::parse_usize_spec(a) {
            Some(w) => w as nat,
            None => 4,
        },
        None => 4,
    }
}

/// The value of one token, before sanitising; `None` when a date cannot be formatted.
pub open spec fn token_value(name: Seq<char>, arg: Option<Seq<char>>, ctx: ContextView) -> Option<Seq<char>> {
    if name == "date"@ {
        date_or(ctx.captured, or_else(arg, "%Y-%m-%d"@), "undated"@)
    } else if name == "year"@ {
        date_or(ctx.captured, "%Y"@, "undated"@)
    } else if name == "month"@ {
        date_or(ctx.captured, "%m"@, "00"@)
    } else if name == "day"@ {
        date_or(ctx.captured, "%d"@, "00"@)
    } else if name == "time"@ {
        date_or(ctx.captured, or_else(arg, "%H%M%S"@), "000000"@)
    } else if name == "import_date"@ {
        ctx.imported.formatted(or_else(arg, "%Y-%m-%d"@))
    } else if name == "camera"@ {
        Some(or_else(ctx.camera, "unknown-camera"@))
    } else if name == "make"@ {
        Some(or_else(ctx.make, seq![]))
    } else if name == "model"@ {
        Some(or_else(ctx.model, seq![]))
    } else if name == "stem"@ {
        Some(ctx.stem)
    } else if name == "ext"@ {
        if arg == Some("lower"@) {
            Some(str_lowercase(ctx.ext))
        } else if arg == Some("upper"@) {
            Some(str_uppercase(ctx.ext))
        } else {
            Some(ctx.ext)
        }
    } else if name == "kind"@ {
        Some(ctx.kind)
    } else if name == "volume"@ {
        Some(ctx.volume)
    } else if name == "rel_dir"@ {
        Some(ctx.rel_dir)
    } else if name == "seq"@ {
        Some(zero_pad(decimal(ctx.seq as nat), seq_width(arg)))
    } else if name == "iso"@ {
        Some(
            match ctx.iso {
                Some(v) => decimal(v as nat),
                None => seq![],
            },
        )
    } else if name == "lens"@ {
        Some(or_else(ctx.lens, seq![]))
    } else if name == "preset"@ {
        Some(or_else(ctx.preset, seq![]))
    } else {
        Some(seq![])
    }
}

/// Characters that cannot stand in a path component on common file systems.
pub open spec fn bad_char(c: char) -> bool {
    ||| c == '\\'
    ||| c == ':'
    ||| c == '*'
    ||| c == '?'
    ||| c == '"'
    ||| c == '<'
    ||| c == '>'
    ||| c == '|'
    ||| c == '\0'
    ||| is_control(c)
}

pub open spec fn clean_char(c: char) -> char {
    if bad_char(c) {
        '-'
    } else {
        c
    }
}

/// One segment of a token value made safe: bad characters become `-`, whitespace at either
/// end goes, and `.` or `..` becomes `_`.
pub open spec fn clean_segment(seg: Seq<char>) -> Seq<char> {
    let t = trim(seg.map_values(|c: char| clean_char(c)));
    if t == "."@ || t == ".."@ {
        "_"@
    } else {
        t
    }
}

/// All the `/`-separated pieces of `s`, empty ones included (`str::split('/')`).
pub open spec fn split_slash(s: Seq<char>) -> Seq<Seq<char>>
    decreases s.len(),
{
    if s.len() == 0 {
        seq![seq![]]
    } else {
        let w = split_slash(s.drop_last());
        if s.last() == '/' {
            w.push(seq![])
        } else {
            w.update(w.len() - 1, w.last().push(s.last()))
        }
    }
}

pub proof fn lemma_split_slash_nonempty(s: Seq<char>)
    ensures
        split_slash(s).len() > 0,
    decreases s.len(),
{
    if s.len() > 0 {
        lemma_split_slash_nonempty(s.drop_last());
    }
}

/// A token value made safe as a path: each `/`-separated segment cleaned. `rel_dir` is the
/// one value that may legitimately contain `/`, so values are cleaned per segment.
pub open spec fn sanitise_spec(v: Seq<char>) -> Seq<char> {
    join(split_slash(v).map_values(|seg: Seq<char>| clean_segment(seg)), seq!['/'])
}

/// The text a sequence of parts writes for `ctx`, before empty segments are collapsed;
/// `None` when a date cannot be formatted.
pub open spec fn render_raw(parts: Seq<PartView>, ctx: ContextView) -> Option<Seq<char>>
    decreases parts.len(),
{
    if parts.len() == 0 {
        Some(seq![])
    } else {
        match render_raw(parts.drop_last(), ctx) {
            None => None,
            Some(r) => match parts.last() {
                PartView::Literal(t) => Some(r + t),
                PartView::Token(n, a) => match token_value(n, a, ctx) {
                    None => None,
                    Some(v) => Some(r + sanitise_spec(v)),
                },
            },
        }
    }
}

/// The rendered relative path: the written text with empty segments dropped.
pub open spec fn render_spec(parts: Seq<PartView>, ctx: ContextView) -> Result<Seq<char>, ErrorView> {
    match render_raw(parts, ctx) {
        None => Err(ErrorView::BadDate),
        Some(out) => {
            let cleaned = rejoin(out, Class::Slash, '/');
            if cleaned.len() == 0 {
                Err(ErrorView::EmptyResult)
            } else {
                Ok(cleaned)
            }
        },
    }
}

fn bad_char_exec(c: char) -> (b: bool)
    ensures
        b == bad_char(c),
{
    c == '\\' || c == ':' || c == '*' || c == '?' || c == '"' || c == '<' || c == '>' || c == '|'
        || c == '\0' || text::char_is_control(c)
}

fn clean_segment_exec(seg: &Vec<char>) -> (r: Vec<char>)
    ensures
        r@ == clean_segment(seg@),
{
    let mut m: Vec<char> = Vec::new();
    let mut i: usize = 0;
    while i < seg.len()
        invariant
            i <= seg.len(),
            m@ == seg@.take(i as int).map_values(|c: char| clean_char(c)),
        decreases seg.len() - i,
    {
        let c = seg[i];
        if bad_char_exec(c) {
            m.push('-');
        } else {
            m.push(c);
        }
        i = i + 1;
        assert(m@ =~= seg@.take(i as int).map_values(|c: char| clean_char(c)));
    }
    assert(seg@.take(seg.len() as int) =~= seg@);
    let t = text::trim_chars(&m);
    if text::eq_str(&t, ".") || text::eq_str(&t, "..") {
        text::chars_of("_")
    } else {
        t
    }
}

/// Make a token value safe as a path: no bad characters, no `.`/`..` segments.
pub fn sanitise(v: &Vec<char>) -> (r: Vec<char>)
    ensures
        r@ == sanitise_spec(v@),
{
    let mut out: Vec<char> = Vec::new();
    let mut cur: Vec<char> = Vec::new();
    let ghost mut done: Seq<Seq<char>> = seq![];
    let mut first = true;
    let mut i: usize = 0;
    while i < v.len()
        invariant
            i <= v.len(),
            split_slash(v@.take(i as int)) == done.push(cur@),
            out@ == join(done.map_values(|seg: Seq<char>| clean_segment(seg)), seq!['/']),
            first == (done.len() == 0),
        decreases v.len() - i,
    {
        let c = v[i];
        proof {
            assert(v@.take(i + 1).drop_last() =~= v@.take(i as int));
            assert(v@.take(i + 1).last() == c);
        }
        if c == '/' {
            let seg = clean_segment_exec(&cur);
            proof {
                let f = |seg: Seq<char>| clean_segment(seg);
                assert(done.push(cur@).map_values(f) =~= done.map_values(f).push(f(cur@)));
                text::lemma_join_push(done.map_values(f), f(cur@), seq!['/']);
            }
            if !first {
                out.push('/');
            }
            text::push_chars(&mut out, &seg);
            proof {
                let f = |seg: Seq<char>| clean_segment(seg);
                if done.len() == 0 {
                    assert(out@ =~= seg@);
                } else {
                    assert(out@ =~= join(done.map_values(f), seq!['/']) + seq!['/'] + seg@);
                }
                done = done.push(cur@);
            }
            first = false;
            cur = Vec::new();
            assert(split_slash(v@.take(i + 1)) =~= done.push(cur@));
        } else {
            let ghost old_cur = cur@;
            cur.push(c);
            assert(split_slash(v@.take(i + 1)) =~= done.push(cur@));
        }
        i = i + 1;
    }
    assert(v@.take(v.len() as int) =~= v@);
    let seg = clean_segment_exec(&cur);
    proof {
        let f = |seg: Seq<char>| clean_segment(seg);
        assert(done.push(cur@).map_values(f) =~= done.map_values(f).push(f(cur@)));
        text::lemma_join_push(done.map_values(f), f(cur@), seq!['/']);
    }
    if !first {
        out.push('/');
    }
    text::push_chars(&mut out, &seg);
    proof {
        let f = |seg: Seq<char>| clean_segment(seg);
        if done.len() == 0 {
            assert(out@ =~= seg@);
        } else {
            assert(out@ =~= join(done.map_values(f), seq!['/']) + seq!['/'] + seg@);
        }
    }
    out
}

fn opt_chars(o: &Option<String>) -> (r: Option<Vec<char>>)
    ensures
        opt_view(r) == opt_str(*o),
{
    match o {
        Some(s) => Some(text::chars_of(s.as_str())),
        None => None,
    }
}

fn or_else_chars(o: &Option<String>, d: &str) -> (r: Vec<char>)
    ensures
        r@ == or_else(opt_str(*o), d@),
{
    match o {
        Some(s) => text::chars_of(s.as_str()),
        None => text::chars_of(d),
    }
}

fn or_empty_chars(o: &Option<String>) -> (r: Vec<char>)
    ensures
        r@ == or_else(opt_str(*o), seq![]),
{
    match o {
        Some(s) => text::chars_of(s.as_str()),
        None => Vec::new(),
    }
}

fn date_or_exec(t: &Option<DateTime>, fmt: &str, fallback: &str) -> (r: Option<Vec<char>>)
    ensures
        opt_view(r) == date_or(*t, fmt@, fallback@),
{
    match t {
        Some(d) => datetime::format(d, fmt),
        None => Some(text::chars_of(fallback)),
    }
}

fn arg_or(arg: &Option<Vec<char>>, d: &str) -> (r: String)
    ensures
        r@ == or_else(opt_view(*arg), d@),
{
    match arg {
        Some(a) => text::string_of(a),
        None => text::string_of(&text::chars_of(d)),
    }
}

/// The value of one token, before sanitising; `None` when a date cannot be formatted.
fn render_token(name: &Vec<char>, arg: &Option<Vec<char>>, ctx: &Context) -> (r: Option<Vec<char>>)
    ensures
        opt_view(r) == token_value(name@, opt_view(*arg), ctx@),
{
    if text::eq_str(name, "date") {
        let f = arg_or(arg, "%Y-%m-%d");
        date_or_exec(&ctx.captured, f.as_str(), "undated")
    } else if text::eq_str(name, "year") {
        date_or_exec(&ctx.captured, "%Y", "undated")
    } else if text::eq_str(name, "month") {
        date_or_exec(&ctx.captured, "%m", "00")
    } else if text::eq_str(name, "day") {
        date_or_exec(&ctx.captured, "%d", "00")
    } else if text::eq_str(name, "time") {
        let f = arg_or(arg, "%H%M%S");
        date_or_exec(&ctx.captured, f.as_str(), "000000")
    } else if text::eq_str(name, "import_date") {
        let f = arg_or(arg, "%Y-%m-%d");
        datetime::format(&ctx.imported, f.as_str())
    } else if text::eq_str(name, "camera") {
        Some(or_else_chars(&ctx.camera, "unknown-camera"))
    } else if text::eq_str(name, "make") {
        Some(or_empty_chars(&ctx.make))
    } else if text::eq_str(name, "model") {
        Some(or_empty_chars(&ctx.model))
    } else if text::eq_str(name, "stem") {
        Some(text::chars_of(ctx.stem.as_str()))
    } else if text::eq_str(name, "ext") {
        let is_lower = match arg {
            Some(a) => text::eq_str(a, "lower"),
            None => false,
        };
        let is_upper = match arg {
            Some(a) => text::eq_str(a, "upper"),
            None => false,
        };
        if is_lower {
            let l = text::to_lowercase(ctx.ext.as_str());
            Some(text::chars_of(l.as_str()))
        } else if is_upper {
            let u = text::to_uppercase(ctx.ext.as_str());
            Some(text::chars_of(u.as_str()))
        } else {
            Some(text::chars_of(ctx.ext.as_str()))
        }
    } else if text::eq_str(name, "kind") {
        Some(text::chars_of(ctx.kind.as_str()))
    } else if text::eq_str(name, "volume") {
        Some(text::chars_of(ctx.volume.as_str()))
    } else if text::eq_str(name, "rel_dir") {
        Some(text::chars_of(ctx.rel_dir.as_str()))
    } else if text::eq_str(name, "seq") {
        let width: usize = match arg {
            Some(a) => match text::parse_usize(a) {
                Some(w) => w,
                None => 4,
            },
            None => 4,
        };
        let digits = text::decimal_of(ctx.seq as u64);
        Some(text::zero_pad_chars(&digits, width))
    } else if text::eq_str(name, "iso") {
        match ctx.iso {
            Some(v) => Some(text::decimal_of(v as u64)),
            None => Some(Vec::new()),
        }
    } else if text::eq_str(name, "lens") {
        Some(or_empty_chars(&ctx.lens))
    } else if text::eq_str(name, "preset") {
        Some(or_empty_chars(&ctx.preset))
    } else {
        Some(Vec::new())
    }
}

impl Template {
    /// Render to a relative path string. Each rendered token value is sanitised so it cannot
    /// introduce path separators; literals are trusted as written. Empty segments collapse.
    pub fn render(&self, ctx: &Context) -> (r: Result<String, TemplateError>)
        ensures
            match r {
                Ok(s) => render_spec(self.parts_spec(), ctx@) == Ok::<Seq<char>, ErrorView>(s@),
                Err(e) => render_spec(self.parts_spec(), ctx@) == Err::<Seq<char>, ErrorView>(e@),
            },
    {
        let mut out: Vec<char> = Vec::new();
        let mut k: usize = 0;
        assert(parts_view(self.parts@).take(0) =~= seq![]);
        while k < self.parts.len()
            invariant
                k <= self.parts.len(),
                render_raw(parts_view(self.parts@).take(k as int), ctx@) == Some(out@),
            decreases self.parts.len() - k,
        {
            proof {
                assert(parts_view(self.parts@).take(k + 1).drop_last() =~= parts_view(self.parts@).take(
                    k as int,
                ));
                assert(parts_view(self.parts@).take(k + 1).last() == self.parts@[k as int]@);
            }
            match &self.parts[k] {
                Part::Literal(t) => {
                    text::push_chars(&mut out, t);
                },
                Part::Token { name, arg } => {
                    match render_token(name, arg, ctx) {
                        None => {
                            assert(render_raw(parts_view(self.parts@).take(k + 1), ctx@) is None);
                            proof {
                                lemma_render_raw_none_extends(parts_view(self.parts@), k + 1, ctx@);
                            }
                            assert(parts_view(self.parts@).take(self.parts.len() as int) =~= parts_view(
                                self.parts@,
                            ));
                            return Err(TemplateError::BadDate);
                        },
                        Some(v) => {
                            let sv = sanitise(&v);
                            text::push_chars(&mut out, &sv);
                        },
                    }
                },
            }
            k = k + 1;
        }
        assert(parts_view(self.parts@).take(self.parts.len() as int) =~= parts_view(self.parts@));
        let cleaned = text::rejoin_pieces(&out, Class::Slash, '/');
        if cleaned.len() == 0 {
            return Err(TemplateError::EmptyResult);
        }
        Ok(text::string_of(&cleaned))
    }
}

proof fn lemma_render_raw_none_extends(parts: Seq<PartView>, k: int, ctx: ContextView)
    requires
        0 <= k <= parts.len(),
        render_raw(parts.take(k), ctx) is None,
    ensures
        render_raw(parts, ctx) is None,
    decreases parts.len() - k,
{
    if k < parts.len() {
        assert(parts.take(k + 1).drop_last() =~= parts.take(k));
        lemma_render_raw_none_extends(parts, k + 1, ctx);
    } else {
        assert(parts.take(k) =~= parts);
    }
}

impl Template {
    /// A template whose only part is the literal text `s`.
    fn literal(s: &str) -> (t: Template)
        ensures
            t.source_spec() == s@,
    {
        let v = text::chars_of(s);
        let mut parts: Vec<Part> = Vec::new();
        parts.push(Part::Literal(text::chars_of(s)));
        Template { source: text::string_of(&v), parts }
    }

    /// Parses one of the library's built-in templates, which are valid; should one not parse,
    /// its text is kept as a literal.
    pub fn builtin(s: &str) -> (t: Template)
        ensures
            t.source_spec() == s@,
            parse_spec(s@) is Ok ==> parse_spec(s@) == Ok::<Seq<PartView>, ErrorView>(t.parts_spec()),
    {
        match Template::parse(s) {
            Ok(t) => t,
            Err(_) => Template::literal(s),
        }
    }
}

/// A value that stands in a path unchanged: not empty, no `/`, no character that cannot stand
/// in a path, no whitespace at either end, and not `.` or `..`.
pub open spec fn plain_value(m: Seq<char>) -> bool {
    &&& m.len() > 0
    &&& forall|i: int| 0 <= i < m.len() ==> #[trigger] m[i] != '/' && !bad_char(m[i])
    &&& !text::is_ws(m[0])
    &&& !text::is_ws(m.last())
    &&& m != "."@
    &&& m != ".."@
}

proof fn lemma_split_slash_plain(m: Seq<char>)
    requires
        forall|i: int| 0 <= i < m.len() ==> #[trigger] m[i] != '/',
    ensures
        split_slash(m) == seq![m],
    decreases m.len(),
{
    if m.len() > 0 {
        assert forall|i: int| 0 <= i < m.drop_last().len() implies #[trigger] m.drop_last()[i] != '/' by {
            assert(m.drop_last()[i] == m[i]);
        }
        lemma_split_slash_plain(m.drop_last());
        assert(m.drop_last().push(m.last()) =~= m);
    } else {
        assert(m =~= seq![]);
    }
}

proof fn lemma_plain_sanitised(m: Seq<char>)
    requires
        plain_value(m),
    ensures
        sanitise_spec(m) == m,
        rejoin(m, Class::Slash, '/') == m,
{
    lemma_split_slash_plain(m);
    let mapped = m.map_values(|c: char| clean_char(c));
    assert(mapped =~= m);
    assert(text::trim_start_by(m, Class::Space) == m);
    assert(text::trim_end_by(m, Class::Space) == m);
    assert(clean_segment(m) == m);
    assert(seq![m].map_values(|seg: Seq<char>| clean_segment(seg)) =~= seq![m]);
    assert(join(seq![m], seq!['/']) == m);
    assert(seq![] + m =~= m);
    assert forall|i: int| 0 <= i < m.len() implies !text::in_class(Class::Slash, #[trigger] m[i]) by {}
    text::lemma_pieces_word(seq![], m, Class::Slash);
    assert(text::pieces(seq![], Class::Slash) == Seq::<Seq<char>>::empty());
    assert(Seq::<Seq<char>>::empty().push(m) =~= seq![m]);
}

proof fn lemma_one_token(n: Seq<char>, ctx: ContextView, v: Seq<char>)
    requires
        token_value(n, None, ctx) == Some(v),
    ensures
        plain_value(v) ==> render_spec(seq![PartView::Token(n, None)], ctx) == Ok::<Seq<char>, ErrorView>(v),
        v.len() == 0 ==> render_spec(seq![PartView::Token(n, None)], ctx) == Err::<Seq<char>, ErrorView>(ErrorView::EmptyResult),
{
    let parts = seq![PartView::Token(n, None)];
    assert(parts.drop_last() =~= Seq::<PartView>::empty());
    assert(render_raw(Seq::<PartView>::empty(), ctx) == Some(Seq::<char>::empty()));
    assert(render_raw(parts.drop_last(), ctx) == Some(Seq::<char>::empty()));
    assert(parts.last() == PartView::Token(n, None));
    assert(render_raw(parts, ctx) == Some(Seq::<char>::empty() + sanitise_spec(v)));
    if plain_value(v) {
        lemma_plain_sanitised(v);
        assert(Seq::<char>::empty() + v =~= v);
    }
    if v.len() == 0 {
        assert(split_slash(v) =~= seq![seq![]]);
        assert(trim(seq![]) =~= seq![]) by {
            assert(text::trim_start_by(seq![], Class::Space) =~= seq![]);
            assert(text::trim_end_by(seq![], Class::Space) =~= seq![]);
        }
        assert(seq![].map_values(|c: char| clean_char(c)) =~= Seq::<char>::empty());
        reveal_strlit(".");
        reveal_strlit("..");
        assert(clean_segment(seq![]) =~= seq![]);
        assert(seq![seq![]].map_values(|seg: Seq<char>| clean_segment(seg)) =~= seq![Seq::<char>::empty()]);
        assert(sanitise_spec(v) =~= seq![]);
        assert(Seq::<char>::empty() + sanitise_spec(v) =~= Seq::<char>::empty());
        assert(text::pieces(Seq::<char>::empty(), Class::Slash) =~= Seq::<Seq<char>>::empty());
    }
}

proof fn lemma_token_names_distinct()
    ensures
        "date"@ != "make"@,
        "year"@ != "make"@,
        "month"@ != "make"@,
        "day"@ != "make"@,
        "time"@ != "make"@,
        "import_date"@ != "make"@,
        "camera"@ != "make"@,
        "date"@ != "model"@,
        "year"@ != "model"@,
        "month"@ != "model"@,
        "day"@ != "model"@,
        "time"@ != "model"@,
        "import_date"@ != "model"@,
        "camera"@ != "model"@,
        "make"@ != "model"@,
        "date"@ != "lens"@,
        "year"@ != "lens"@,
        "month"@ != "lens"@,
        "day"@ != "lens"@,
        "time"@ != "lens"@,
        "import_date"@ != "lens"@,
        "camera"@ != "lens"@,
        "make"@ != "lens"@,
        "model"@ != "lens"@,
        "stem"@ != "lens"@,
        "ext"@ != "lens"@,
        "kind"@ != "lens"@,
        "volume"@ != "lens"@,
        "rel_dir"@ != "lens"@,
        "seq"@ != "lens"@,
        "iso"@ != "lens"@,
        "date"@ != "preset"@,
        "year"@ != "preset"@,
        "month"@ != "preset"@,
        "day"@ != "preset"@,
        "time"@ != "preset"@,
        "import_date"@ != "preset"@,
        "camera"@ != "preset"@,
        "make"@ != "preset"@,
        "model"@ != "preset"@,
        "stem"@ != "preset"@,
        "ext"@ != "preset"@,
        "kind"@ != "preset"@,
        "volume"@ != "preset"@,
        "rel_dir"@ != "preset"@,
        "seq"@ != "preset"@,
        "iso"@ != "preset"@,
        "lens"@ != "preset"@,
        "date"@ != "camera"@,
        "year"@ != "camera"@,
        "month"@ != "camera"@,
        "day"@ != "camera"@,
        "time"@ != "camera"@,
        "import_date"@ != "camera"@,
        "date"@ != "stem"@,
        "year"@ != "stem"@,
        "month"@ != "stem"@,
        "day"@ != "stem"@,
        "time"@ != "stem"@,
        "import_date"@ != "stem"@,
        "camera"@ != "stem"@,
        "make"@ != "stem"@,
        "model"@ != "stem"@,
        "date"@ != "ext"@,
        "year"@ != "ext"@,
        "month"@ != "ext"@,
        "day"@ != "ext"@,
        "time"@ != "ext"@,
        "import_date"@ != "ext"@,
        "camera"@ != "ext"@,
        "make"@ != "ext"@,
        "model"@ != "ext"@,
        "stem"@ != "ext"@,
        "date"@ != "kind"@,
        "year"@ != "kind"@,
        "month"@ != "kind"@,
        "day"@ != "kind"@,
        "time"@ != "kind"@,
        "import_date"@ != "kind"@,
        "camera"@ != "kind"@,
        "make"@ != "kind"@,
        "model"@ != "kind"@,
        "stem"@ != "kind"@,
        "ext"@ != "kind"@,
        "date"@ != "volume"@,
        "year"@ != "volume"@,
        "month"@ != "volume"@,
        "day"@ != "volume"@,
        "time"@ != "volume"@,
        "import_date"@ != "volume"@,
        "camera"@ != "volume"@,
        "make"@ != "volume"@,
        "model"@ != "volume"@,
        "stem"@ != "volume"@,
        "ext"@ != "volume"@,
        "kind"@ != "volume"@,
        "date"@ != "year"@,
        "date"@ != "month"@,
        "year"@ != "month"@,
        "date"@ != "day"@,
        "year"@ != "day"@,
        "month"@ != "day"@,
        "date"@ != "time"@,
        "year"@ != "time"@,
        "month"@ != "time"@,
        "day"@ != "time"@,
{
    reveal_strlit("date");
    reveal_strlit("year");
    reveal_strlit("month");
    reveal_strlit("day");
    reveal_strlit("time");
    reveal_strlit("import_date");
    reveal_strlit("camera");
    reveal_strlit("make");
    reveal_strlit("model");
    reveal_strlit("stem");
    reveal_strlit("ext");
    reveal_strlit("kind");
    reveal_strlit("volume");
    reveal_strlit("rel_dir");
    reveal_strlit("seq");
    reveal_strlit("iso");
    reveal_strlit("lens");
    reveal_strlit("preset");
    assert("date"@[0] != "make"@[0]);
    assert("year"@[0] != "make"@[0]);
    assert("month"@.len() != "make"@.len());
    assert("day"@.len() != "make"@.len());
    assert("time"@[0] != "make"@[0]);
    assert("import_date"@.len() != "make"@.len());
    assert("camera"@.len() != "make"@.len());
    assert("date"@.len() != "model"@.len());
    assert("year"@.len() != "model"@.len());
    assert("month"@[2] != "model"@[2]);
    assert("day"@.len() != "model"@.len());
    assert("time"@.len() != "model"@.len());
    assert("import_date"@.len() != "model"@.len());
    assert("camera"@.len() != "model"@.len());
    assert("make"@.len() != "model"@.len());
    assert("date"@[0] != "lens"@[0]);
    assert("year"@[0] != "lens"@[0]);
    assert("month"@.len() != "lens"@.len());
    assert("day"@.len() != "lens"@.len());
    assert("time"@[0] != "lens"@[0]);
    assert("import_date"@.len() != "lens"@.len());
    assert("camera"@.len() != "lens"@.len());
    assert("make"@[0] != "lens"@[0]);
    assert("model"@.len() != "lens"@.len());
    assert("stem"@[0] != "lens"@[0]);
    assert("ext"@.len() != "lens"@.len());
    assert("kind"@[0] != "lens"@[0]);
    assert("volume"@.len() != "lens"@.len());
    assert("rel_dir"@.len() != "lens"@.len());
    assert("seq"@.len() != "lens"@.len());
    assert("iso"@.len() != "lens"@.len());
    assert("date"@.len() != "preset"@.len());
    assert("year"@.len() != "preset"@.len());
    assert("month"@.len() != "preset"@.len());
    assert("day"@.len() != "preset"@.len());
    assert("time"@.len() != "preset"@.len());
    assert("import_date"@.len() != "preset"@.len());
    assert("camera"@[0] != "preset"@[0]);
    assert("make"@.len() != "preset"@.len());
    assert("model"@.len() != "preset"@.len());
    assert("stem"@.len() != "preset"@.len());
    assert("ext"@.len() != "preset"@.len());
    assert("kind"@.len() != "preset"@.len());
    assert("volume"@[0] != "preset"@[0]);
    assert("rel_dir"@.len() != "preset"@.len());
    assert("seq"@.len() != "preset"@.len());
    assert("iso"@.len() != "preset"@.len());
    assert("lens"@.len() != "preset"@.len());
    assert("date"@.len() != "camera"@.len());
    assert("year"@.len() != "camera"@.len());
    assert("month"@.len() != "camera"@.len());
    assert("day"@.len() != "camera"@.len());
    assert("time"@.len() != "camera"@.len());
    assert("import_date"@.len() != "camera"@.len());
    assert("date"@[0] != "stem"@[0]);
    assert("year"@[0] != "stem"@[0]);
    assert("month"@.len() != "stem"@.len());
    assert("day"@.len() != "stem"@.len());
    assert("time"@[0] != "stem"@[0]);
    assert("import_date"@.len() != "stem"@.len());
    assert("camera"@.len() != "stem"@.len());
    assert("make"@[0] != "stem"@[0]);
    assert("model"@.len() != "stem"@.len());
    assert("date"@.len() != "ext"@.len());
    assert("year"@.len() != "ext"@.len());
    assert("month"@.len() != "ext"@.len());
    assert("day"@[0] != "ext"@[0]);
    assert("time"@.len() != "ext"@.len());
    assert("import_date"@.len() != "ext"@.len());
    assert("camera"@.len() != "ext"@.len());
    assert("make"@.len() != "ext"@.len());
    assert("model"@.len() != "ext"@.len());
    assert("stem"@.len() != "ext"@.len());
    assert("date"@[0] != "kind"@[0]);
    assert("year"@[0] != "kind"@[0]);
    assert("month"@.len() != "kind"@.len());
    assert("day"@.len() != "kind"@.len());
    assert("time"@[0] != "kind"@[0]);
    assert("import_date"@.len() != "kind"@.len());
    assert("camera"@.len() != "kind"@.len());
    assert("make"@[0] != "kind"@[0]);
    assert("model"@.len() != "kind"@.len());
    assert("stem"@[0] != "kind"@[0]);
    assert("ext"@.len() != "kind"@.len());
    assert("date"@.len() != "volume"@.len());
    assert("year"@.len() != "volume"@.len());
    assert("month"@.len() != "volume"@.len());
    assert("day"@.len() != "volume"@.len());
    assert("time"@.len() != "volume"@.len());
    assert("import_date"@.len() != "volume"@.len());
    assert("camera"@[0] != "volume"@[0]);
    assert("make"@.len() != "volume"@.len());
    assert("model"@.len() != "volume"@.len());
    assert("stem"@.len() != "volume"@.len());
    assert("ext"@.len() != "volume"@.len());
    assert("kind"@.len() != "volume"@.len());
    assert("date"@[0] != "year"@[0]);
    assert("date"@.len() != "month"@.len());
    assert("year"@.len() != "month"@.len());
    assert("date"@.len() != "day"@.len());
    assert("year"@.len() != "day"@.len());
    assert("month"@.len() != "day"@.len());
    assert("date"@[0] != "time"@[0]);
    assert("year"@[0] != "time"@[0]);
    assert("month"@.len() != "time"@.len());
    assert("day"@.len() != "time"@.len());
}

/// A token naming a field of the context writes that field, whatever else the context holds:
/// `{make}`, `{model}`, `{lens}` and `{preset}` write the context's make, model, lens and
/// preset (nothing when there is none, so alone they leave an empty path), `{camera}` its
/// camera (`unknown-camera` when there is none), and `{stem}`, `{ext}`, `{kind}` and
/// `{volume}` the file's stem, extension, kind and volume; each for a value that stands in a
/// path unchanged.
pub proof fn law_field_tokens(ctx: ContextView)
    ensures
        ctx.make is Some && plain_value(ctx.make->0) ==> render_spec(seq![PartView::Token("make"@, None)], ctx)
            == Ok::<Seq<char>, ErrorView>(ctx.make->0),
        ctx.model is Some && plain_value(ctx.model->0) ==> render_spec(seq![PartView::Token("model"@, None)], ctx)
            == Ok::<Seq<char>, ErrorView>(ctx.model->0),
        ctx.lens is Some && plain_value(ctx.lens->0) ==> render_spec(seq![PartView::Token("lens"@, None)], ctx)
            == Ok::<Seq<char>, ErrorView>(ctx.lens->0),
        ctx.preset is Some && plain_value(ctx.preset->0) ==> render_spec(seq![PartView::Token("preset"@, None)], ctx)
            == Ok::<Seq<char>, ErrorView>(ctx.preset->0),
        ctx.camera is Some && plain_value(ctx.camera->0) ==> render_spec(seq![PartView::Token("camera"@, None)], ctx)
            == Ok::<Seq<char>, ErrorView>(ctx.camera->0),
        ctx.camera is None ==> render_spec(seq![PartView::Token("camera"@, None)], ctx) == Ok::<Seq<char>, ErrorView>(
            "unknown-camera"@,
        ),
        ctx.make is None ==> render_spec(seq![PartView::Token("make"@, None)], ctx) == Err::<Seq<char>, ErrorView>(
            ErrorView::EmptyResult,
        ),
        ctx.model is None ==> render_spec(seq![PartView::Token("model"@, None)], ctx) == Err::<Seq<char>, ErrorView>(
            ErrorView::EmptyResult,
        ),
        plain_value(ctx.stem) ==> render_spec(seq![PartView::Token("stem"@, None)], ctx) == Ok::<Seq<char>, ErrorView>(ctx.stem),
        plain_value(ctx.ext) ==> render_spec(seq![PartView::Token("ext"@, None)], ctx) == Ok::<Seq<char>, ErrorView>(ctx.ext),
        plain_value(ctx.kind) ==> render_spec(seq![PartView::Token("kind"@, None)], ctx) == Ok::<Seq<char>, ErrorView>(ctx.kind),
        plain_value(ctx.volume) ==> render_spec(seq![PartView::Token("volume"@, None)], ctx) == Ok::<Seq<char>, ErrorView>(
            ctx.volume,
        ),
{
    lemma_token_names_distinct();
    lemma_one_token("make"@, ctx, or_else(ctx.make, seq![]));
    lemma_one_token("model"@, ctx, or_else(ctx.model, seq![]));
    lemma_one_token("lens"@, ctx, or_else(ctx.lens, seq![]));
    lemma_one_token("preset"@, ctx, or_else(ctx.preset, seq![]));
    lemma_one_token("camera"@, ctx, or_else(ctx.camera, "unknown-camera"@));
    lemma_one_token("stem"@, ctx, ctx.stem);
    lemma_one_token("ext"@, ctx, ctx.ext);
    lemma_one_token("kind"@, ctx, ctx.kind);
    lemma_one_token("volume"@, ctx, ctx.volume);
    if ctx.camera is None {
        reveal_strlit("unknown-camera");
        let u = "unknown-camera"@;
        assert(u.len() == 14);
        assert forall|i: int| 0 <= i < u.len() implies #[trigger] u[i] != '/' && !bad_char(u[i]) by {}
        reveal_strlit(".");
        reveal_strlit("..");
        assert(plain_value(u));
    }
}

proof fn lemma_plain_digits(v: Seq<char>)
    requires
        v.len() > 0,
        forall|i: int| 0 <= i < v.len() ==> ('0' <= #[trigger] v[i] && v[i] <= '9') || ('a' <= v[i] && v[i] <= 'z'),
        v.len() > 2 || v[0] != '.',
    ensures
        plain_value(v),
{
    reveal_strlit(".");
    reveal_strlit("..");
    assert(v[0] != '.');
    if v == "."@ || v == ".."@ {
        assert(v[0] == '.');
    }
}

/// Without a capture date the date tokens write their placeholders: `{date}` and `{year}`
/// write `undated`, `{month}` and `{day}` write `00`, and `{time}` writes `000000`.
pub proof fn law_undated_placeholders(ctx: ContextView)
    requires
        ctx.captured is None,
    ensures
        render_spec(seq![PartView::Token("date"@, None)], ctx) == Ok::<Seq<char>, ErrorView>("undated"@),
        render_spec(seq![PartView::Token("year"@, None)], ctx) == Ok::<Seq<char>, ErrorView>("undated"@),
        render_spec(seq![PartView::Token("month"@, None)], ctx) == Ok::<Seq<char>, ErrorView>("00"@),
        render_spec(seq![PartView::Token("day"@, None)], ctx) == Ok::<Seq<char>, ErrorView>("00"@),
        render_spec(seq![PartView::Token("time"@, None)], ctx) == Ok::<Seq<char>, ErrorView>("000000"@),
{
    lemma_token_names_distinct();
    reveal_strlit("undated");
    reveal_strlit("00");
    reveal_strlit("000000");
    lemma_plain_digits("undated"@);
    lemma_plain_digits("00"@);
    lemma_plain_digits("000000"@);
    lemma_one_token("date"@, ctx, "undated"@);
    lemma_one_token("year"@, ctx, "undated"@);
    lemma_one_token("month"@, ctx, "00"@);
    lemma_one_token("day"@, ctx, "00"@);
    lemma_one_token("time"@, ctx, "000000"@);
}
} // verus!
