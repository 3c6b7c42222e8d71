//! The read side of the library: the filter the UI sends, and the SQL `WHERE` clause with its
//! parameters that selects the matching assets.

use crate::datetime::{self, chrono_format, chrono_next_day, chrono_parse_date, DateTime};
use crate::text::{self, join, pieces, words, Class};
use vstd::prelude::*;

verus! {

/// All set fields must match. Text is split into words; each word must match a file name or
/// path, a keyword, the camera or the lens.
#[derive(Clone, Debug, Default)]
pub struct Filter {
    pub roots: Vec<i64>,
    /// Inclusive, `YYYY-MM-DD` (or any prefix of an ISO timestamp).
    pub date_from: Option<String>,
    /// Inclusive, `YYYY-MM-DD`.
    pub date_to: Option<String>,
    /// Any of these cameras; `""` means "no camera recorded".
    pub cameras: Vec<String>,
    /// Every one of these keywords (case-insensitive, any source).
    pub keywords: Vec<String>,
    pub has_render: Option<bool>,
    /// Any of: raw, image, video.
    pub kinds: Vec<String>,
    pub text: Option<String>,
    pub min_rating: Option<i64>,
    /// Some(true): has AI labels; Some(false): has none yet.
    pub ai_labelled: Option<bool>,
    /// Only assets whose primary file is missing (or, with Some(false), only present ones).
    pub missing: Option<bool>,
    /// Assets without a capture date only.
    pub undated: bool,
    /// Any of: "select", "reject", "none" (no flag).
    pub flags: Vec<String>,
}

pub open spec fn strs(v: Seq<String>) -> Seq<Seq<char>> {
    v.map_values(|s: String| s@)
}

pub open spec fn opt_chars(o: Option<String>) -> Option<Seq<char>> {
    match o {
        Some(s) => Some(s@),
        None => None,
    }
}

/// The values of a [`Filter`], as character sequences.
pub struct FilterView {
    pub roots: Seq<i64>,
    pub date_from: Option<Seq<char>>,
    pub date_to: Option<Seq<char>>,
    pub cameras: Seq<Seq<char>>,
    pub keywords: Seq<Seq<char>>,
    pub has_render: Option<bool>,
    pub kinds: Seq<Seq<char>>,
    pub text: Option<Seq<char>>,
    pub min_rating: Option<i64>,
    pub ai_labelled: Option<bool>,
    pub missing: Option<bool>,
    pub undated: bool,
    pub flags: Seq<Seq<char>>,
}

impl View for Filter {
    type V = FilterView;

    open spec fn view(&self) -> FilterView {
        FilterView {
            roots: self.roots@,
            date_from: opt_chars(self.date_from),
            date_to: opt_chars(self.date_to),
            cameras: strs(self.cameras@),
            keywords: strs(self.keywords@),
            has_render: self.has_render,
            kinds: strs(self.kinds@),
            text: opt_chars(self.text),
            min_rating: self.min_rating,
            ai_labelled: self.ai_labelled,
            missing: self.missing,
            undated: self.undated,
            flags: strs(self.flags@),
        }
    }
}

/// A parameter bound to a `?` of the clause.
#[derive(Clone, Debug, PartialEq, Eq)]
pub enum SqlValue {
    Integer(i64),
    Text(String),
}

pub enum ParamView {
    Integer(i64),
    Text(Seq<char>),
}

impl View for SqlValue {
    type V = ParamView;

    open spec fn view(&self) -> ParamView {
        match self {
            SqlValue::Integer(i) => ParamView::Integer(*i),
            SqlValue::Text(s) => ParamView::Text(s@),
        }
    }
}

pub open spec fn params_view(p: Seq<SqlValue>) -> Seq<ParamView> {
    p.map_values(|v: SqlValue| v@)
}

/// The listing orders.
#[derive(Clone, Copy, Debug, Default, PartialEq, Eq, Structural)]
pub enum Sort {
    #[default]
    CapturedDesc,
    CapturedAsc,
    AddedDesc,
    Name,
}

impl Sort {
    pub open spec fn order_by(self) -> Seq<char> {
        match self {
            Sort::CapturedDesc => "a.captured_at IS NULL, a.captured_at DESC, a.id DESC"@,
            Sort::CapturedAsc => "a.captured_at IS NULL, a.captured_at ASC, a.id ASC"@,
            Sort::AddedDesc => "a.id DESC"@,
            Sort::Name => "f.name COLLATE NOCASE, a.id"@,
        }
    }

    /// The `ORDER BY` terms of the sort. Undated assets come last in both date orders.
    pub fn sql(self) -> (r: &'static str)
        ensures
            r@ == self.order_by(),
    {
        match self {
            Sort::CapturedDesc => "a.captured_at IS NULL, a.captured_at DESC, a.id DESC",
            Sort::CapturedAsc => "a.captured_at IS NULL, a.captured_at ASC, a.id ASC",
            Sort::AddedDesc => "a.id DESC",
            Sort::Name => "f.name COLLATE NOCASE, a.id",
        }
    }
}

/// `LIKE` wildcards and the escape character itself, each behind a backslash.
pub open spec fn like_escaped(s: Seq<char>) -> Seq<char>
    decreases s.len(),
{
    if s.len() == 0 {
        seq![]
    } else {
        let c = s.last();
        let head = like_escaped(s.drop_last());
        if c == '%' || c == '_' || c == '\\' {
            head + seq!['\\', c]
        } else {
            head.push(c)
        }
    }
}

/// A `LIKE` pattern that matches `s` anywhere, with `\` as the escape character.
pub open spec fn like_pattern(s: Seq<char>) -> Seq<char> {
    seq!['%'] + like_escaped(s) + seq!['%']
}

pub fn like_escape(s: &str) -> (r: String)
    ensures
        r@ == like_pattern(s@),
{
    let v = text::chars_of(s);
    let mut out: Vec<char> = Vec::new();
    out.push('%');
    let mut i: usize = 0;
    while i < v.len()
        invariant
            i <= v.len(),
            v@ == s@,
            out@ == seq!['%'] + like_escaped(v@.take(i as int)),
        decreases v.len() - i,
    {
        let c = v[i];
        assert(v@.take(i + 1).drop_last() =~= v@.take(i as int));
        if c == '%' || c == '_' || c == '\\' {
            out.push('\\');
        }
        out.push(c);
        i = i + 1;
        assert(out@ =~= seq!['%'] + like_escaped(v@.take(i as int)));
    }
    assert(v@.take(v.len() as int) =~= v@);
    out.push('%');
    text::string_of(&out)
}

/// The number of bytes `c` takes in UTF-8.
pub open spec fn utf8_len(c: char) -> nat {
    if '\u{80}' > c {
        1
    } else if '\u{800}' > c {
        2
    } else if '\u{10000}' > c {
        3
    } else {
        4
    }
}

/// Scanning `s` from character `k` with `bytes` bytes before it: the number of characters and
/// of bytes in its longest prefix of at most 10 bytes.
pub open spec fn head10(s: Seq<char>, k: nat, bytes: nat) -> (nat, nat)
    decreases s.len() - k,
{
    if k >= s.len() || bytes + utf8_len(s[k as int]) > 10 {
        (k, bytes)
    } else {
        head10(s, k + 1, bytes + utf8_len(s[k as int]))
    }
}

/// The first ten bytes of `s` end between two characters (or `s` is shorter).
pub open spec fn cut_on_char(s: Seq<char>) -> bool {
    let (k, b) = head10(s, 0, 0);
    k == s.len() || b == 10
}

/// The first ten bytes of `s`, as characters.
pub open spec fn date_head(s: Seq<char>) -> Seq<char> {
    s.take(head10(s, 0, 0).0 as int)
}

/// The date after the `YYYY-MM-DD` date that `s` starts with, written the same way; when
/// `s` starts with no such date, `s` followed by U+FFFF, which sorts after every timestamp
/// that starts with `s`.
pub open spec fn day_after(s: Seq<char>) -> Seq<char> {
    let fallback = s.push('\u{ffff}');
    match chrono_parse_date(date_head(s), "%Y-%m-%d"@) {
        Some((y, m, d)) => match chrono_next_day(y, m, d) {
            Some((y2, m2, d2)) => match chrono_format(y2, m2, d2, 0, 0, 0, "%Y-%m-%d"@) {
                Some(t) => t,
                None => fallback,
            },
            None => fallback,
        },
        None => fallback,
    }
}

/// "YYYY-MM-DD" -> the following day, so a whole day is included with `<`.
pub fn next_day(date: &str) -> (r: String)
    requires
        cut_on_char(date@),
    ensures
        r@ == day_after(date@),
{
    let v = text::chars_of(date);
    let mut k: usize = 0;
    let mut bytes: usize = 0;
    while k < v.len()
        invariant
            v@ == date@,
            k <= v.len(),
            bytes <= 10,
            head10(v@, k as nat, bytes as nat) == head10(v@, 0, 0),
        ensures
            head10(v@, k as nat, bytes as nat) == (k as nat, bytes as nat),
        decreases v.len() - k,
    {
        let c = v[k];
        let n: usize = if '\u{80}' > c {
            1
        } else if '\u{800}' > c {
            2
        } else if '\u{10000}' > c {
            3
        } else {
            4
        };
        if bytes + n > 10 {
            break;
        }
        bytes = bytes + n;
        k = k + 1;
    }
    let head = text::string_of(&text::slice_chars(&v, 0, k));
    assert(head@ =~= date_head(date@));
    let mut fallback = v.clone();
    fallback.push('\u{ffff}');
    match datetime::parse_date(head.as_str(), "%Y-%m-%d") {
        Some((y, m, d)) => match datetime::next_day(y, m, d) {
            Some((y2, m2, d2)) => {
                let next = DateTime { year: y2, month: m2, day: d2, hour: 0, minute: 0, second: 0 };
                match datetime::format(&next, "%Y-%m-%d") {
                    Some(t) => text::string_of(&t),
                    None => text::string_of(&fallback),
                }
            },
            None => text::string_of(&fallback),
        },
        None => text::string_of(&fallback),
    }
}

// ---------- the WHERE clause ----------

pub const WHERE_ALL: &'static str = " WHERE 1";
pub const ROOTS_IN: &'static str = " AND f.root_id IN (";
pub const CAPTURED_FROM: &'static str = " AND a.captured_at >= ?";
pub const CAPTURED_BEFORE: &'static str = " AND a.captured_at < ?";
pub const UNDATED: &'static str = " AND a.captured_at IS NULL";
pub const CAMERA_IN: &'static str = "a.camera IN (";
pub const CAMERA_NULL: &'static str = "a.camera IS NULL";
pub const KEYWORD_MATCH: &'static str = " AND EXISTS (SELECT 1 FROM asset_keywords ak JOIN keywords k ON k.id = ak.keyword_id WHERE ak.asset_id = a.id AND k.name = ?)";
pub const RENDERED: &'static str = " AND EXISTS (SELECT 1 FROM renders rr WHERE rr.asset_id = a.id)";
pub const NOT_RENDERED: &'static str = " AND NOT EXISTS (SELECT 1 FROM renders rr WHERE rr.asset_id = a.id)";
pub const AND_EXISTS: &'static str = " AND EXISTS";
pub const AND_NOT_EXISTS: &'static str = " AND NOT EXISTS";
pub const AI_LABEL: &'static str = " (SELECT 1 FROM asset_keywords ak WHERE ak.asset_id = a.id AND ak.source LIKE 'ai:%')";
pub const MISSING: &'static str = " AND f.missing = 1";
pub const PRESENT: &'static str = " AND f.missing = 0";
pub const KIND_IN: &'static str = " AND a.kind IN (";
pub const FLAG_SELECT: &'static str = "a.flag = 'select'";
pub const FLAG_REJECT: &'static str = "a.flag = 'reject'";
pub const FLAG_NONE: &'static str = "a.flag IS NULL";
pub const MIN_RATING: &'static str = " AND a.rating >= ?";
pub const TEXT_MATCH: &'static str = " AND (EXISTS (SELECT 1 FROM asset_files af JOIN files ff ON ff.id = af.file_id WHERE af.asset_id = a.id AND ff.rel LIKE ? ESCAPE '\\')
                     OR EXISTS (SELECT 1 FROM asset_keywords ak JOIN keywords k ON k.id = ak.keyword_id WHERE ak.asset_id = a.id AND k.name LIKE ? ESCAPE '\\')
                     OR a.camera LIKE ? ESCAPE '\\' OR a.lens LIKE ? ESCAPE '\\')";

/// `n` question marks separated by `, `.
pub open spec fn placeholders(n: nat) -> Seq<char> {
    join(Seq::new(n, |i: int| "?"@), ", "@)
}

/// The text of an optional field, when it is set and not empty.
pub open spec fn nonempty(o: Option<Seq<char>>) -> Option<Seq<char>> {
    match o {
        Some(d) => if d.len() > 0 {
            Some(d)
        } else {
            None
        },
        None => None,
    }
}

/// The camera names that are not empty, in order.
pub open spec fn named_cameras(c: Seq<Seq<char>>) -> Seq<Seq<char>>
    decreases c.len(),
{
    if c.len() == 0 {
        seq![]
    } else {
        let h = named_cameras(c.drop_last());
        if c.last().len() > 0 {
            h.push(c.last())
        } else {
            h
        }
    }
}

pub open spec fn has_unknown(c: Seq<Seq<char>>) -> bool {
    exists|i: int| 0 <= i < c.len() && #[trigger] c[i].len() == 0
}

/// The alternatives of the camera condition.
pub open spec fn camera_parts(c: Seq<Seq<char>>) -> Seq<Seq<char>> {
    let named = named_cameras(c);
    let a = if named.len() > 0 {
        seq![CAMERA_IN@ + placeholders(named.len()) + ")"@]
    } else {
        seq![]
    };
    if has_unknown(c) {
        a.push(CAMERA_NULL@)
    } else {
        a
    }
}

/// The condition for one flag value; anything but `select` and `reject` means no flag.
pub open spec fn flag_sql(f: Seq<char>) -> Seq<char> {
    if f == "select"@ {
        FLAG_SELECT@
    } else if f == "reject"@ {
        FLAG_REJECT@
    } else {
        FLAG_NONE@
    }
}

pub open spec fn repeat(s: Seq<char>, n: nat) -> Seq<char>
    decreases n,
{
    if n == 0 {
        seq![]
    } else {
        repeat(s, (n - 1) as nat) + s
    }
}

pub open spec fn when(b: bool, s: Seq<char>) -> Seq<char> {
    if b {
        s
    } else {
        seq![]
    }
}

pub open spec fn ints(v: Seq<i64>) -> Seq<ParamView> {
    v.map_values(|x: i64| ParamView::Integer(x))
}

pub open spec fn texts(v: Seq<Seq<char>>) -> Seq<ParamView> {
    v.map_values(|x: Seq<char>| ParamView::Text(x))
}

/// Four copies of each word's `LIKE` pattern, word by word.
pub open spec fn word_params(ws: Seq<Seq<char>>) -> Seq<ParamView>
    decreases ws.len(),
{
    if ws.len() == 0 {
        seq![]
    } else {
        let p = ParamView::Text(like_pattern(ws.last()));
        word_params(ws.drop_last()) + seq![p, p, p, p]
    }
}

pub open spec fn text_words(t: Option<Seq<char>>) -> Seq<Seq<char>> {
    match t {
        Some(t) => words(t),
        None => seq![],
    }
}

pub open spec fn sec_roots(f: FilterView) -> Seq<char> {
    when(f.roots.len() > 0, ROOTS_IN@ + placeholders(f.roots.len()) + ")"@)
}

pub open spec fn sec_dates(f: FilterView) -> Seq<char> {
    when(nonempty(f.date_from) is Some, CAPTURED_FROM@) + when(nonempty(f.date_to) is Some, CAPTURED_BEFORE@)
        + when(f.undated, UNDATED@)
}

pub open spec fn sec_cameras(f: FilterView) -> Seq<char> {
    when(f.cameras.len() > 0, " AND ("@ + join(camera_parts(f.cameras), " OR "@) + ")"@)
}

pub open spec fn sec_keywords(f: FilterView) -> Seq<char> {
    repeat(KEYWORD_MATCH@, f.keywords.len())
}

pub open spec fn sec_render(f: FilterView) -> Seq<char> {
    match f.has_render {
        Some(true) => RENDERED@,
        Some(false) => NOT_RENDERED@,
        None => seq![],
    }
}

pub open spec fn sec_ai(f: FilterView) -> Seq<char> {
    match f.ai_labelled {
        Some(true) => AND_EXISTS@ + AI_LABEL@,
        Some(false) => AND_NOT_EXISTS@ + AI_LABEL@,
        None => seq![],
    }
}

pub open spec fn sec_missing(f: FilterView) -> Seq<char> {
    match f.missing {
        Some(true) => MISSING@,
        Some(false) => PRESENT@,
        None => seq![],
    }
}

pub open spec fn sec_kinds(f: FilterView) -> Seq<char> {
    when(f.kinds.len() > 0, KIND_IN@ + placeholders(f.kinds.len()) + ")"@)
}

pub open spec fn sec_flags(f: FilterView) -> Seq<char> {
    when(f.flags.len() > 0, " AND ("@ + join(f.flags.map_values(|x: Seq<char>| flag_sql(x)), " OR "@) + ")"@)
}

pub open spec fn sec_rating(f: FilterView) -> Seq<char> {
    when(f.min_rating matches Some(r) && r > 0, MIN_RATING@)
}

pub open spec fn sec_text(f: FilterView) -> Seq<char> {
    repeat(TEXT_MATCH@, text_words(f.text).len())
}

/// The `WHERE` clause that selects the assets matching `f`, condition by condition.
pub open spec fn where_sql(f: FilterView) -> Seq<char> {
    WHERE_ALL@ + sec_roots(f) + sec_dates(f) + sec_cameras(f) + sec_keywords(f) + sec_render(f) + sec_ai(f)
        + sec_missing(f) + sec_kinds(f)
        + sec_flags(f) + sec_rating(f) + sec_text(f)
}

pub open spec fn par_dates(f: FilterView) -> Seq<ParamView> {
    (match nonempty(f.date_from) {
        Some(d) => seq![ParamView::Text(d)],
        None => seq![],
    }) + (match nonempty(f.date_to) {
        Some(d) => seq![ParamView::Text(day_after(d))],
        None => seq![],
    })
}

pub open spec fn par_rating(f: FilterView) -> Seq<ParamView> {
    match f.min_rating {
        Some(r) => if r > 0 {
            seq![ParamView::Integer(r)]
        } else {
            seq![]
        },
        None => seq![],
    }
}

/// What of a filter the `WHERE` text is made from: which conditions are on, how many values
/// each carries, whether "no camera recorded" is among the cameras, and which of the three
/// flag conditions each flag asks for.
pub open spec fn filter_shape(f: FilterView) -> (
    (nat, bool, bool, bool, nat, bool, nat),
    (Option<bool>, Option<bool>, Option<bool>, nat, Seq<Seq<char>>, bool, nat),
) {
    (
        (
            f.roots.len(),
            nonempty(f.date_from) is Some,
            nonempty(f.date_to) is Some,
            f.undated,
            named_cameras(f.cameras).len(),
            has_unknown(f.cameras),
            f.keywords.len(),
        ),
        (
            f.has_render,
            f.ai_labelled,
            f.missing,
            f.kinds.len(),
            f.flags.map_values(|x: Seq<char>| flag_sql(x)),
            f.min_rating matches Some(r) && r > 0,
            text_words(f.text).len(),
        ),
    )
}

/// The `WHERE` text never holds a value of the filter: two filters of the same shape give the
/// same text, and the values go only into the parameters.
pub proof fn law_where_text_from_shape(f: FilterView, g: FilterView)
    requires
        filter_shape(f) == filter_shape(g),
    ensures
        where_sql(f) == where_sql(g),
{
    assert(camera_parts(f.cameras) == camera_parts(g.cameras));
    assert(f.flags.map_values(|x: Seq<char>| flag_sql(x)) == g.flags.map_values(|x: Seq<char>| flag_sql(x)));
}

/// A filter whose one condition is the flag `x`.
pub open spec fn only_flag(f: FilterView, x: Seq<char>) -> bool {
    &&& f.roots.len() == 0
    &&& f.date_from is None
    &&& f.date_to is None
    &&& !f.undated
    &&& f.cameras.len() == 0
    &&& f.keywords.len() == 0
    &&& f.has_render is None
    &&& f.ai_labelled is None
    &&& f.missing is None
    &&& f.kinds.len() == 0
    &&& f.min_rating is None
    &&& f.text is None
    &&& f.flags == seq![x]
}

/// The condition a flag asks for names that flag: `select` keeps the selected assets,
/// `reject` the rejected ones, and any other value those with no flag; so two flag values
/// give the same query exactly when they are the same flag or both ask for no flag.
pub proof fn law_flag_condition(f: FilterView, x: Seq<char>, g: FilterView, y: Seq<char>)
    requires
        only_flag(f, x),
        only_flag(g, y),
    ensures
        x == "select"@ ==> where_sql(f) == " WHERE 1 AND (a.flag = 'select')"@,
        x == "reject"@ ==> where_sql(f) == " WHERE 1 AND (a.flag = 'reject')"@,
        x != "select"@ && x != "reject"@ ==> where_sql(f) == " WHERE 1 AND (a.flag IS NULL)"@,
        where_sql(f) == where_sql(g) <==> (x == y || (x != "select"@ && x != "reject"@ && y != "select"@ && y
            != "reject"@)),
{
    reveal_strlit(" WHERE 1");
    reveal_strlit(" AND (");
    reveal_strlit(")");
    reveal_strlit("a.flag = 'select'");
    reveal_strlit("a.flag = 'reject'");
    reveal_strlit("a.flag IS NULL");
    reveal_strlit(" WHERE 1 AND (a.flag = 'select')");
    reveal_strlit(" WHERE 1 AND (a.flag = 'reject')");
    reveal_strlit(" WHERE 1 AND (a.flag IS NULL)");
    reveal_strlit("select");
    reveal_strlit("reject");
    lemma_only_flag_sql(f, x);
    lemma_only_flag_sql(g, y);
    assert("a.flag = 'select'"@[10] != "a.flag = 'reject'"@[10]);
    assert("a.flag = 'select'"@.len() != "a.flag IS NULL"@.len());
    assert("a.flag = 'reject'"@.len() != "a.flag IS NULL"@.len());
    assert("select"@[0] != "reject"@[0]);
    let ws = " WHERE 1 AND (a.flag = 'select')"@;
    let wr = " WHERE 1 AND (a.flag = 'reject')"@;
    let wn = " WHERE 1 AND (a.flag IS NULL)"@;
    assert(WHERE_ALL@ + " AND ("@ + "a.flag = 'select'"@ + ")"@ =~= ws);
    assert(WHERE_ALL@ + " AND ("@ + "a.flag = 'reject'"@ + ")"@ =~= wr);
    assert(WHERE_ALL@ + " AND ("@ + "a.flag IS NULL"@ + ")"@ =~= wn);
    assert(ws[24] != wr[24]);
    assert(ws.len() != wn.len());
    assert(wr.len() != wn.len());
}

proof fn lemma_only_flag_sql(f: FilterView, x: Seq<char>)
    requires
        only_flag(f, x),
    ensures
        where_sql(f) == WHERE_ALL@ + " AND ("@ + flag_sql(x) + ")"@,
{
    let e = Seq::<char>::empty();
    assert(sec_roots(f) == e);
    assert(sec_dates(f) =~= e);
    assert(sec_cameras(f) == e);
    assert(sec_keywords(f) == e);
    assert(sec_render(f) == e);
    assert(sec_ai(f) == e);
    assert(sec_missing(f) == e);
    assert(sec_kinds(f) == e);
    assert(sec_rating(f) == e);
    assert(text_words(f.text) == Seq::<Seq<char>>::empty());
    assert(sec_text(f) == e);
    assert(f.flags.map_values(|v: Seq<char>| flag_sql(v)) =~= seq![flag_sql(x)]);
    assert(text::join(seq![flag_sql(x)], " OR "@) == flag_sql(x));
    assert(where_sql(f) =~= WHERE_ALL@ + " AND ("@ + flag_sql(x) + ")"@);
}

/// The values bound to the clause's `?`s, in order.
pub open spec fn where_params(f: FilterView) -> Seq<ParamView> {
    ints(f.roots) + par_dates(f) + texts(named_cameras(f.cameras)) + texts(f.keywords) + texts(f.kinds)
        + par_rating(f) + word_params(text_words(f.text))
}

/// The `date_to` bound can be cut at ten bytes.
pub open spec fn filter_ok(f: FilterView) -> bool {
    nonempty(f.date_to) matches Some(d) ==> cut_on_char(d)
}

fn push_placeholders(out: &mut Vec<char>, n: usize)
    ensures
        final(out)@ == old(out)@ + placeholders(n as nat),
{
    let ghost start = out@;
    let mut i: usize = 0;
    proof {
        assert(Seq::new(0, |i: int| "?"@) =~= Seq::<Seq<char>>::empty());
    }
    while i < n
        invariant
            i <= n,
            out@ == start + placeholders(i as nat),
        decreases n - i,
    {
        let ghost before = out@;
        if i > 0 {
            text::push_str(out, ", ");
        }
        text::push_str(out, "?");
        proof {
            let l = Seq::new((i + 1) as nat, |j: int| "?"@);
            if i == 0 {
                assert(placeholders(1) == l[0]);
            } else {
                assert(l.drop_last() =~= Seq::new(i as nat, |j: int| "?"@));
            }
        }
        i = i + 1;
        assert(out@ =~= start + placeholders(i as nat));
    }
}

fn push_ints(params: &mut Vec<SqlValue>, v: &Vec<i64>)
    ensures
        params_view(final(params)@) == params_view(old(params)@) + ints(v@),
{
    let ghost start = params_view(params@);
    let mut i: usize = 0;
    while i < v.len()
        invariant
            i <= v.len(),
            params_view(params@) == start + ints(v@.take(i as int)),
        decreases v.len() - i,
    {
        let ghost before = params@;
        params.push(SqlValue::Integer(v[i]));
        proof {
            assert(params_view(params@) =~= params_view(before).push(ParamView::Integer(v@[i as int])));
            assert(ints(v@.take(i + 1)) =~= ints(v@.take(i as int)).push(ParamView::Integer(v@[i as int])));
        }
        i = i + 1;
        assert(params_view(params@) =~= start + ints(v@.take(i as int)));
    }
    assert(v@.take(v.len() as int) =~= v@);
}

fn push_texts(params: &mut Vec<SqlValue>, v: &Vec<String>)
    ensures
        params_view(final(params)@) == params_view(old(params)@) + texts(strs(v@)),
{
    let ghost start = params_view(params@);
    let mut i: usize = 0;
    while i < v.len()
        invariant
            i <= v.len(),
            params_view(params@) == start + texts(strs(v@.take(i as int))),
        decreases v.len() - i,
    {
        let ghost before = params@;
        params.push(SqlValue::Text(v[i].clone()));
        proof {
            assert(params_view(params@) =~= params_view(before).push(ParamView::Text(v@[i as int]@)));
            assert(texts(strs(v@.take(i + 1))) =~= texts(strs(v@.take(i as int))).push(ParamView::Text(v@[i as int]@)));
        }
        i = i + 1;
        assert(params_view(params@) =~= start + texts(strs(v@.take(i as int))));
    }
    assert(v@.take(v.len() as int) =~= v@);
}

/// The camera condition and its parameters.
fn push_cameras(out: &mut Vec<char>, params: &mut Vec<SqlValue>, cams: &Vec<String>)
    requires
        cams.len() > 0,
    ensures
        final(out)@ == old(out)@ + " AND ("@ + join(camera_parts(strs(cams@)), " OR "@) + ")"@,
        params_view(final(params)@) == params_view(old(params)@) + texts(named_cameras(strs(cams@))),
{
    let ghost c = strs(cams@);
    let mut named: Vec<String> = Vec::new();
    let mut unknown = false;
    let mut i: usize = 0;
    while i < cams.len()
        invariant
            i <= cams.len(),
            c == strs(cams@),
            strs(named@) == named_cameras(c.take(i as int)),
            unknown == has_unknown(c.take(i as int)),
        decreases cams.len() - i,
    {
        let ghost pre = c.take(i as int);
        assert(c.take(i + 1).drop_last() =~= pre);
        if cams[i].as_str().is_empty() {
            unknown = true;
            assert(c.take(i + 1)[i as int].len() == 0);
        } else {
            named.push(cams[i].clone());
        }
        proof {
            let cur = c.take(i + 1);
            if has_unknown(cur) && !has_unknown(pre) {
                let j = choose|j: int| 0 <= j < cur.len() && #[trigger] cur[j].len() == 0;
                if j < i {
                    assert(pre[j].len() == 0);
                }
            }
            if has_unknown(pre) {
                let j = choose|j: int| 0 <= j < pre.len() && #[trigger] pre[j].len() == 0;
                assert(cur[j].len() == 0);
            }
        }
        i = i + 1;
        assert(strs(named@) =~= named_cameras(c.take(i as int)));
    }
    assert(c.take(cams.len() as int) =~= c);
    let ghost start = out@;
    text::push_str(out, " AND (");
    let mut any = false;
    if named.len() > 0 {
        text::push_str(out, CAMERA_IN);
        push_placeholders(out, named.len());
        text::push_str(out, ")");
        any = true;
    }
    if unknown {
        if any {
            text::push_str(out, " OR ");
        }
        text::push_str(out, CAMERA_NULL);
    }
    text::push_str(out, ")");
    proof {
        let parts = camera_parts(c);
        let first = CAMERA_IN@ + placeholders(named.len() as nat) + ")"@;
        if named.len() > 0 && unknown {
            assert(parts =~= seq![first, CAMERA_NULL@]);
            assert(seq![first, CAMERA_NULL@].drop_last() =~= seq![first]);
            assert(join(seq![first], " OR "@) == first);
            assert(join(parts, " OR "@) == join(seq![first], " OR "@) + " OR "@ + CAMERA_NULL@);
        } else if named.len() > 0 {
            assert(parts =~= seq![first]);
        } else if unknown {
            assert(parts =~= seq![CAMERA_NULL@]);
        } else {
            assert(parts =~= Seq::<Seq<char>>::empty());
        }
        assert(out@ =~= start + " AND ("@ + join(parts, " OR "@) + ")"@);
    }
    push_texts(params, &named);
}

fn push_repeat(out: &mut Vec<char>, s: &str, n: usize)
    ensures
        final(out)@ == old(out)@ + repeat(s@, n as nat),
{
    let ghost start = out@;
    let mut i: usize = 0;
    while i < n
        invariant
            i <= n,
            out@ == start + repeat(s@, i as nat),
        decreases n - i,
    {
        text::push_str(out, s);
        i = i + 1;
        assert(out@ =~= start + repeat(s@, i as nat));
    }
}

fn push_flags(out: &mut Vec<char>, flags: &Vec<String>)
    requires
        flags.len() > 0,
    ensures
        final(out)@ == old(out)@ + " AND ("@ + join(strs(flags@).map_values(|x: Seq<char>| flag_sql(x)), " OR "@) + ")"@,
{
    let ghost start = out@;
    let ghost fs = strs(flags@).map_values(|x: Seq<char>| flag_sql(x));
    text::push_str(out, " AND (");
    let mut i: usize = 0;
    while i < flags.len()
        invariant
            i <= flags.len(),
            fs == strs(flags@).map_values(|x: Seq<char>| flag_sql(x)),
            out@ == start + " AND ("@ + join(fs.take(i as int), " OR "@),
        decreases flags.len() - i,
    {
        if i > 0 {
            text::push_str(out, " OR ");
        }
        let v = text::chars_of(flags[i].as_str());
        let part: &str = if text::eq_str(&v, "select") {
            FLAG_SELECT
        } else if text::eq_str(&v, "reject") {
            FLAG_REJECT
        } else {
            FLAG_NONE
        };
        text::push_str(out, part);
        proof {
            assert(fs.take(i + 1).drop_last() =~= fs.take(i as int));
            assert(fs[i as int] == part@);
            if i == 0 {
                assert(fs.take(1) =~= seq![part@]);
            }
        }
        i = i + 1;
        assert(out@ =~= start + " AND ("@ + join(fs.take(i as int), " OR "@));
    }
    assert(fs.take(flags.len() as int) =~= fs);
    text::push_str(out, ")");
}

fn push_words(out: &mut Vec<char>, params: &mut Vec<SqlValue>, t: &str)
    ensures
        final(out)@ == old(out)@ + repeat(TEXT_MATCH@, words(t@).len()),
        params_view(final(params)@) == params_view(old(params)@) + word_params(words(t@)),
{
    let ws = text::split_pieces(&text::chars_of(t), Class::Space);
    let ghost wv = ws@.map_values(|w: Vec<char>| w@);
    assert(wv == words(t@));
    let ghost start = out@;
    let ghost pstart = params_view(params@);
    let mut i: usize = 0;
    while i < ws.len()
        invariant
            i <= ws.len(),
            wv == ws@.map_values(|w: Vec<char>| w@),
            out@ == start + repeat(TEXT_MATCH@, i as nat),
            params_view(params@) == pstart + word_params(wv.take(i as int)),
        decreases ws.len() - i,
    {
        let pat = like_escape(text::string_of(&ws[i]).as_str());
        text::push_str(out, TEXT_MATCH);
        let ghost before = params@;
        params.push(SqlValue::Text(pat.clone()));
        params.push(SqlValue::Text(pat.clone()));
        params.push(SqlValue::Text(pat.clone()));
        params.push(SqlValue::Text(pat));
        proof {
            assert(wv.take(i + 1).drop_last() =~= wv.take(i as int));
            assert(wv.take(i + 1).last() == ws@[i as int]@);
            let pv = ParamView::Text(pat@);
            assert(params_view(params@) =~= params_view(before) + seq![pv, pv, pv, pv]);
        }
        i = i + 1;
        assert(out@ =~= start + repeat(TEXT_MATCH@, i as nat));
        assert(params_view(params@) =~= pstart + word_params(wv.take(i as int)));
    }
    assert(wv.take(ws.len() as int) =~= wv);
}

fn add_roots(f: &Filter, sql: &mut Vec<char>, p: &mut Vec<SqlValue>)
    ensures
        final(sql)@ == old(sql)@ + sec_roots(f@),
        params_view(final(p)@) == params_view(old(p)@) + ints(f@.roots),
{
    if f.roots.len() > 0 {
        let ghost start = sql@;
        text::push_str(sql, ROOTS_IN);
        push_placeholders(sql, f.roots.len());
        text::push_str(sql, ")");
        assert(sql@ =~= start + sec_roots(f@));
    } else {
        assert(sql@ =~= old(sql)@ + sec_roots(f@));
    }
    push_ints(p, &f.roots);
}

fn add_dates(f: &Filter, sql: &mut Vec<char>, p: &mut Vec<SqlValue>)
    requires
        filter_ok(f@),
    ensures
        final(sql)@ == old(sql)@ + sec_dates(f@),
        params_view(final(p)@) == params_view(old(p)@) + par_dates(f@),
{
    let ghost s0 = sql@;
    let ghost p0 = params_view(p@);
    match &f.date_from {
        Some(d) => {
            if !d.as_str().is_empty() {
                text::push_str(sql, CAPTURED_FROM);
                p.push(SqlValue::Text(d.clone()));
            }
        },
        None => {},
    }
    let ghost s1 = sql@;
    let ghost p1 = params_view(p@);
    assert(s1 =~= s0 + when(nonempty(f@.date_from) is Some, CAPTURED_FROM@));
    match &f.date_to {
        Some(d) => {
            if !d.as_str().is_empty() {
                text::push_str(sql, CAPTURED_BEFORE);
                p.push(SqlValue::Text(next_day(d.as_str())));
            }
        },
        None => {},
    }
    let ghost s2 = sql@;
    assert(s2 =~= s1 + when(nonempty(f@.date_to) is Some, CAPTURED_BEFORE@));
    if f.undated {
        text::push_str(sql, UNDATED);
    }
    assert(sql@ =~= s2 + when(f@.undated, UNDATED@));
    assert(sql@ =~= s0 + sec_dates(f@));
    assert(params_view(p@) =~= p0 + par_dates(f@));
}

fn add_render(f: &Filter, sql: &mut Vec<char>)
    ensures
        final(sql)@ == old(sql)@ + sec_render(f@),
{
    match f.has_render {
        Some(true) => text::push_str(sql, RENDERED),
        Some(false) => text::push_str(sql, NOT_RENDERED),
        None => {
            assert(sql@ =~= old(sql)@ + sec_render(f@));
        },
    }
}

fn add_ai(f: &Filter, sql: &mut Vec<char>)
    ensures
        final(sql)@ == old(sql)@ + sec_ai(f@),
{
    match f.ai_labelled {
        Some(b) => {
            if b {
                text::push_str(sql, AND_EXISTS);
            } else {
                text::push_str(sql, AND_NOT_EXISTS);
            }
            text::push_str(sql, AI_LABEL);
            assert(sql@ =~= old(sql)@ + sec_ai(f@));
        },
        None => {
            assert(sql@ =~= old(sql)@ + sec_ai(f@));
        },
    }
}

fn add_missing(f: &Filter, sql: &mut Vec<char>)
    ensures
        final(sql)@ == old(sql)@ + sec_missing(f@),
{
    match f.missing {
        Some(true) => text::push_str(sql, MISSING),
        Some(false) => text::push_str(sql, PRESENT),
        None => {
            assert(sql@ =~= old(sql)@ + sec_missing(f@));
        },
    }
}

fn add_kinds(f: &Filter, sql: &mut Vec<char>, p: &mut Vec<SqlValue>)
    ensures
        final(sql)@ == old(sql)@ + sec_kinds(f@),
        params_view(final(p)@) == params_view(old(p)@) + texts(f@.kinds),
{
    if f.kinds.len() > 0 {
        let ghost start = sql@;
        text::push_str(sql, KIND_IN);
        push_placeholders(sql, f.kinds.len());
        text::push_str(sql, ")");
        assert(sql@ =~= start + sec_kinds(f@));
    } else {
        assert(sql@ =~= old(sql)@ + sec_kinds(f@));
    }
    push_texts(p, &f.kinds);
}

fn add_flags_rating(f: &Filter, sql: &mut Vec<char>, p: &mut Vec<SqlValue>)
    ensures
        final(sql)@ == old(sql)@ + sec_flags(f@) + sec_rating(f@),
        params_view(final(p)@) == params_view(old(p)@) + par_rating(f@),
{
    let ghost s0 = sql@;
    if f.flags.len() > 0 {
        push_flags(sql, &f.flags);
    }
    let ghost s1 = sql@;
    assert(s1 =~= s0 + sec_flags(f@));
    let ghost p0 = params_view(p@);
    match f.min_rating {
        Some(r) => {
            if r > 0 {
                text::push_str(sql, MIN_RATING);
                p.push(SqlValue::Integer(r));
            }
        },
        None => {},
    }
    assert(sql@ =~= s1 + sec_rating(f@));
    assert(params_view(p@) =~= p0 + par_rating(f@));
}

fn add_text(f: &Filter, sql: &mut Vec<char>, p: &mut Vec<SqlValue>)
    ensures
        final(sql)@ == old(sql)@ + sec_text(f@),
        params_view(final(p)@) == params_view(old(p)@) + word_params(text_words(f@.text)),
{
    match &f.text {
        Some(t) => push_words(sql, p, t.as_str()),
        None => {
            assert(sql@ =~= old(sql)@ + sec_text(f@));
            assert(params_view(p@) =~= params_view(old(p)@) + word_params(text_words(f@.text)));
        },
    }
}

/// The `WHERE` clause (starting with ` WHERE 1`) and its parameters.
pub fn where_clause(f: &Filter) -> (r: (String, Vec<SqlValue>))
    requires
        filter_ok(f@),
    ensures
        r.0@ == where_sql(f@),
        params_view(r.1@) == where_params(f@),
{
    let mut sql: Vec<char> = Vec::new();
    let mut p: Vec<SqlValue> = Vec::new();
    text::push_str(&mut sql, WHERE_ALL);
    assert(sql@ =~= WHERE_ALL@);
    assert(params_view(p@) =~= Seq::<ParamView>::empty());
    add_roots(f, &mut sql, &mut p);
    add_dates(f, &mut sql, &mut p);
    if f.cameras.len() > 0 {
        push_cameras(&mut sql, &mut p, &f.cameras);
    } else {
        assert(named_cameras(strs(f.cameras@)) =~= Seq::<Seq<char>>::empty());
        assert(texts(named_cameras(strs(f.cameras@))) =~= Seq::<ParamView>::empty());
        assert(sql@ =~= sql@ + sec_cameras(f@));
        assert(params_view(p@) =~= params_view(p@) + texts(named_cameras(f@.cameras)));
    }
    push_repeat(&mut sql, KEYWORD_MATCH, f.keywords.len());
    push_texts(&mut p, &f.keywords);
    add_render(f, &mut sql);
    add_ai(f, &mut sql);
    add_missing(f, &mut sql);
    add_kinds(f, &mut sql, &mut p);
    add_flags_rating(f, &mut sql, &mut p);
    add_text(f, &mut sql, &mut p);
    assert(Seq::<ParamView>::empty() + ints(f@.roots) =~= ints(f@.roots));
    (text::string_of(&sql), p)
}

} // verus!
