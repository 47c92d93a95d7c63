//! The fixed-format front matter of an article: a `---` line, three
//! `key: value` lines (`title`, `date`, `tags`), a `---` line, then the body.
use crate::date::{date_of_text, lemma_text_shape, parse_date, Date};
use crate::text::{
    chars_of, copy_range, is_digit, is_ws, join_lines, lemma_line_text, lemma_lines_join,
    lemma_trim_lead_space, lemma_trim_plain, lemma_ws_tokens_append, line_text, lines,
    no_newline, plain_line, push_all, split_lines, split_tokens, string_of, trim, trim_bounds,
    views_of, ws_tokens,
};
use vstd::prelude::*;

verus! {

/// A metadata key.
#[derive(Clone, Copy, Debug, PartialEq, Eq)]
pub enum Field {
    Title,
    Date,
    Tags,
}

/// Why a document's front matter was refused. Line numbers count from 0.
#[derive(Clone, Copy, Debug, PartialEq, Eq)]
pub enum FrontMatterError {
    /// Line 0 or line 4 is missing or is not `---`.
    Format { line_number: usize },
    /// A metadata line starts with no recognized key.
    UnsupportedField { line_number: usize },
    /// A key has nothing after its colon.
    MissingValue { field: Field },
    /// The `date` value is not a `YYYY-MM-DD` date.
    DateParse { line_number: usize },
}

/// A parsed document: its metadata and its body.
#[derive(Clone, Debug)]
pub struct FrontMatter {
    pub title: String,
    pub date: Date,
    pub tags: Vec<String>,
    pub body: String,
}

pub ghost struct FrontMatterView {
    pub title: Seq<char>,
    pub date: Date,
    pub tags: Seq<Seq<char>>,
    pub body: Seq<char>,
}

pub open spec fn string_views(v: Seq<String>) -> Seq<Seq<char>> {
    v.map_values(|s: String| s@)
}

impl View for FrontMatter {
    type V = FrontMatterView;

    open spec fn view(&self) -> FrontMatterView {
        FrontMatterView {
            title: self.title@,
            date: self.date,
            tags: string_views(self.tags@),
            body: self.body@,
        }
    }
}

/// One metadata line's content.
pub ghost enum FieldValue {
    Title(Seq<char>),
    Date(Date),
    Tags(Seq<Seq<char>>),
}

pub open spec fn title_key() -> Seq<char> {
    seq!['t', 'i', 't', 'l', 'e', ':']
}

pub open spec fn date_key() -> Seq<char> {
    seq!['d', 'a', 't', 'e', ':']
}

pub open spec fn tags_key() -> Seq<char> {
    seq!['t', 'a', 'g', 's', ':']
}

pub open spec fn delimiter() -> Seq<char> {
    seq!['-', '-', '-']
}

pub open spec fn starts_with(s: Seq<char>, p: Seq<char>) -> bool {
    p.len() <= s.len() && s.subrange(0, p.len() as int) == p
}

/// The trimmed text after a key.
pub open spec fn value_after(t: Seq<char>, key: Seq<char>) -> Seq<char> {
    trim(t.subrange(key.len() as int, t.len() as int))
}

/// What metadata line `n`, whose text is `l`, holds.
pub open spec fn field_of(l: Seq<char>, n: usize) -> Result<FieldValue, FrontMatterError> {
    let t = trim(l);
    if starts_with(t, title_key()) {
        let v = value_after(t, title_key());
        if v.len() == 0 {
            Err(FrontMatterError::MissingValue { field: Field::Title })
        } else {
            Ok(FieldValue::Title(v))
        }
    } else if starts_with(t, date_key()) {
        let v = value_after(t, date_key());
        if v.len() == 0 {
            Err(FrontMatterError::MissingValue { field: Field::Date })
        } else {
            match date_of_text(v) {
                Some(d) => Ok(FieldValue::Date(d)),
                None => Err(FrontMatterError::DateParse { line_number: n }),
            }
        }
    } else if starts_with(t, tags_key()) {
        let v = value_after(t, tags_key());
        if v.len() == 0 {
            Err(FrontMatterError::MissingValue { field: Field::Tags })
        } else {
            Ok(FieldValue::Tags(ws_tokens(v)))
        }
    } else {
        Err(FrontMatterError::UnsupportedField { line_number: n })
    }
}

/// The date an article has when none of its metadata lines gives one.
pub open spec fn placeholder_date() -> Date {
    Date { year: 2019, month: 4, day: 1 }
}

/// `m` with the metadata of one line written over it.
pub open spec fn apply_field(m: FrontMatterView, f: FieldValue) -> FrontMatterView {
    match f {
        FieldValue::Title(t) => FrontMatterView { title: t, ..m },
        FieldValue::Date(d) => FrontMatterView { date: d, ..m },
        FieldValue::Tags(ts) => FrontMatterView { tags: ts, ..m },
    }
}

pub open spec fn is_delimiter(l: Seq<char>) -> bool {
    trim(l) == delimiter()
}

/// The front matter of the text `src`, or why it has none.
pub open spec fn front_matter_of(src: Seq<char>) -> Result<FrontMatterView, FrontMatterError> {
    let ls = lines(src);
    if ls.len() == 0 || !is_delimiter(ls[0]) {
        Err(FrontMatterError::Format { line_number: 0 })
    } else if ls.len() < 5 || !is_delimiter(ls[4]) {
        Err(FrontMatterError::Format { line_number: 4 })
    } else {
        match field_of(ls[1], 1) {
            Err(e) => Err(e),
            Ok(f1) => match field_of(ls[2], 2) {
                Err(e) => Err(e),
                Ok(f2) => match field_of(ls[3], 3) {
                    Err(e) => Err(e),
                    Ok(f3) => {
                        let empty = FrontMatterView {
                            title: Seq::empty(),
                            date: placeholder_date(),
                            tags: Seq::empty(),
                            body: join_lines(ls.subrange(5, ls.len() as int)),
                        };
                        Ok(apply_field(apply_field(apply_field(empty, f1), f2), f3))
                    },
                },
            },
        }
    }
}

/// Whether `s[lo..hi]` starts with `p`.
fn starts_at(s: &Vec<char>, lo: usize, hi: usize, p: &Vec<char>) -> (r: bool)
    requires
        lo <= hi <= s.len(),
    ensures
        r == starts_with(s@.subrange(lo as int, hi as int), p@),
{
    if p.len() > hi - lo {
        return false;
    }
    let mut k: usize = 0;
    while k < p.len()
        invariant
            p.len() <= hi - lo,
            lo <= hi <= s.len(),
            k <= p.len(),
            forall|j: int| 0 <= j < k ==> s@[lo + j] == p@[j],
        decreases p.len() - k,
    {
        if s[lo + k] != p[k] {
            assert(s@.subrange(lo as int, hi as int)[k as int] != p@[k as int]);
            return false;
        }
        k = k + 1;
    }
    assert(s@.subrange(lo as int, hi as int).subrange(0, p.len() as int) =~= p@);
    true
}

fn is_delimiter_line(l: &Vec<char>) -> (r: bool)
    ensures
        r == is_delimiter(l@),
{
    let (a, b) = trim_bounds(l, 0, l.len());
    assert(l@.subrange(0, l.len() as int) =~= l@);
    let r = b - a == 3 && l[a] == '-' && l[a + 1] == '-' && l[a + 2] == '-';
    proof {
        let t = l@.subrange(a as int, b as int);
        assert(t == trim(l@));
        assert(delimiter().len() == 3);
        assert(delimiter()[0] == '-' && delimiter()[1] == '-' && delimiter()[2] == '-');
        if r {
            assert(t.len() == 3);
            assert(t[0] == '-' && t[1] == '-' && t[2] == '-');
            assert(t =~= delimiter());
        } else if t == delimiter() {
            assert(t[0] == '-' && t[1] == '-' && t[2] == '-');
            assert(l@[a as int] == '-' && l@[a + 1] == '-' && l@[a + 2] == '-');
            assert(false);
        }
    }
    r
}

/// The strings of the given character sequences.
fn strings_of(v: &Vec<Vec<char>>) -> (r: Vec<String>)
    ensures
        string_views(r@) == views_of(v@),
{
    let mut r: Vec<String> = Vec::new();
    let mut k: usize = 0;
    while k < v.len()
        invariant
            k <= v.len(),
            string_views(r@) =~= views_of(v@).subrange(0, k as int),
        decreases v.len() - k,
    {
        let ghost before = r@;
        r.push(string_of(v[k].as_slice()));
        assert(string_views(r@) =~= string_views(before).push(v@[k as int]@));
        k = k + 1;
    }
    assert(views_of(v@).subrange(0, v.len() as int) =~= views_of(v@));
    r
}

/// Exec counterpart of `FieldValue`.
pub enum FieldLine {
    Title(String),
    Date(Date),
    Tags(Vec<String>),
}

impl View for FieldLine {
    type V = FieldValue;

    open spec fn view(&self) -> FieldValue {
        match self {
            FieldLine::Title(t) => FieldValue::Title(t@),
            FieldLine::Date(d) => FieldValue::Date(*d),
            FieldLine::Tags(ts) => FieldValue::Tags(string_views(ts@)),
        }
    }
}

/// If `s[a..b]` starts with `key`, the bounds of the trimmed text after it.
fn value_bounds(s: &Vec<char>, a: usize, b: usize, key: &Vec<char>) -> (r: Option<(usize, usize)>)
    requires
        a <= b <= s.len(),
    ensures
        r is Some <==> starts_with(s@.subrange(a as int, b as int), key@),
        r matches Some(v) ==> v.0 <= v.1 <= s.len() && s@.subrange(v.0 as int, v.1 as int)
            == value_after(s@.subrange(a as int, b as int), key@),
{
    if !starts_at(s, a, b, key) {
        return None;
    }
    let (c, d) = trim_bounds(s, a + key.len(), b);
    assert(s@.subrange(a + key.len(), b as int) =~= s@.subrange(a as int, b as int).subrange(
        key.len() as int,
        (b - a) as int,
    ));
    Some((c, d))
}

fn parse_field(l: &Vec<char>, n: usize) -> (r: Result<FieldLine, FrontMatterError>)
    ensures
        match r {
            Ok(f) => field_of(l@, n) == Ok::<FieldValue, FrontMatterError>(f@),
            Err(e) => field_of(l@, n) == Err::<FieldValue, FrontMatterError>(e),
        },
        forall|d: Date|
            d.wf() && 0 <= d.year <= 9999 && #[trigger] date_line(d) == trim(l@) ==> date_of_text(
                d.text(),
            ) == Some(d),
{
    let (a, b) = trim_bounds(l, 0, l.len());
    assert(l@.subrange(0, l.len() as int) =~= l@);
    let ghost t = trim(l@);
    assert(t == l@.subrange(a as int, b as int));
    let title = vec!['t', 'i', 't', 'l', 'e', ':'];
    let date = vec!['d', 'a', 't', 'e', ':'];
    let tags = vec!['t', 'a', 'g', 's', ':'];
    assert(title@ =~= title_key());
    assert(date@ =~= date_key());
    assert(tags@ =~= tags_key());
    let r = if let Some((c, d)) = value_bounds(l, a, b, &title) {
        if c == d {
            Err(FrontMatterError::MissingValue { field: Field::Title })
        } else {
            Ok(FieldLine::Title(string_of(copy_range(l, c, d).as_slice())))
        }
    } else if let Some((c, d)) = value_bounds(l, a, b, &date) {
        if c == d {
            Err(FrontMatterError::MissingValue { field: Field::Date })
        } else {
            let text = string_of(copy_range(l, c, d).as_slice());
            match parse_date(text.as_str()) {
                Some(dt) => Ok(FieldLine::Date(dt)),
                None => Err(FrontMatterError::DateParse { line_number: n }),
            }
        }
    } else if let Some((c, d)) = value_bounds(l, a, b, &tags) {
        if c == d {
            Err(FrontMatterError::MissingValue { field: Field::Tags })
        } else {
            let toks = split_tokens(l, c, d);
            Ok(FieldLine::Tags(strings_of(&toks)))
        }
    } else {
        Err(FrontMatterError::UnsupportedField { line_number: n })
    };
    proof {
        assert forall|dt: Date|
            dt.wf() && 0 <= dt.year <= 9999 && #[trigger] date_line(dt) == t implies date_of_text(
                dt.text(),
            ) == Some(dt) by {
            lemma_date_line(dt);
        }
    }
    r
}

/// Splits a document into its front matter and body.
///
/// Line 0 and line 4 must be `---` (after trimming); lines 1 to 3 each hold
/// one of `title: `, `date: ` or `tags: ` with a value, a later line taking
/// precedence over an earlier one with the same key; every later line is
/// part of the body, each followed by a line feed.
pub fn decompose_source(source: &str) -> (r: Result<FrontMatter, FrontMatterError>)
    ensures
        match r {
            Ok(fm) => front_matter_of(source@) == Ok::<FrontMatterView, FrontMatterError>(fm@),
            Err(e) => front_matter_of(source@) == Err::<FrontMatterView, FrontMatterError>(e),
        },
        // A well-formed document is read back from its serialization.
        forall|m: FrontMatterView|
            well_formed(m) && #[trigger] serialized(m) == source@ ==> (r matches Ok(fm) && fm@
                == m),
{
    let cs = chars_of(source);
    let ls = split_lines(&cs);
    let ghost lv = lines(source@);
    assert(views_of(ls@) == lv);
    assert(ls.len() == lv.len());
    if ls.len() == 0 || !is_delimiter_line(&ls[0]) {
        proof {
            lemma_not_serialized(source@);
        }
        return Err(FrontMatterError::Format { line_number: 0 });
    }
    if ls.len() < 5 || !is_delimiter_line(&ls[4]) {
        proof {
            lemma_not_serialized(source@);
        }
        return Err(FrontMatterError::Format { line_number: 4 });
    }
    assert(lv[1] == ls@[1]@ && lv[2] == ls@[2]@ && lv[3] == ls@[3]@);
    let first = parse_field(&ls[1], 1);
    let second = parse_field(&ls[2], 2);
    let third = parse_field(&ls[3], 3);
    proof {
        assert forall|m: FrontMatterView|
            well_formed(m) && #[trigger] serialized(m) == source@ implies front_matter_of(source@)
            == Ok::<FrontMatterView, FrontMatterError>(m) by {
            lemma_serialized_lines(m);
            lemma_date_line(m.date);
            lemma_round_trip(m);
        }
    }
    let f1 = match first {
        Ok(f) => f,
        Err(e) => return Err(e),
    };
    let f2 = match second {
        Ok(f) => f,
        Err(e) => return Err(e),
    };
    let f3 = match third {
        Ok(f) => f,
        Err(e) => return Err(e),
    };
    let mut body: Vec<char> = Vec::new();
    let mut k: usize = 5;
    while k < ls.len()
        invariant
            5 <= k <= ls.len(),
            views_of(ls@) == lv,
            body@ == join_lines(lv.subrange(5, k as int)),
        decreases ls.len() - k,
    {
        assert(lv.subrange(5, k + 1).drop_last() =~= lv.subrange(5, k as int));
        push_all(&mut body, &ls[k]);
        body.push('\n');
        k = k + 1;
    }
    let mut fm = FrontMatter {
        title: String::new(),
        date: Date { year: 2019, month: 4, day: 1 },
        tags: Vec::new(),
        body: string_of(body.as_slice()),
    };
    assert(string_views(fm.tags@) =~= Seq::<Seq<char>>::empty());
    apply_line(&mut fm, f1);
    apply_line(&mut fm, f2);
    apply_line(&mut fm, f3);
    Ok(fm)
}

fn apply_line(fm: &mut FrontMatter, f: FieldLine)
    ensures
        final(fm)@ == apply_field(old(fm)@, f@),
{
    match f {
        FieldLine::Title(t) => fm.title = t,
        FieldLine::Date(d) => fm.date = d,
        FieldLine::Tags(ts) => fm.tags = ts,
    }
}

/// The tokens joined by single spaces.
pub open spec fn join_tokens(ts: Seq<Seq<char>>) -> Seq<char>
    decreases ts.len(),
{
    if ts.len() == 0 {
        Seq::empty()
    } else if ts.len() == 1 {
        ts[0]
    } else {
        join_tokens(ts.drop_last()) + seq![' '] + ts.last()
    }
}

pub open spec fn title_line(t: Seq<char>) -> Seq<char> {
    title_key() + seq![' '] + t
}

pub open spec fn date_line(d: Date) -> Seq<char> {
    date_key() + seq![' '] + d.text()
}

pub open spec fn tags_line(ts: Seq<Seq<char>>) -> Seq<char> {
    tags_key() + seq![' '] + join_tokens(ts)
}

pub open spec fn header_lines(m: FrontMatterView) -> Seq<Seq<char>> {
    seq![delimiter(), title_line(m.title), date_line(m.date), tags_line(m.tags), delimiter()]
}

/// The text of a document: its front matter, then its body.
pub open spec fn serialized(m: FrontMatterView) -> Seq<char> {
    join_lines(header_lines(m)) + m.body
}

pub open spec fn is_token(t: Seq<char>) -> bool {
    t.len() > 0 && forall|i: int| 0 <= i < t.len() ==> !is_ws(#[trigger] t[i])
}

/// A document that its serialization represents faithfully: a one-line
/// title without surrounding whitespace, a date of a four-digit year, at
/// least one tag, each free of whitespace, and a body of whole lines without
/// `\r\n` endings.
pub open spec fn well_formed(m: FrontMatterView) -> bool {
    &&& m.title.len() > 0
    &&& !is_ws(m.title[0])
    &&& !is_ws(m.title.last())
    &&& no_newline(m.title)
    &&& m.date.wf()
    &&& 0 <= m.date.year <= 9999
    &&& m.tags.len() > 0
    &&& forall|i: int| 0 <= i < m.tags.len() ==> is_token(#[trigger] m.tags[i])
    &&& line_text(m.body)
}

pub proof fn lemma_digit_not_ws(c: char)
    requires
        is_digit(c) || c == '-',
    ensures
        !is_ws(c),
        c != '\n',
        c != '\r',
{
}

proof fn lemma_join_tokens(ts: Seq<Seq<char>>)
    requires
        ts.len() > 0,
        forall|i: int| 0 <= i < ts.len() ==> is_token(#[trigger] ts[i]),
    ensures
        ws_tokens(join_tokens(ts)) == ts,
        join_tokens(ts).len() > 0,
        join_tokens(ts)[0] == ts[0][0],
        join_tokens(ts).last() == ts.last().last(),
        forall|i: int|
            0 <= i < join_tokens(ts).len() ==> #[trigger] join_tokens(ts)[i] == ' ' || !is_ws(
                join_tokens(ts)[i],
            ),
    decreases ts.len(),
{
    let t = ts.last();
    assert(is_token(ts[ts.len() - 1]));
    if ts.len() == 1 {
        lemma_ws_tokens_append(Seq::empty(), t);
        assert(Seq::<char>::empty() + t =~= t);
        assert(seq![t] =~= ts);
    } else {
        let init = ts.drop_last();
        assert forall|i: int| 0 <= i < init.len() implies is_token(#[trigger] init[i]) by {
            assert(init[i] == ts[i]);
        }
        lemma_join_tokens(init);
        let j = join_tokens(init);
        let p = j + seq![' '];
        assert(p.drop_last() =~= j);
        lemma_ws_tokens_append(p, t);
        assert(join_tokens(ts) =~= p + t);
        assert(init.push(t) =~= ts);
        let jt = join_tokens(ts);
        assert forall|i: int| 0 <= i < jt.len() implies #[trigger] jt[i] == ' ' || !is_ws(jt[i]) by {
            if i < j.len() {
                assert(jt[i] == j[i]);
            } else if i > j.len() {
                assert(jt[i] == t[i - j.len() - 1]);
            }
        }
    }
}

/// What the date line of a date reads as.
proof fn lemma_date_line(d: Date)
    requires
        d.wf(),
        0 <= d.year <= 9999,
    ensures
        plain_line(date_line(d)),
        trim(date_line(d)) == date_line(d),
        !starts_with(date_line(d), title_key()),
        starts_with(date_line(d), date_key()),
        value_after(date_line(d), date_key()) == d.text(),
        field_of(date_line(d), 2) == match date_of_text(d.text()) {
            Some(x) => Ok::<FieldValue, FrontMatterError>(FieldValue::Date(x)),
            None => Err(FrontMatterError::DateParse { line_number: 2 }),
        },
{
    lemma_text_shape(d);
    let l = date_line(d);
    let x = d.text();
    assert(l.len() == 16);
    assert(l[0] == 'd');
    assert(l.last() == x[9]);
    lemma_digit_not_ws(x[0]);
    lemma_digit_not_ws(x[9]);
    assert forall|i: int| 0 <= i < l.len() implies l[i] != '\n' by {
        if i >= 6 {
            assert(l[i] == x[i - 6]);
            lemma_digit_not_ws(x[i - 6]);
        }
    }
    lemma_trim_plain(l);
    assert(l.subrange(0, 5) =~= date_key());
    assert(l.subrange(5, 16) =~= seq![' '] + x);
    lemma_trim_lead_space(x);
}

proof fn lemma_title_line(t: Seq<char>)
    requires
        t.len() > 0,
        !is_ws(t[0]),
        !is_ws(t.last()),
        no_newline(t),
    ensures
        plain_line(title_line(t)),
        field_of(title_line(t), 1) == Ok::<FieldValue, FrontMatterError>(FieldValue::Title(t)),
{
    let l = title_line(t);
    assert(l[0] == 't');
    assert(l.last() == t.last());
    assert forall|i: int| 0 <= i < l.len() implies l[i] != '\n' by {
        if i >= 7 {
            assert(l[i] == t[i - 7]);
        }
    }
    lemma_trim_plain(l);
    assert(l.subrange(0, 6) =~= title_key());
    assert(l.subrange(6, l.len() as int) =~= seq![' '] + t);
    lemma_trim_lead_space(t);
}

proof fn lemma_tags_line(ts: Seq<Seq<char>>)
    requires
        ts.len() > 0,
        forall|i: int| 0 <= i < ts.len() ==> is_token(#[trigger] ts[i]),
    ensures
        plain_line(tags_line(ts)),
        field_of(tags_line(ts), 3) == Ok::<FieldValue, FrontMatterError>(FieldValue::Tags(ts)),
{
    lemma_join_tokens(ts);
    let j = join_tokens(ts);
    let l = tags_line(ts);
    assert(is_token(ts[0]));
    assert(is_token(ts[ts.len() - 1]));
    assert(l[0] == 't');
    assert(l[1] == 'a');
    assert(l.last() == j.last());
    assert(!is_ws(j[0]));
    assert forall|i: int| 0 <= i < l.len() implies l[i] != '\n' by {
        if i >= 6 {
            assert(l[i] == j[i - 6]);
        }
    }
    lemma_trim_plain(l);
    assert(!starts_with(l, title_key())) by {
        if starts_with(l, title_key()) {
            assert(l.subrange(0, 6)[1] == title_key()[1]);
        }
    }
    assert(!starts_with(l, date_key())) by {
        if starts_with(l, date_key()) {
            assert(l.subrange(0, 5)[0] == date_key()[0]);
        }
    }
    assert(l.subrange(0, 5) =~= tags_key());
    assert(l.subrange(5, l.len() as int) =~= seq![' '] + j);
    lemma_trim_lead_space(j);
}

proof fn lemma_delimiter()
    ensures
        plain_line(delimiter()),
        is_delimiter(delimiter()),
{
    let l = delimiter();
    assert(l[0] == '-' && l[1] == '-' && l[2] == '-');
    lemma_trim_plain(l);
}

/// The lines of a serialized document.
proof fn lemma_serialized_lines(m: FrontMatterView)
    requires
        well_formed(m),
    ensures
        lines(serialized(m)) == header_lines(m) + lines(m.body),
{
    let h = header_lines(m);
    lemma_delimiter();
    lemma_title_line(m.title);
    lemma_date_line(m.date);
    lemma_tags_line(m.tags);
    assert forall|i: int| 0 <= i < h.len() implies plain_line(#[trigger] h[i]) by {
        if i == 0 || i == 4 {
            assert(h[i] == delimiter());
        }
    }
    lemma_lines_join(h, m.body);
}

/// What the parse of a serialized document yields: the document, but with
/// the date read back from its text.
proof fn lemma_round_trip(m: FrontMatterView)
    requires
        well_formed(m),
    ensures
        front_matter_of(serialized(m)) == match date_of_text(m.date.text()) {
            Some(d) => Ok::<FrontMatterView, FrontMatterError>(FrontMatterView { date: d, ..m }),
            None => Err(FrontMatterError::DateParse { line_number: 2 }),
        },
{
    lemma_serialized_lines(m);
    lemma_delimiter();
    lemma_title_line(m.title);
    lemma_date_line(m.date);
    lemma_tags_line(m.tags);
    lemma_line_text(m.body);
    let ls = lines(serialized(m));
    assert(ls[0] == delimiter() && ls[4] == delimiter());
    assert(ls[1] == title_line(m.title));
    assert(ls[2] == date_line(m.date));
    assert(ls[3] == tags_line(m.tags));
    assert(ls.subrange(5, ls.len() as int) =~= lines(m.body));
}

/// Text whose parse fails for want of a `---` line is no serialization.
proof fn lemma_not_serialized(src: Seq<char>)
    requires
        front_matter_of(src) matches Err(FrontMatterError::Format { .. }),
    ensures
        forall|m: FrontMatterView| well_formed(m) ==> #[trigger] serialized(m) != src,
{
    assert forall|m: FrontMatterView| well_formed(m) implies #[trigger] serialized(m) != src by {
        lemma_round_trip(m);
    }
}

/// A document whose line 0 or line 4 is missing or is not `---` is refused
/// with a format error.
pub proof fn lemma_missing_delimiter_is_format_error(src: Seq<char>)
    requires
        !(lines(src).len() > 0 && is_delimiter(lines(src)[0])) || !(lines(src).len() > 4
            && is_delimiter(lines(src)[4])),
    ensures
        front_matter_of(src) matches Err(FrontMatterError::Format { .. }),
{
}

/// The text of a document: `---`, the three metadata lines, `---`, then
/// the body; tags are separated by single spaces.
pub fn serialize(fm: &FrontMatter) -> (r: String)
    ensures
        r@ == serialized(fm@),
{
    let ghost m = fm@;
    let mut out: Vec<char> = Vec::new();
    let dash = vec!['-', '-', '-'];
    let title = vec!['t', 'i', 't', 'l', 'e', ':', ' '];
    let date = vec!['d', 'a', 't', 'e', ':', ' '];
    let tags = vec!['t', 'a', 'g', 's', ':', ' '];
    assert(dash@ =~= delimiter());
    push_all(&mut out, &dash);
    out.push('\n');
    push_all(&mut out, &title);
    push_all(&mut out, &chars_of(fm.title.as_str()));
    out.push('\n');
    push_all(&mut out, &date);
    fm.date.push_text(&mut out);
    out.push('\n');
    push_all(&mut out, &tags);
    let ghost before_tags = out@;
    let mut k: usize = 0;
    while k < fm.tags.len()
        invariant
            m == fm@,
            k <= fm.tags.len(),
            out@ == before_tags + join_tokens(m.tags.subrange(0, k as int)),
        decreases fm.tags.len() - k,
    {
        let ghost prev = m.tags.subrange(0, k as int);
        let ghost next = m.tags.subrange(0, k + 1);
        assert(next.drop_last() =~= prev);
        if k > 0 {
            out.push(' ');
        }
        push_all(&mut out, &chars_of(fm.tags[k].as_str()));
        proof {
            if k == 0 {
                assert(next =~= seq![m.tags[0]]);
                assert(out@ =~= before_tags + join_tokens(next));
            } else {
                assert(out@ =~= before_tags + join_tokens(next));
            }
        }
        k = k + 1;
    }
    assert(m.tags.subrange(0, fm.tags.len() as int) =~= m.tags);
    out.push('\n');
    push_all(&mut out, &dash);
    out.push('\n');
    push_all(&mut out, &chars_of(fm.body.as_str()));
    proof {
        let h = header_lines(m);
        assert(title_key() + seq![' '] =~= title@);
        assert(date_key() + seq![' '] =~= date@);
        assert(tags_key() + seq![' '] =~= tags@);
        let nl = seq!['\n'];
        let h0 = Seq::<Seq<char>>::empty();
        let h1 = h0.push(delimiter());
        let h2 = h1.push(title_line(m.title));
        let h3 = h2.push(date_line(m.date));
        let h4 = h3.push(tags_line(m.tags));
        let h5 = h4.push(delimiter());
        assert(h5 =~= h);
        assert(h5.drop_last() =~= h4);
        assert(h4.drop_last() =~= h3);
        assert(h3.drop_last() =~= h2);
        assert(h2.drop_last() =~= h1);
        assert(h1.drop_last() =~= h0);
        assert(join_lines(h0) =~= Seq::<char>::empty());
        assert(h1.last() == delimiter());
        assert(join_lines(h1) == join_lines(h0) + delimiter() + nl);
        assert(join_lines(h1) =~= delimiter() + nl);
        assert(join_lines(h2) =~= join_lines(h1) + title_line(m.title) + nl);
        assert(join_lines(h3) =~= join_lines(h2) + date_line(m.date) + nl);
        assert(join_lines(h4) =~= join_lines(h3) + tags_line(m.tags) + nl);
        assert(join_lines(h5) =~= join_lines(h4) + delimiter() + nl);
        assert(out@ =~= serialized(m));
    }
    string_of(out.as_slice())
}

} // verus!
