//! Dictionary sources and the two on-disk dictionary formats.
//!
//! A source names where its bytes come from (a file or a URL), the
//! character set they are in, and which format parses them.  The parsers
//! turn decoded text into headword records; resolving a source to bytes is
//! input/output and lives in the surrounding application.

use vstd::prelude::*;

verus! {

use vstd::string::{StrSliceExecFns, StringExecFns};

use crate::encoding::{decode_spec, decode_text, Encoding};
use crate::handler::{Entry, EntryView};
use crate::store::{records_view, RecordView};
use crate::text::{
    find_char, find_in_str, is_blank, line_is_blank, lines_of, split_char, split_lines, split_on,
    str_eq,
};

/// The on-disk dictionary formats.
#[derive(Clone, Copy, Debug, PartialEq, Eq, Structural)]
pub enum DictFormat {
    Skk,
    Mozc,
}

impl DictFormat {
    /// The display name of the format.
    pub fn to_str(&self) -> (r: String)
        ensures
            self is Skk ==> r@ == "Skk"@,
            self is Mozc ==> r@ == "Mozc"@,
    {
        match self {
            DictFormat::Skk => String::from_str("Skk"),
            DictFormat::Mozc => String::from_str("Mozc"),
        }
    }

    /// The format a display name stands for; anything unrecognized falls
    /// back to the Skk format.
    pub fn from_str(s: &str) -> (r: DictFormat)
        ensures
            r == (if s@ == "Mozc"@ {
                DictFormat::Mozc
            } else {
                DictFormat::Skk
            }),
    {
        if str_eq(s, "Mozc") {
            DictFormat::Mozc
        } else {
            DictFormat::Skk
        }
    }
}

/// The character set a dictionary source is read in when none is given.
pub fn default_encoding() -> (r: Encoding)
    ensures
        r == Encoding::Utf8,
{
    Encoding::Utf8
}

/// The format a dictionary source is parsed in when none is given.
pub fn default_format() -> (r: DictFormat)
    ensures
        r == DictFormat::Skk,
{
    DictFormat::Skk
}

/// Where a dictionary's bytes come from: a local file path, or a URL whose
/// body is fetched and cached.
#[derive(Clone, Debug, PartialEq, Eq)]
pub enum DictPath {
    File { path: String },
    Url { url: String },
}

/// One configured dictionary source.
#[derive(Clone, Debug, PartialEq, Eq)]
pub struct DictDef {
    pub path_or_url: DictPath,
    pub encoding: Encoding,
    pub format: DictFormat,
}

/// The mathematical shape of a [`DictPath`].
pub enum DictPathView {
    File { path: Seq<char> },
    Url { url: Seq<char> },
}

/// The mathematical shape of a [`DictDef`].
pub struct DictDefView {
    pub path_or_url: DictPathView,
    pub encoding: Encoding,
    pub format: DictFormat,
}

impl View for DictPath {
    type V = DictPathView;

    open spec fn view(&self) -> DictPathView {
        match self {
            DictPath::File { path } => DictPathView::File { path: path@ },
            DictPath::Url { url } => DictPathView::Url { url: url@ },
        }
    }
}

impl DeepView for DictPath {
    type V = DictPathView;

    open spec fn deep_view(&self) -> DictPathView {
        self.view()
    }
}

impl View for DictDef {
    type V = DictDefView;

    open spec fn view(&self) -> DictDefView {
        DictDefView {
            path_or_url: self.path_or_url@,
            encoding: self.encoding,
            format: self.format,
        }
    }
}

impl DeepView for DictDef {
    type V = DictDefView;

    open spec fn deep_view(&self) -> DictDefView {
        self.view()
    }
}

/// Decide whether two dictionary sources are the same.
pub fn dict_def_equals(a: &DictDef, b: &DictDef) -> (r: bool)
    ensures
        r == (a@ == b@),
{
    let paths_equal = match (&a.path_or_url, &b.path_or_url) {
        (DictPath::File { path: pa }, DictPath::File { path: pb }) => str_eq(
            pa.as_str(),
            pb.as_str(),
        ),
        (DictPath::Url { url: ua }, DictPath::Url { url: ub }) => str_eq(ua.as_str(), ub.as_str()),
        _ => false,
    };
    paths_equal && matches!(
        (a.encoding, b.encoding),
        (Encoding::Utf8, Encoding::Utf8) | (Encoding::Eucjp, Encoding::Eucjp)
    ) && matches!(
        (a.format, b.format),
        (DictFormat::Skk, DictFormat::Skk) | (DictFormat::Mozc, DictFormat::Mozc)
    )
}

/// What `url::Url::parse` accepts; a function of the string alone.
pub uninterp spec fn url_ok(s: Seq<char>) -> bool;

/// Relies on `url::Url::parse`: whether a string is an absolute URL that
/// the parser accepts depends on the string alone.
#[verifier::external_body]
fn url_is_valid(s: &str) -> (r: bool)
    ensures
        r == url_ok(s@),
{
    url::Url::parse(s).is_ok()
}

impl DictDef {
    /// The location as text: the file path, or the URL.
    pub fn get_path_url_str(&self) -> (r: String)
        ensures
            match self.path_or_url {
                DictPath::File { path } => r@ == path@,
                DictPath::Url { url } => r@ == url@,
            },
    {
        match &self.path_or_url {
            DictPath::File { path } => path.clone(),
            DictPath::Url { url } => url.clone(),
        }
    }

    /// The kind of the location, as the configuration front end shows it.
    pub fn to_type_str(&self) -> (r: String)
        ensures
            match self.path_or_url {
                DictPath::File { .. } => r@ == "File"@,
                DictPath::Url { .. } => r@ == "Url"@,
            },
    {
        match &self.path_or_url {
            DictPath::File { .. } => String::from_str("File"),
            DictPath::Url { .. } => String::from_str("Url"),
        }
    }

    /// Replace the location, keeping its kind.  A new URL must parse as
    /// one; a file path is taken as it is.
    pub fn set_path_url(&mut self, s: &str) -> (r: Result<(), crate::error::Error>)
        ensures
            match old(self).path_or_url {
                DictPath::File { .. } => r is Ok && (final(self).path_or_url matches DictPath::File {
                    path,
                } && path@ == s@),
                DictPath::Url { .. } => {
                    &&& (r is Ok <==> url_ok(s@))
                    &&& (r is Ok ==> (final(self).path_or_url matches DictPath::Url { url } && url@
                        == s@))
                    &&& (r is Err ==> *final(self) == *old(self))
                },
            },
            final(self).encoding == old(self).encoding,
            final(self).format == old(self).format,
    {
        match &self.path_or_url {
            DictPath::File { .. } => {
                self.path_or_url = DictPath::File { path: String::from_str(s) };
                Ok(())
            },
            DictPath::Url { .. } => {
                if url_is_valid(s) {
                    self.path_or_url = DictPath::Url { url: String::from_str(s) };
                    Ok(())
                } else {
                    Err(crate::error::Error::Parse)
                }
            },
        }
    }

    /// Switch the kind of the location.  Moving to a URL installs a
    /// placeholder; moving to a file installs an empty path; anything else
    /// changes nothing.
    pub fn set_type(&mut self, new_source_type: &str)
        ensures
            final(self).encoding == old(self).encoding,
            final(self).format == old(self).format,
            match old(self).path_or_url {
                DictPath::File { .. } => {
                    if new_source_type@ == "Url"@ {
                        final(self).path_or_url matches DictPath::Url { url } && url@
                            == "http://example.com"@
                    } else {
                        *final(self) == *old(self)
                    }
                },
                DictPath::Url { .. } => {
                    if new_source_type@ == "File"@ {
                        final(self).path_or_url matches DictPath::File { path } && path@
                            == Seq::<char>::empty()
                    } else {
                        *final(self) == *old(self)
                    }
                },
            },
    {
        match &self.path_or_url {
            DictPath::File { .. } => {
                if str_eq(new_source_type, "Url") {
                    self.path_or_url = DictPath::Url {
                        url: String::from_str("http://example.com"),
                    };
                }
            },
            DictPath::Url { .. } => {
                if str_eq(new_source_type, "File") {
                    let empty = String::new();
                    self.path_or_url = DictPath::File { path: empty };
                }
            },
        }
    }
}

/// The entry one slash-delimited token stands for: the part before the
/// first `;` is the candidate, anything after it the annotation.
pub open spec fn skk_token_entry(tok: Seq<char>) -> EntryView {
    match find_char(tok, ';') {
        Some(i) => EntryView { candidate: tok.take(i), description: Some(tok.skip(i + 1)) },
        None => EntryView { candidate: tok, description: None },
    }
}

/// The entries of an Skk entries region, one per non-empty slash token, in
/// order.
pub open spec fn skk_entries(toks: Seq<Seq<char>>) -> Seq<EntryView>
    decreases toks.len(),
{
    if toks.len() == 0 {
        Seq::empty()
    } else {
        let rest = skk_entries(toks.drop_first());
        if toks[0].len() == 0 {
            rest
        } else {
            seq![skk_token_entry(toks[0])] + rest
        }
    }
}

/// The record an Skk dictionary line stands for: nothing for a blank or
/// comment line or one without a space; otherwise the headword before the
/// first space and the entries of the region after it.
pub open spec fn skk_line_record(l: Seq<char>) -> Option<RecordView> {
    if line_is_blank(l) || l[0] == ';' {
        None
    } else {
        match find_char(l, ' ') {
            Some(i) => Some(
                RecordView {
                    headword: l.take(i),
                    entries: skk_entries(split_char(l.skip(i + 1), '/')),
                },
            ),
            None => None,
        }
    }
}

/// The record a Mozc dictionary line stands for: nothing for a blank or
/// comment line or one without a second tab field; otherwise the first
/// field as headword and one entry whose candidate is the second field and
/// whose annotation is the fourth, if present.
pub open spec fn mozc_line_record(l: Seq<char>) -> Option<RecordView> {
    if line_is_blank(l) || l[0] == '#' {
        None
    } else {
        let f = split_char(l, '\t');
        if f.len() < 2 {
            None
        } else {
            Some(
                RecordView {
                    headword: f[0],
                    entries: seq![
                        EntryView {
                            candidate: f[1],
                            description: if f.len() >= 4 {
                                Some(f[3])
                            } else {
                                None
                            },
                        },
                    ],
                },
            )
        }
    }
}

/// The records of a sequence of lines under a per-line parse.
pub open spec fn skk_records(lines: Seq<Seq<char>>) -> Seq<RecordView>
    decreases lines.len(),
{
    if lines.len() == 0 {
        Seq::empty()
    } else {
        (match skk_line_record(lines[0]) {
            Some(r) => seq![r],
            None => Seq::<RecordView>::empty(),
        }) + skk_records(lines.drop_first())
    }
}

/// See [`skk_records`].
pub open spec fn mozc_records(lines: Seq<Seq<char>>) -> Seq<RecordView>
    decreases lines.len(),
{
    if lines.len() == 0 {
        Seq::empty()
    } else {
        (match mozc_line_record(lines[0]) {
            Some(r) => seq![r],
            None => Seq::<RecordView>::empty(),
        }) + mozc_records(lines.drop_first())
    }
}

proof fn lemma_skk_records_take_step(lines: Seq<Seq<char>>, i: int)
    requires
        0 <= i < lines.len(),
    ensures
        skk_records(lines.take(i + 1)) == skk_records(lines.take(i)) + (match skk_line_record(
            lines[i],
        ) {
            Some(r) => seq![r],
            None => Seq::<RecordView>::empty(),
        }),
    decreases i,
{
    let t1 = lines.take(i + 1);
    assert(t1[0] == lines[0]);
    if i == 0 {
        assert(t1.drop_first() =~~= lines.take(0));
        assert(skk_records(lines.take(0)) =~~= Seq::<RecordView>::empty());
        assert(skk_records(t1.drop_first()) =~~= Seq::<RecordView>::empty());
        assert(skk_records(lines.take(1)) =~~= (match skk_line_record(lines[0]) {
            Some(r) => seq![r],
            None => Seq::<RecordView>::empty(),
        }));
        assert(skk_records(lines.take(0)) + (match skk_line_record(lines[0]) {
            Some(r) => seq![r],
            None => Seq::<RecordView>::empty(),
        }) =~~= (match skk_line_record(lines[0]) {
            Some(r) => seq![r],
            None => Seq::<RecordView>::empty(),
        }));
    } else {
        lemma_skk_records_take_step(lines.drop_first(), i - 1);
        assert(t1.drop_first() =~~= lines.drop_first().take(i));
        assert(lines.take(i).drop_first() =~~= lines.drop_first().take(i - 1));
        assert(lines.drop_first()[i - 1] == lines[i]);
        assert(skk_records(lines.take(i)) == (match skk_line_record(lines[0]) {
            Some(r) => seq![r],
            None => Seq::<RecordView>::empty(),
        }) + skk_records(lines.drop_first().take(i - 1))) by {
            assert(lines.take(i)[0] == lines[0]);
        }
        assert(skk_records(lines.take(i + 1)) == (match skk_line_record(lines[0]) {
            Some(r) => seq![r],
            None => Seq::<RecordView>::empty(),
        }) + skk_records(lines.drop_first().take(i)));
        assert((match skk_line_record(lines[0]) {
            Some(r) => seq![r],
            None => Seq::<RecordView>::empty(),
        }) + (skk_records(lines.drop_first().take(i - 1)) + (match skk_line_record(lines[i]) {
            Some(r) => seq![r],
            None => Seq::<RecordView>::empty(),
        })) =~~= ((match skk_line_record(lines[0]) {
            Some(r) => seq![r],
            None => Seq::<RecordView>::empty(),
        }) + skk_records(lines.drop_first().take(i - 1))) + (match skk_line_record(lines[i]) {
            Some(r) => seq![r],
            None => Seq::<RecordView>::empty(),
        }));
    }
}

proof fn lemma_mozc_records_take_step(lines: Seq<Seq<char>>, i: int)
    requires
        0 <= i < lines.len(),
    ensures
        mozc_records(lines.take(i + 1)) == mozc_records(lines.take(i)) + (match mozc_line_record(
            lines[i],
        ) {
            Some(r) => seq![r],
            None => Seq::<RecordView>::empty(),
        }),
    decreases i,
{
    let t1 = lines.take(i + 1);
    assert(t1[0] == lines[0]);
    if i == 0 {
        assert(t1.drop_first() =~~= lines.take(0));
        assert(mozc_records(lines.take(0)) =~~= Seq::<RecordView>::empty());
        assert(mozc_records(t1.drop_first()) =~~= Seq::<RecordView>::empty());
        assert(mozc_records(lines.take(1)) =~~= (match mozc_line_record(lines[0]) {
            Some(r) => seq![r],
            None => Seq::<RecordView>::empty(),
        }));
        assert(mozc_records(lines.take(0)) + (match mozc_line_record(lines[0]) {
            Some(r) => seq![r],
            None => Seq::<RecordView>::empty(),
        }) =~~= (match mozc_line_record(lines[0]) {
            Some(r) => seq![r],
            None => Seq::<RecordView>::empty(),
        }));
    } else {
        lemma_mozc_records_take_step(lines.drop_first(), i - 1);
        assert(t1.drop_first() =~~= lines.drop_first().take(i));
        assert(lines.take(i).drop_first() =~~= lines.drop_first().take(i - 1));
        assert(lines.drop_first()[i - 1] == lines[i]);
        assert(mozc_records(lines.take(i)) == (match mozc_line_record(lines[0]) {
            Some(r) => seq![r],
            None => Seq::<RecordView>::empty(),
        }) + mozc_records(lines.drop_first().take(i - 1))) by {
            assert(lines.take(i)[0] == lines[0]);
        }
        assert(mozc_records(lines.take(i + 1)) == (match mozc_line_record(lines[0]) {
            Some(r) => seq![r],
            None => Seq::<RecordView>::empty(),
        }) + mozc_records(lines.drop_first().take(i)));
        assert((match mozc_line_record(lines[0]) {
            Some(r) => seq![r],
            None => Seq::<RecordView>::empty(),
        }) + (mozc_records(lines.drop_first().take(i - 1)) + (match mozc_line_record(lines[i]) {
            Some(r) => seq![r],
            None => Seq::<RecordView>::empty(),
        })) =~~= ((match mozc_line_record(lines[0]) {
            Some(r) => seq![r],
            None => Seq::<RecordView>::empty(),
        }) + mozc_records(lines.drop_first().take(i - 1))) + (match mozc_line_record(lines[i]) {
            Some(r) => seq![r],
            None => Seq::<RecordView>::empty(),
        }));
    }
}

/// Parse one Skk line's entries region into entries.
fn skk_parse_entries(region: &str) -> (r: Vec<Entry>)
    ensures
        r.deep_view() == skk_entries(split_char(region@, '/')),
{
    let toks = split_on(region, '/');
    let ghost tv = toks.deep_view();
    let n = toks.len();
    let mut r: Vec<Entry> = Vec::new();
    let mut i: usize = 0;
    proof {
        assert(tv.skip(0) =~~= tv);
    }
    while i < n
        invariant
            n == toks@.len(),
            0 <= i <= n,
            tv == toks.deep_view(),
            tv.len() == n,
            r.deep_view() + skk_entries(tv.skip(i as int)) == skk_entries(tv),
        decreases n - i,
    {
        let tok = &toks[i];
        proof {
            assert(tok@ == tv[i as int]);
            assert(tv.skip(i as int)[0] == tv[i as int]);
            assert(tv.skip(i as int).drop_first() =~~= tv.skip(i + 1 as int));
        }
        if tok.unicode_len() > 0 {
            let entry = match find_in_str(tok.as_str(), ';') {
                Some(p) => {
                    proof {
                        crate::text::lemma_find_char(tok@, ';');
                    }
                    let candidate = String::from_str(tok.as_str().substring_char(0, p));
                    let description = String::from_str(
                        tok.as_str().substring_char(p + 1, tok.unicode_len()),
                    );
                    proof {
                        assert(candidate@ =~= tv[i as int].take(p as int));
                        assert(description@ =~= tv[i as int].skip(p + 1 as int));
                    }
                    Entry { candidate, description: Some(description) }
                },
                None => Entry { candidate: tok.clone(), description: None },
            };
            let ghost old_r = r.deep_view();
            r.push(entry);
            proof {
                assert(r.deep_view() =~~= old_r.push(skk_token_entry(tv[i as int])));
                assert(old_r.push(skk_token_entry(tv[i as int])) + skk_entries(
                    tv.skip(i + 1 as int),
                ) =~~= old_r + skk_entries(tv.skip(i as int)));
            }
        } else {
            proof {
                assert(skk_entries(tv.skip(i as int)) == skk_entries(tv.skip(i + 1 as int)));
            }
        }
        i += 1;
    }
    proof {
        assert(tv.skip(n as int) =~~= Seq::<Seq<char>>::empty());
        assert(skk_entries(tv.skip(n as int)) =~~= Seq::<EntryView>::empty());
        assert(r.deep_view() + Seq::<EntryView>::empty() =~~= r.deep_view());
    }
    r
}

/// Parse a dictionary in the line-oriented Skk format.
///
/// Blank lines and lines whose first character is `;` are skipped; every
/// other line with a space is a record: the headword before the first
/// space, and one entry per non-empty `/`-delimited token after it, each
/// split once on `;` into candidate and optional annotation.
pub fn parse_skk_dict(dict: &str) -> (r: Vec<(String, Vec<Entry>)>)
    ensures
        records_view(r@) == skk_records(lines_of(dict@)),
{
    let lines = split_lines(dict);
    let ghost lv = lines.deep_view();
    let n = lines.len();
    let mut out: Vec<(String, Vec<Entry>)> = Vec::new();
    let mut i: usize = 0;
    proof {
        assert(records_view(out@) =~~= skk_records(lv.take(0)));
    }
    while i < n
        invariant
            n == lines@.len(),
            0 <= i <= n,
            lv == lines.deep_view(),
            lv.len() == n,
            records_view(out@) == skk_records(lv.take(i as int)),
        decreases n - i,
    {
        let line = &lines[i];
        proof {
            assert(line@ == lv[i as int]);
            lemma_skk_records_take_step(lv, i as int);
        }
        let blank = is_blank(line.as_str());
        if !blank {
            proof {
                assert(line@.len() > 0) by {
                    if line@.len() == 0 {
                        assert(line_is_blank(line@));
                    }
                }
            }
        }
        if !blank && line.as_str().get_char(0) != ';' {
            match find_in_str(line.as_str(), ' ') {
                Some(p) => {
                    proof {
                        crate::text::lemma_find_char(line@, ' ');
                    }
                    let llen = line.unicode_len();
                    let headword = String::from_str(line.as_str().substring_char(0, p));
                    let region_owned = String::from_str(
                        line.as_str().substring_char(p + 1, llen),
                    );
                    let entries = skk_parse_entries(region_owned.as_str());
                    let ghost pre = records_view(out@);
                    proof {
                        assert(headword@ =~= lv[i as int].take(p as int));
                        assert(region_owned@ =~= lv[i as int].skip(p + 1 as int));
                    }
                    out.push((headword, entries));
                    proof {
                        assert(records_view(out@) =~~= pre.push(
                            skk_line_record(lv[i as int]).unwrap(),
                        ));
                        assert(pre + seq![skk_line_record(lv[i as int]).unwrap()] =~~= pre.push(
                            skk_line_record(lv[i as int]).unwrap(),
                        ));
                    }
                },
                None => {
                    proof {
                        assert(skk_line_record(lv[i as int]) is None);
                        assert(records_view(out@) + Seq::<RecordView>::empty() =~~= records_view(
                            out@,
                        ));
                    }
                },
            }
        } else {
            proof {
                assert(skk_line_record(lv[i as int]) is None);
                assert(records_view(out@) + Seq::<RecordView>::empty() =~~= records_view(out@));
            }
        }
        i += 1;
    }
    proof {
        assert(lv.take(n as int) =~~= lv);
    }
    out
}

/// Parse a dictionary in the tab-separated Mozc format.
///
/// Blank lines and lines starting with `#` are skipped; every other line
/// with at least two tab fields is a record: the first field as headword,
/// the second as the single candidate, the third ignored, the fourth, if
/// present, as annotation.
pub fn parse_mozc_dict(dict: &str) -> (r: Vec<(String, Vec<Entry>)>)
    ensures
        records_view(r@) == mozc_records(lines_of(dict@)),
{
    let lines = split_lines(dict);
    let ghost lv = lines.deep_view();
    let n = lines.len();
    let mut out: Vec<(String, Vec<Entry>)> = Vec::new();
    let mut i: usize = 0;
    proof {
        assert(records_view(out@) =~~= mozc_records(lv.take(0)));
    }
    while i < n
        invariant
            n == lines@.len(),
            0 <= i <= n,
            lv == lines.deep_view(),
            lv.len() == n,
            records_view(out@) == mozc_records(lv.take(i as int)),
        decreases n - i,
    {
        let line = &lines[i];
        proof {
            assert(line@ == lv[i as int]);
            lemma_mozc_records_take_step(lv, i as int);
        }
        let blank = is_blank(line.as_str());
        if !blank {
            proof {
                assert(line@.len() > 0) by {
                    if line@.len() == 0 {
                        assert(line_is_blank(line@));
                    }
                }
            }
        }
        if !blank && line.as_str().get_char(0) != '#' {
            let fields = split_on(line.as_str(), '\t');
            let ghost fv = fields.deep_view();
            if fields.len() >= 2 {
                let headword = fields[0].clone();
                let candidate = fields[1].clone();
                let description = if fields.len() >= 4 {
                    Some(fields[3].clone())
                } else {
                    None
                };
                let mut entries: Vec<Entry> = Vec::new();
                entries.push(Entry { candidate, description });
                let ghost pre = records_view(out@);
                proof {
                    assert(headword@ == fv[0]);
                    assert(entries.deep_view() =~~= seq![
                        EntryView {
                            candidate: fv[1],
                            description: if fv.len() >= 4 {
                                Some(fv[3])
                            } else {
                                None
                            },
                        },
                    ]);
                }
                out.push((headword, entries));
                proof {
                    assert(records_view(out@) =~~= pre.push(
                        mozc_line_record(lv[i as int]).unwrap(),
                    ));
                    assert(pre + seq![mozc_line_record(lv[i as int]).unwrap()] =~~= pre.push(
                        mozc_line_record(lv[i as int]).unwrap(),
                    ));
                }
            } else {
                proof {
                    assert(mozc_line_record(lv[i as int]) is None);
                    assert(records_view(out@) + Seq::<RecordView>::empty() =~~= records_view(out@));
                }
            }
        } else {
            proof {
                assert(mozc_line_record(lv[i as int]) is None);
                assert(records_view(out@) + Seq::<RecordView>::empty() =~~= records_view(out@));
            }
        }
        i += 1;
    }
    proof {
        assert(lv.take(n as int) =~~= lv);
    }
    out
}

/// The records a decoded dictionary text stands for in a format.
pub open spec fn dict_records(format: DictFormat, text: Seq<char>) -> Seq<RecordView> {
    match format {
        DictFormat::Skk => skk_records(lines_of(text)),
        DictFormat::Mozc => mozc_records(lines_of(text)),
    }
}

/// Parse a decoded dictionary text in the given format.
pub fn parse_dict(text: &str, format: DictFormat) -> (r: Vec<(String, Vec<Entry>)>)
    ensures
        records_view(r@) == dict_records(format, text@),
{
    match format {
        DictFormat::Skk => parse_skk_dict(text),
        DictFormat::Mozc => parse_mozc_dict(text),
    }
}

/// Decode a dictionary's raw bytes in the source's character set and parse
/// them in its format.  Dictionary files are decoded leniently: malformed
/// sequences are replaced, not rejected.
pub fn parse_dict_data(bytes: &[u8], encoding: Encoding, format: DictFormat) -> (r: Vec<
    (String, Vec<Entry>),
>)
    ensures
        records_view(r@) == dict_records(format, decode_spec(encoding.is_utf8(), bytes@).0),
{
    let (text, _had_errors) = decode_text(encoding, bytes);
    parse_dict(text.as_str(), format)
}

} // verus!

