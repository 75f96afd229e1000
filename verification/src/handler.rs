//! Dictionary entries and the lookup pipeline around them: the local hit,
//! and the pieces of the remote transliteration fallback that are functions
//! of plain values.

use vstd::prelude::*;

verus! {

use vstd::string::StrSliceExecFns;

use crate::store::DictStore;

/// One candidate for a headword, with an optional annotation.
#[derive(Clone, Debug, PartialEq, Eq)]
pub struct Entry {
    pub candidate: String,
    pub description: Option<String>,
}

/// The mathematical shape of an [`Entry`].
pub struct EntryView {
    pub candidate: Seq<char>,
    pub description: Option<Seq<char>>,
}

impl View for Entry {
    type V = EntryView;

    open spec fn view(&self) -> EntryView {
        EntryView {
            candidate: self.candidate@,
            description: match self.description {
                Some(ref d) => Some(d@),
                None => None,
            },
        }
    }
}

impl DeepView for Entry {
    type V = EntryView;

    open spec fn deep_view(&self) -> EntryView {
        self.view()
    }
}

/// Copy a list of entries, preserving its contents.
pub fn clone_entries(es: &Vec<Entry>) -> (r: Vec<Entry>)
    ensures
        r.deep_view() == es.deep_view(),
{
    let mut r: Vec<Entry> = Vec::new();
    let n = es.len();
    let mut i: usize = 0;
    while i < n
        invariant
            n == es@.len(),
            0 <= i <= n,
            r.deep_view() =~~= es.deep_view().take(i as int),
        decreases n - i,
    {
        let e = Entry {
            candidate: es[i].candidate.clone(),
            description: match &es[i].description {
                Some(d) => Some(d.clone()),
                None => None,
            },
        };
        let ghost old_r = r.deep_view();
        r.push(e);
        proof {
            assert(r.deep_view() =~~= old_r.push(es.deep_view()[i as int]));
            assert(es.deep_view().take(i + 1 as int) =~~= es.deep_view().take(i as int).push(
                es.deep_view()[i as int],
            ));
        }
        i += 1;
    }
    proof {
        assert(es.deep_view().take(n as int) =~~= es.deep_view());
    }
    r
}

/// What `urlencoding` percent-encodes a string to; a function of the
/// string alone.
pub uninterp spec fn urlencoded(s: Seq<char>) -> Seq<char>;

/// Relies on `urlencoding::encode`: percent-encodes every byte except
/// ASCII alphanumerics and `-`, `_`, `.`, `~`; the result depends on the
/// string alone.
#[verifier::external_body]
fn urlencode(s: &str) -> (r: String)
    ensures
        r@ == urlencoded(s@),
{
    urlencoding::encode(s).into_owned()
}

/// The remote transliteration request for a query stem: the fixed endpoint,
/// the percent-encoded stem, and a closing comma.
pub open spec fn google_cgi_url_spec(stem: Seq<char>) -> Seq<char> {
    "https://www.google.com/transliterate?langpair=ja-Hira|ja&text="@ + urlencoded(stem) + seq![
        ',',
    ]
}

/// Build the remote transliteration request URL.
pub fn google_cgi_url(stem: &str) -> (r: String)
    ensures
        r@ == google_cgi_url_spec(stem@),
{
    let mut out = String::from_str("https://www.google.com/transliterate?langpair=ja-Hira|ja&text=");
    let encoded = urlencode(stem);
    out.append(encoded.as_str());
    crate::encoding::push_char(&mut out, ',');
    proof {
        assert(out@ =~= google_cgi_url_spec(stem@));
    }
    out
}

/// An ASCII letter, as input methods use one to carry an okurigana suffix.
pub open spec fn is_ascii_alpha(c: char) -> bool {
    ('a' <= c && c <= 'z') || ('A' <= c && c <= 'Z')
}

/// Split a trailing okurigana suffix off a query.
///
/// The remote service expects hiragana, so a final ASCII letter is
/// stripped before the query and later re-appended to every candidate.
pub fn split_okurigana(query: &str) -> (r: (String, Option<char>))
    ensures
        ({
            let q = query@;
            if q.len() > 0 && is_ascii_alpha(q[q.len() - 1]) {
                r.0@ == q.drop_last() && r.1 == Some(q[q.len() - 1])
            } else {
                r.0@ == q && r.1 is None
            }
        }),
{
    let len = query.unicode_len();
    if len == 0 {
        return (String::from_str(query), None);
    }
    let last = query.get_char(len - 1);
    let alpha = ('a' <= last && last <= 'z') || ('A' <= last && last <= 'Z');
    if alpha {
        let stem = String::from_str(query.substring_char(0, len - 1));
        proof {
            assert(stem@ =~= query@.drop_last());
        }
        (stem, Some(last))
    } else {
        (String::from_str(query), None)
    }
}

/// A candidate with the okurigana suffix re-appended, if there is one.
pub open spec fn suffixed(c: Seq<char>, suffix: Option<char>) -> Seq<char> {
    match suffix {
        Some(ch) => c.push(ch),
        None => c,
    }
}

/// The entries a remote candidate list stands for: each candidate with the
/// suffix re-appended and no annotation.
pub open spec fn remote_entries_spec(cands: Seq<Seq<char>>, suffix: Option<char>) -> Seq<
    EntryView,
> {
    cands.map_values(
        |c: Seq<char>| EntryView { candidate: suffixed(c, suffix), description: None },
    )
}

/// Turn a remote transliteration response into entries.
///
/// The response is an ordered list of `(segment, candidates)` pairs; only
/// the first pair's candidates are used.  An empty response yields no
/// entries.
pub fn remote_candidates(response: &Vec<(String, Vec<String>)>, suffix: Option<char>) -> (r: Vec<
    Entry,
>)
    ensures
        response@.len() == 0 ==> r.deep_view() == Seq::<EntryView>::empty(),
        response@.len() > 0 ==> r.deep_view() == remote_entries_spec(
            response@[0].1.deep_view(),
            suffix,
        ),
{
    let mut r: Vec<Entry> = Vec::new();
    if response.len() == 0 {
        proof {
            assert(r.deep_view() =~~= Seq::<EntryView>::empty());
        }
        return r;
    }
    let cands: &Vec<String> = &response[0].1;
    let ghost target = remote_entries_spec(cands.deep_view(), suffix);
    let n = cands.len();
    let mut i: usize = 0;
    while i < n
        invariant
            n == cands@.len(),
            0 <= i <= n,
            target == remote_entries_spec(cands.deep_view(), suffix),
            r.deep_view() =~~= target.take(i as int),
        decreases n - i,
    {
        let mut candidate = cands[i].clone();
        match suffix {
            Some(ch) => crate::encoding::push_char(&mut candidate, ch),
            None => {},
        }
        let ghost old_r = r.deep_view();
        r.push(Entry { candidate, description: None });
        proof {
            assert(r.deep_view() =~~= old_r.push(target[i as int]));
            assert(target.take(i + 1 as int) =~~= target.take(i as int).push(target[i as int]));
        }
        i += 1;
    }
    proof {
        assert(target.take(n as int) =~~= target);
    }
    r
}

/// The resolver of one running server: the dictionary store snapshot and
/// whether the remote transliteration fallback is enabled.
pub struct ServerHandler {
    pub dict: DictStore,
    pub google_cgi: bool,
}

/// How one lookup is served: from the store, by asking the remote service
/// at the given URL (re-appending the suffix to its candidates), or not at
/// all.
pub enum LookupPlan {
    Local(Vec<Entry>),
    Remote { url: String, suffix: Option<char> },
    Empty,
}

impl ServerHandler {
    /// A resolver over a built store.
    pub fn new(dict: DictStore, google_cgi: bool) -> (r: ServerHandler)
        ensures
            r.dict == dict,
            r.google_cgi == google_cgi,
    {
        ServerHandler { dict, google_cgi }
    }

    /// Decide how one headword is served: the store's entries when it is
    /// bound there; otherwise the remote query to make, with the okurigana
    /// suffix split off, when the fallback is enabled; otherwise nothing.
    pub fn plan_lookup(&self, input: &str) -> (r: LookupPlan)
        ensures
            match self.dict.lookup_spec(input@) {
                Some(es) => r matches LookupPlan::Local(v) && v.deep_view() == es,
                None => if self.google_cgi {
                    r matches LookupPlan::Remote { url, suffix } && ({
                        let q = input@;
                        if q.len() > 0 && is_ascii_alpha(q[q.len() - 1]) {
                            url@ == google_cgi_url_spec(q.drop_last()) && suffix == Some(
                                q[q.len() - 1],
                            )
                        } else {
                            url@ == google_cgi_url_spec(q) && suffix is None
                        }
                    })
                } else {
                    r is Empty
                },
            },
    {
        match self.dict.lookup(input) {
            Some(es) => LookupPlan::Local(clone_entries(es)),
            None => {
                if self.google_cgi {
                    let (stem, suffix) = split_okurigana(input);
                    LookupPlan::Remote { url: google_cgi_url(stem.as_str()), suffix }
                } else {
                    LookupPlan::Empty
                }
            },
        }
    }
}

} // verus!
