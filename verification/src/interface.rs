//! The typed request and response events of the line protocol.

use vstd::prelude::*;

verus! {

use vstd::string::StringExecFns;

/// A request event, classified from the first character of a frame.
#[derive(Clone, Debug, PartialEq, Eq)]
pub enum SkkIncomingEvent {
    /// `'0'`: close the connection.
    Disconnect,
    /// `'1'`: look the carried headword up.
    Convert(String),
    /// `'2'`: report the server version.
    Version,
    /// `'3'`: report the server host name.
    Hostname,
    /// `'4'`: report server information.
    Server,
}

/// A response event, rendered to text and then to bytes by the codec.
#[derive(Clone, Debug, PartialEq, Eq)]
pub enum SkkOutGoingEvent {
    /// A candidate body, or `None` when nothing matched.
    Convert(Option<String>),
    Version,
    Hostname,
    Server,
}

/// A flat candidate list with one shared annotation, as older clients of
/// the wire format carried it.
#[derive(Clone, Debug, PartialEq, Eq)]
pub struct Candidates {
    pub content: Vec<String>,
    pub anotation: Option<String>,
}

/// The annotation text appended after each candidate: `;` followed by the
/// annotation, or nothing.
pub open spec fn annotation_text(anotation: Option<Seq<char>>) -> Seq<char> {
    match anotation {
        Some(a) => seq![';'] + a,
        None => Seq::empty(),
    }
}

/// The protocol text of a flat candidate list: `1`, then `/` before each
/// candidate followed by the shared annotation, then a closing `/` and a
/// newline.
pub open spec fn candidates_text_rec(
    content: Seq<Seq<char>>,
    ann: Seq<char>,
    i: int,
) -> Seq<char>
    decreases content.len() - i,
{
    if i < 0 || i >= content.len() {
        Seq::empty()
    } else {
        seq!['/'] + content[i] + ann + candidates_text_rec(content, ann, i + 1)
    }
}

/// See [`Candidates::to_protocol_text`].
pub open spec fn candidates_text(content: Seq<Seq<char>>, anotation: Option<Seq<char>>) -> Seq<
    char,
> {
    seq!['1'] + candidates_text_rec(content, annotation_text(anotation), 0) + seq!['/', '\n']
}

impl Candidates {
    /// Render the list in the historical flat form, annotation and all.
    pub fn to_protocol_text(&self) -> (r: String)
        ensures
            r@ == candidates_text(self.content.deep_view(), match self.anotation {
                Some(ref a) => Some(a@),
                None => None,
            }),
    {
        let ghost ann_view = annotation_text(
            match self.anotation {
                Some(ref a) => Some(a@),
                None => None,
            },
        );
        let mut ann = String::new();
        match &self.anotation {
            Some(a) => {
                crate::encoding::push_char(&mut ann, ';');
                ann.append(a.as_str());
            },
            None => {},
        }
        proof {
            assert(ann@ =~= ann_view);
        }
        let mut out = String::new();
        crate::encoding::push_char(&mut out, '1');
        let n = self.content.len();
        let mut i: usize = 0;
        while i < n
            invariant
                n == self.content.len(),
                0 <= i <= n,
                ann@ == ann_view,
                out@ =~= seq!['1'] + candidates_text_rec_take(
                    self.content.deep_view(),
                    ann_view,
                    i as int,
                ),
            decreases n - i,
        {
            crate::encoding::push_char(&mut out, '/');
            out.append(self.content[i].as_str());
            out.append(ann.as_str());
            proof {
                lemma_candidates_text_rec_take_step(self.content.deep_view(), ann_view, i as int);
            }
            i += 1;
        }
        proof {
            lemma_candidates_text_rec_take_all(self.content.deep_view(), ann_view);
        }
        crate::encoding::push_char(&mut out, '/');
        crate::encoding::push_char(&mut out, '\n');
        proof {
            assert(out@ =~= candidates_text(self.content.deep_view(), match self.anotation {
                Some(ref a) => Some(a@),
                None => None,
            }));
        }
        out
    }
}

/// The text contributed by the first `i` candidates.
pub open spec fn candidates_text_rec_take(
    content: Seq<Seq<char>>,
    ann: Seq<char>,
    i: int,
) -> Seq<char>
    decreases i,
{
    if i <= 0 || i > content.len() {
        Seq::empty()
    } else {
        candidates_text_rec_take(content, ann, i - 1) + seq!['/'] + content[i - 1] + ann
    }
}

proof fn lemma_candidates_text_rec_take_step(content: Seq<Seq<char>>, ann: Seq<char>, i: int)
    requires
        0 <= i < content.len(),
    ensures
        candidates_text_rec_take(content, ann, i + 1) == candidates_text_rec_take(
            content,
            ann,
            i,
        ) + seq!['/'] + content[i] + ann,
{
}

proof fn lemma_candidates_text_rec_take_all(content: Seq<Seq<char>>, ann: Seq<char>)
    ensures
        candidates_text_rec_take(content, ann, content.len() as int) =~= candidates_text_rec(
            content,
            ann,
            0,
        ),
{
    lemma_candidates_text_prefix(content, ann, content.len() as int);
}

proof fn lemma_candidates_text_prefix(content: Seq<Seq<char>>, ann: Seq<char>, i: int)
    requires
        0 <= i <= content.len(),
    ensures
        candidates_text_rec_take(content, ann, i) + candidates_text_rec(content, ann, i)
            =~= candidates_text_rec(content, ann, 0),
    decreases i,
{
    if i == 0 {
    } else {
        lemma_candidates_text_prefix(content, ann, i - 1);
        assert(candidates_text_rec_take(content, ann, i) + candidates_text_rec(content, ann, i)
            =~= candidates_text_rec_take(content, ann, i - 1) + (seq!['/'] + content[i - 1] + ann
            + candidates_text_rec(content, ann, i)));
    }
}

} // verus!
