//! The per-connection session engine.
//!
//! A session takes its configuration snapshot at accept time and never
//! observes later changes.  Its life is a loop of decisions, one per
//! event: the surrounding application reads, looks up and writes, and
//! [`Session::step`] says what to do next.  Candidate rendering into the
//! protocol body lives here too.

use vstd::prelude::*;

verus! {

use vstd::string::{StrSliceExecFns, StringExecFns};

use crate::encoding::{push_char, Encoding};
use crate::handler::{Entry, EntryView};
use crate::interface::{annotation_text, SkkIncomingEvent, SkkOutGoingEvent};
use crate::text::split_char;

/// A candidate with one leading and then one trailing `/` removed,
/// defending against dictionary sources that ship pre-slashed entries.
pub open spec fn slash_trim(c: Seq<char>) -> Seq<char> {
    let c1 = if c.len() > 0 && c[0] == '/' {
        c.drop_first()
    } else {
        c
    };
    if c1.len() > 0 && c1[c1.len() - 1] == '/' {
        c1.drop_last()
    } else {
        c1
    }
}

/// An entry is rendered only when its candidate survives the slash trim.
pub open spec fn entry_kept(e: EntryView) -> bool {
    slash_trim(e.candidate).len() > 0
}

/// The rendered token of one entry: the trimmed candidate, then `;` and
/// the annotation if there is one.
pub open spec fn entry_token(e: EntryView) -> Seq<char> {
    slash_trim(e.candidate) + annotation_text(e.description)
}

/// The body after its leading `/`: for each kept entry its token and a
/// closing `/`.
pub open spec fn body_rest(entries: Seq<EntryView>) -> Seq<char>
    decreases entries.len(),
{
    if entries.len() == 0 {
        Seq::empty()
    } else {
        (if entry_kept(entries[0]) {
            entry_token(entries[0]) + seq!['/']
        } else {
            Seq::empty()
        }) + body_rest(entries.drop_first())
    }
}

/// The Convert body of a non-empty entry list: `/`, then each kept
/// entry's token and a `/`.
pub open spec fn body_text(entries: Seq<EntryView>) -> Seq<char> {
    seq!['/'] + body_rest(entries)
}

/// Trim one leading and one trailing slash off a candidate.
fn slash_trim_exec(c: &str) -> (r: String)
    ensures
        r@ == slash_trim(c@),
{
    let len = c.unicode_len();
    let start: usize = if len > 0 && c.get_char(0) == '/' {
        1
    } else {
        0
    };
    let end: usize = if len > start && c.get_char(len - 1) == '/' {
        len - 1
    } else {
        len
    };
    let r = String::from_str(c.substring_char(start, end));
    proof {
        assert(r@ =~= slash_trim(c@));
    }
    r
}

/// Render a lookup result into the protocol body.
///
/// An empty entry list yields nothing (the codec then sends the no-match
/// sentinel); anything else yields the body of [`body_text`].
pub fn render_candidates(entries: &Vec<Entry>) -> (r: Option<String>)
    ensures
        entries@.len() == 0 ==> r is None,
        entries@.len() > 0 ==> (r matches Some(b) && b@ == body_text(entries.deep_view())),
{
    if entries.len() == 0 {
        return None;
    }
    let ghost dv = entries.deep_view();
    let mut out = String::new();
    push_char(&mut out, '/');
    let n = entries.len();
    let mut i: usize = 0;
    proof {
        assert(dv.skip(0) =~~= dv);
        assert(out@ + body_rest(dv) =~= body_text(dv));
    }
    while i < n
        invariant
            n == entries@.len(),
            0 <= i <= n,
            dv == entries.deep_view(),
            dv.len() == n,
            out@ + body_rest(dv.skip(i as int)) == body_text(dv),
        decreases n - i,
    {
        proof {
            assert(dv.skip(i as int)[0] == dv[i as int]);
            assert(dv.skip(i as int).drop_first() =~~= dv.skip(i + 1 as int));
            assert(entries@[i as int].deep_view() == dv[i as int]);
        }
        let trimmed = slash_trim_exec(entries[i].candidate.as_str());
        if trimmed.unicode_len() > 0 {
            let ghost pre = out@;
            out.append(trimmed.as_str());
            match &entries[i].description {
                Some(d) => {
                    push_char(&mut out, ';');
                    out.append(d.as_str());
                },
                None => {},
            }
            push_char(&mut out, '/');
            proof {
                assert(out@ =~= pre + (entry_token(dv[i as int]) + seq!['/']));
                assert(pre + (entry_token(dv[i as int]) + seq!['/']) + body_rest(
                    dv.skip(i + 1 as int),
                ) =~= pre + body_rest(dv.skip(i as int)));
            }
        } else {
            proof {
                assert(!entry_kept(dv[i as int]));
                assert(body_rest(dv.skip(i as int)) =~= body_rest(dv.skip(i + 1 as int)));
            }
        }
        i += 1;
    }
    proof {
        assert(dv.skip(n as int) =~~= Seq::<EntryView>::empty());
        assert(body_rest(dv.skip(n as int)) =~= Seq::<char>::empty());
        assert(out@ =~= body_text(dv));
    }
    Some(out)
}

/// The pieces of a piece list that are non-empty, in order.
pub open spec fn nonempty_pieces(ps: Seq<Seq<char>>) -> Seq<Seq<char>>
    decreases ps.len(),
{
    if ps.len() == 0 {
        Seq::empty()
    } else {
        (if ps[0].len() > 0 {
            seq![ps[0]]
        } else {
            Seq::<Seq<char>>::empty()
        }) + nonempty_pieces(ps.drop_first())
    }
}

/// The non-empty tokens between slashes.
pub open spec fn slash_tokens(s: Seq<char>) -> Seq<Seq<char>> {
    nonempty_pieces(split_char(s, '/'))
}

/// An entry whose rendered token survives a round trip through the body:
/// it is kept, and no `/` hides inside its token.
pub open spec fn entry_round_trips(e: EntryView) -> bool {
    entry_kept(e) && forall|j: int| 0 <= j < entry_token(e).len() ==> entry_token(e)[j] != '/'
}

proof fn lemma_body_rest_split(entries: Seq<EntryView>)
    requires
        forall|i: int| 0 <= i < entries.len() ==> entry_round_trips(#[trigger] entries[i]),
    ensures
        split_char(body_rest(entries), '/') =~~= entries.map_values(
            |e: EntryView| entry_token(e),
        ) + seq![Seq::<char>::empty()],
    decreases entries.len(),
{
    if entries.len() == 0 {
        assert(body_rest(entries) =~= Seq::<char>::empty());
        assert(split_char(Seq::<char>::empty(), '/') =~~= seq![Seq::<char>::empty()]);
        assert(entries.map_values(|e: EntryView| entry_token(e)) + seq![Seq::<char>::empty()]
            =~~= seq![Seq::<char>::empty()]);
    } else {
        let e0 = entries[0];
        let t = entry_token(e0);
        let rest = entries.drop_first();
        lemma_body_rest_split(rest);
        let x = body_rest(rest);
        assert(entry_kept(e0));
        assert(body_rest(entries) =~= t + (seq!['/'] + x));
        crate::text::lemma_split_char_prefix(t, seq!['/'] + x, '/');
        assert((seq!['/'] + x)[0] == '/');
        assert((seq!['/'] + x).drop_first() =~= x);
        assert(split_char(seq!['/'] + x, '/') == seq![Seq::<char>::empty()] + split_char(x, '/'));
        crate::text::lemma_split_char_len(x, '/');
        assert(split_char(seq!['/'] + x, '/')[0] =~= Seq::<char>::empty());
        assert(t + split_char(seq!['/'] + x, '/')[0] =~= t);
        assert((seq![Seq::<char>::empty()] + split_char(x, '/')).drop_first() =~~= split_char(
            x,
            '/',
        ));
        assert(split_char(body_rest(entries), '/') =~~= seq![t] + split_char(x, '/'));
        assert(seq![t] + (rest.map_values(|e: EntryView| entry_token(e)) + seq![
            Seq::<char>::empty(),
        ]) =~~= entries.map_values(|e: EntryView| entry_token(e)) + seq![Seq::<char>::empty()]);
    }
}

proof fn lemma_nonempty_pieces_all_kept(tokens: Seq<Seq<char>>)
    requires
        forall|i: int| 0 <= i < tokens.len() ==> #[trigger] tokens[i].len() > 0,
    ensures
        nonempty_pieces(tokens + seq![Seq::<char>::empty()]) =~~= tokens,
    decreases tokens.len(),
{
    let ps = tokens + seq![Seq::<char>::empty()];
    if tokens.len() == 0 {
        assert(ps.len() == 1);
        assert(ps[0].len() == 0);
        assert(ps.drop_first() =~~= Seq::<Seq<char>>::empty());
        assert(nonempty_pieces(ps.drop_first()) =~~= Seq::<Seq<char>>::empty());
        assert(nonempty_pieces(ps) =~~= Seq::<Seq<char>>::empty() + nonempty_pieces(
            ps.drop_first(),
        ));
        assert(tokens =~~= Seq::<Seq<char>>::empty());
    } else {
        assert(tokens[0].len() > 0);
        assert forall|i: int|
            0 <= i < tokens.drop_first().len() implies #[trigger] tokens.drop_first()[i].len()
            > 0 by {
            assert(tokens.drop_first()[i] == tokens[i + 1]);
        }
        lemma_nonempty_pieces_all_kept(tokens.drop_first());
        assert(ps[0] == tokens[0]);
        assert(ps.drop_first() =~~= tokens.drop_first() + seq![Seq::<char>::empty()]);
        assert(nonempty_pieces(ps) =~~= seq![tokens[0]] + nonempty_pieces(ps.drop_first()));
        assert(seq![tokens[0]] + tokens.drop_first() =~~= tokens);
    }
}

proof fn lemma_body_rest_last(entries: Seq<EntryView>)
    requires
        entries.len() > 0,
        forall|i: int| 0 <= i < entries.len() ==> entry_round_trips(#[trigger] entries[i]),
    ensures
        body_rest(entries).len() > 0,
        body_rest(entries)[body_rest(entries).len() - 1] == '/',
    decreases entries.len(),
{
    let rest = entries.drop_first();
    if rest.len() == 0 {
        assert(body_rest(rest) =~= Seq::<char>::empty());
        assert(body_rest(entries) =~= entry_token(entries[0]) + seq!['/']);
    } else {
        lemma_body_rest_last(rest);
        let head = entry_token(entries[0]) + seq!['/'];
        assert(body_rest(entries) == head + body_rest(rest));
        assert((head + body_rest(rest))[head.len() + body_rest(rest).len() - 1] == body_rest(
            rest,
        )[body_rest(rest).len() - 1]);
    }
}

/// For a non-empty lookup result whose entries render cleanly, the Convert
/// body starts with `/`, ends with `/`, and splitting it on `/` (dropping
/// empty tokens) yields the entries' tokens in order.  The codec then
/// frames the body as `1<body>\n`, so on the wire it ends with `/` and a
/// newline.
pub proof fn lemma_body_tokens(entries: Seq<EntryView>)
    requires
        entries.len() > 0,
        forall|i: int| 0 <= i < entries.len() ==> entry_round_trips(#[trigger] entries[i]),
    ensures
        body_text(entries)[0] == '/',
        body_text(entries)[body_text(entries).len() - 1] == '/',
        slash_tokens(body_text(entries)) == entries.map_values(|e: EntryView| entry_token(e)),
{
    let tokens = entries.map_values(|e: EntryView| entry_token(e));
    lemma_body_rest_split(entries);
    lemma_body_rest_last(entries);
    let x = body_rest(entries);
    assert(body_text(entries)[body_text(entries).len() - 1] == x[x.len() - 1]);
    assert((seq!['/'] + x)[0] == '/');
    assert((seq!['/'] + x).drop_first() =~= x);
    assert(split_char(body_text(entries), '/') == seq![Seq::<char>::empty()] + split_char(x, '/'));
    let ps = seq![Seq::<char>::empty()] + split_char(x, '/');
    assert(ps[0].len() == 0);
    assert(ps.drop_first() =~~= split_char(x, '/'));
    assert(nonempty_pieces(ps) =~~= nonempty_pieces(split_char(x, '/')));
    assert forall|i: int| 0 <= i < tokens.len() implies #[trigger] tokens[i].len() > 0 by {
        assert(entry_round_trips(entries[i]));
        assert(tokens[i] == entry_token(entries[i]));
    }
    lemma_nonempty_pieces_all_kept(tokens);
    assert(nonempty_pieces(split_char(x, '/')) =~~= tokens);
}

/// Where a session stands in its read, handle, write loop.
#[derive(Clone, Copy, Debug, PartialEq, Eq, Structural)]
pub enum SessionPhase {
    /// Waiting for the next frame.
    Reading,
    /// Waiting for a lookup result.
    Looking,
    /// Waiting for a write to be flushed.
    Writing,
    /// The connection is done.
    Closed,
}

/// What happened: a decoded frame, a per-frame decode error, the end or
/// failure of the stream, a finished lookup, or the outcome of a write.
pub enum SessionEvent {
    Frame(SkkIncomingEvent),
    FrameError,
    Eof,
    IoError,
    LookupDone(Vec<Entry>),
    WriteOk,
    WriteErr,
}

/// What the surrounding application must do next.
pub enum SessionCommand {
    /// Await the next frame.
    ReadFrame,
    /// Resolve this headword and report back.
    Lookup(String),
    /// Encode and send this response, then report back.
    Write(SkkOutGoingEvent),
    /// Close the connection.
    Close,
}

/// The events a phase can see.
pub open spec fn phase_accepts(p: SessionPhase, ev: SessionEvent) -> bool {
    match ev {
        SessionEvent::Frame(_) => p is Reading,
        SessionEvent::FrameError => p is Reading,
        SessionEvent::Eof => p is Reading,
        SessionEvent::IoError => p is Reading,
        SessionEvent::LookupDone(_) => p is Looking,
        SessionEvent::WriteOk => p is Writing,
        SessionEvent::WriteErr => p is Writing,
    }
}

/// The phase after an event: a per-frame decode error keeps the session
/// reading; end of stream, an I/O failure, a write failure and Disconnect
/// close it; everything else moves the loop along.
pub open spec fn next_phase(ev: SessionEvent) -> SessionPhase {
    match ev {
        SessionEvent::Frame(e) => match e {
            SkkIncomingEvent::Disconnect => SessionPhase::Closed,
            SkkIncomingEvent::Convert(_) => SessionPhase::Looking,
            SkkIncomingEvent::Version => SessionPhase::Writing,
            SkkIncomingEvent::Hostname => SessionPhase::Writing,
            SkkIncomingEvent::Server => SessionPhase::Writing,
        },
        SessionEvent::FrameError => SessionPhase::Reading,
        SessionEvent::Eof => SessionPhase::Closed,
        SessionEvent::IoError => SessionPhase::Closed,
        SessionEvent::LookupDone(_) => SessionPhase::Writing,
        SessionEvent::WriteOk => SessionPhase::Reading,
        SessionEvent::WriteErr => SessionPhase::Closed,
    }
}

/// One client connection's state: the phase of its loop and the
/// configuration snapshot taken at accept time.
pub struct Session {
    pub phase: SessionPhase,
    pub encoding: Encoding,
    pub google_cgi: bool,
}

impl Session {
    /// A fresh session, reading, with its configuration snapshot.
    pub fn new(encoding: Encoding, google_cgi: bool) -> (r: Session)
        ensures
            r.phase == SessionPhase::Reading,
            r.encoding == encoding,
            r.google_cgi == google_cgi,
    {
        Session { phase: SessionPhase::Reading, encoding, google_cgi }
    }

    /// Advance the session by one event and say what to do next.
    ///
    /// The configuration snapshot never changes: over any sequence of
    /// steps the session behaves under exactly the configuration it was
    /// accepted with.  And from `Reading`, a Disconnect frame is the only
    /// request event that closes the session; every other frame leaves it
    /// open unless an error intervenes.
    pub fn step(&mut self, ev: SessionEvent) -> (cmd: SessionCommand)
        requires
            phase_accepts(old(self).phase, ev),
        ensures
            final(self).encoding == old(self).encoding,
            final(self).google_cgi == old(self).google_cgi,
            final(self).phase == next_phase(ev),
            (ev matches SessionEvent::Frame(e) ==> (final(self).phase is Closed <==> e
                is Disconnect)),
            match ev {
                SessionEvent::Frame(e) => match e {
                    SkkIncomingEvent::Disconnect => cmd is Close,
                    SkkIncomingEvent::Convert(h) => cmd matches SessionCommand::Lookup(q) && q@
                        == h@,
                    SkkIncomingEvent::Version => cmd matches SessionCommand::Write(out) && out
                        is Version,
                    SkkIncomingEvent::Hostname => cmd matches SessionCommand::Write(out) && out
                        is Hostname,
                    SkkIncomingEvent::Server => cmd matches SessionCommand::Write(out) && out
                        is Server,
                },
                SessionEvent::FrameError => cmd is ReadFrame,
                SessionEvent::Eof => cmd is Close,
                SessionEvent::IoError => cmd is Close,
                SessionEvent::LookupDone(es) => cmd matches SessionCommand::Write(out) && (out
                    matches SkkOutGoingEvent::Convert(b) && (es.deep_view().len() == 0 ==> b
                    is None) && (es.deep_view().len() > 0 ==> (b matches Some(s) && s@ == body_text(
                    es.deep_view(),
                )))),
                SessionEvent::WriteOk => cmd is ReadFrame,
                SessionEvent::WriteErr => cmd is Close,
            },
    {
        match ev {
            SessionEvent::Frame(e) => match e {
                SkkIncomingEvent::Disconnect => {
                    self.phase = SessionPhase::Closed;
                    SessionCommand::Close
                },
                SkkIncomingEvent::Convert(h) => {
                    self.phase = SessionPhase::Looking;
                    SessionCommand::Lookup(h)
                },
                SkkIncomingEvent::Version => {
                    self.phase = SessionPhase::Writing;
                    SessionCommand::Write(SkkOutGoingEvent::Version)
                },
                SkkIncomingEvent::Hostname => {
                    self.phase = SessionPhase::Writing;
                    SessionCommand::Write(SkkOutGoingEvent::Hostname)
                },
                SkkIncomingEvent::Server => {
                    self.phase = SessionPhase::Writing;
                    SessionCommand::Write(SkkOutGoingEvent::Server)
                },
            },
            SessionEvent::FrameError => {
                self.phase = SessionPhase::Reading;
                SessionCommand::ReadFrame
            },
            SessionEvent::Eof => {
                self.phase = SessionPhase::Closed;
                SessionCommand::Close
            },
            SessionEvent::IoError => {
                self.phase = SessionPhase::Closed;
                SessionCommand::Close
            },
            SessionEvent::LookupDone(es) => {
                self.phase = SessionPhase::Writing;
                let body = render_candidates(&es);
                SessionCommand::Write(SkkOutGoingEvent::Convert(body))
            },
            SessionEvent::WriteOk => {
                self.phase = SessionPhase::Reading;
                SessionCommand::ReadFrame
            },
            SessionEvent::WriteErr => {
                self.phase = SessionPhase::Closed;
                SessionCommand::Close
            },
        }
    }
}

} // verus!

