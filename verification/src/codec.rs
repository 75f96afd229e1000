//! The per-connection framer: classifies a decoded frame into a request
//! event and renders a response event back to bytes, honoring one encoding
//! per connection.

use vstd::prelude::*;

verus! {

use vstd::string::{StrSliceExecFns, StringExecFns};

use crate::encoding::{decode_spec, decode_text, encode_spec, encode_text, push_char, Encoding};
use crate::error::Error;
use crate::interface::{SkkIncomingEvent, SkkOutGoingEvent};

/// True when the frame ends with a space followed by a newline.
pub open spec fn ends_with_sp_nl(text: Seq<char>) -> bool {
    text.len() >= 2 && text[text.len() - 2] == ' ' && text[text.len() - 1] == '\n'
}

/// True when the frame ends with a single space.
pub open spec fn ends_with_sp(text: Seq<char>) -> bool {
    text.len() >= 1 && text[text.len() - 1] == ' '
}

/// The headword carried by a `'1'` frame: everything between the command
/// character and the recognized terminator, preferring `' \n'` over `' '`.
pub open spec fn convert_payload(text: Seq<char>) -> Seq<char> {
    if ends_with_sp_nl(text) {
        text.subrange(1, text.len() - 2)
    } else {
        text.subrange(1, text.len() - 1)
    }
}

/// The request event that a decoded frame stands for.  A `Convert` event
/// carries exactly the headword, terminator stripped.
pub open spec fn incoming_ok(text: Seq<char>, ev: SkkIncomingEvent) -> bool {
    text.len() > 0 && match ev {
        SkkIncomingEvent::Disconnect => text[0] == '0',
        SkkIncomingEvent::Convert(h) => text[0] == '1' && (ends_with_sp_nl(text) || ends_with_sp(
            text,
        )) && h@ == convert_payload(text),
        SkkIncomingEvent::Version => text[0] == '2',
        SkkIncomingEvent::Hostname => text[0] == '3',
        SkkIncomingEvent::Server => text[0] == '4',
    }
}

/// True when a decoded frame is an invalid command: empty text, a `'1'`
/// frame with neither trailing `' '` nor `' \n'`, or an unknown leading
/// character.
pub open spec fn incoming_invalid(text: Seq<char>) -> bool {
    ||| text.len() == 0
    ||| (text[0] == '1' && !ends_with_sp_nl(text) && !ends_with_sp(text))
    ||| (text[0] != '0' && text[0] != '1' && text[0] != '2' && text[0] != '3' && text[0] != '4')
}

/// Classify one decoded frame.
///
/// Succeeds exactly on the non-invalid frames; an invalid frame is reported
/// as [`Error::InvalidIncomingCommand`] carrying the frame text, and fails
/// only the frame, never the session.
pub fn parse_incoming(text: &str) -> (r: Result<SkkIncomingEvent, Error>)
    ensures
        r is Ok <==> !incoming_invalid(text@),
        r matches Ok(ev) ==> incoming_ok(text@, ev),
        r matches Err(e) ==> e matches Error::InvalidIncomingCommand(orig) && orig@ == text@,
{
    let len = text.unicode_len();
    if len == 0 {
        return Err(Error::InvalidIncomingCommand(String::from_str(text)));
    }
    let command = text.get_char(0);
    match command {
        '0' => Ok(SkkIncomingEvent::Disconnect),
        '1' => {
            if len >= 2 && text.get_char(len - 1) == '\n' && text.get_char(len - 2) == ' ' {
                let payload = text.substring_char(1, len - 2);
                Ok(SkkIncomingEvent::Convert(String::from_str(payload)))
            } else if text.get_char(len - 1) == ' ' {
                let payload = text.substring_char(1, len - 1);
                Ok(SkkIncomingEvent::Convert(String::from_str(payload)))
            } else {
                Err(Error::InvalidIncomingCommand(String::from_str(text)))
            }
        },
        '2' => Ok(SkkIncomingEvent::Version),
        '3' => Ok(SkkIncomingEvent::Hostname),
        '4' => Ok(SkkIncomingEvent::Server),
        _ => Err(Error::InvalidIncomingCommand(String::from_str(text))),
    }
}

/// The version banner sent for a `'2'` request; the trailing space is part
/// of the protocol.
pub open spec fn version_text() -> Seq<char> {
    "nzskkserv/0.1.0 "@
}

/// The text of a response event.  `Convert(None)` and `Server` share the
/// `4` sentinel; clients tell them apart by the command they sent.
pub open spec fn outgoing_text(ev: SkkOutGoingEvent) -> Seq<char> {
    match ev {
        SkkOutGoingEvent::Convert(Some(body)) => seq!['1'] + body@ + seq!['\n'],
        SkkOutGoingEvent::Convert(None) => seq!['4', '\n'],
        SkkOutGoingEvent::Server => seq!['4', '\n'],
        SkkOutGoingEvent::Version => version_text(),
        SkkOutGoingEvent::Hostname => seq![' '],
    }
}

/// Render a response event to its protocol text.
pub fn render_outgoing(ev: &SkkOutGoingEvent) -> (r: String)
    ensures
        r@ == outgoing_text(*ev),
{
    match ev {
        SkkOutGoingEvent::Convert(Some(body)) => {
            let mut out = String::new();
            push_char(&mut out, '1');
            out.append(body.as_str());
            push_char(&mut out, '\n');
            proof {
                assert(out@ =~= outgoing_text(*ev));
            }
            out
        },
        SkkOutGoingEvent::Convert(None) => {
            let mut out = String::new();
            push_char(&mut out, '4');
            push_char(&mut out, '\n');
            proof {
                assert(out@ =~= outgoing_text(*ev));
            }
            out
        },
        SkkOutGoingEvent::Server => {
            let mut out = String::new();
            push_char(&mut out, '4');
            push_char(&mut out, '\n');
            proof {
                assert(out@ =~= outgoing_text(*ev));
            }
            out
        },
        SkkOutGoingEvent::Version => String::from_str("nzskkserv/0.1.0 "),
        SkkOutGoingEvent::Hostname => {
            let mut out = String::new();
            push_char(&mut out, ' ');
            proof {
                assert(out@ =~= outgoing_text(*ev));
            }
            out
        },
    }
}

/// The stateless framer of one connection: everything it does is a
/// function of the frame and the connection encoding.
pub struct SkkCodec {
    pub encoding: Encoding,
}

impl SkkCodec {
    pub fn new(encoding: Encoding) -> (r: SkkCodec)
        ensures
            r.encoding == encoding,
    {
        SkkCodec { encoding }
    }

    /// Decode one buffered chunk into at most one request event.
    ///
    /// An empty buffer yields no event.  A buffer that does not decode in
    /// the connection encoding fails with [`Error::Decoding`] carrying the
    /// bytes.  Anything else is classified by [`parse_incoming`].
    pub fn decode(&self, buf: &[u8]) -> (r: Result<Option<SkkIncomingEvent>, Error>)
        ensures
            buf@.len() == 0 ==> r matches Ok(None),
            buf@.len() > 0 ==> {
                let (text, had_errors) = decode_spec(self.encoding.is_utf8(), buf@);
                if had_errors {
                    r matches Err(e) && e matches Error::Decoding(b) && b@ == buf@
                } else {
                    match r {
                        Ok(Some(ev)) => incoming_ok(text, ev) && !incoming_invalid(text),
                        Ok(None) => false,
                        Err(e) => incoming_invalid(text) && (e matches Error::InvalidIncomingCommand(
                            orig,
                        ) && orig@ == text),
                    }
                }
            },
    {
        if buf.len() == 0 {
            return Ok(None);
        }
        let (text, had_errors) = decode_text(self.encoding, buf);
        if had_errors {
            let mut copy: Vec<u8> = Vec::new();
            let n = buf.len();
            let mut i: usize = 0;
            while i < n
                invariant
                    n == buf@.len(),
                    0 <= i <= n,
                    copy@ == buf@.take(i as int),
                decreases n - i,
            {
                copy.push(buf[i]);
                proof {
                    assert(buf@.take(i + 1 as int) =~= buf@.take(i as int).push(buf@[i as int]));
                }
                i += 1;
            }
            proof {
                assert(buf@.take(n as int) =~= buf@);
            }
            return Err(Error::Decoding(copy));
        }
        match parse_incoming(text.as_str()) {
            Ok(ev) => Ok(Some(ev)),
            Err(e) => Err(e),
        }
    }

    /// Encode one response event to bytes in the connection encoding.
    pub fn encode(&self, ev: &SkkOutGoingEvent) -> (r: Vec<u8>)
        ensures
            r@ == encode_spec(self.encoding.is_utf8(), outgoing_text(*ev)),
    {
        let text = render_outgoing(ev);
        encode_text(self.encoding, text.as_str())
    }
}

/// The constant response payloads survive an encode/decode round trip: the
/// Version, Hostname, and ServerInfo texts are ASCII, and both supported
/// encodings are ASCII-compatible.
pub proof fn lemma_response_round_trip(utf8: bool, ev: SkkOutGoingEvent)
    requires
        ev is Version || ev is Hostname || ev is Server,
    ensures
        decode_spec(utf8, encode_spec(utf8, outgoing_text(ev))) == (outgoing_text(ev), false),
{
    reveal_strlit("nzskkserv/0.1.0 ");
    assert(vstd::utf8::is_ascii_chars(outgoing_text(ev))) by {
        assert forall|i: int| 0 <= i < outgoing_text(ev).len() implies '\0' <= #[trigger] outgoing_text(
            ev,
        )[i] <= '\u{7f}' by {}
    }
    crate::encoding::lemma_ascii_round_trip(utf8, outgoing_text(ev));
}

} // verus!

