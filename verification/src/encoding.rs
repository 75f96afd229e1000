//! Character sets used on the wire and in dictionary files, and the
//! conversion between bytes and text.
//!
//! Both supported encodings are ASCII-compatible, so the ASCII range is
//! converted in verified code; everything beyond it goes through
//! `encoding_rs`.

use vstd::prelude::*;

verus! {

use vstd::string::StringExecFns;
use vstd::utf8::is_ascii_chars;

/// Character set of a connection or of a dictionary file.
#[derive(Clone, Copy, Debug, PartialEq, Eq, Structural)]
pub enum Encoding {
    Utf8,
    Eucjp,
}

impl Encoding {
    /// True for the UTF-8 variant; used to index the named decode results.
    pub open spec fn is_utf8(self) -> bool {
        self is Utf8
    }

    /// The display name of the encoding.
    pub fn to_str(&self) -> (r: String)
        ensures
            self is Utf8 ==> r@ == "UTF-8"@,
            self is Eucjp ==> r@ == "EUC-JP"@,
    {
        match self {
            Encoding::Utf8 => String::from_str("UTF-8"),
            Encoding::Eucjp => String::from_str("EUC-JP"),
        }
    }

    /// The encoding a display name stands for, if it names one.
    pub fn from_str(s: &str) -> (r: Option<Encoding>)
        ensures
            r == (if s@ == "UTF-8"@ {
                Some(Encoding::Utf8)
            } else if s@ == "EUC-JP"@ {
                Some(Encoding::Eucjp)
            } else {
                None::<Encoding>
            }),
    {
        proof {
            reveal_strlit("UTF-8");
            reveal_strlit("EUC-JP");
            assert("UTF-8"@.len() == 5);
            assert("EUC-JP"@.len() == 6);
        }
        if crate::text::str_eq(s, "UTF-8") {
            Some(Encoding::Utf8)
        } else if crate::text::str_eq(s, "EUC-JP") {
            Some(Encoding::Eucjp)
        } else {
            None
        }
    }
}

/// The characters that a sequence of bytes in the ASCII range stands for.
pub open spec fn ascii_chars_of(bytes: Seq<u8>) -> Seq<char> {
    bytes.map_values(|b: u8| b as char)
}

/// The bytes that a sequence of ASCII characters stands for.
pub open spec fn ascii_bytes_of(text: Seq<char>) -> Seq<u8> {
    text.map_values(|c: char| c as u8)
}

/// True when every byte is in the ASCII range.
pub open spec fn bytes_all_ascii(bytes: Seq<u8>) -> bool {
    forall|i: int| 0 <= i < bytes.len() ==> bytes[i] < 128
}

/// What `encoding_rs` decodes the given bytes to, with its flag reporting
/// malformed sequences.  The result is a function of the bytes and the
/// chosen encoding alone.
pub uninterp spec fn decoded_text(utf8: bool, bytes: Seq<u8>) -> (Seq<char>, bool);

/// What `encoding_rs` encodes the given text to.  The result is a function
/// of the text and the chosen encoding alone.
pub uninterp spec fn encoded_bytes(utf8: bool, text: Seq<char>) -> Seq<u8>;

/// Relies on `encoding_rs::Encoding::decode`: decodes a complete input
/// buffer, replacing malformed sequences and reporting them in the flag;
/// the result depends on the bytes and the encoding alone.
#[verifier::external_body]
fn decode_with_encoding_rs(utf8: bool, bytes: &[u8]) -> (r: (String, bool))
    ensures
        (r.0@, r.1) == decoded_text(utf8, bytes@),
{
    let enc = if utf8 {
        encoding_rs::UTF_8
    } else {
        encoding_rs::EUC_JP
    };
    let (cow, _, had_errors) = enc.decode(bytes);
    (cow.into_owned(), had_errors)
}

/// Relies on `encoding_rs::Encoding::encode`: encodes a complete string,
/// replacing unmappable characters by numeric character references; the
/// result depends on the text and the encoding alone.
#[verifier::external_body]
fn encode_with_encoding_rs(utf8: bool, text: &str) -> (r: Vec<u8>)
    ensures
        r@ == encoded_bytes(utf8, text@),
{
    let enc = if utf8 {
        encoding_rs::UTF_8
    } else {
        encoding_rs::EUC_JP
    };
    let (cow, _, _) = enc.encode(text);
    cow.into_owned()
}

/// Relies on `String::push`: appends one character at the end.
#[verifier::external_body]
pub(crate) fn push_char(s: &mut String, c: char)
    ensures
        final(s)@ == old(s)@.push(c),
{
    s.push(c);
}

/// What decoding yields: ASCII-only input decodes to the corresponding
/// characters without error (both supported encodings are
/// ASCII-compatible); any other input decodes to whatever `encoding_rs`
/// yields for it.
pub open spec fn decode_spec(utf8: bool, bytes: Seq<u8>) -> (Seq<char>, bool) {
    if bytes_all_ascii(bytes) {
        (ascii_chars_of(bytes), false)
    } else {
        decoded_text(utf8, bytes)
    }
}

/// What encoding yields, mirroring [`decode_spec`].
pub open spec fn encode_spec(utf8: bool, text: Seq<char>) -> Seq<u8> {
    if is_ascii_chars(text) {
        ascii_bytes_of(text)
    } else {
        encoded_bytes(utf8, text)
    }
}

/// Decode a complete buffer in the given encoding.  The flag reports
/// malformed sequences (which were replaced in the text).
pub fn decode_text(encoding: Encoding, bytes: &[u8]) -> (r: (String, bool))
    ensures
        (r.0@, r.1) == decode_spec(encoding.is_utf8(), bytes@),
{
    let n = bytes.len();
    let mut ascii = true;
    let mut i: usize = 0;
    while i < n
        invariant
            n == bytes@.len(),
            0 <= i <= n,
            ascii ==> bytes_all_ascii(bytes@.take(i as int)),
            !ascii ==> !bytes_all_ascii(bytes@),
        decreases n - i,
    {
        if bytes[i] >= 128 {
            ascii = false;
        } else {
            proof {
                if ascii {
                    assert(bytes@.take(i + 1 as int) =~= bytes@.take(i as int).push(
                        bytes@[i as int],
                    ));
                }
            }
        }
        i += 1;
    }
    proof {
        assert(bytes@.take(n as int) =~= bytes@);
    }
    if ascii {
        let mut out = String::new();
        let mut k: usize = 0;
        while k < n
            invariant
                n == bytes@.len(),
                0 <= k <= n,
                bytes_all_ascii(bytes@),
                out@ == ascii_chars_of(bytes@.take(k as int)),
            decreases n - k,
        {
            let c = bytes[k] as char;
            push_char(&mut out, c);
            proof {
                assert(out@ =~= ascii_chars_of(bytes@.take(k + 1 as int)));
            }
            k += 1;
        }
        proof {
            assert(bytes@.take(n as int) =~= bytes@);
        }
        (out, false)
    } else {
        let is_utf8 = matches!(encoding, Encoding::Utf8);
        decode_with_encoding_rs(is_utf8, bytes)
    }
}

/// Encode a complete string in the given encoding.
pub fn encode_text(encoding: Encoding, text: &str) -> (r: Vec<u8>)
    ensures
        r@ == encode_spec(encoding.is_utf8(), text@),
{
    if text.is_ascii() {
        let r = text.as_bytes_vec();
        proof {
            broadcast use vstd::string::is_ascii_spec_bytes;

            assert(r@ =~= ascii_bytes_of(text@));
        }
        r
    } else {
        let is_utf8 = matches!(encoding, Encoding::Utf8);
        encode_with_encoding_rs(is_utf8, text)
    }
}

/// Encoding then decoding ASCII text with a matching encoding gives the
/// text back, without a decode error.
pub proof fn lemma_ascii_round_trip(utf8: bool, text: Seq<char>)
    requires
        is_ascii_chars(text),
    ensures
        decode_spec(utf8, encode_spec(utf8, text)) == (text, false),
{
    broadcast use vstd::utf8::is_ascii_chars_nat_bound;

    let bytes = ascii_bytes_of(text);
    assert(bytes_all_ascii(bytes));
    assert(ascii_chars_of(bytes) =~= text) by {
        assert forall|i: int| 0 <= i < text.len() implies ascii_chars_of(bytes)[i] == text[i] by {
            assert((text[i] as nat) < 128);
            assert(((text[i] as u8) as char) == text[i]);
        }
    }
}

} // verus!
