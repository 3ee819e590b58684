//! What comes back from the endpoint: the bytes of a response, either the
//! table text itself or a MIME envelope whose first part holds it.

use vstd::prelude::*;
use vstd::string::*;
use vstd::utf8::{decode_utf8, encode_utf8, encode_utf8_decode_utf8, valid_utf8};

verus! {

/// Why a request gave no response text.
#[derive(Debug, Clone, Copy, PartialEq, Eq)]
pub enum TransportError {
    /// The endpoint could not be reached.
    Connect,
    /// The request could not be sent.
    Write,
    /// The response could not be read to its end.
    Read,
    /// The response, or the part of it that holds the payload, could not be
    /// decoded.
    Decode,
    /// The envelope holds no part.
    Empty,
}

/// The error type of the `mailparse` crate, carried through unread.
#[verifier::external_type_specification]
#[verifier::external_body]
pub struct ExMailParseError(mailparse::MailParseError);

/// A message as the `mailparse` crate has parsed it, carried through unread.
#[verifier::external_type_specification]
#[verifier::external_body]
pub struct ExParsedMail<'a>(mailparse::ParsedMail<'a>);

/// What a parsed message holds for this protocol: for each direct subpart,
/// in order, the body as `ParsedMail::get_body` decodes it, or `None` where
/// it cannot be decoded.
pub uninterp spec fn part_bodies(mail: mailparse::ParsedMail) -> Seq<Option<Seq<char>>>;

/// What `mailparse::parse_mail` finds in the bytes of a message: the bodies
/// of its direct subparts, or `None` where it rejects the bytes.
pub uninterp spec fn envelope_parts(raw: Seq<u8>) -> Option<Seq<Option<Seq<char>>>>;

/// Calls `mailparse::parse_mail`. Nothing is proved of the parsing: the
/// contract only says that the outcome is the one that `envelope_parts`
/// names, so that the same bytes always give the same parts.
#[verifier::external_body]
fn parse_message(raw: &[u8]) -> (mail: Result<mailparse::ParsedMail<'_>, mailparse::MailParseError>)
    ensures
        match mail {
            Ok(parsed) => envelope_parts(raw@) == Some(part_bodies(parsed)),
            Err(_) => envelope_parts(raw@) is None,
        },
{
    mailparse::parse_mail(raw)
}

/// Reads the length of `ParsedMail::subparts`: the number of direct
/// subparts of the message.
#[verifier::external_body]
fn part_count(mail: &mailparse::ParsedMail) -> (count: usize)
    ensures
        count == part_bodies(*mail).len(),
{
    mail.subparts.len()
}

/// Calls `ParsedMail::get_body` on one direct subpart: the body with its
/// transfer encoding undone and its charset decoded, or an error where the
/// transfer encoding cannot be undone.
#[verifier::external_body]
fn part_body(mail: &mailparse::ParsedMail, index: usize) -> (body: Result<
    String,
    mailparse::MailParseError,
>)
    requires
        index < part_bodies(*mail).len(),
    ensures
        match body {
            Ok(text) => part_bodies(*mail)[index as int] == Some(text@),
            Err(_) => part_bodies(*mail)[index as int] is None,
        },
{
    mail.subparts[index].get_body()
}

/// Calls `String::from_utf8`: the bytes become a string exactly when they
/// are valid UTF-8, and the string then consists of those bytes.
#[verifier::external_body]
fn utf8_text(bytes: Vec<u8>) -> (text: Option<String>)
    ensures
        text is Some <==> valid_utf8(bytes@),
        text matches Some(decoded) ==> encode_utf8(decoded@) == bytes@,
{
    String::from_utf8(bytes).ok()
}

/// A MIME envelope, reduced to what the protocol reads from it: the decoded
/// body of each direct subpart, `None` where a body cannot be decoded.
#[derive(Debug, Clone, PartialEq, Eq)]
pub struct Envelope {
    pub parts: Vec<Option<String>>,
}

impl View for Envelope {
    type V = Seq<Option<Seq<char>>>;

    open spec fn view(&self) -> Seq<Option<Seq<char>>> {
        Seq::new(
            self.parts.len() as nat,
            |i: int|
                match self.parts[i] {
                    Some(text) => Some(text@),
                    None => None,
                },
        )
    }
}

/// The payload of an envelope: the body of its first part.
pub open spec fn payload_of(parts: Seq<Option<Seq<char>>>) -> Result<Seq<char>, TransportError> {
    if parts.len() == 0 {
        Err(TransportError::Empty)
    } else {
        match parts[0] {
            Some(text) => Ok(text),
            None => Err(TransportError::Decode),
        }
    }
}

/// The payload of an enveloped response.
pub open spec fn enveloped_payload(raw: Seq<u8>) -> Result<Seq<char>, TransportError> {
    match envelope_parts(raw) {
        Some(parts) => payload_of(parts),
        None => Err(TransportError::Decode),
    }
}

/// What the outcome of a decoding step holds.
pub open spec fn text_view(outcome: Result<String, TransportError>) -> Result<
    Seq<char>,
    TransportError,
> {
    match outcome {
        Ok(text) => Ok(text@),
        Err(fault) => Err(fault),
    }
}

impl Envelope {
    /// Opens the envelope that the bytes of a response hold.
    pub fn open(raw: &[u8]) -> (envelope: Result<Envelope, TransportError>)
        ensures
            match envelope_parts(raw@) {
                Some(parts) => envelope is Ok && envelope.unwrap()@ == parts,
                None => envelope == Err::<Envelope, TransportError>(TransportError::Decode),
            },
    {
        let mail = match parse_message(raw) {
            Ok(mail) => mail,
            Err(_) => {
                return Err(TransportError::Decode);
            },
        };
        let count: usize = part_count(&mail);
        let mut parts: Vec<Option<String>> = Vec::new();
        let mut index: usize = 0;
        while index < count
            invariant
                count == part_bodies(mail).len(),
                index <= count,
                parts.len() == index,
                forall|k: int|
                    0 <= k < index ==> part_bodies(mail)[k] == match #[trigger] parts[k] {
                        Some(text) => Some(text@),
                        None => None,
                    },
            decreases count - index,
        {
            let part = match part_body(&mail, index) {
                Ok(text) => Some(text),
                Err(_) => None,
            };
            parts.push(part);
            index = index + 1;
        }
        let envelope = Envelope { parts };
        assert(envelope@ =~= part_bodies(mail));
        Ok(envelope)
    }

    /// The payload of the envelope: the body of its first part. An envelope
    /// without parts is `Empty`; a first part whose body could not be decoded
    /// is a `Decode` error.
    pub fn payload(self) -> (payload: Result<String, TransportError>)
        ensures
            text_view(payload) == payload_of(self@),
    {
        let mut parts = self.parts;
        if parts.len() == 0 {
            return Err(TransportError::Empty);
        }
        match parts.swap_remove(0) {
            Some(text) => Ok(text),
            None => Err(TransportError::Decode),
        }
    }
}

/// Takes the payload out of an enveloped response: the body of the first
/// part of the envelope. Only that part is decoded.
pub fn first_part_body(raw: &[u8]) -> (payload: Result<String, TransportError>)
    ensures
        text_view(payload) == enveloped_payload(raw@),
{
    let mail = match parse_message(raw) {
        Ok(mail) => mail,
        Err(_) => {
            return Err(TransportError::Decode);
        },
    };
    if part_count(&mail) == 0 {
        return Err(TransportError::Empty);
    }
    match part_body(&mail, 0) {
        Ok(text) => Ok(text),
        Err(_) => Err(TransportError::Decode),
    }
}

/// The payload of a bare response: the text that the bytes encode in UTF-8.
pub open spec fn bare_payload(raw: Seq<u8>) -> Result<Seq<char>, TransportError> {
    if valid_utf8(raw) {
        Ok(decode_utf8(raw))
    } else {
        Err(TransportError::Decode)
    }
}

/// Reads a bare response as text. The bytes are the text in UTF-8; bytes
/// that are not valid UTF-8 are a `Decode` error.
pub fn decode_text(bytes: Vec<u8>) -> (text: Result<String, TransportError>)
    ensures
        text_view(text) == bare_payload(bytes@),
{
    match utf8_text(bytes) {
        Some(decoded) => {
            proof {
                encode_utf8_decode_utf8(decoded@);
            }
            Ok(decoded)
        },
        None => Err(TransportError::Decode),
    }
}

} // verus!
