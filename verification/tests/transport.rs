use ribbit::{decode_text, first_part_body, parser, Envelope, TransportError, VersionObject};

const ENVELOPE: &str = "MIME-Version: 1.0\r\n\
Content-Type: multipart/alternative; boundary=\"frontier\"\r\n\
\r\n\
--frontier\r\n\
Content-Type: text/plain\r\n\
Content-Disposition: version\r\n\
\r\n\
Region!STRING:0|BuildId!DEC:4|VersionsName!String:0\r\n\
# Seqn = 31337\r\n\
us|52237|10.2.5.52237\r\n\
eu|52238|10.2.5.52238\r\n\
--frontier\r\n\
Content-Type: text/plain\r\n\
Content-Disposition: signature\r\n\
\r\n\
c2lnbmF0dXJl\r\n\
--frontier--\r\n";

#[test]
fn payload_is_the_first_part() {
    let body = first_part_body(ENVELOPE.as_bytes()).unwrap();
    assert_eq!(
        body,
        "Region!STRING:0|BuildId!DEC:4|VersionsName!String:0\r\n\
         # Seqn = 31337\r\n\
         us|52237|10.2.5.52237\r\n\
         eu|52238|10.2.5.52238"
    );
    assert_ne!(body.as_bytes(), ENVELOPE.as_bytes());
    let (seqn, records) = parser::<VersionObject>(&body).unwrap();
    assert_eq!(seqn, 31337);
    assert_eq!(records.len(), 2);
    assert_eq!(records[1].region, "eu");
    assert_eq!(records[1].build_id, 52238);
}

#[test]
fn envelope_holds_each_part() {
    let envelope = Envelope::open(ENVELOPE.as_bytes()).unwrap();
    assert_eq!(envelope.parts.len(), 2);
    assert_eq!(envelope.parts[1], Some("c2lnbmF0dXJl".to_string()));
}

#[test]
fn transfer_encoding_is_undone() {
    let raw = "Content-Type: multipart/mixed; boundary=b\r\n\r\n\
               --b\r\nContent-Transfer-Encoding: base64\r\n\r\naGVsbG8gd29ybGQ=\r\n--b--\r\n";
    assert_eq!(first_part_body(raw.as_bytes()), Ok("hello world".to_string()));
}

#[test]
fn undecodable_first_part_is_a_decode_error() {
    let raw = "Content-Type: multipart/mixed; boundary=b\r\n\r\n\
               --b\r\nContent-Transfer-Encoding: base64\r\n\r\n!!!!\r\n\
               --b\r\n\r\nfine\r\n--b--\r\n";
    let envelope = Envelope::open(raw.as_bytes()).unwrap();
    assert_eq!(envelope.parts, vec![None, Some("fine".to_string())]);
    assert_eq!(first_part_body(raw.as_bytes()), Err(TransportError::Decode));
}

#[test]
fn message_without_parts_is_empty() {
    assert_eq!(first_part_body(b"Subject: plain\r\n\r\njust a body\r\n"), Err(TransportError::Empty));
    assert_eq!(first_part_body(b""), Err(TransportError::Empty));
    assert_eq!(
        first_part_body(b"Region!STRING:0|BuildId!DEC:4\nus|1\n"),
        Err(TransportError::Empty)
    );
}

#[test]
fn payload_of_given_envelopes() {
    assert_eq!(Envelope { parts: Vec::new() }.payload(), Err(TransportError::Empty));
    assert_eq!(Envelope { parts: vec![None] }.payload(), Err(TransportError::Decode));
    assert_eq!(
        Envelope { parts: vec![None, Some("late".to_string())] }.payload(),
        Err(TransportError::Decode)
    );
    assert_eq!(
        Envelope { parts: vec![Some("first".to_string()), None, Some("third".to_string())] }
            .payload(),
        Ok("first".to_string())
    );
    assert_eq!(Envelope { parts: vec![Some(String::new())] }.payload(), Ok(String::new()));
}

#[test]
fn bare_response_is_utf8_text() {
    assert_eq!(decode_text(b"A!B\n1\n".to_vec()), Ok("A!B\n1\n".to_string()));
    assert_eq!(decode_text(Vec::new()), Ok(String::new()));
    assert_eq!(decode_text("héllo".as_bytes().to_vec()), Ok("héllo".to_string()));
    assert_eq!(decode_text(vec![0x41, 0xff, 0x42]), Err(TransportError::Decode));
    assert_eq!(decode_text(vec![0xc3]), Err(TransportError::Decode));
    assert_eq!(decode_text(vec![0xed, 0xa0, 0x80]), Err(TransportError::Decode));
}
