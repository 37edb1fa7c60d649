//! Tests for the composer and the transfer encodings.

use mailflow::email::{render, Attachment, AddressError, Message};
use mailflow::encoding::{base64_encode, pct_decode, qp_encode};

fn position_of(haystack: &[u8], needle: &[u8]) -> Option<usize> {
    if needle.is_empty() || haystack.len() < needle.len() {
        return None;
    }
    (0..=haystack.len() - needle.len()).find(|&i| &haystack[i..i + needle.len()] == needle)
}

fn sample_message(html: Option<Vec<u8>>, attachment: Option<Attachment>) -> Message {
    Message::new(
        "RECIPIENT NAME <recipient_email@test.com>".to_string(),
        "SES Test <test@testses.awsapps.com>".to_string(),
        b"Hi, Hello world".to_vec(),
        b"Email text2".to_vec(),
        html,
        attachment,
    )
    .unwrap()
}

#[test]
fn bad_addresses_are_fatal_construction_errors() {
    let err = Message::new(
        "no-at-sign".to_string(),
        "a@b.c".to_string(),
        Vec::new(),
        Vec::new(),
        None,
        None,
    );
    assert!(matches!(err, Err(AddressError::BadRecipient)));
    let err = Message::new(
        "a@b.c".to_string(),
        "two@at@signs".to_string(),
        Vec::new(),
        Vec::new(),
        None,
        None,
    );
    assert!(matches!(err, Err(AddressError::BadSender)));
    let err = Message::new(
        "Name <unclosed@bracket.com".to_string(),
        "a@b.c".to_string(),
        Vec::new(),
        Vec::new(),
        None,
        None,
    );
    assert!(matches!(err, Err(AddressError::BadRecipient)));
    assert!(Message::new(
        "plain@addr.example".to_string(),
        "With Name <x@y.z>".to_string(),
        Vec::new(),
        Vec::new(),
        None,
        None,
    )
    .is_ok());
}

#[test]
fn three_parts_appear_in_order() {
    let attachment = Attachment::new(
        b"plaintext".to_vec(),
        "attachedfile2.txt".to_string(),
        "text/plain; charset=utf8".to_string(),
    );
    let message = sample_message(
        Some(b"<p><b>Email</b>, <i>text2</i>!</p>".to_vec()),
        Some(attachment),
    );
    let rendered = render(&message);
    let plain = position_of(&rendered, b"Content-Type: text/plain; charset=utf8").unwrap();
    let html = position_of(&rendered, b"Content-Type: text/html; charset=utf8").unwrap();
    let att = position_of(
        &rendered,
        b"Content-Disposition: attachment; filename=\"attachedfile2.txt\"",
    )
    .unwrap();
    assert!(plain < html);
    assert!(html < att);
    assert!(position_of(&rendered, b"Subject: Hi, Hello world").is_some());
    assert!(position_of(&rendered, b"To: RECIPIENT NAME <recipient_email@test.com>").is_some());
    assert!(position_of(&rendered, b"From: SES Test <test@testses.awsapps.com>").is_some());
    // base64 of "plaintext"
    assert!(position_of(&rendered, b"cGxhaW50ZXh0").is_some());
}

#[test]
fn plain_only_message_has_no_alternative_container() {
    let message = sample_message(None, None);
    let rendered = render(&message);
    assert!(position_of(&rendered, b"multipart/alternative").is_none());
    assert!(position_of(&rendered, b"Content-Type: text/plain; charset=utf8").is_some());
    assert!(position_of(&rendered, b"Content-Disposition: attachment").is_none());
}

#[test]
fn rendering_is_deterministic() {
    let a = render(&sample_message(Some(b"<p>x</p>".to_vec()), None));
    let b = render(&sample_message(Some(b"<p>x</p>".to_vec()), None));
    assert_eq!(a, b);
}

#[test]
fn quoted_printable_escapes_what_it_must() {
    assert_eq!(qp_encode(&b"Hello World".to_vec()), b"Hello World".to_vec());
    assert_eq!(qp_encode(&b"a=b".to_vec()), b"a=3Db".to_vec());
    assert_eq!(qp_encode(&b"ends with space ".to_vec()), b"ends with space=20".to_vec());
    assert_eq!(qp_encode(&b"tab\t\nnext".to_vec()), b"tab=09\nnext".to_vec());
    assert_eq!(qp_encode(&vec![0xFFu8]), b"=FF".to_vec());
}

#[test]
fn base64_pads_correctly() {
    assert_eq!(base64_encode(&b"Man".to_vec()), b"TWFu".to_vec());
    assert_eq!(base64_encode(&b"Ma".to_vec()), b"TWE=".to_vec());
    assert_eq!(base64_encode(&b"M".to_vec()), b"TQ==".to_vec());
    assert_eq!(base64_encode(&Vec::new()), Vec::<u8>::new());
    assert_eq!(
        base64_encode(&b"any carnal pleasure.".to_vec()),
        b"YW55IGNhcm5hbCBwbGVhc3VyZS4=".to_vec(),
    );
}

#[test]
fn percent_decoding_handles_escapes_and_passes_junk() {
    assert_eq!(pct_decode(&b"a%20b%2Fc".to_vec()), b"a b/c".to_vec());
    assert_eq!(pct_decode(&b"%ZZ%2".to_vec()), b"%ZZ%2".to_vec());
    assert_eq!(pct_decode(&b"plain".to_vec()), b"plain".to_vec());
    assert_eq!(pct_decode(&b"%41%61".to_vec()), b"Aa".to_vec());
}
