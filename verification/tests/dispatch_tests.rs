//! Tests for the workflow dispatcher's state machine.

use mailflow::dispatch::{
    Action, Config, Dispatcher, Event, FetchError, Input, MailAttachment, Outcome,
};

fn config() -> Config {
    Config::new(
        "RECIPIENT NAME <recipient_email@test.com>".to_string(),
        "SES Test <test@testses.awsapps.com>".to_string(),
        "test-file-output-bucket".to_string(),
        "current.csv".to_string(),
    )
    .unwrap()
}

fn contains(haystack: &[u8], needle: &[u8]) -> bool {
    !needle.is_empty() && haystack.len() >= needle.len()
        && (0..=haystack.len() - needle.len()).any(|i| &haystack[i..i + needle.len()] == needle)
}

#[test]
fn timer_with_missing_canonical_asks_for_a_file() {
    let mut d = Dispatcher::new(config());
    let a = d.step(Input::Start(Event::TimerTrigger));
    match a {
        Action::Fetch { bucket, key } => {
            assert_eq!(bucket, b"test-file-output-bucket".to_vec());
            assert_eq!(key, b"current.csv".to_vec());
        },
        _ => panic!("expected a fetch"),
    }
    let a = d.step(Input::Fetched(Err(FetchError::NotFound)));
    match a {
        Action::Send { message } => {
            assert_eq!(message.subject, b"Please reply with file".to_vec());
            assert!(message.attachment.is_none());
        },
        _ => panic!("expected a send"),
    }
    // A failed reminder send is swallowed, not fatal.
    let a = d.step(Input::Sent(false));
    assert!(matches!(a, Action::Stop { outcome: Outcome::ReminderHandled }));
}

#[test]
fn timer_with_canonical_file_sends_it_back() {
    let mut d = Dispatcher::new(config());
    d.step(Input::Start(Event::TimerTrigger));
    let a = d.step(Input::Fetched(Ok(b"id,start_date,end_date\n".to_vec())));
    match a {
        Action::Send { message } => {
            assert_eq!(message.subject, b"Please verify and update attached file".to_vec());
            let att = message.attachment.expect("attachment expected");
            assert_eq!(att.attachment, b"id,start_date,end_date\n".to_vec());
            assert_eq!(att.name, "current.csv");
        },
        _ => panic!("expected a send"),
    }
    let a = d.step(Input::Sent(true));
    assert!(matches!(a, Action::Stop { outcome: Outcome::ReminderHandled }));
}

#[test]
fn clean_batch_is_written_then_confirmed() {
    let mut d = Dispatcher::new(config());
    let a = d.step(Input::Start(Event::StorageNotification {
        bucket: "in-bucket".to_string(),
        key: "mail%2Fincoming%20msg".to_string(),
    }));
    match a {
        Action::Fetch { bucket, key } => {
            assert_eq!(bucket, b"in-bucket".to_vec());
            assert_eq!(key, b"mail/incoming msg".to_vec());
        },
        _ => panic!("expected a fetch"),
    }
    let a = d.step(Input::Fetched(Ok(b"raw mail bytes".to_vec())));
    match a {
        Action::ParseMail { data } => assert_eq!(data, b"raw mail bytes".to_vec()),
        _ => panic!("expected a mail parse"),
    }
    let body = "ID,start_date,end_date\n2,2020-08-23 09:00:00,2020-08-23 17:00:00\n";
    let a = d.step(Input::MailParsed(Some(MailAttachment {
        name: "upload.csv".to_string(),
        body: body.to_string(),
    })));
    let expected = b"id,start_date,end_date\n2,2020-08-23 09:00:00,2020-08-23 17:00:00\n".to_vec();
    match a {
        Action::Write { data } => assert_eq!(data, expected),
        _ => panic!("expected the canonical write"),
    }
    let a = d.step(Input::Wrote(true));
    match a {
        Action::Send { message } => {
            assert_eq!(message.subject, b"File updated successfully!".to_vec());
            let att = message.attachment.expect("attachment expected");
            assert_eq!(att.attachment, expected);
            assert_eq!(att.name, "upload.csv");
        },
        _ => panic!("expected the confirmation send"),
    }
    let a = d.step(Input::Sent(true));
    assert!(matches!(a, Action::Stop { outcome: Outcome::Updated }));
}

#[test]
fn error_batch_sends_one_report_and_never_writes() {
    let mut d = Dispatcher::new(config());
    d.step(Input::Start(Event::StorageNotification {
        bucket: "in-bucket".to_string(),
        key: "k".to_string(),
    }));
    d.step(Input::Fetched(Ok(b"raw".to_vec())));
    let body = "id,start_date,end_date\n\
        oops\n\
        2,2020-08-23 09:00:00,2020-08-23 08:00:00\n";
    let a = d.step(Input::MailParsed(Some(MailAttachment {
        name: "upload.csv".to_string(),
        body: body.to_string(),
    })));
    match a {
        Action::Send { message } => {
            assert_eq!(message.subject, b"Errors in file: upload.csv".to_vec());
            assert!(contains(&message.body, b"Errors found in attached file:"));
            assert!(contains(&message.body, b"row 1: expected 3 fields"));
            assert!(contains(
                &message.body,
                b"Start date after end date for entry: 2, 2020-08-23 09:00:00, 2020-08-23 08:00:00",
            ));
            let att = message.attachment.expect("attachment expected");
            assert_eq!(att.attachment, body.as_bytes().to_vec());
            assert_eq!(att.name, "upload.csv");
        },
        _ => panic!("expected the report send"),
    }
    // The report path ends without any write.
    let a = d.step(Input::Sent(true));
    assert!(matches!(a, Action::Stop { outcome: Outcome::ReportSent }));
}

#[test]
fn report_send_failure_is_fatal() {
    let mut d = Dispatcher::new(config());
    d.step(Input::Start(Event::StorageNotification {
        bucket: "b".to_string(),
        key: "k".to_string(),
    }));
    d.step(Input::Fetched(Ok(b"raw".to_vec())));
    d.step(Input::MailParsed(Some(MailAttachment {
        name: "f.csv".to_string(),
        body: "id,start_date,end_date\ngarbage\n".to_string(),
    })));
    let a = d.step(Input::Sent(false));
    assert!(matches!(a, Action::Stop { outcome: Outcome::FailedSend }));
}

#[test]
fn missing_attachment_is_fatal_without_notification() {
    let mut d = Dispatcher::new(config());
    d.step(Input::Start(Event::StorageNotification {
        bucket: "b".to_string(),
        key: "k".to_string(),
    }));
    d.step(Input::Fetched(Ok(b"raw".to_vec())));
    let a = d.step(Input::MailParsed(None));
    assert!(matches!(a, Action::Stop { outcome: Outcome::MissingAttachment }));
}

#[test]
fn storage_fetch_failure_is_fatal() {
    let mut d = Dispatcher::new(config());
    d.step(Input::Start(Event::StorageNotification {
        bucket: "b".to_string(),
        key: "k".to_string(),
    }));
    let a = d.step(Input::Fetched(Err(FetchError::Transport)));
    assert!(matches!(a, Action::Stop { outcome: Outcome::FailedFetch }));
}

#[test]
fn input_that_fits_no_state_aborts() {
    let mut d = Dispatcher::new(config());
    let a = d.step(Input::Wrote(true));
    assert!(matches!(a, Action::Stop { outcome: Outcome::Aborted }));
}

#[test]
fn write_failure_is_fatal() {
    let mut d = Dispatcher::new(config());
    d.step(Input::Start(Event::StorageNotification {
        bucket: "b".to_string(),
        key: "k".to_string(),
    }));
    d.step(Input::Fetched(Ok(b"raw".to_vec())));
    d.step(Input::MailParsed(Some(MailAttachment {
        name: "f.csv".to_string(),
        body: "id,start_date,end_date\n1,2020-08-23 09:00:00,2020-08-23 17:00:00\n".to_string(),
    })));
    let a = d.step(Input::Wrote(false));
    assert!(matches!(a, Action::Stop { outcome: Outcome::FailedWrite }));
}
