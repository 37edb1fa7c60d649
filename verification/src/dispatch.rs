//! The workflow dispatcher: a state machine that normalizes the two
//! trigger shapes into one pass of fetch, attachment extraction, decode,
//! validate, and a branching notification outcome.  The machine decides;
//! the embedding program performs each returned action (an object-store
//! read or write, a raw-mail parse, or a message send) and feeds the
//! result back in as the next input.

use vstd::prelude::*;
use vstd::utf8::encode_utf8;

use crate::codec::{
    decode_spec, describe_parse, deserialize_csv, encode_spec, serialize_csv, ParseError,
};
use crate::email::{Attachment, AttachmentV, Message, MessageV};
use crate::encoding::{pct_decode, pct_decode_spec};
use crate::validate::{describe_validation, validate_all_records, validate_spec, ValidationError};

verus! {

/// Process-wide configuration handed to the dispatcher at construction:
/// who is notified, who sends, and where the canonical object lives.
pub struct Config {
    pub recipient: String,
    pub sender: String,
    pub bucket: String,
    pub key: String,
}

impl Config {
    /// Build a configuration, checking both addresses; a malformed
    /// address is a fatal construction error.
    pub fn new(recipient: String, sender: String, bucket: String, key: String) -> (r: Result<
        Config,
        crate::email::AddressError,
    >)
        ensures
            !crate::email::mailbox_ok(encode_utf8(recipient@)) ==> r == Err::<
                Config,
                crate::email::AddressError,
            >(crate::email::AddressError::BadRecipient),
            crate::email::mailbox_ok(encode_utf8(recipient@)) && !crate::email::mailbox_ok(
                encode_utf8(sender@),
            ) ==> r == Err::<Config, crate::email::AddressError>(
                crate::email::AddressError::BadSender,
            ),
            crate::email::mailbox_ok(encode_utf8(recipient@)) && crate::email::mailbox_ok(
                encode_utf8(sender@),
            ) ==> r == Ok::<Config, crate::email::AddressError>(Config {
                recipient: recipient,
                sender: sender,
                bucket: bucket,
                key: key,
            }),
    {
        if !crate::email::check_mailbox(recipient.as_str()) {
            return Err(crate::email::AddressError::BadRecipient);
        }
        if !crate::email::check_mailbox(sender.as_str()) {
            return Err(crate::email::AddressError::BadSender);
        }
        Ok(Config { recipient, sender, bucket, key })
    }
}

/// The two trigger shapes, already separated by the event adapter.
pub enum Event {
    /// An object landed in a bucket; its key is still percent-encoded.
    StorageNotification { bucket: String, key: String },
    /// A scheduled reminder; carries nothing.
    TimerTrigger,
}

/// Spec-level shape of an event.
pub enum EventV {
    StorageNotification { bucket: Seq<char>, key: Seq<char> },
    TimerTrigger,
}

impl View for Event {
    type V = EventV;

    open spec fn view(&self) -> EventV {
        match self {
            Event::StorageNotification { bucket, key } => EventV::StorageNotification {
                bucket: bucket@,
                key: key@,
            },
            Event::TimerTrigger => EventV::TimerTrigger,
        }
    }
}

/// Why an object fetch returned nothing.
#[derive(PartialEq, Eq, Structural, Clone, Copy, Debug)]
pub enum FetchError {
    NotFound,
    Transport,
}

/// The attachment the raw-mail decoder extracted: its declared filename
/// and its decoded body text.
pub struct MailAttachment {
    pub name: String,
    pub body: String,
}

/// One input to the machine: the starting event, or the result of the
/// action it last asked for.
pub enum Input {
    Start(Event),
    Fetched(Result<Vec<u8>, FetchError>),
    MailParsed(Option<MailAttachment>),
    Wrote(bool),
    Sent(bool),
}

/// Spec-level shape of an input.
pub enum InputV {
    Start(EventV),
    Fetched(Result<Seq<u8>, FetchError>),
    MailParsed(Option<(Seq<char>, Seq<char>)>),
    Wrote(bool),
    Sent(bool),
}

impl View for Input {
    type V = InputV;

    open spec fn view(&self) -> InputV {
        match self {
            Input::Start(ev) => InputV::Start(ev@),
            Input::Fetched(Result::Ok(data)) => InputV::Fetched(Result::Ok(data@)),
            Input::Fetched(Result::Err(e)) => InputV::Fetched(Result::Err(*e)),
            Input::MailParsed(Option::Some(ma)) => InputV::MailParsed(
                Option::Some((ma.name@, ma.body@)),
            ),
            Input::MailParsed(Option::None) => InputV::MailParsed(Option::None),
            Input::Wrote(ok) => InputV::Wrote(*ok),
            Input::Sent(ok) => InputV::Sent(*ok),
        }
    }
}

/// How an invocation ended.  The `Failed` outcomes are fatal: the caller
/// surfaces them as an invocation failure.
#[derive(PartialEq, Eq, Structural, Clone, Copy, Debug)]
pub enum Outcome {
    /// The reminder path finished (a send failure there is swallowed).
    ReminderHandled,
    /// An error report was delivered; the canonical object is untouched.
    ReportSent,
    /// The canonical object was rewritten and the confirmation sent.
    Updated,
    /// The triggering object could not be fetched.
    FailedFetch,
    /// The fetched mail carried no attachment (no notification is sent).
    MissingAttachment,
    /// The canonical write failed.
    FailedWrite,
    /// A mandatory send failed.
    FailedSend,
    /// An input arrived that the current state cannot accept.
    Aborted,
}

/// One action the machine asks the embedding program to perform.
pub enum Action {
    /// Read an object; bucket and key are plain (already decoded) bytes.
    Fetch { bucket: Vec<u8>, key: Vec<u8> },
    /// Run the raw-mail decoder over these bytes.
    ParseMail { data: Vec<u8> },
    /// Render and send this message.
    Send { message: Message },
    /// Overwrite the canonical object with these bytes.
    Write { data: Vec<u8> },
    /// The pass is over.
    Stop { outcome: Outcome },
}

/// Spec-level shape of an action.
pub enum ActionV {
    Fetch { bucket: Seq<u8>, key: Seq<u8> },
    ParseMail { data: Seq<u8> },
    Send { message: MessageV },
    Write { data: Seq<u8> },
    Stop { outcome: Outcome },
}

impl View for Action {
    type V = ActionV;

    open spec fn view(&self) -> ActionV {
        match self {
            Action::Fetch { bucket, key } => ActionV::Fetch { bucket: bucket@, key: key@ },
            Action::ParseMail { data } => ActionV::ParseMail { data: data@ },
            Action::Send { message } => ActionV::Send { message: message@ },
            Action::Write { data } => ActionV::Write { data: data@ },
            Action::Stop { outcome } => ActionV::Stop { outcome: *outcome },
        }
    }
}

/// The machine's states, one per outstanding action.
pub enum State {
    Idle,
    AwaitCanonicalFetch,
    AwaitReminderSend,
    AwaitObjectFetch,
    AwaitMailParse,
    AwaitReportSend,
    AwaitWrite { encoded: Vec<u8>, filename: String },
    AwaitConfirmSend { encoded: Vec<u8>, filename: String },
    Finished { outcome: Outcome },
}

/// Spec-level shape of a state.
pub enum StateV {
    Idle,
    AwaitCanonicalFetch,
    AwaitReminderSend,
    AwaitObjectFetch,
    AwaitMailParse,
    AwaitReportSend,
    AwaitWrite { encoded: Seq<u8>, filename: Seq<char> },
    AwaitConfirmSend { encoded: Seq<u8>, filename: Seq<char> },
    Finished { outcome: Outcome },
}

impl View for State {
    type V = StateV;

    open spec fn view(&self) -> StateV {
        match self {
            State::Idle => StateV::Idle,
            State::AwaitCanonicalFetch => StateV::AwaitCanonicalFetch,
            State::AwaitReminderSend => StateV::AwaitReminderSend,
            State::AwaitObjectFetch => StateV::AwaitObjectFetch,
            State::AwaitMailParse => StateV::AwaitMailParse,
            State::AwaitReportSend => StateV::AwaitReportSend,
            State::AwaitWrite { encoded, filename } => StateV::AwaitWrite {
                encoded: encoded@,
                filename: filename@,
            },
            State::AwaitConfirmSend { encoded, filename } => StateV::AwaitConfirmSend {
                encoded: encoded@,
                filename: filename@,
            },
            State::Finished { outcome } => StateV::Finished { outcome: *outcome },
        }
    }
}

/// The content type every tabular attachment is sent under.
pub open spec fn csv_mime() -> Seq<char> {
    "text/csv; charset=utf8"@
}

/// The reminder sent when the canonical file exists: please verify it.
pub open spec fn reminder_message_v(cfg: Config, data: Seq<u8>) -> MessageV {
    MessageV {
        recipient: cfg.recipient@,
        sender: cfg.sender@,
        subject: encode_utf8("Please verify and update attached file"@),
        body: encode_utf8("Please verify and update the attached file"@),
        html: Option::None,
        attachment: Option::Some(AttachmentV { data, name: cfg.key@, mime: csv_mime() }),
    }
}

/// The reminder sent when the canonical file is absent: please reply
/// with one.  No attachment.
pub open spec fn reply_request_message_v(cfg: Config) -> MessageV {
    MessageV {
        recipient: cfg.recipient@,
        sender: cfg.sender@,
        subject: encode_utf8("Please reply with file"@),
        body: encode_utf8("Please reply with file"@),
        html: Option::None,
        attachment: Option::None,
    }
}

/// One line per parse error, in order.
pub open spec fn parse_error_lines(es: Seq<ParseError>) -> Seq<u8>
    decreases es.len(),
{
    if es.len() == 0 {
        Seq::empty()
    } else {
        describe_parse(es[0]) + seq![10u8] + parse_error_lines(es.drop_first())
    }
}

/// One line per validation error, in order.
pub open spec fn validation_error_lines(es: Seq<ValidationError>) -> Seq<u8>
    decreases es.len(),
{
    if es.len() == 0 {
        Seq::empty()
    } else {
        describe_validation(es[0]) + seq![10u8] + validation_error_lines(es.drop_first())
    }
}

/// The error-report body: every parse error, then every validation
/// error, one line each; a section heading appears only when its section
/// is non-empty.
pub open spec fn report_body_spec(perrs: Seq<ParseError>, verrs: Seq<ValidationError>) -> Seq<u8> {
    encode_utf8("Errors found in attached file:\n"@) + (if perrs.len() > 0 {
        encode_utf8("Deserialization errors:\n"@) + parse_error_lines(perrs)
    } else {
        Seq::empty()
    }) + (if verrs.len() > 0 {
        encode_utf8("Validation errors:\n"@) + validation_error_lines(verrs)
    } else {
        Seq::empty()
    })
}

/// The error-report message: subject names the file, body lists every
/// error, and the untouched original attachment travels along.
pub open spec fn report_message_v(
    cfg: Config,
    name: Seq<char>,
    original: Seq<u8>,
    perrs: Seq<ParseError>,
    verrs: Seq<ValidationError>,
) -> MessageV {
    MessageV {
        recipient: cfg.recipient@,
        sender: cfg.sender@,
        subject: encode_utf8("Errors in file: "@) + encode_utf8(name),
        body: report_body_spec(perrs, verrs),
        html: Option::None,
        attachment: Option::Some(AttachmentV { data: original, name, mime: csv_mime() }),
    }
}

/// The success confirmation, with the freshly encoded batch attached
/// under the original filename.
pub open spec fn success_message_v(cfg: Config, data: Seq<u8>, name: Seq<char>) -> MessageV {
    MessageV {
        recipient: cfg.recipient@,
        sender: cfg.sender@,
        subject: encode_utf8("File updated successfully!"@),
        body: encode_utf8("File updated successfully!\nAttached for reference."@),
        html: Option::None,
        attachment: Option::Some(AttachmentV { data, name, mime: csv_mime() }),
    }
}

/// The transition relation of the dispatcher: from a state and an input
/// to the next state and the action to perform.
pub open spec fn step_spec(cfg: Config, st: StateV, inp: InputV) -> (StateV, ActionV) {
    match (st, inp) {
        (StateV::Idle, InputV::Start(ev)) => match ev {
            EventV::TimerTrigger => (
                StateV::AwaitCanonicalFetch,
                ActionV::Fetch { bucket: encode_utf8(cfg.bucket@), key: encode_utf8(cfg.key@) },
            ),
            EventV::StorageNotification { bucket, key } => (
                StateV::AwaitObjectFetch,
                ActionV::Fetch {
                    bucket: pct_decode_spec(encode_utf8(bucket)),
                    key: pct_decode_spec(encode_utf8(key)),
                },
            ),
        },
        (StateV::AwaitCanonicalFetch, InputV::Fetched(res)) => match res {
            Result::Ok(data) => (
                StateV::AwaitReminderSend,
                ActionV::Send { message: reminder_message_v(cfg, data) },
            ),
            Result::Err(_) => (
                StateV::AwaitReminderSend,
                ActionV::Send { message: reply_request_message_v(cfg) },
            ),
        },
        (StateV::AwaitReminderSend, InputV::Sent(_)) => (
            StateV::Finished { outcome: Outcome::ReminderHandled },
            ActionV::Stop { outcome: Outcome::ReminderHandled },
        ),
        (StateV::AwaitObjectFetch, InputV::Fetched(res)) => match res {
            Result::Ok(data) => (StateV::AwaitMailParse, ActionV::ParseMail { data }),
            Result::Err(_) => (
                StateV::Finished { outcome: Outcome::FailedFetch },
                ActionV::Stop { outcome: Outcome::FailedFetch },
            ),
        },
        (StateV::AwaitMailParse, InputV::MailParsed(opt)) => match opt {
            Option::None => (
                StateV::Finished { outcome: Outcome::MissingAttachment },
                ActionV::Stop { outcome: Outcome::MissingAttachment },
            ),
            Option::Some((name, body)) => {
                let bytes = encode_utf8(body);
                let recs = decode_spec(bytes).0;
                let perrs = decode_spec(bytes).1;
                let verrs = validate_spec(recs);
                if perrs.len() == 0 && verrs.len() == 0 {
                    (
                        StateV::AwaitWrite { encoded: encode_spec(recs), filename: name },
                        ActionV::Write { data: encode_spec(recs) },
                    )
                } else {
                    (
                        StateV::AwaitReportSend,
                        ActionV::Send { message: report_message_v(cfg, name, bytes, perrs, verrs) },
                    )
                }
            },
        },
        (StateV::AwaitReportSend, InputV::Sent(ok)) => if ok {
            (
                StateV::Finished { outcome: Outcome::ReportSent },
                ActionV::Stop { outcome: Outcome::ReportSent },
            )
        } else {
            (
                StateV::Finished { outcome: Outcome::FailedSend },
                ActionV::Stop { outcome: Outcome::FailedSend },
            )
        },
        (StateV::AwaitWrite { encoded, filename }, InputV::Wrote(ok)) => if ok {
            (
                StateV::AwaitConfirmSend { encoded, filename },
                ActionV::Send { message: success_message_v(cfg, encoded, filename) },
            )
        } else {
            (
                StateV::Finished { outcome: Outcome::FailedWrite },
                ActionV::Stop { outcome: Outcome::FailedWrite },
            )
        },
        (StateV::AwaitConfirmSend { .. }, InputV::Sent(ok)) => if ok {
            (
                StateV::Finished { outcome: Outcome::Updated },
                ActionV::Stop { outcome: Outcome::Updated },
            )
        } else {
            (
                StateV::Finished { outcome: Outcome::FailedSend },
                ActionV::Stop { outcome: Outcome::FailedSend },
            )
        },
        _ => (
            StateV::Finished { outcome: Outcome::Aborted },
            ActionV::Stop { outcome: Outcome::Aborted },
        ),
    }
}

/// Copy a byte vector.
fn copy_bytes(v: &Vec<u8>) -> (r: Vec<u8>)
    ensures
        r@ == v@,
{
    let r = crate::text::sub_vec(v.as_slice(), 0, v.len());
    proof {
        assert(v@.subrange(0, v@.len() as int) =~= v@);
    }
    r
}

/// Render one line per parse error.
fn render_parse_error_lines(es: &Vec<ParseError>) -> (r: Vec<u8>)
    ensures
        r@ == parse_error_lines(es@),
{
    let mut out: Vec<u8> = Vec::new();
    let mut i: usize = 0;
    proof {
        assert(es@.skip(0) =~= es@);
    }
    while i < es.len()
        invariant
            i <= es@.len(),
            parse_error_lines(es@) == out@ + parse_error_lines(es@.skip(i as int)),
        decreases es@.len() - i,
    {
        proof {
            let suf = es@.skip(i as int);
            assert(suf[0] == es@[i as int]);
            assert(suf.drop_first() =~= es@.skip(i as int + 1));
        }
        let mut line = es[i].describe();
        out.append(&mut line);
        out.push(10);
        i = i + 1;
    }
    proof {
        assert(es@.skip(es@.len() as int) =~= Seq::<ParseError>::empty());
    }
    out
}

/// Render one line per validation error.
fn render_validation_error_lines(es: &Vec<ValidationError>) -> (r: Vec<u8>)
    requires
        forall|i: int|
            0 <= i < es@.len() ==> crate::datetime::ts_valid((#[trigger] es@[i]).start_date)
                && crate::datetime::ts_valid(es@[i].end_date),
    ensures
        r@ == validation_error_lines(es@),
{
    let mut out: Vec<u8> = Vec::new();
    let mut i: usize = 0;
    proof {
        assert(es@.skip(0) =~= es@);
    }
    while i < es.len()
        invariant
            i <= es@.len(),
            forall|k: int|
                0 <= k < es@.len() ==> crate::datetime::ts_valid((#[trigger] es@[k]).start_date)
                    && crate::datetime::ts_valid(es@[k].end_date),
            validation_error_lines(es@) == out@ + validation_error_lines(es@.skip(i as int)),
        decreases es@.len() - i,
    {
        proof {
            let suf = es@.skip(i as int);
            assert(suf[0] == es@[i as int]);
            assert(suf.drop_first() =~= es@.skip(i as int + 1));
        }
        let mut line = es[i].describe();
        out.append(&mut line);
        out.push(10);
        i = i + 1;
    }
    proof {
        assert(es@.skip(es@.len() as int) =~= Seq::<ValidationError>::empty());
    }
    out
}

/// Build the error-report body.
fn render_report_body(perrs: &Vec<ParseError>, verrs: &Vec<ValidationError>) -> (r: Vec<u8>)
    requires
        forall|i: int|
            0 <= i < verrs@.len() ==> crate::datetime::ts_valid((#[trigger] verrs@[i]).start_date)
                && crate::datetime::ts_valid(verrs@[i].end_date),
    ensures
        r@ == report_body_spec(perrs@, verrs@),
{
    let mut out: Vec<u8> = Vec::new();
    crate::text::push_str_bytes(&mut out, "Errors found in attached file:\n");
    let mut psec: Vec<u8> = Vec::new();
    if perrs.len() > 0 {
        crate::text::push_str_bytes(&mut psec, "Deserialization errors:\n");
        let mut lines = render_parse_error_lines(perrs);
        psec.append(&mut lines);
    }
    out.append(&mut psec);
    let mut vsec: Vec<u8> = Vec::new();
    if verrs.len() > 0 {
        crate::text::push_str_bytes(&mut vsec, "Validation errors:\n");
        let mut lines = render_validation_error_lines(verrs);
        vsec.append(&mut lines);
    }
    out.append(&mut vsec);
    out
}

/// Build the reminder that carries the canonical file.
fn make_reminder(cfg: &Config, data: Vec<u8>) -> (m: Message)
    ensures
        m@ == reminder_message_v(*cfg, data@),
{
    Message {
        recipient: cfg.recipient.clone(),
        sender: cfg.sender.clone(),
        subject: string_bytes("Please verify and update attached file"),
        body: string_bytes("Please verify and update the attached file"),
        html: None,
        attachment: Some(
            Attachment::new(data, cfg.key.clone(), "text/csv; charset=utf8".to_owned()),
        ),
    }
}

/// Build the reminder asking for a file, with no attachment.
fn make_reply_request(cfg: &Config) -> (m: Message)
    ensures
        m@ == reply_request_message_v(*cfg),
{
    Message {
        recipient: cfg.recipient.clone(),
        sender: cfg.sender.clone(),
        subject: string_bytes("Please reply with file"),
        body: string_bytes("Please reply with file"),
        html: None,
        attachment: None,
    }
}

/// Decode, validate and branch on an extracted attachment.
fn handle_attachment(cfg: &Config, ma: MailAttachment) -> (r: (State, Action))
    ensures
        (r.0@, r.1@) == step_spec(
            *cfg,
            StateV::AwaitMailParse,
            InputV::MailParsed(Option::Some((ma.name@, ma.body@))),
        ),
{
    let MailAttachment { name, body } = ma;
    let (records, perrs) = deserialize_csv(body.as_str());
    let verrs = validate_all_records(&records);
    if perrs.len() == 0 && verrs.len() == 0 {
        proof {
            crate::codec::lemma_decode_entries_valid(encode_utf8(body@));
        }
        let encoded = serialize_csv(&records);
        let data = copy_bytes(&encoded);
        (State::AwaitWrite { encoded, filename: name }, Action::Write { data })
    } else {
        proof {
            crate::codec::lemma_decode_entries_valid(encode_utf8(body@));
            crate::validate::lemma_validate_errors_valid(records@);
        }
        let report = render_report_body(&perrs, &verrs);
        let mut subject = string_bytes("Errors in file: ");
        let mut nb = vstd::slice::slice_to_vec(name.as_str().as_bytes());
        subject.append(&mut nb);
        let original = vstd::slice::slice_to_vec(body.as_str().as_bytes());
        let message = Message {
            recipient: cfg.recipient.clone(),
            sender: cfg.sender.clone(),
            subject,
            body: report,
            html: None,
            attachment: Some(
                Attachment::new(original, name, "text/csv; charset=utf8".to_owned()),
            ),
        };
        (State::AwaitReportSend, Action::Send { message })
    }
}

/// Build the confirmation sent after a successful canonical write.
fn make_success(cfg: &Config, encoded: &Vec<u8>, filename: &String) -> (r: (State, Action))
    ensures
        (r.0@, r.1@) == step_spec(
            *cfg,
            StateV::AwaitWrite { encoded: encoded@, filename: filename@ },
            InputV::Wrote(true),
        ),
{
    let data = copy_bytes(encoded);
    let message = Message {
        recipient: cfg.recipient.clone(),
        sender: cfg.sender.clone(),
        subject: string_bytes("File updated successfully!"),
        body: string_bytes("File updated successfully!\nAttached for reference."),
        html: None,
        attachment: Some(
            Attachment::new(data, filename.clone(), "text/csv; charset=utf8".to_owned()),
        ),
    };
    (
        State::AwaitConfirmSend { encoded: copy_bytes(encoded), filename: filename.clone() },
        Action::Send { message },
    )
}

/// The dispatcher: configuration plus the machine's current state.
pub struct Dispatcher {
    pub config: Config,
    pub state: State,
}

impl Dispatcher {
    /// A fresh machine, ready for the starting event.
    pub fn new(config: Config) -> (r: Dispatcher)
        ensures
            r.config == config,
            r.state@ == StateV::Idle,
    {
        Dispatcher { config, state: State::Idle }
    }

    /// Advance the machine one transition: exactly `step_spec` of the old
    /// state and the input.  Total: every input in every state answers.
    #[verifier::rlimit(100)]
    pub fn step(&mut self, input: Input) -> (r: Action)
        ensures
            final(self).state@ == step_spec(old(self).config, old(self).state@, input@).0,
            r@ == step_spec(old(self).config, old(self).state@, input@).1,
            final(self).config == old(self).config,
    {
        let (next, act) = match (&self.state, input) {
            (State::Idle, Input::Start(Event::TimerTrigger)) => {
                let bucket = vstd::slice::slice_to_vec(self.config.bucket.as_str().as_bytes());
                let key = vstd::slice::slice_to_vec(self.config.key.as_str().as_bytes());
                (State::AwaitCanonicalFetch, Action::Fetch { bucket, key })
            },
            (State::Idle, Input::Start(Event::StorageNotification { bucket, key })) => {
                let braw = vstd::slice::slice_to_vec(bucket.as_str().as_bytes());
                let kraw = vstd::slice::slice_to_vec(key.as_str().as_bytes());
                let b = pct_decode(&braw);
                let k = pct_decode(&kraw);
                (State::AwaitObjectFetch, Action::Fetch { bucket: b, key: k })
            },
            (State::AwaitCanonicalFetch, Input::Fetched(Result::Ok(data))) => {
                let message = make_reminder(&self.config, data);
                (State::AwaitReminderSend, Action::Send { message })
            },
            (State::AwaitCanonicalFetch, Input::Fetched(Result::Err(_))) => {
                let message = make_reply_request(&self.config);
                (State::AwaitReminderSend, Action::Send { message })
            },
            (State::AwaitReminderSend, Input::Sent(_)) => (
                State::Finished { outcome: Outcome::ReminderHandled },
                Action::Stop { outcome: Outcome::ReminderHandled },
            ),
            (State::AwaitObjectFetch, Input::Fetched(Result::Ok(data))) => (
                State::AwaitMailParse,
                Action::ParseMail { data },
            ),
            (State::AwaitObjectFetch, Input::Fetched(Result::Err(_))) => (
                State::Finished { outcome: Outcome::FailedFetch },
                Action::Stop { outcome: Outcome::FailedFetch },
            ),
            (State::AwaitMailParse, Input::MailParsed(None)) => (
                State::Finished { outcome: Outcome::MissingAttachment },
                Action::Stop { outcome: Outcome::MissingAttachment },
            ),
            (State::AwaitMailParse, Input::MailParsed(Some(ma))) => handle_attachment(
                &self.config,
                ma,
            ),
            (State::AwaitReportSend, Input::Sent(ok)) => {
                if ok {
                    (
                        State::Finished { outcome: Outcome::ReportSent },
                        Action::Stop { outcome: Outcome::ReportSent },
                    )
                } else {
                    (
                        State::Finished { outcome: Outcome::FailedSend },
                        Action::Stop { outcome: Outcome::FailedSend },
                    )
                }
            },
            (State::AwaitWrite { encoded, filename }, Input::Wrote(ok)) => {
                if ok {
                    make_success(&self.config, encoded, filename)
                } else {
                    (
                        State::Finished { outcome: Outcome::FailedWrite },
                        Action::Stop { outcome: Outcome::FailedWrite },
                    )
                }
            },
            (State::AwaitConfirmSend { .. }, Input::Sent(ok)) => {
                if ok {
                    (
                        State::Finished { outcome: Outcome::Updated },
                        Action::Stop { outcome: Outcome::Updated },
                    )
                } else {
                    (
                        State::Finished { outcome: Outcome::FailedSend },
                        Action::Stop { outcome: Outcome::FailedSend },
                    )
                }
            },
            _ => (
                State::Finished { outcome: Outcome::Aborted },
                Action::Stop { outcome: Outcome::Aborted },
            ),
        };
        self.state = next;
        act
    }
}

/// Clean-batch law: when the decoded batch has no parse errors and no
/// validation errors, the machine first writes exactly the re-encoded
/// batch to the canonical object, and after a successful write sends
/// exactly one success message with that same batch attached under the
/// original filename; a delivered send ends the pass as `Updated`.
pub proof fn lemma_clean_batch_updates(cfg: Config, name: Seq<char>, body: Seq<char>)
    requires
        decode_spec(encode_utf8(body)).1.len() == 0,
        validate_spec(decode_spec(encode_utf8(body)).0).len() == 0,
    ensures
        ({
            let recs = decode_spec(encode_utf8(body)).0;
            let first = step_spec(
                cfg,
                StateV::AwaitMailParse,
                InputV::MailParsed(Option::Some((name, body))),
            );
            let second = step_spec(cfg, first.0, InputV::Wrote(true));
            let third = step_spec(cfg, second.0, InputV::Sent(true));
            &&& first.1 == ActionV::Write { data: encode_spec(recs) }
            &&& first.0 == StateV::AwaitWrite { encoded: encode_spec(recs), filename: name }
            &&& second.1 == ActionV::Send { message: success_message_v(cfg, encode_spec(recs), name) }
            &&& second.0 == StateV::AwaitConfirmSend { encoded: encode_spec(recs), filename: name }
            &&& third.0 == StateV::Finished { outcome: Outcome::Updated }
            &&& third.1 == ActionV::Stop { outcome: Outcome::Updated }
        }),
{
}

/// Error-batch law: when the decoded batch has a parse error or a
/// validation error, the machine sends exactly one error-report message
/// whose body lists every error, with the untouched original attachment
/// bytes re-attached; and from that point every possible input ends the
/// pass, so no canonical write ever happens on this path.
pub proof fn lemma_error_batch_reports(cfg: Config, name: Seq<char>, body: Seq<char>)
    requires
        decode_spec(encode_utf8(body)).1.len() > 0 || validate_spec(
            decode_spec(encode_utf8(body)).0,
        ).len() > 0,
    ensures
        ({
            let perrs = decode_spec(encode_utf8(body)).1;
            let verrs = validate_spec(decode_spec(encode_utf8(body)).0);
            let first = step_spec(
                cfg,
                StateV::AwaitMailParse,
                InputV::MailParsed(Option::Some((name, body))),
            );
            &&& first.1 == ActionV::Send {
                message: report_message_v(cfg, name, encode_utf8(body), perrs, verrs),
            }
            &&& report_message_v(cfg, name, encode_utf8(body), perrs, verrs).attachment
                == Option::Some(
                AttachmentV { data: encode_utf8(body), name, mime: csv_mime() },
            )
            &&& first.0 == StateV::AwaitReportSend
        }),
        forall|inp: InputV|
            !((#[trigger] step_spec(cfg, StateV::AwaitReportSend, inp).1) is Write),
        forall|inp: InputV|
            (#[trigger] step_spec(cfg, StateV::AwaitReportSend, inp).1) is Stop,
{
}

/// Reminder law: a timer pass that finds no canonical file asks for one
/// by mail, with no attachment, and ends without failing whatever the
/// send's result was.
pub proof fn lemma_timer_missing_file(cfg: Config, e: FetchError)
    ensures
        step_spec(cfg, StateV::Idle, InputV::Start(EventV::TimerTrigger)) == (
            StateV::AwaitCanonicalFetch,
            ActionV::Fetch { bucket: encode_utf8(cfg.bucket@), key: encode_utf8(cfg.key@) },
        ),
        step_spec(
            cfg,
            StateV::AwaitCanonicalFetch,
            InputV::Fetched(Result::Err(e)),
        ) == (
            StateV::AwaitReminderSend,
            ActionV::Send { message: reply_request_message_v(cfg) },
        ),
        reply_request_message_v(cfg).attachment == Option::None::<AttachmentV>,
        reply_request_message_v(cfg).subject == encode_utf8("Please reply with file"@),
        forall|ok: bool|
            #[trigger] step_spec(cfg, StateV::AwaitReminderSend, InputV::Sent(ok)) == (
                StateV::Finished { outcome: Outcome::ReminderHandled },
                ActionV::Stop { outcome: Outcome::ReminderHandled },
            ),
{
}

/// The UTF-8 bytes of a string literal, as a fresh vector.
fn string_bytes(s: &str) -> (r: Vec<u8>)
    ensures
        r@ == encode_utf8(s@),
{
    vstd::slice::slice_to_vec(s.as_bytes())
}

} // verus!
