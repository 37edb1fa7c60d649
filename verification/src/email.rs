//! The notification composer: structured messages (subject, plain body,
//! optional HTML alternative, optional binary attachment) rendered
//! deterministically into a transport-ready multi-part byte sequence.
//!
//! Part boundaries are fixed strings, so composition is a pure function of
//! the message.  Filenames are carried as raw bytes; non-ASCII names must
//! be sanitized by the caller.

use vstd::prelude::*;
use vstd::utf8::encode_utf8;

use crate::encoding::{base64_encode, base64_spec, qp_encode, qp_encode_spec};

verus! {

/// The mathematical content of an attachment.
pub struct AttachmentV {
    pub data: Seq<u8>,
    pub name: Seq<char>,
    pub mime: Seq<char>,
}

/// A binary payload with a display filename and a MIME content type.
pub struct Attachment {
    pub attachment: Vec<u8>,
    pub name: String,
    pub mime: String,
}

impl View for Attachment {
    type V = AttachmentV;

    open spec fn view(&self) -> AttachmentV {
        AttachmentV { data: self.attachment@, name: self.name@, mime: self.mime@ }
    }
}

impl Attachment {
    /// Wrap payload bytes with their display name and content type.
    pub fn new(attachment: Vec<u8>, name: String, mime: String) -> (r: Self)
        ensures
            r@ == (AttachmentV { data: attachment@, name: name@, mime: mime@ }),
    {
        Self { attachment, name, mime }
    }
}

/// First index of `b` in `s`, or -1.
pub open spec fn find_byte(s: Seq<u8>, b: u8) -> int
    decreases s.len(),
{
    if s.len() == 0 {
        -1
    } else if s[0] == b {
        0
    } else {
        let r = find_byte(s.drop_first(), b);
        if r == -1 {
            -1
        } else {
            r + 1
        }
    }
}

/// If the first `i` bytes differ from `b` and position `i` is the end or
/// holds `b`, the search result is determined.
proof fn lemma_find_byte_from(s: Seq<u8>, b: u8, i: int)
    requires
        0 <= i <= s.len(),
        forall|k: int| 0 <= k < i ==> s[k] != b,
        i == s.len() || s[i] == b,
    ensures
        find_byte(s, b) == if i == s.len() {
            -1
        } else {
            i
        },
    decreases i,
{
    if i == 0 {
    } else {
        let tail = s.drop_first();
        assert(forall|k: int| 0 <= k < i - 1 ==> #[trigger] tail[k] == s[k + 1]);
        if i < s.len() {
            assert(tail[i - 1] == s[i]);
        }
        lemma_find_byte_from(tail, b, i - 1);
    }
}

/// A bare address: exactly one `@` with non-empty sides, and none of
/// space, comma or angle bracket anywhere.
pub open spec fn addr_ok(s: Seq<u8>) -> bool {
    &&& s.len() >= 3
    &&& find_byte(s, 64u8) >= 1
    &&& find_byte(s, 64u8) < s.len() - 1
    &&& forall|i: int|
        find_byte(s, 64u8) < i < s.len() ==> #[trigger] s[i] != 64u8
    &&& forall|i: int|
        0 <= i < s.len() ==> (#[trigger] s[i] != 32u8 && s[i] != 60u8 && s[i] != 62u8 && s[i]
            != 44u8)
}

/// A mailbox: either a bare address, or a display name followed by an
/// address in angle brackets ending the string.
pub open spec fn mailbox_ok(s: Seq<u8>) -> bool {
    let lt = find_byte(s, 60u8);
    if lt == -1 {
        addr_ok(s)
    } else {
        &&& s.len() >= 2
        &&& s.last() == 62u8
        &&& addr_ok(s.subrange(lt + 1, s.len() - 1))
    }
}

/// Check a bare-address byte range `[from, to)` of `s`.
fn addr_range_ok(s: &Vec<u8>, from: usize, to: usize) -> (r: bool)
    requires
        from <= to <= s@.len(),
    ensures
        r == addr_ok(s@.subrange(from as int, to as int)),
{
    let x = crate::text::sub_vec(s.as_slice(), from, to);
    proof {
        assert(x@ == s@.subrange(from as int, to as int));
    }
    if x.len() < 3 {
        return false;
    }
    let mut i: usize = 0;
    while i < x.len() && x[i] != 64
        invariant
            i <= x@.len(),
            forall|k: int| 0 <= k < i ==> x@[k] != 64u8,
        decreases x@.len() - i,
    {
        i = i + 1;
    }
    proof {
        lemma_find_byte_from(x@, 64u8, i as int);
    }
    if i == x.len() || i == 0 || i == x.len() - 1 {
        return false;
    }
    let at = i;
    let mut j: usize = at + 1;
    while j < x.len()
        invariant
            x@ == s@.subrange(from as int, to as int),
            at < j <= x@.len(),
            find_byte(x@, 64u8) == at,
            forall|k: int| at < k < j ==> #[trigger] x@[k] != 64u8,
        decreases x@.len() - j,
    {
        if x[j] == 64 {
            proof {
                assert(x@[j as int] == 64u8);
                assert(!addr_ok(x@));
            }
            return false;
        }
        j = j + 1;
    }
    let mut k: usize = 0;
    while k < x.len()
        invariant
            x@ == s@.subrange(from as int, to as int),
            k <= x@.len(),
            find_byte(x@, 64u8) == at,
            0 < at < x@.len() - 1,
            forall|t: int| at < t < x@.len() ==> #[trigger] x@[t] != 64u8,
            forall|t: int|
                0 <= t < k ==> (#[trigger] x@[t] != 32u8 && x@[t] != 60u8 && x@[t] != 62u8 && x@[t]
                    != 44u8),
        decreases x@.len() - k,
    {
        let c = x[k];
        if c == 32 || c == 60 || c == 62 || c == 44 {
            proof {
                assert(x@[k as int] == c);
                assert(!addr_ok(x@));
            }
            return false;
        }
        k = k + 1;
    }
    true
}

/// Check that a string is a well-formed mailbox.
pub fn check_mailbox(s: &str) -> (r: bool)
    ensures
        r == mailbox_ok(encode_utf8(s@)),
{
    let bytes = vstd::slice::slice_to_vec(s.as_bytes());
    let mut i: usize = 0;
    while i < bytes.len() && bytes[i] != 60
        invariant
            i <= bytes@.len(),
            forall|k: int| 0 <= k < i ==> bytes@[k] != 60u8,
        decreases bytes@.len() - i,
    {
        i = i + 1;
    }
    proof {
        lemma_find_byte_from(bytes@, 60u8, i as int);
    }
    if i == bytes.len() {
        proof {
            assert(bytes@.subrange(0, bytes@.len() as int) =~= bytes@);
        }
        addr_range_ok(&bytes, 0, bytes.len())
    } else {
        if bytes.len() < 2 || bytes[bytes.len() - 1] != 62 {
            return false;
        }
        addr_range_ok(&bytes, i + 1, bytes.len() - 1)
    }
}

/// Why a message could not be constructed.
#[derive(PartialEq, Eq, Structural, Clone, Copy, Debug)]
pub enum AddressError {
    /// The recipient is not a well-formed mailbox.
    BadRecipient,
    /// The sender is not a well-formed mailbox.
    BadSender,
}

/// The mathematical content of a message.
pub struct MessageV {
    pub recipient: Seq<char>,
    pub sender: Seq<char>,
    pub subject: Seq<u8>,
    pub body: Seq<u8>,
    pub html: Option<Seq<u8>>,
    pub attachment: Option<AttachmentV>,
}

/// A notification to one recipient: subject, plain body, optional HTML
/// alternative, optional single attachment.
pub struct Message {
    pub recipient: String,
    pub sender: String,
    pub subject: Vec<u8>,
    pub body: Vec<u8>,
    pub html: Option<Vec<u8>>,
    pub attachment: Option<Attachment>,
}

impl View for Message {
    type V = MessageV;

    open spec fn view(&self) -> MessageV {
        MessageV {
            recipient: self.recipient@,
            sender: self.sender@,
            subject: self.subject@,
            body: self.body@,
            html: match self.html {
                Option::Some(h) => Option::Some(h@),
                Option::None => Option::None,
            },
            attachment: match self.attachment {
                Option::Some(a) => Option::Some(a@),
                Option::None => Option::None,
            },
        }
    }
}

impl Message {
    /// Construct a message, checking both addresses.  A malformed address
    /// is a fatal construction error; nothing else can fail.
    pub fn new(
        recipient: String,
        sender: String,
        subject: Vec<u8>,
        body: Vec<u8>,
        html: Option<Vec<u8>>,
        attachment: Option<Attachment>,
    ) -> (r: Result<Message, AddressError>)
        ensures
            !mailbox_ok(encode_utf8(recipient@)) ==> r == Err::<Message, AddressError>(
                AddressError::BadRecipient,
            ),
            mailbox_ok(encode_utf8(recipient@)) && !mailbox_ok(encode_utf8(sender@)) ==> r
                == Err::<Message, AddressError>(AddressError::BadSender),
            mailbox_ok(encode_utf8(recipient@)) && mailbox_ok(encode_utf8(sender@)) ==> r is Ok
                && r->Ok_0@ == (MessageV {
                recipient: recipient@,
                sender: sender@,
                subject: subject@,
                body: body@,
                html: match html {
                    Option::Some(h) => Option::Some(h@),
                    Option::None => Option::None,
                },
                attachment: match attachment {
                    Option::Some(a) => Option::Some(a@),
                    Option::None => Option::None,
                },
            }),
    {
        if !check_mailbox(recipient.as_str()) {
            return Err(AddressError::BadRecipient);
        }
        if !check_mailbox(sender.as_str()) {
            return Err(AddressError::BadSender);
        }
        Ok(Message { recipient, sender, subject, body, html, attachment })
    }
}

/// The transport headers and the opening of the mixed container.
pub open spec fn headers_v(m: MessageV) -> Seq<u8> {
    encode_utf8("From: "@) + encode_utf8(m.sender) + encode_utf8("\r\nTo: "@) + encode_utf8(
        m.recipient,
    ) + encode_utf8("\r\nSubject: "@) + m.subject + encode_utf8(
        "\r\nMIME-Version: 1.0\r\nContent-Type: multipart/mixed; boundary=\"mixed-part-boundary\"\r\n\r\n"@,
    )
}

/// The plain-text part: quoted-printable so arbitrary text travels safely.
pub open spec fn plain_part_v(body: Seq<u8>) -> Seq<u8> {
    encode_utf8(
        "Content-Type: text/plain; charset=utf8\r\nContent-Transfer-Encoding: quoted-printable\r\n\r\n"@,
    ) + qp_encode_spec(body) + encode_utf8("\r\n"@)
}

/// The HTML part: passed through under a binary-safe 8bit encoding.
pub open spec fn html_part_v(h: Seq<u8>) -> Seq<u8> {
    encode_utf8("Content-Type: text/html; charset=utf8\r\nContent-Transfer-Encoding: 8bit\r\n\r\n"@)
        + h + encode_utf8("\r\n"@)
}

/// The attachment part: base64 body under an attachment disposition that
/// carries the filename bytes unaltered.
pub open spec fn att_part_v(a: AttachmentV) -> Seq<u8> {
    encode_utf8("Content-Type: "@) + encode_utf8(a.mime) + encode_utf8(
        "\r\nContent-Disposition: attachment; filename=\""@,
    ) + encode_utf8(a.name) + encode_utf8("\"\r\nContent-Transfer-Encoding: base64\r\n\r\n"@)
        + base64_spec(a.data) + encode_utf8("\r\n"@)
}

/// The body section: with an HTML body the text travels as a two-variant
/// alternative container (plain first, HTML second); without one the
/// plain part stands alone in the mixed container.
pub open spec fn body_section_v(m: MessageV) -> Seq<u8> {
    match m.html {
        Option::Some(h) => encode_utf8(
            "--mixed-part-boundary\r\nContent-Type: multipart/alternative; boundary=\"alt-part-boundary\"\r\n\r\n--alt-part-boundary\r\n"@,
        ) + plain_part_v(m.body) + encode_utf8("--alt-part-boundary\r\n"@) + html_part_v(h)
            + encode_utf8("--alt-part-boundary--\r\n"@),
        Option::None => encode_utf8("--mixed-part-boundary\r\n"@) + plain_part_v(m.body),
    }
}

/// The attachment section, empty when there is no attachment.
pub open spec fn att_section_v(m: MessageV) -> Seq<u8> {
    match m.attachment {
        Option::Some(a) => encode_utf8("--mixed-part-boundary\r\n"@) + att_part_v(a),
        Option::None => Seq::empty(),
    }
}

/// The rendered transport-ready byte form of a message.  Deterministic:
/// equal messages render to equal bytes.
pub open spec fn rendered(m: MessageV) -> Seq<u8> {
    headers_v(m) + body_section_v(m) + att_section_v(m) + encode_utf8(
        "--mixed-part-boundary--\r\n"@,
    )
}

/// Build the header block of a message.
fn render_headers(m: &Message) -> (r: Vec<u8>)
    ensures
        r@ == headers_v(m@),
{
    let mut out: Vec<u8> = Vec::new();
    crate::text::push_str_bytes(&mut out, "From: ");
    crate::text::push_str_bytes(&mut out, m.sender.as_str());
    crate::text::push_str_bytes(&mut out, "\r\nTo: ");
    crate::text::push_str_bytes(&mut out, m.recipient.as_str());
    crate::text::push_str_bytes(&mut out, "\r\nSubject: ");
    let mut subj = crate::text::sub_vec(m.subject.as_slice(), 0, m.subject.len());
    proof {
        assert(m.subject@.subrange(0, m.subject@.len() as int) =~= m.subject@);
    }
    out.append(&mut subj);
    crate::text::push_str_bytes(
        &mut out,
        "\r\nMIME-Version: 1.0\r\nContent-Type: multipart/mixed; boundary=\"mixed-part-boundary\"\r\n\r\n",
    );
    proof {
        assert(out@ =~= headers_v(m@));
    }
    out
}

/// Build the body section of a message.
fn render_body_section(m: &Message) -> (r: Vec<u8>)
    ensures
        r@ == body_section_v(m@),
{
    let mut out: Vec<u8> = Vec::new();
    match &m.html {
        Option::Some(h) => {
            crate::text::push_str_bytes(
                &mut out,
                "--mixed-part-boundary\r\nContent-Type: multipart/alternative; boundary=\"alt-part-boundary\"\r\n\r\n--alt-part-boundary\r\n",
            );
            push_plain_part(&mut out, &m.body);
            crate::text::push_str_bytes(&mut out, "--alt-part-boundary\r\n");
            crate::text::push_str_bytes(
                &mut out,
                "Content-Type: text/html; charset=utf8\r\nContent-Transfer-Encoding: 8bit\r\n\r\n",
            );
            let mut hb = crate::text::sub_vec(h.as_slice(), 0, h.len());
            proof {
                assert(h@.subrange(0, h@.len() as int) =~= h@);
            }
            out.append(&mut hb);
            crate::text::push_str_bytes(&mut out, "\r\n");
            crate::text::push_str_bytes(&mut out, "--alt-part-boundary--\r\n");
            proof {
                assert(out@ =~= body_section_v(m@));
            }
        },
        Option::None => {
            crate::text::push_str_bytes(&mut out, "--mixed-part-boundary\r\n");
            push_plain_part(&mut out, &m.body);
            proof {
                assert(out@ =~= body_section_v(m@));
            }
        },
    }
    out
}

/// Build the attachment section of a message.
fn render_att_section(m: &Message) -> (r: Vec<u8>)
    ensures
        r@ == att_section_v(m@),
{
    let mut out: Vec<u8> = Vec::new();
    match &m.attachment {
        Option::Some(a) => {
            crate::text::push_str_bytes(&mut out, "--mixed-part-boundary\r\n");
            crate::text::push_str_bytes(&mut out, "Content-Type: ");
            crate::text::push_str_bytes(&mut out, a.mime.as_str());
            crate::text::push_str_bytes(
                &mut out,
                "\r\nContent-Disposition: attachment; filename=\"",
            );
            crate::text::push_str_bytes(&mut out, a.name.as_str());
            crate::text::push_str_bytes(
                &mut out,
                "\"\r\nContent-Transfer-Encoding: base64\r\n\r\n",
            );
            let mut b64 = base64_encode(&a.attachment);
            out.append(&mut b64);
            crate::text::push_str_bytes(&mut out, "\r\n");
            proof {
                assert(out@ =~= att_section_v(m@));
            }
        },
        Option::None => {
            proof {
                assert(out@ =~= att_section_v(m@));
            }
        },
    }
    out
}

/// Render a message.  Total: every constructed message renders.
pub fn render(m: &Message) -> (r: Vec<u8>)
    ensures
        r@ == rendered(m@),
{
    let mut out = render_headers(m);
    let mut bodysec = render_body_section(m);
    out.append(&mut bodysec);
    let mut attsec = render_att_section(m);
    out.append(&mut attsec);
    crate::text::push_str_bytes(&mut out, "--mixed-part-boundary--\r\n");
    out
}

/// Append the quoted-printable plain-text part.
fn push_plain_part(out: &mut Vec<u8>, body: &Vec<u8>)
    ensures
        final(out)@ == old(out)@ + plain_part_v(body@),
{
    crate::text::push_str_bytes(
        out,
        "Content-Type: text/plain; charset=utf8\r\nContent-Transfer-Encoding: quoted-printable\r\n\r\n",
    );
    let mut qp = qp_encode(body);
    out.append(&mut qp);
    crate::text::push_str_bytes(out, "\r\n");
}

/// Order law for a full message: with an HTML body and an attachment the
/// rendered bytes are the headers, then the plain-text part, then the
/// HTML part, then the attachment part, then the closing boundary — three
/// content parts, in that order.
pub proof fn lemma_three_parts_in_order(m: MessageV, h: Seq<u8>, a: AttachmentV)
    requires
        m.html == Some(h),
        m.attachment == Some(a),
    ensures
        rendered(m) == headers_v(m) + (encode_utf8(
            "--mixed-part-boundary\r\nContent-Type: multipart/alternative; boundary=\"alt-part-boundary\"\r\n\r\n--alt-part-boundary\r\n"@,
        ) + plain_part_v(m.body) + encode_utf8("--alt-part-boundary\r\n"@) + html_part_v(h)
            + encode_utf8("--alt-part-boundary--\r\n"@)) + (encode_utf8(
            "--mixed-part-boundary\r\n"@,
        ) + att_part_v(a)) + encode_utf8("--mixed-part-boundary--\r\n"@),
{
}

} // verus!
