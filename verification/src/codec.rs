//! The record codec: strict decoding of the delimited tabular attachment
//! into typed entries with per-row error accumulation, and serialization of
//! entries back to the canonical byte form.
//!
//! The format is one header row (`id,start_date,end_date`, the first column
//! also accepted in its upper-case spelling `ID`), then one comma-separated
//! row per record.  A malformed row is reported in the error list and never
//! aborts the rows around it.

use vstd::prelude::*;
use vstd::string::StringSliceAdditionalSpecFns;

use crate::datetime::{parse_ts, parse_ts_bytes, render_ts, ts_bytes, ts_valid, Timestamp};
use crate::text::{
    bytes_eq, dec_bytes, parse_u32_bytes, parse_u32_spec, render_u32, seq_views, split_bytes,
    split_on, trim, trim_bytes,
};

verus! {

/// Why a single row failed to decode.
#[derive(PartialEq, Eq, Structural, Clone, Copy, Debug)]
pub enum ParseErrorKind {
    /// The header row is not the expected column list.
    BadHeader,
    /// The row does not have exactly three fields.
    FieldCount,
    /// The `id` field is not a decimal number that fits the identifier type.
    BadId,
    /// The `start_date` field is not a valid `YYYY-MM-DD HH:MM:SS` timestamp.
    BadStart,
    /// The `end_date` field is not a valid `YYYY-MM-DD HH:MM:SS` timestamp.
    BadEnd,
}

/// One malformed input row: its position (1 is the first row after the
/// header) and what was wrong with it.
#[derive(PartialEq, Eq, Structural, Clone, Copy, Debug)]
pub struct ParseError {
    pub row: usize,
    pub kind: ParseErrorKind,
}

/// One decoded row of the tabular attachment.
#[derive(PartialEq, Eq, Structural, Clone, Copy, Debug)]
pub struct Entry {
    pub id: u32,
    pub start_date: Timestamp,
    pub end_date: Timestamp,
}

/// The fixed report text for each kind of row failure.
pub open spec fn kind_text(k: ParseErrorKind) -> Seq<u8> {
    match k {
        ParseErrorKind::BadHeader => vstd::utf8::encode_utf8("unrecognized header row"@),
        ParseErrorKind::FieldCount => vstd::utf8::encode_utf8("expected 3 fields"@),
        ParseErrorKind::BadId => vstd::utf8::encode_utf8("invalid id"@),
        ParseErrorKind::BadStart => vstd::utf8::encode_utf8("invalid start_date"@),
        ParseErrorKind::BadEnd => vstd::utf8::encode_utf8("invalid end_date"@),
    }
}

/// The report line for a parse error: the row's number and what was wrong.
pub open spec fn describe_parse(pe: ParseError) -> Seq<u8> {
    vstd::utf8::encode_utf8("row "@) + crate::text::dec_bytes(pe.row as nat)
        + vstd::utf8::encode_utf8(": "@) + kind_text(pe.kind)
}

impl ParseError {
    /// One report line for this error.
    pub fn describe(&self) -> (r: Vec<u8>)
        ensures
            r@ == describe_parse(*self),
    {
        let mut out: Vec<u8> = Vec::new();
        crate::text::push_str_bytes(&mut out, "row ");
        let mut num = crate::text::render_usize(self.row);
        out.append(&mut num);
        crate::text::push_str_bytes(&mut out, ": ");
        match self.kind {
            ParseErrorKind::BadHeader => crate::text::push_str_bytes(
                &mut out,
                "unrecognized header row",
            ),
            ParseErrorKind::FieldCount => crate::text::push_str_bytes(&mut out, "expected 3 fields"),
            ParseErrorKind::BadId => crate::text::push_str_bytes(&mut out, "invalid id"),
            ParseErrorKind::BadStart => crate::text::push_str_bytes(&mut out, "invalid start_date"),
            ParseErrorKind::BadEnd => crate::text::push_str_bytes(&mut out, "invalid end_date"),
        }
        out
    }
}

/// An entry whose timestamps are calendar-valid; decoding only ever
/// produces such entries, and only such entries can be re-serialized.
pub open spec fn entry_valid(e: Entry) -> bool {
    ts_valid(e.start_date) && ts_valid(e.end_date)
}

/// The canonical header row.
pub open spec fn header_lower() -> Seq<u8> {
    vstd::utf8::encode_utf8("id,start_date,end_date"@)
}

/// The accepted upper-case spelling of the identifier column.
pub open spec fn header_upper() -> Seq<u8> {
    vstd::utf8::encode_utf8("ID,start_date,end_date"@)
}

/// A header row is accepted in exactly two spellings.
pub open spec fn header_ok(l: Seq<u8>) -> bool {
    l == header_lower() || l == header_upper()
}

/// A line with a trailing carriage return (from CRLF endings) dropped.
pub open spec fn clean_line(l: Seq<u8>) -> Seq<u8> {
    if l.len() > 0 && l.last() == 13u8 {
        l.drop_last()
    } else {
        l
    }
}

/// Clean every line and drop the blank ones.
pub open spec fn clean_rows(ls: Seq<Seq<u8>>) -> Seq<Seq<u8>>
    decreases ls.len(),
{
    if ls.len() == 0 {
        Seq::empty()
    } else {
        let c = clean_line(ls[0]);
        let rest = clean_rows(ls.drop_first());
        if c.len() == 0 {
            rest
        } else {
            seq![c] + rest
        }
    }
}

/// The rows of a document: trim the whole input, split on line feeds,
/// strip carriage returns, drop blank lines.
pub open spec fn doc_rows(s: Seq<u8>) -> Seq<Seq<u8>> {
    clean_rows(split_on(trim(s), 10u8))
}

/// Decode one data row: three comma-separated fields, checked left to
/// right; the first failure names the row's error.  Opaque: most callers
/// treat a row's parse as a black box; proofs about its anatomy reveal it.
#[verifier::opaque]
pub open spec fn parse_row(l: Seq<u8>) -> Result<Entry, ParseErrorKind> {
    let fs = split_on(l, 44u8);
    if fs.len() != 3 {
        Err(ParseErrorKind::FieldCount)
    } else {
        match parse_u32_spec(fs[0]) {
            Option::None => Err(ParseErrorKind::BadId),
            Option::Some(id) => match parse_ts(fs[1]) {
                Option::None => Err(ParseErrorKind::BadStart),
                Option::Some(sd) => match parse_ts(fs[2]) {
                    Option::None => Err(ParseErrorKind::BadEnd),
                    Option::Some(ed) => Ok(Entry { id, start_date: sd, end_date: ed }),
                },
            },
        }
    }
}

/// Decode the data rows in order, numbering them from `rowno`: every row
/// contributes either one entry or one error, never both, never neither.
pub open spec fn decode_rows(data: Seq<Seq<u8>>, rowno: nat) -> (Seq<Entry>, Seq<ParseError>)
    decreases data.len(),
{
    if data.len() == 0 {
        (Seq::empty(), Seq::empty())
    } else {
        let rest = decode_rows(data.drop_first(), rowno + 1);
        match parse_row(data[0]) {
            Result::Ok(e) => (seq![e] + rest.0, rest.1),
            Result::Err(k) => (rest.0, seq![ParseError { row: rowno as usize, kind: k }] + rest.1),
        }
    }
}

/// When the header row is unusable, every data row is reported unreadable.
pub open spec fn bad_header_errors(n: nat) -> Seq<ParseError> {
    Seq::new(n, |i: int| ParseError { row: (i + 1) as usize, kind: ParseErrorKind::BadHeader })
}

/// The decode result for a whole document: ordered entries and ordered
/// per-row errors.
pub open spec fn decode_spec(s: Seq<u8>) -> (Seq<Entry>, Seq<ParseError>) {
    let rows = doc_rows(s);
    if rows.len() == 0 {
        (Seq::empty(), Seq::empty())
    } else if !header_ok(rows[0]) {
        (Seq::empty(), bad_header_errors((rows.len() - 1) as nat))
    } else {
        decode_rows(rows.drop_first(), 1)
    }
}

/// The canonical serialized form of one entry.
pub open spec fn row_bytes(e: Entry) -> Seq<u8> {
    dec_bytes(e.id as nat) + seq![44u8] + ts_bytes(e.start_date) + seq![44u8] + ts_bytes(
        e.end_date,
    )
}

/// The serialized data rows, each preceded by the line feed that ends the
/// line before it.
pub open spec fn body_bytes(rs: Seq<Entry>) -> Seq<u8>
    decreases rs.len(),
{
    if rs.len() == 0 {
        Seq::empty()
    } else {
        seq![10u8] + row_bytes(rs[0]) + body_bytes(rs.drop_first())
    }
}

/// The canonical serialized document: header, one row per entry, and a
/// final line feed.
pub open spec fn encode_spec(rs: Seq<Entry>) -> Seq<u8> {
    header_lower() + body_bytes(rs) + seq![10u8]
}

/// Copy a line, dropping one trailing carriage return if present.
fn cleaned_copy(l: &Vec<u8>) -> (r: Vec<u8>)
    ensures
        r@ == clean_line(l@),
{
    if l.len() > 0 && l[l.len() - 1] == 13 {
        let r = crate::text::sub_vec(l.as_slice(), 0, l.len() - 1);
        proof {
            assert(l@.subrange(0, l@.len() - 1) =~= l@.drop_last());
        }
        r
    } else {
        let r = crate::text::sub_vec(l.as_slice(), 0, l.len());
        proof {
            assert(l@.subrange(0, l@.len() as int) =~= l@);
        }
        r
    }
}

/// Decode one data row.
fn parse_row_exec(l: &Vec<u8>) -> (r: Result<Entry, ParseErrorKind>)
    ensures
        r == parse_row(l@),
{
    proof {
        reveal(parse_row);
    }
    let fields = split_bytes(l, 44);
    proof {
        let fs = split_on(l@, 44u8);
        assert(seq_views(fields@).len() == fs.len());
        if fields@.len() == 3 {
            assert(fields@[0]@ == fs[0]);
            assert(fields@[1]@ == fs[1]);
            assert(fields@[2]@ == fs[2]);
        }
    }
    if fields.len() != 3 {
        return Err(ParseErrorKind::FieldCount);
    }
    let id = match parse_u32_bytes(&fields[0]) {
        Option::Some(v) => v,
        Option::None => {
            return Err(ParseErrorKind::BadId);
        },
    };
    let sd = match parse_ts_bytes(&fields[1]) {
        Option::Some(v) => v,
        Option::None => {
            return Err(ParseErrorKind::BadStart);
        },
    };
    let ed = match parse_ts_bytes(&fields[2]) {
        Option::Some(v) => v,
        Option::None => {
            return Err(ParseErrorKind::BadEnd);
        },
    };
    Ok(Entry { id, start_date: sd, end_date: ed })
}

/// Decode a whole document.  Every input is accepted: malformed rows land
/// in the error list (in input order, with their row numbers), well-formed
/// rows land in the entry list (in input order), and neither disturbs the
/// other.
pub fn deserialize_csv(attachment: &str) -> (r: (Vec<Entry>, Vec<ParseError>))
    ensures
        r.0@ == decode_spec(attachment.spec_bytes()).0,
        r.1@ == decode_spec(attachment.spec_bytes()).1,
{
    let bytes = vstd::slice::slice_to_vec(attachment.as_bytes());
    let trimmed = trim_bytes(bytes.as_slice());
    let lines = split_bytes(&trimmed, 10);
    let ghost lviews = seq_views(lines@);
    let mut rows: Vec<Vec<u8>> = Vec::new();
    let mut i: usize = 0;
    proof {
        assert(lviews.skip(0) =~= lviews);
        assert(seq_views(rows@) =~= Seq::<Seq<u8>>::empty());
    }
    while i < lines.len()
        invariant
            i <= lines@.len(),
            lviews == seq_views(lines@),
            clean_rows(lviews) == seq_views(rows@) + clean_rows(lviews.skip(i as int)),
        decreases lines@.len() - i,
    {
        let c = cleaned_copy(&lines[i]);
        proof {
            let suf = lviews.skip(i as int);
            assert(suf[0] == lviews[i as int]);
            assert(suf.drop_first() =~= lviews.skip(i as int + 1));
            if clean_line(lviews[i as int]).len() > 0 {
                assert(seq_views(rows@.push(c)) =~= seq_views(rows@) + seq![c@]);
                assert(seq_views(rows@) + (seq![clean_line(suf[0])] + clean_rows(
                    lviews.skip(i as int + 1),
                )) =~= (seq_views(rows@) + seq![c@]) + clean_rows(lviews.skip(i as int + 1)));
            }
        }
        if c.len() > 0 {
            rows.push(c);
        }
        i = i + 1;
    }
    proof {
        assert(lviews.skip(lines@.len() as int) =~= Seq::<Seq<u8>>::empty());
        assert(seq_views(rows@) + Seq::<Seq<u8>>::empty() =~= seq_views(rows@));
        assert(doc_rows(attachment.spec_bytes()) == seq_views(rows@));
    }
    if rows.len() == 0 {
        return (Vec::new(), Vec::new());
    }
    let hdr_ok = if bytes_eq(&rows[0], "id,start_date,end_date".as_bytes()) {
        true
    } else {
        bytes_eq(&rows[0], "ID,start_date,end_date".as_bytes())
    };
    proof {
        assert(hdr_ok == header_ok(seq_views(rows@)[0]));
    }
    if !hdr_ok {
        let mut errs: Vec<ParseError> = Vec::new();
        let mut j: usize = 1;
        while j < rows.len()
            invariant
                1 <= j <= rows@.len(),
                errs@ == bad_header_errors((j - 1) as nat),
            decreases rows@.len() - j,
        {
            errs.push(ParseError { row: j, kind: ParseErrorKind::BadHeader });
            proof {
                assert(errs@ =~= bad_header_errors(j as nat));
            }
            j = j + 1;
        }
        return (Vec::new(), errs);
    }
    let ghost data = seq_views(rows@).drop_first();
    let mut recs: Vec<Entry> = Vec::new();
    let mut errs: Vec<ParseError> = Vec::new();
    let mut j: usize = 1;
    proof {
        assert(data.skip(0) =~= data);
    }
    while j < rows.len()
        invariant
            1 <= j <= rows@.len(),
            data == seq_views(rows@).drop_first(),
            decode_rows(data, 1).0 == recs@ + decode_rows(data.skip(j - 1), j as nat).0,
            decode_rows(data, 1).1 == errs@ + decode_rows(data.skip(j - 1), j as nat).1,
        decreases rows@.len() - j,
    {
        let res = parse_row_exec(&rows[j]);
        proof {
            let suf = data.skip(j - 1);
            assert(suf[0] == data[j - 1]);
            assert(data[j - 1] == seq_views(rows@)[j as int]);
            assert(suf.drop_first() =~= data.skip(j as int));
        }
        match res {
            Result::Ok(e) => {
                recs.push(e);
                proof {
                    assert(recs@ =~= recs@.drop_last().push(e));
                    let rest = decode_rows(data.skip(j as int), (j + 1) as nat);
                    assert(recs@.drop_last() + (seq![e] + rest.0) =~= recs@ + rest.0);
                }
            },
            Result::Err(k) => {
                let pe = ParseError { row: j, kind: k };
                errs.push(pe);
                proof {
                    let rest = decode_rows(data.skip(j as int), (j + 1) as nat);
                    assert(errs@.drop_last() + (seq![pe] + rest.1) =~= errs@ + rest.1);
                }
            },
        }
        j = j + 1;
    }
    proof {
        assert(data.skip(rows@.len() - 1) =~= Seq::<Seq<u8>>::empty());
        assert(recs@ + Seq::<Entry>::empty() =~= recs@);
        assert(errs@ + Seq::<ParseError>::empty() =~= errs@);
    }
    (recs, errs)
}

/// Appending one entry extends the serialized body by one row.
#[verifier::rlimit(60)]
proof fn lemma_body_bytes_push(rs: Seq<Entry>, e: Entry)
    ensures
        body_bytes(rs.push(e)) == body_bytes(rs) + seq![10u8] + row_bytes(e),
    decreases rs.len(),
{
    if rs.len() == 0 {
        assert(rs.push(e)[0] == e);
        assert(rs.push(e).drop_first() =~= Seq::<Entry>::empty());
        assert(body_bytes(rs.push(e)) == seq![10u8] + row_bytes(e) + body_bytes(
            Seq::<Entry>::empty(),
        ));
        assert(body_bytes(Seq::<Entry>::empty()) == Seq::<u8>::empty());
        assert(seq![10u8] + row_bytes(e) + Seq::<u8>::empty() =~= body_bytes(rs) + seq![10u8]
            + row_bytes(e));
    } else {
        assert(rs.push(e)[0] == rs[0]);
        assert(rs.push(e).drop_first() =~= rs.drop_first().push(e));
        lemma_body_bytes_push(rs.drop_first(), e);
        assert(body_bytes(rs.push(e)) =~= body_bytes(rs) + seq![10u8] + row_bytes(e));
    }
}

/// Serialize entries to the canonical document: header, one row per entry
/// in order, each line ended by a line feed.  Only calendar-valid entries
/// can be rendered in the fixed-width timestamp format.
#[verifier::rlimit(60)]
pub fn serialize_csv(records: &Vec<Entry>) -> (r: Vec<u8>)
    requires
        forall|i: int| 0 <= i < records@.len() ==> entry_valid(#[trigger] records@[i]),
    ensures
        r@ == encode_spec(records@),
{
    let mut out = vstd::slice::slice_to_vec("id,start_date,end_date".as_bytes());
    let mut i: usize = 0;
    proof {
        assert(records@.take(0) =~= Seq::<Entry>::empty());
        assert(out@ =~= header_lower() + body_bytes(records@.take(0)));
    }
    while i < records.len()
        invariant
            i <= records@.len(),
            forall|k: int| 0 <= k < records@.len() ==> entry_valid(#[trigger] records@[k]),
            out@ == header_lower() + body_bytes(records@.take(i as int)),
        decreases records@.len() - i,
    {
        let e = records[i];
        out.push(10);
        let mut idb = render_u32(e.id);
        out.append(&mut idb);
        out.push(44);
        let mut sdb = render_ts(&e.start_date);
        out.append(&mut sdb);
        out.push(44);
        let mut edb = render_ts(&e.end_date);
        out.append(&mut edb);
        proof {
            lemma_body_bytes_push(records@.take(i as int), e);
            assert(records@.take(i as int).push(e) =~= records@.take(i as int + 1));
            assert(out@ =~= header_lower() + body_bytes(records@.take(i as int + 1)));
        }
        i = i + 1;
    }
    out.push(10);
    proof {
        assert(records@.take(records@.len() as int) =~= records@);
        assert(out@ =~= encode_spec(records@));
    }
    out
}

/// The serialized lines of a sequence of entries, one line per entry.
pub open spec fn row_lines(rs: Seq<Entry>) -> Seq<Seq<u8>>
    decreases rs.len(),
{
    if rs.len() == 0 {
        Seq::empty()
    } else {
        seq![row_bytes(rs[0])] + row_lines(rs.drop_first())
    }
}

/// A well-behaved physical line: non-empty, free of line feeds, and not
/// ending in a carriage return, so that splitting and cleaning return it
/// unchanged.
pub open spec fn line_ok(l: Seq<u8>) -> bool {
    &&& l.len() > 0
    &&& l.last() != 13u8
    &&& forall|i: int| 0 <= i < l.len() ==> #[trigger] l[i] != 10u8
}

/// Concrete facts about the canonical header's bytes.
proof fn lemma_header_facts()
    ensures
        header_lower().len() == 22,
        header_lower()[0] == 105u8,
        header_lower().last() == 101u8,
        line_ok(header_lower()),
        !crate::text::is_space(header_lower()[0]),
        !crate::text::is_space(header_lower().last()),
{
    let s = "id,start_date,end_date";
    reveal_strlit("id,start_date,end_date");
    assert(s@.len() == 22);
    assert(vstd::utf8::is_ascii_chars(s@));
    vstd::utf8::is_ascii_chars_encode_utf8(s@);
    assert(header_lower().len() == 22);
    assert(header_lower()[0] == 'i' as u8);
    assert(header_lower()[21] == 'e' as u8);
    assert forall|i: int| 0 <= i < header_lower().len() implies #[trigger] header_lower()[i]
        != 10u8 by {
        assert(header_lower()[i] == s@[i] as u8);
        assert(s@[i] != 10 as char);
    }
}

/// Every byte of a serialized row is a digit, comma, dash, space or colon;
/// in particular a row is a well-behaved line ending in a digit.
proof fn lemma_row_line_ok(e: Entry)
    requires
        entry_valid(e),
    ensures
        line_ok(row_bytes(e)),
        crate::text::is_digit(row_bytes(e).last()),
{
    let dec = dec_bytes(e.id as nat);
    let ts1 = ts_bytes(e.start_date);
    let ts2 = ts_bytes(e.end_date);
    crate::text::lemma_dec_bytes_digits(e.id as nat);
    crate::datetime::lemma_ts_bytes_classes(e.start_date);
    crate::datetime::lemma_ts_bytes_classes(e.end_date);
    let row = row_bytes(e);
    assert(row.len() == dec.len() + 40);
    assert(row.last() == ts2[18]);
    assert forall|i: int| 0 <= i < row.len() implies #[trigger] row[i] != 10u8 by {
        let m = dec.len() as int;
        if i < m {
            assert(row[i] == dec[i]);
            assert(crate::text::is_digit(dec[i]));
        } else if i == m {
            assert(row[i] == 44u8);
        } else if i < m + 20 {
            assert(row[i] == ts1[i - m - 1]);
        } else if i == m + 20 {
            assert(row[i] == 44u8);
        } else {
            assert(row[i] == ts2[i - m - 21]);
        }
    }
}

/// A serialized row parses back to the entry it came from.
proof fn lemma_parse_row_round_trip(e: Entry)
    requires
        entry_valid(e),
    ensures
        parse_row(row_bytes(e)) == Ok::<Entry, ParseErrorKind>(e),
{
    reveal(parse_row);
    let dec = dec_bytes(e.id as nat);
    let ts1 = ts_bytes(e.start_date);
    let ts2 = ts_bytes(e.end_date);
    crate::text::lemma_dec_bytes_digits(e.id as nat);
    crate::datetime::lemma_ts_bytes_classes(e.start_date);
    crate::datetime::lemma_ts_bytes_classes(e.end_date);
    let row = row_bytes(e);
    let m = dec.len() as int;
    assert forall|k: int| 0 <= k < m implies row[k] != 44u8 by {
        assert(row[k] == dec[k]);
        assert(crate::text::is_digit(dec[k]));
    }
    assert(row[m] == 44u8);
    crate::text::lemma_split_on_first_field(row, 44u8, m);
    assert(row.take(m) =~= dec);
    let tail1 = row.skip(m + 1);
    assert(tail1 =~= ts1 + seq![44u8] + ts2);
    assert forall|k: int| 0 <= k < 19 implies tail1[k] != 44u8 by {
        assert(tail1[k] == ts1[k]);
    }
    assert(tail1[19] == 44u8);
    crate::text::lemma_split_on_first_field(tail1, 44u8, 19);
    assert(tail1.take(19) =~= ts1);
    let tail2 = tail1.skip(20);
    assert(tail2 =~= ts2);
    assert forall|k: int| 0 <= k < tail2.len() implies tail2[k] != 44u8 by {
        assert(tail2[k] == ts2[k]);
    }
    crate::text::lemma_split_on_first_field(tail2, 44u8, tail2.len() as int);
    let fs = split_on(row, 44u8);
    assert(fs =~~= seq![dec, ts1, ts2]);
    crate::text::lemma_dec_val_dec_bytes(e.id as nat);
    assert(parse_u32_spec(fs[0]) == Some(e.id));
    crate::datetime::lemma_ts_round_trip(e.start_date);
    crate::datetime::lemma_ts_round_trip(e.end_date);
    assert(parse_ts(fs[1]) == Some(e.start_date));
    assert(parse_ts(fs[2]) == Some(e.end_date));
}

/// Splitting and cleaning a well-behaved line followed by serialized rows
/// yields that line followed by one line per row.
proof fn lemma_clean_rows_of(h: Seq<u8>, rs: Seq<Entry>)
    requires
        line_ok(h),
        forall|i: int| 0 <= i < rs.len() ==> entry_valid(#[trigger] rs[i]),
    ensures
        clean_rows(split_on(h + body_bytes(rs), 10u8)) == seq![h] + row_lines(rs),
    decreases rs.len(),
{
    if rs.len() == 0 {
        assert(h + body_bytes(rs) =~= h);
        crate::text::lemma_split_on_first_field(h, 10u8, h.len() as int);
        let ls = seq![h];
        assert(ls[0] == h);
        assert(clean_line(h) == h);
        assert(ls.drop_first() =~= Seq::<Seq<u8>>::empty());
        assert(clean_rows(ls) == seq![clean_line(h)] + clean_rows(ls.drop_first()));
        assert(clean_rows(Seq::<Seq<u8>>::empty()) == Seq::<Seq<u8>>::empty());
        assert(clean_rows(ls) =~~= seq![h] + row_lines(rs));
    } else {
        let e = rs[0];
        let rest = rs.drop_first();
        let doc = h + body_bytes(rs);
        let m = h.len() as int;
        lemma_row_line_ok(e);
        assert forall|k: int| 0 <= k < m implies doc[k] != 10u8 by {
            assert(doc[k] == h[k]);
        }
        assert(doc[m] == 10u8);
        crate::text::lemma_split_on_first_field(doc, 10u8, m);
        assert(doc.take(m) =~= h);
        assert(doc.skip(m + 1) =~= row_bytes(e) + body_bytes(rest));
        lemma_clean_rows_of(row_bytes(e), rest);
        let inner = split_on(row_bytes(e) + body_bytes(rest), 10u8);
        let ls = seq![h] + inner;
        assert(ls[0] == h);
        assert(clean_line(h) == h);
        assert(ls.drop_first() =~= inner);
        assert(clean_rows(ls) == seq![h] + clean_rows(inner));
        assert(seq![h] + (seq![row_bytes(e)] + row_lines(rest)) =~= seq![h] + row_lines(rs));
    }
}

/// Serialized rows decode back to the entries, with no errors.
proof fn lemma_decode_rows_of_lines(rs: Seq<Entry>, rowno: nat)
    requires
        forall|i: int| 0 <= i < rs.len() ==> entry_valid(#[trigger] rs[i]),
    ensures
        decode_rows(row_lines(rs), rowno) == (rs, Seq::<ParseError>::empty()),
    decreases rs.len(),
{
    if rs.len() == 0 {
        assert(row_lines(rs).len() == 0);
        assert(decode_rows(row_lines(rs), rowno) == (rs, Seq::<ParseError>::empty()));
    } else {
        let e = rs[0];
        let lines = row_lines(rs);
        assert(lines[0] == row_bytes(e));
        assert(lines.drop_first() =~= row_lines(rs.drop_first()));
        lemma_parse_row_round_trip(e);
        lemma_decode_rows_of_lines(rs.drop_first(), rowno + 1);
        assert(seq![e] + rs.drop_first() =~= rs);
    }
}

/// The last byte of a non-empty serialized body is a digit.
proof fn lemma_body_last_digit(rs: Seq<Entry>)
    requires
        rs.len() > 0,
        forall|i: int| 0 <= i < rs.len() ==> entry_valid(#[trigger] rs[i]),
    ensures
        body_bytes(rs).len() > 0,
        crate::text::is_digit(body_bytes(rs).last()),
    decreases rs.len(),
{
    let rest = rs.drop_first();
    lemma_row_line_ok(rs[0]);
    if rest.len() == 0 {
        assert(body_bytes(rest).len() == 0);
        assert(body_bytes(rs).last() == row_bytes(rs[0]).last());
    } else {
        lemma_body_last_digit(rest);
        assert(body_bytes(rs).last() == body_bytes(rest).last());
    }
}

/// Round-trip law: decoding a serialized entry sequence returns exactly
/// those entries, in order, with an empty error list.
pub proof fn lemma_round_trip(rs: Seq<Entry>)
    requires
        forall|i: int| 0 <= i < rs.len() ==> entry_valid(#[trigger] rs[i]),
    ensures
        decode_spec(encode_spec(rs)).0 == rs,
        decode_spec(encode_spec(rs)).1 == Seq::<ParseError>::empty(),
{
    lemma_header_facts();
    let h = header_lower();
    let enc = encode_spec(rs);
    let mid = h + body_bytes(rs);
    assert(enc =~= mid.push(10u8));
    assert(enc[0] == h[0]);
    crate::text::lemma_trim_front_id(enc);
    crate::text::lemma_trim_back_drop(mid, 10u8);
    if rs.len() == 0 {
        assert(mid =~= h);
        crate::text::lemma_trim_back_id(mid);
    } else {
        lemma_body_last_digit(rs);
        assert(mid.last() == body_bytes(rs).last());
        crate::text::lemma_trim_back_id(mid);
    }
    assert(trim(enc) == mid);
    lemma_clean_rows_of(h, rs);
    let rows = doc_rows(enc);
    assert(rows == seq![h] + row_lines(rs));
    assert(rows[0] == h);
    assert(header_ok(rows[0]));
    assert(rows.drop_first() =~= row_lines(rs));
    lemma_decode_rows_of_lines(rs, 1);
}

/// Filtering a singleton keeps or drops its one element.
proof fn lemma_filter_singleton<A>(x: A, pred: spec_fn(A) -> bool)
    ensures
        seq![x].filter(pred) == if pred(x) {
            seq![x]
        } else {
            Seq::<A>::empty()
        },
{
    reveal(Seq::filter);
    assert(seq![x].drop_last() =~= Seq::<A>::empty());
    assert(seq![x].last() == x);
    assert(Seq::<A>::empty().filter(pred) == Seq::<A>::empty());
    if pred(x) {
        assert(seq![x].filter(pred) == Seq::<A>::empty().push(x));
        assert(Seq::<A>::empty().push(x) =~= seq![x]);
    }
}

/// Every entry produced by row decoding is calendar-valid.
pub proof fn lemma_decode_rows_entries_valid(data: Seq<Seq<u8>>, rowno: nat)
    ensures
        forall|i: int|
            0 <= i < decode_rows(data, rowno).0.len() ==> entry_valid(
                #[trigger] decode_rows(data, rowno).0[i],
            ),
    decreases data.len(),
{
    reveal(parse_row);
    if data.len() > 0 {
        lemma_decode_rows_entries_valid(data.drop_first(), rowno + 1);
        let rest = decode_rows(data.drop_first(), rowno + 1);
        match parse_row(data[0]) {
            Result::Ok(e) => {
                assert(entry_valid(e));
                assert(decode_rows(data, rowno).0 == seq![e] + rest.0);
            },
            Result::Err(_) => {},
        }
    }
}

/// Every entry a decode returns is calendar-valid, so the decoded batch
/// can always be re-serialized.
pub proof fn lemma_decode_entries_valid(s: Seq<u8>)
    ensures
        forall|i: int|
            0 <= i < decode_spec(s).0.len() ==> entry_valid(#[trigger] decode_spec(s).0[i]),
{
    let rows = doc_rows(s);
    if rows.len() > 0 && header_ok(rows[0]) {
        lemma_decode_rows_entries_valid(rows.drop_first(), 1);
    }
}

/// Each decode error names a malformed row: its number is in range, the
/// row at that number fails to parse, and the error carries that row's
/// failure reason; and error row numbers strictly increase.  `rowno` is
/// the number given to the first row of `data`.
pub open spec fn errors_locate(data: Seq<Seq<u8>>, rowno: nat, errs: Seq<ParseError>) -> bool {
    &&& forall|j: int|
        0 <= j < errs.len() ==> {
            let pe = #[trigger] errs[j];
            &&& rowno <= pe.row < rowno + data.len()
            &&& parse_row(data[pe.row - rowno]) is Err
            &&& pe.kind == parse_row(data[pe.row - rowno])->Err_0
        }
    &&& forall|j1: int, j2: int|
        0 <= j1 < j2 < errs.len() ==> (#[trigger] errs[j1]).row < (#[trigger] errs[j2]).row
}

/// Every malformed row is represented in the error list.
pub open spec fn errors_complete(data: Seq<Seq<u8>>, rowno: nat, errs: Seq<ParseError>) -> bool {
    forall|i: int|
        0 <= i < data.len() && parse_row(#[trigger] data[i]) is Err ==> exists|j: int|
            0 <= j < errs.len() && (#[trigger] errs[j]).row == rowno + i
}

/// Partial-failure law, entry side: the decoded entries are exactly the
/// well-formed rows, in input order, and every row yields exactly one
/// entry or one error.
pub proof fn lemma_decode_rows_records(data: Seq<Seq<u8>>, rowno: nat)
    ensures
        decode_rows(data, rowno).0 == data.filter(|l: Seq<u8>| parse_row(l) is Ok).map_values(
            |l: Seq<u8>| parse_row(l)->Ok_0,
        ),
        decode_rows(data, rowno).0.len() + decode_rows(data, rowno).1.len() == data.len(),
    decreases data.len(),
{
    let pred = |l: Seq<u8>| parse_row(l) is Ok;
    let extract = |l: Seq<u8>| parse_row(l)->Ok_0;
    if data.len() == 0 {
        reveal(Seq::filter);
        assert(data.filter(pred) == Seq::<Seq<u8>>::empty());
        assert(data.filter(pred).map_values(extract) =~= Seq::<Entry>::empty());
    } else {
        let first = data[0];
        let rest = data.drop_first();
        lemma_decode_rows_records(rest, rowno + 1);
        assert(data =~= seq![first] + rest);
        Seq::filter_distributes_over_add(seq![first], rest, pred);
        lemma_filter_singleton(first, pred);
        assert((seq![first].filter(pred) + rest.filter(pred)).map_values(extract) =~= seq![
            first,
        ].filter(pred).map_values(extract) + rest.filter(pred).map_values(extract));
        if pred(first) {
            assert(seq![first].filter(pred).map_values(extract) =~= seq![extract(first)]);
        } else {
            assert(seq![first].filter(pred).map_values(extract) =~= Seq::<Entry>::empty());
            assert(Seq::<Entry>::empty() + rest.filter(pred).map_values(extract) =~= rest.filter(
                pred,
            ).map_values(extract));
        }
    }
}

/// Partial-failure law, error side: each error names a malformed row and
/// its reason, in strictly increasing row order.
pub proof fn lemma_decode_rows_errors(data: Seq<Seq<u8>>, rowno: nat)
    requires
        rowno + data.len() <= usize::MAX,
    ensures
        errors_locate(data, rowno, decode_rows(data, rowno).1),
    decreases data.len(),
{
    if data.len() == 0 {
    } else {
        let first = data[0];
        let rest = data.drop_first();
        lemma_decode_rows_errors(rest, rowno + 1);
        let sub = decode_rows(rest, rowno + 1).1;
        let errs = decode_rows(data, rowno).1;
        match parse_row(first) {
            Result::Ok(_) => {
                assert(errs == sub);
                assert forall|j: int| 0 <= j < errs.len() implies {
                    let pe = #[trigger] errs[j];
                    &&& rowno <= pe.row < rowno + data.len()
                    &&& parse_row(data[pe.row - rowno]) is Err
                    &&& pe.kind == parse_row(data[pe.row - rowno])->Err_0
                } by {
                    let pe = errs[j];
                    assert(rest[pe.row - (rowno + 1)] == data[pe.row - rowno]);
                }
            },
            Result::Err(k) => {
                let pe0 = ParseError { row: rowno as usize, kind: k };
                assert(errs == seq![pe0] + sub);
                assert(errs[0] == pe0);
                assert forall|j: int| 0 <= j < errs.len() implies {
                    let pe = #[trigger] errs[j];
                    &&& rowno <= pe.row < rowno + data.len()
                    &&& parse_row(data[pe.row - rowno]) is Err
                    &&& pe.kind == parse_row(data[pe.row - rowno])->Err_0
                } by {
                    let pe = errs[j];
                    if j == 0 {
                        assert(data[0] == first);
                    } else {
                        assert(pe == sub[j - 1]);
                        assert(rest[pe.row - (rowno + 1)] == data[pe.row - rowno]);
                    }
                }
                assert forall|j1: int, j2: int| 0 <= j1 < j2 < errs.len() implies (
                #[trigger] errs[j1]).row < (#[trigger] errs[j2]).row by {
                    if j1 == 0 {
                        assert(errs[j2] == sub[j2 - 1]);
                        assert(rowno + 1 <= sub[j2 - 1].row);
                    } else {
                        assert(errs[j1] == sub[j1 - 1]);
                        assert(errs[j2] == sub[j2 - 1]);
                    }
                }
            },
        }
    }
}

/// Partial-failure law, completeness side: no malformed row goes
/// unreported.
pub proof fn lemma_decode_rows_errors_complete(data: Seq<Seq<u8>>, rowno: nat)
    requires
        rowno + data.len() <= usize::MAX,
    ensures
        errors_complete(data, rowno, decode_rows(data, rowno).1),
    decreases data.len(),
{
    if data.len() == 0 {
    } else {
        let first = data[0];
        let rest = data.drop_first();
        lemma_decode_rows_errors_complete(rest, rowno + 1);
        let sub = decode_rows(rest, rowno + 1).1;
        let errs = decode_rows(data, rowno).1;
        assert forall|i: int|
            0 <= i < data.len() && parse_row(#[trigger] data[i]) is Err implies exists|j: int|
            0 <= j < errs.len() && (#[trigger] errs[j]).row == rowno + i by {
            if parse_row(first) is Err && i == 0 {
                assert(errs[0].row == rowno + 0);
            } else {
                assert(rest[i - 1] == data[i]);
                let j = choose|j: int|
                    0 <= j < sub.len() && (#[trigger] sub[j]).row == (rowno + 1) + (i - 1);
                if parse_row(first) is Err {
                    assert(errs[j + 1] == sub[j]);
                    assert(errs[j + 1].row == rowno + i);
                } else {
                    assert(errs[j] == sub[j]);
                    assert(errs[j].row == rowno + i);
                }
            }
        }
    }
}

} // verus!
