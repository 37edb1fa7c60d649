//! The record validator: the one domain invariant is that a record's start
//! must not lie after its end.  Validation is total, touches nothing, and
//! reports one error per offending record, in input order.

use vstd::prelude::*;

use crate::codec::{entry_valid, Entry};
use crate::datetime::{render_ts, ts_bytes, ts_le, ts_valid, Timestamp};
use crate::text::{dec_bytes, render_u32};

verus! {

/// One record that decoded but violates the domain invariant; carries the
/// record's identifying fields.
#[derive(PartialEq, Eq, Structural, Clone, Copy, Debug)]
pub struct ValidationError {
    pub id: u32,
    pub start_date: Timestamp,
    pub end_date: Timestamp,
}

/// The domain invariant: the record's interval is not reversed.
pub open spec fn entry_ok(e: Entry) -> bool {
    ts_le(e.start_date, e.end_date)
}

/// The error reported for a record that violates the invariant.
pub open spec fn to_error(e: Entry) -> ValidationError {
    ValidationError { id: e.id, start_date: e.start_date, end_date: e.end_date }
}

/// Exactly one error per record whose start lies after its end, none for
/// the others, in input order.
pub open spec fn validate_spec(rs: Seq<Entry>) -> Seq<ValidationError> {
    rs.filter(|e: Entry| !entry_ok(e)).map_values(|e: Entry| to_error(e))
}

/// Validate a batch of records.  Total: no input fails it.
pub fn validate_all_records(records: &Vec<Entry>) -> (r: Vec<ValidationError>)
    ensures
        r@ == validate_spec(records@),
{
    let mut out: Vec<ValidationError> = Vec::new();
    let mut i: usize = 0;
    proof {
        reveal(Seq::filter);
        assert(records@.take(0) =~= Seq::<Entry>::empty());
        assert(out@ =~= validate_spec(records@.take(0)));
    }
    while i < records.len()
        invariant
            i <= records@.len(),
            out@ == validate_spec(records@.take(i as int)),
        decreases records@.len() - i,
    {
        let e = records[i];
        let bad = !e.start_date.le(&e.end_date);
        proof {
            reveal(Seq::filter);
            let pred = |x: Entry| !entry_ok(x);
            let prefix = records@.take(i as int);
            let next = records@.take(i as int + 1);
            assert(next =~= prefix.push(e));
            assert(next.drop_last() =~= prefix);
            assert(next.last() == e);
            if bad {
                assert(next.filter(pred) == prefix.filter(pred).push(e));
                assert(prefix.filter(pred).push(e).map_values(|x: Entry| to_error(x))
                    =~= prefix.filter(pred).map_values(|x: Entry| to_error(x)).push(to_error(e)));
            } else {
                assert(next.filter(pred) == prefix.filter(pred));
            }
        }
        if bad {
            out.push(ValidationError { id: e.id, start_date: e.start_date, end_date: e.end_date });
        }
        i = i + 1;
    }
    proof {
        assert(records@.take(records@.len() as int) =~= records@);
    }
    out
}

/// Counting law: the number of validation errors is exactly the number of
/// records violating the invariant; records satisfying it contribute
/// nothing.
pub proof fn lemma_validate_partition(rs: Seq<Entry>)
    ensures
        validate_spec(rs).len() == rs.filter(|e: Entry| !entry_ok(e)).len(),
        validate_spec(rs).len() + rs.filter(|e: Entry| entry_ok(e)).len() == rs.len(),
    decreases rs.len(),
{
    reveal(Seq::filter);
    if rs.len() == 0 {
    } else {
        lemma_validate_partition(rs.drop_last());
    }
}

/// A batch whose records all satisfy the invariant validates cleanly, and
/// a batch with a violating record never does.
pub proof fn lemma_validate_exact(rs: Seq<Entry>)
    ensures
        (forall|i: int| 0 <= i < rs.len() ==> entry_ok(#[trigger] rs[i])) <==> validate_spec(
            rs,
        ).len() == 0,
    decreases rs.len(),
{
    reveal(Seq::filter);
    let pred = |e: Entry| !entry_ok(e);
    if rs.len() == 0 {
    } else {
        lemma_validate_exact(rs.drop_last());
        rs.drop_last().lemma_filter_len(pred);
        if pred(rs.last()) {
            assert(!entry_ok(rs[rs.len() - 1]));
        } else {
            assert(forall|i: int|
                0 <= i < rs.len() - 1 ==> rs.drop_last()[i] == #[trigger] rs[i]);
        }
    }
}

/// Errors reported for calendar-valid records carry calendar-valid
/// timestamps, so every reported error can be rendered.
pub proof fn lemma_validate_errors_valid(rs: Seq<Entry>)
    requires
        forall|i: int| 0 <= i < rs.len() ==> entry_valid(#[trigger] rs[i]),
    ensures
        forall|j: int|
            0 <= j < validate_spec(rs).len() ==> ts_valid(
                (#[trigger] validate_spec(rs)[j]).start_date,
            ) && ts_valid(validate_spec(rs)[j].end_date),
    decreases rs.len(),
{
    reveal(Seq::filter);
    let pred = |e: Entry| !entry_ok(e);
    if rs.len() == 0 {
    } else {
        let head = rs.drop_last();
        assert(forall|i: int| 0 <= i < head.len() ==> #[trigger] head[i] == rs[i]);
        lemma_validate_errors_valid(head);
        if pred(rs.last()) {
            assert(rs.filter(pred) == head.filter(pred).push(rs.last()));
            assert(validate_spec(rs) =~= validate_spec(head).push(to_error(rs.last())));
            assert(entry_valid(rs[rs.len() - 1]));
        } else {
            assert(rs.filter(pred) == head.filter(pred));
            assert(validate_spec(rs) =~= validate_spec(head));
        }
    }
}

impl ValidationError {
    /// One report line for this error, naming the record and the violated
    /// rule.
    pub fn describe(&self) -> (r: Vec<u8>)
        requires
            ts_valid(self.start_date),
            ts_valid(self.end_date),
        ensures
            r@ == describe_validation(*self),
    {
        let mut out: Vec<u8> = Vec::new();
        crate::text::push_str_bytes(&mut out, "Start date after end date for entry: ");
        let mut idb = render_u32(self.id);
        out.append(&mut idb);
        crate::text::push_str_bytes(&mut out, ", ");
        let mut sb = render_ts(&self.start_date);
        out.append(&mut sb);
        crate::text::push_str_bytes(&mut out, ", ");
        let mut eb = render_ts(&self.end_date);
        out.append(&mut eb);
        out
    }
}

/// The report line for a validation error.
pub open spec fn describe_validation(v: ValidationError) -> Seq<u8> {
    vstd::utf8::encode_utf8("Start date after end date for entry: "@) + dec_bytes(v.id as nat)
        + vstd::utf8::encode_utf8(", "@) + ts_bytes(v.start_date) + vstd::utf8::encode_utf8(", "@)
        + ts_bytes(v.end_date)
}

} // verus!
