//! The binary form of a change.

use crate::assoc;
use crate::assoc::put_entry;
use crate::change::{Change, ChangeModel, ChangeOperation};
use crate::common;
use crate::common::decimal_text;
use crate::error::{Error, ErrorModel, Result};
use crate::ext::codec;
use crate::ext::codec::{deserialize_change, deserialize_operation, serialize_change, ChangeFields};
use crate::ext::Outcome;
use vstd::prelude::*;

verus! {

/// The number that stands for an operation.
pub open spec fn operation_number(op: ChangeOperation) -> u32 {
    match op {
        ChangeOperation::Query => 0,
        ChangeOperation::SetValue => 1,
        ChangeOperation::Delete => 2,
        ChangeOperation::Commit => 3,
        ChangeOperation::Schema => 4,
        ChangeOperation::Auth => 5,
        ChangeOperation::LiveNotify => 6,
    }
}

/// The operation that a number stands for.
pub open spec fn numbered_operation(n: u32) -> Option<ChangeOperation> {
    if n == 0 {
        Some(ChangeOperation::Query)
    } else if n == 1 {
        Some(ChangeOperation::SetValue)
    } else if n == 2 {
        Some(ChangeOperation::Delete)
    } else if n == 3 {
        Some(ChangeOperation::Commit)
    } else if n == 4 {
        Some(ChangeOperation::Schema)
    } else if n == 5 {
        Some(ChangeOperation::Auth)
    } else if n == 6 {
        Some(ChangeOperation::LiveNotify)
    } else {
        None
    }
}

/// The fields of a change as they are written.
pub open spec fn change_fields(c: ChangeModel) -> ChangeFields {
    codec::numbered_fields(c, operation_number(c.operation))
}

/// The change that written fields stand for, with the operation that their number stands
/// for. Of several values for a metadata key the last one counts.
pub open spec fn fields_change(f: ChangeFields, operation: ChangeOperation) -> ChangeModel {
    ChangeModel {
        id: f.id,
        timestamp: f.timestamp,
        namespace: f.namespace,
        database: f.database,
        table: f.table,
        operation,
        key: f.key,
        value: f.value,
        metadata: assoc::put_all(Seq::empty(), f.metadata),
    }
}

/// The text that says that no operation has a number.
pub open spec fn unknown_operation(n: u32) -> Seq<char> {
    "invalid value: integer `"@ + common::decimal(n as nat) + "`, expected variant index 0 <= i < 7"@
}

/// The binary form of a change.
pub open spec fn change_bytes(c: ChangeModel) -> Seq<u8> {
    codec::bincode_of_change(change_fields(c))
}

/// What comes of reading a change from a run of bytes: the change, or the text that says
/// why it cannot be read. The number of the operation is looked at before the fields that
/// follow it.
pub open spec fn read_change(data: Seq<u8>) -> Outcome<ChangeModel> {
    match codec::bincode_reads_operation(data, usize::BITS as int) {
        Outcome::Value(n) => match numbered_operation(n) {
            Some(operation) => match codec::bincode_reads_change(data, usize::BITS as int) {
                Outcome::Value(f) => Outcome::Value(fields_change(f, operation)),
                Outcome::Failure(text) => Outcome::Failure(text),
            },
            None => Outcome::Failure(unknown_operation(n)),
        },
        Outcome::Failure(text) => Outcome::Failure(text),
    }
}

/// The change that a run of bytes is the binary form of, if it is one.
pub open spec fn bytes_change(data: Seq<u8>) -> Option<ChangeModel> {
    match read_change(data) {
        Outcome::Value(c) => Some(c),
        Outcome::Failure(_) => None,
    }
}

/// Why a run of bytes is not the binary form of a change.
pub open spec fn change_failure(data: Seq<u8>) -> Seq<char> {
    read_change(data)->Failure_0
}

/// Reading the fields of a change gives the change.
pub proof fn fields_roundtrip(c: ChangeModel)
    requires
        assoc::distinct_keys(c.metadata),
    ensures
        numbered_operation(change_fields(c).operation) == Some(c.operation),
        fields_change(change_fields(c), c.operation) == c,
{
    assoc::lemma_put_all_same(c.metadata);
}

fn operation_to_number(op: ChangeOperation) -> (n: u32)
    ensures
        n == operation_number(op),
{
    match op {
        ChangeOperation::Query => 0,
        ChangeOperation::SetValue => 1,
        ChangeOperation::Delete => 2,
        ChangeOperation::Commit => 3,
        ChangeOperation::Schema => 4,
        ChangeOperation::Auth => 5,
        ChangeOperation::LiveNotify => 6,
    }
}

fn operation_from_number(n: u32) -> (op: Option<ChangeOperation>)
    ensures
        op == numbered_operation(n),
{
    if n == 0 {
        Some(ChangeOperation::Query)
    } else if n == 1 {
        Some(ChangeOperation::SetValue)
    } else if n == 2 {
        Some(ChangeOperation::Delete)
    } else if n == 3 {
        Some(ChangeOperation::Commit)
    } else if n == 4 {
        Some(ChangeOperation::Schema)
    } else if n == 5 {
        Some(ChangeOperation::Auth)
    } else if n == 6 {
        Some(ChangeOperation::LiveNotify)
    } else {
        None
    }
}

/// Keep one value for each key, the last one.
fn merge_pairs(pairs: Vec<(String, String)>) -> (r: Vec<(String, String)>)
    ensures
        assoc::keyed(r@) == assoc::put_all(Seq::empty(), assoc::keyed(pairs@)),
{
    let mut r: Vec<(String, String)> = Vec::new();
    let mut i: usize = 0;
    assert(assoc::keyed(r@) =~= Seq::<(Seq<char>, Seq<char>)>::empty());
    assert(assoc::keyed(pairs@).take(0) =~= Seq::<(Seq<char>, Seq<char>)>::empty());
    while i < pairs.len()
        invariant
            i <= pairs.len(),
            assoc::keyed(r@) == assoc::put_all(Seq::empty(), assoc::keyed(pairs@).take(i as int)),
        decreases pairs.len() - i,
    {
        let ghost done = assoc::keyed(pairs@).take(i + 1);
        put_entry(&mut r, pairs[i].0.clone(), pairs[i].1.clone());
        assert(done.drop_last() =~= assoc::keyed(pairs@).take(i as int));
        i = i + 1;
    }
    assert(assoc::keyed(pairs@).take(i as int) =~= assoc::keyed(pairs@));
    r
}

/// Say that no operation has a number.
fn unknown_operation_text(n: u32) -> (s: String)
    ensures
        s@ == unknown_operation(n),
{
    "invalid value: integer `".to_owned().concat(decimal_text(n as usize).as_str()).concat(
        "`, expected variant index 0 <= i < 7",
    )
}

/// Say why a change cannot be read, given what reading all of its fields failed on.
fn change_failure_text(data: &[u8], text: String) -> (s: String)
    requires
        codec::bincode_reads_change(data@, usize::BITS as int) == Outcome::<ChangeFields>::Failure(
            text@,
        ),
    ensures
        read_change(data@) == Outcome::<ChangeModel>::Failure(s@),
{
    match deserialize_operation(data) {
        Ok(n) => match operation_from_number(n) {
            Some(_) => text,
            None => unknown_operation_text(n),
        },
        Err(earlier) => earlier,
    }
}

/// Write a change in its binary form.
///
/// What is written can be read back: a change with one value for each metadata key
/// is the change that its binary form stands for.
pub fn encode_change(change: &Change) -> (r: Result<Vec<u8>>)
    ensures
        r is Ok,
        r->Ok_0@ == change_bytes(change@),
        r->Ok_0@.len() >= 24,
        change.wf() ==> bytes_change(r->Ok_0@) == Some(change@),
{
    proof {
        if change.wf() {
            fields_roundtrip(change@);
        }
    }
    match serialize_change(change, operation_to_number(change.operation)) {
        Ok(bytes) => Ok(bytes),
        Err(text) => Err(Error::Encoding(text)),
    }
}

/// Read a change from its binary form.
pub fn decode_change(data: &[u8]) -> (r: Result<Change>)
    ensures
        match r {
            Ok(c) => bytes_change(data@) == Some(c@) && c.wf(),
            Err(e) => {
                &&& bytes_change(data@) is None
                &&& e@ == ErrorModel::Encoding(change_failure(data@))
            },
        },
{
    match deserialize_change(data) {
        Ok(raw) => {
            let (id, timestamp, namespace, database, table, number, key, value, pairs) = raw;
            match operation_from_number(number) {
                Some(operation) => {
                    proof {
                        assoc::lemma_put_all_distinct(
                            Seq::<(Seq<char>, Seq<char>)>::empty(),
                            assoc::keyed(pairs@),
                        );
                    }
                    let metadata = merge_pairs(pairs);
                    Ok(
                        Change {
                            id,
                            timestamp,
                            namespace,
                            database,
                            table,
                            operation,
                            key,
                            value,
                            metadata,
                        },
                    )
                },
                None => Err(Error::Encoding(unknown_operation_text(number))),
            }
        },
        Err(text) => Err(Error::Encoding(change_failure_text(data, text))),
    }
}

/// Operations are written as numbers, in the order in which they are declared; a number
/// past the last stands for none.
pub proof fn operations_are_numbered_in_order(n: u32)
    ensures
        operation_number(ChangeOperation::Query) == 0,
        operation_number(ChangeOperation::SetValue) == 1,
        operation_number(ChangeOperation::Delete) == 2,
        operation_number(ChangeOperation::Commit) == 3,
        operation_number(ChangeOperation::Schema) == 4,
        operation_number(ChangeOperation::Auth) == 5,
        operation_number(ChangeOperation::LiveNotify) == 6,
        n < 7 ==> numbered_operation(n) is Some && operation_number(numbered_operation(n)->0) == n,
        n >= 7 ==> numbered_operation(n) is None,
{
}

/// The binary form of a change is that of its fields: identifier, timestamp, namespace,
/// database, table, operation, key, value and metadata.
pub proof fn all_fields_are_written(c: Change, r: Result<Vec<u8>>)
    requires
        call_ensures(encode_change, (&c,), r),
    ensures
        r is Ok,
        r->Ok_0@ == codec::bincode_of_change(
            ChangeFields {
                id: c.id@,
                timestamp: c.timestamp,
                namespace: c.namespace@,
                database: c.database@,
                table: match c.table {
                    Some(t) => Some(t@),
                    None => None,
                },
                operation: operation_number(c.operation),
                key: match c.key {
                    Some(k) => Some(crate::ext::byte_buf::bytes_of(k)),
                    None => None,
                },
                value: match c.value {
                    Some(v) => Some(crate::ext::byte_buf::bytes_of(v)),
                    None => None,
                },
                metadata: assoc::keyed(c.metadata@),
            },
        ),
{
}

/// Reading the binary form of a change gives the change, with every field.
pub proof fn reading_a_change_gives_it_back(
    c: Change,
    written: Result<Vec<u8>>,
    data: &[u8],
    r: Result<Change>,
)
    requires
        call_ensures(encode_change, (&c,), written),
        written is Ok,
        data@ == written->Ok_0@,
        call_ensures(decode_change, (data,), r),
        c.wf(),
    ensures
        r is Ok,
        r->Ok_0.id@ == c.id@,
        r->Ok_0.timestamp == c.timestamp,
        r->Ok_0.namespace@ == c.namespace@,
        r->Ok_0.database@ == c.database@,
        r->Ok_0@.table == c@.table,
        r->Ok_0.operation == c.operation,
        r->Ok_0@.key == c@.key,
        r->Ok_0@.value == c@.value,
        r->Ok_0@.metadata == c@.metadata,
{
}

}
