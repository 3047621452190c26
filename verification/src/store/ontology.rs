//! Reading the latest version of an ontology type.

use crate::ontology::OntologyRecord;
use crate::provenance::{OwnedById, UpdatedById};
use crate::report::Report;
use crate::store::entity::StoreError;
use crate::store::error::QueryError;
use vstd::prelude::*;
use vstd::string::StringExecFns;

verus! {

/// The statement that selects the latest version of a type, up to the name
/// of the table of its kind.
pub const LATEST_TYPE_SELECT: &'static str = "SELECT schema, owned_by_id, updated_by_id FROM ";

/// The statement that selects the latest version of a type, after the name
/// of the table of its kind. Its parameter is the base address of the type.
pub const LATEST_TYPE_WHERE: &'static str =
    " type_table INNER JOIN type_ids ON type_table.version_id = type_ids.version_id WHERE base_uri = $1 AND version = (SELECT MAX(version) FROM type_ids WHERE base_uri = $1);";

/// The statement that selects, from the table `table`, the row of the
/// highest version of the type with a given base address.
pub fn latest_type_statement(table: &str) -> (statement: String)
    ensures
        statement@ == LATEST_TYPE_SELECT@ + table@ + LATEST_TYPE_WHERE@,
{
    let mut statement = String::from_str(LATEST_TYPE_SELECT);
    statement.append(table);
    statement.append(LATEST_TYPE_WHERE);
    statement
}

/// A schema that could not be turned into a record of the ontology.
#[derive(Debug, PartialEq, Eq)]
pub struct DecodeError {
    pub message: String,
}

impl DecodeError {
    pub fn new(message: String) -> (error: DecodeError)
        ensures
            error.message == message,
    {
        DecodeError { message }
    }
}

/// The row of the latest version of a type: what became of its schema, and
/// the two accounts that the store keeps with it.
#[derive(Debug)]
pub struct LatestTypeRow<T> {
    pub record: Result<T, DecodeError>,
    pub owned_by_id: OwnedById,
    pub updated_by_id: UpdatedById,
}

/// Makes the record of the latest version of a type from the answer of the
/// store to [`latest_type_statement`].
///
/// The record is returned if and only if the store answered with a row and
/// the schema of the row could be decoded. It is marked as the latest
/// version whatever it holds: the statement selects no other. If the read
/// failed, the failure keeps what the store said; if the schema could not be
/// decoded, it keeps what the decoder said.
pub fn read_latest_type<T>(row: Result<LatestTypeRow<T>, StoreError>) -> (latest: Result<
    OntologyRecord<T>,
    Report<QueryError>,
>)
    ensures
        latest is Ok <==> (row is Ok && row->Ok_0.record is Ok),
        match row {
            Ok(row) => match row.record {
                Ok(record) => latest == Ok::<OntologyRecord<T>, Report<QueryError>>(
                    OntologyRecord {
                        record,
                        owned_by_id: row.owned_by_id,
                        updated_by_id: row.updated_by_id,
                        is_latest: true,
                    },
                ),
                Err(error) => latest is Err && latest->Err_0.chain() == seq![error.message@],
            },
            Err(error) => latest is Err && latest->Err_0.chain() == seq![error.message@],
        },
{
    match row {
        Err(error) => {
            let report = Report::new(QueryError).attach(error.message);
            assert(report.chain() =~= seq![error.message@]);
            Err(report)
        },
        Ok(row) => match row.record {
            Err(error) => {
                let report = Report::new(QueryError).attach(error.message);
                assert(report.chain() =~= seq![error.message@]);
                Err(report)
            },
            Ok(record) => Ok(
                OntologyRecord {
                    record,
                    owned_by_id: row.owned_by_id,
                    updated_by_id: row.updated_by_id,
                    is_latest: true,
                },
            ),
        },
    }
}

} // verus!
