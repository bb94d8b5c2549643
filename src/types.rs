use vstd::prelude::*;

verus! {

/// One line of a process log.
pub struct LogEntry {
    pub time: String,
    pub target: String,
    pub msg: String,
}

/// A stream of telemetry emitted by a process.
pub struct Stream {
    pub process_id: String,
    pub stream_id: String,
}

/// Asks the analytics service for one process; the id travels as text.
pub struct FindProcessRequest {
    pub process_id: String,
}

/// An SQL query for the analytics service over an optional time range
/// (RFC 3339 bounds).
pub struct QueryRequest {
    pub begin: Option<String>,
    pub end: Option<String>,
    pub sql: String,
}

/// The text of the query for all samples of a process, oldest first.
pub open spec fn measures_sql_text(process_id: Seq<char>) -> Seq<char> {
    "\n                SELECT target, time, value, unit\n                  FROM measures\n                 WHERE process_id = '"@
        + process_id + "'\n                 ORDER BY time asc\n            "@
}

/// The query for all samples of `process_id` between two RFC 3339 instants.
pub fn measures_request(process_id: &str, begin: String, end: String) -> (r: QueryRequest)
    ensures
        r.sql@ == measures_sql_text(process_id@),
        r.begin == Some(begin),
        r.end == Some(end),
{
    let mut sql = String::from_str(
        "\n                SELECT target, time, value, unit\n                  FROM measures\n                 WHERE process_id = '",
    );
    sql.append(process_id);
    sql.append("'\n                 ORDER BY time asc\n            ");
    QueryRequest { begin: Some(begin), end: Some(end), sql }
}

/// The request for the process `process_id`.
pub fn processes_request(process_id: String) -> (r: FindProcessRequest)
    ensures
        r.process_id == process_id,
{
    FindProcessRequest { process_id }
}

} // verus!
