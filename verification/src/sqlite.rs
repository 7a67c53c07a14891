//! Durable task and segment persistence in SQLite: one row per task,
//! child tables for segments, headers, cookies, and mirrors, every write
//! transactional. The row codecs are verified; the database calls are
//! trusted wrappers.

use vstd::prelude::*;
use vstd::string::StringExecFns;
use crate::checksum::{
    ChecksumRequest, ChecksumType, spec_checksum_type_str, spec_checksum_type_from,
    law_checksum_type_roundtrip,
};
use crate::error::CoreError;
use crate::segment::{Segment, SegmentStatus, spec_segment_status_str, spec_segment_status_from};
use crate::task::{
    Task, TaskId, TaskStatus, TaskView, spec_canonical_id, spec_parse_canonical_id,
    spec_status_str, spec_status_from, law_task_id_roundtrip, law_status_roundtrip,
};

verus! {

/// A value bound to one SQL parameter or read from one column.
#[derive(Debug)]
pub enum DbValue {
    IntVal(i64),
    TextVal(String),
    NullVal,
}

/// The text a value holds, if it is text.
pub open spec fn spec_dv_text(v: DbValue) -> Option<Seq<char>> {
    match v {
        DbValue::TextVal(s) => Some(s@),
        _ => None,
    }
}

/// The integer a value holds, if it is an integer.
pub open spec fn spec_dv_int(v: DbValue) -> Option<int> {
    match v {
        DbValue::IntVal(i) => Some(i as int),
        _ => None,
    }
}

/// An optional text column: text or null.
pub open spec fn spec_dv_opt_text(v: DbValue) -> Option<Option<Seq<char>>> {
    match v {
        DbValue::TextVal(s) => Some(Some(s@)),
        DbValue::NullVal => Some(None),
        _ => None,
    }
}

#[verifier::external_type_specification]
#[verifier::external_body]
pub struct ExConnection(rusqlite::Connection);

#[verifier::external_type_specification]
#[verifier::external_body]
pub struct ExSqlValue(rusqlite::types::Value);

#[verifier::external_type_specification]
#[verifier::external_body]
pub struct ExSqlValueRef<'a>(rusqlite::types::ValueRef<'a>);

#[verifier::external_type_specification]
#[verifier::external_body]
pub struct ExSqlError(rusqlite::Error);

/// Relies on constructing `rusqlite::types::Value`: one variant for each
/// parameter value, the payload moved over.
#[verifier::external_body]
fn to_sql_value(p: &DbValue) -> rusqlite::types::Value {
    match p {
        DbValue::IntVal(i) => rusqlite::types::Value::Integer(*i),
        DbValue::TextVal(s) => rusqlite::types::Value::Text(s.clone()),
        DbValue::NullVal => rusqlite::types::Value::Null,
    }
}

/// Relies on reading `rusqlite::types::ValueRef`: one variant for each
/// column value; a float or blob column reads as null.
#[verifier::external_body]
fn from_sql_ref(v: rusqlite::types::ValueRef<'_>) -> DbValue {
    match v {
        rusqlite::types::ValueRef::Integer(i) => DbValue::IntVal(i),
        rusqlite::types::ValueRef::Text(t) => DbValue::TextVal(
            String::from_utf8_lossy(t).into_owned(),
        ),
        _ => DbValue::NullVal,
    }
}

/// Relies on `rusqlite::Error`'s display form for the storage error text;
/// the result is always the `Storage` kind.
#[verifier::external_body]
fn storage_err(e: rusqlite::Error) -> (r: CoreError)
    ensures
        r is Storage,
{
    CoreError::Storage(e.to_string())
}

/// Relies on `rusqlite::Connection::open`: opening or creating the
/// database file at `path`; nothing is promised, since the outcome
/// depends on the disk.
#[verifier::external_body]
fn db_open(path: &str) -> (r: Result<rusqlite::Connection, CoreError>)
    ensures
        r is Err ==> r->Err_0 is Storage,
{
    rusqlite::Connection::open(path).map_err(storage_err)
}

/// Relies on `rusqlite::Connection::execute_batch`: running a batch of
/// statements; nothing is promised of the database's state.
#[verifier::external_body]
fn db_exec_batch(conn: &rusqlite::Connection, sql: &str) -> (r: Result<(), CoreError>)
    ensures
        r is Err ==> r->Err_0 is Storage,
{
    conn.execute_batch(sql).map_err(storage_err)
}

/// Relies on `rusqlite::Connection::execute`: running one statement with
/// the given parameters; nothing is promised of the database's state.
#[verifier::external_body]
fn db_exec(conn: &rusqlite::Connection, sql: &str, params: &Vec<DbValue>) -> (r: Result<
    usize,
    CoreError,
>)
    ensures
        r is Err ==> r->Err_0 is Storage,
{
    let vals: Vec<rusqlite::types::Value> = params.iter().map(to_sql_value).collect();
    conn.execute(sql, rusqlite::params_from_iter(vals)).map_err(storage_err)
}

/// Relies on `rusqlite::Connection::prepare` and `Statement::query`: the
/// rows a query returns, each column converted to a plain value; nothing
/// is promised of the values, since they depend on the database file.
#[verifier::external_body]
fn db_query(conn: &rusqlite::Connection, sql: &str, params: &Vec<DbValue>) -> (r: Result<
    Vec<Vec<DbValue>>,
    CoreError,
>)
    ensures
        r is Err ==> r->Err_0 is Storage,
{
    let vals: Vec<rusqlite::types::Value> = params.iter().map(to_sql_value).collect();
    let mut stmt = conn.prepare(sql).map_err(storage_err)?;
    let n = stmt.column_count();
    let mut rows = stmt.query(rusqlite::params_from_iter(vals)).map_err(storage_err)?;
    let mut out: Vec<Vec<DbValue>> = Vec::new();
    while let Some(row) = rows.next().map_err(storage_err)? {
        let mut cols: Vec<DbValue> = Vec::new();
        for c in 0..n {
            cols.push(from_sql_ref(row.get_ref(c).map_err(storage_err)?));
        }
        out.push(cols);
    }
    Ok(out)
}

/// Encode a task as its row of SQL parameters.
pub fn task_to_row(task: &Task) -> (row: Vec<DbValue>)
    ensures
        row@.len() == 15,
        spec_dv_text(row@[0]) == Some(spec_canonical_id(task@.id)),
        spec_dv_text(row@[1]) == Some(task@.url),
        spec_dv_text(row@[2]) == Some(task@.dest_path),
        spec_dv_text(row@[3]) == Some(spec_status_str(task@.status)),
        spec_dv_int(row@[4]) == Some(task@.priority as int),
        spec_dv_int(row@[5]) == Some(task@.total_bytes as i64 as int),
        spec_dv_int(row@[6]) == Some(task@.downloaded_bytes as i64 as int),
        spec_dv_int(row@[7]) == Some(task@.created_at as i64 as int),
        spec_dv_int(row@[8]) == Some(task@.updated_at as i64 as int),
        spec_dv_opt_text(row@[9]) == Some(task@.error),
        spec_dv_opt_text(row@[10]) == Some(match task@.checksum {
            Some(c) => Some(spec_checksum_type_str(c.0)),
            None => None,
        }),
        spec_dv_opt_text(row@[11]) == Some(match task@.checksum {
            Some(c) => Some(c.1),
            None => None,
        }),
        spec_dv_opt_text(row@[12]) == Some(task@.proxy_url),
        spec_dv_opt_text(row@[13]) == Some(task@.auth_user),
        spec_dv_opt_text(row@[14]) == Some(task@.auth_pass),
{
    let mut row: Vec<DbValue> = Vec::new();
    row.push(DbValue::TextVal(task.id.to_canonical()));
    row.push(DbValue::TextVal(task.url.clone()));
    row.push(DbValue::TextVal(task.dest_path.clone()));
    row.push(DbValue::TextVal(String::from_str(task.status.as_str())));
    row.push(DbValue::IntVal(task.priority as i64));
    row.push(DbValue::IntVal(task.total_bytes as i64));
    row.push(DbValue::IntVal(task.downloaded_bytes as i64));
    row.push(DbValue::IntVal(task.created_at as i64));
    row.push(DbValue::IntVal(task.updated_at as i64));
    row.push(match &task.error {
        Some(e) => DbValue::TextVal(e.clone()),
        None => DbValue::NullVal,
    });
    match &task.checksum {
        Some(c) => {
            row.push(DbValue::TextVal(String::from_str(c.checksum_type.as_str())));
            row.push(DbValue::TextVal(c.expected_hex.clone()));
        },
        None => {
            row.push(DbValue::NullVal);
            row.push(DbValue::NullVal);
        },
    }
    row.push(match &task.proxy_url {
        Some(p) => DbValue::TextVal(p.clone()),
        None => DbValue::NullVal,
    });
    row.push(match &task.auth_user {
        Some(p) => DbValue::TextVal(p.clone()),
        None => DbValue::NullVal,
    });
    row.push(match &task.auth_pass {
        Some(p) => DbValue::TextVal(p.clone()),
        None => DbValue::NullVal,
    });
    row
}

/// The task a row decodes to, its child collections still empty: the
/// canonical id must parse, the status name must be known, and a
/// checksum needs both columns.
pub open spec fn spec_decode_task(row: Seq<DbValue>) -> Option<TaskView> {
    if row.len() != 15 {
        None
    } else {
        match (
            spec_dv_text(row[0]),
            spec_dv_text(row[1]),
            spec_dv_text(row[2]),
            spec_dv_text(row[3]),
            spec_dv_int(row[4]),
            spec_dv_int(row[5]),
            spec_dv_int(row[6]),
            spec_dv_int(row[7]),
            spec_dv_int(row[8]),
            spec_dv_opt_text(row[9]),
        ) {
            (
                Some(idtext),
                Some(url),
                Some(dest),
                Some(sttext),
                Some(priority),
                Some(total),
                Some(downloaded),
                Some(created),
                Some(updated),
                Some(error),
            ) => {
                match (spec_parse_canonical_id(idtext), spec_status_from(sttext)) {
                    (Some(id), Some(status)) => {
                        match (
                            spec_dv_opt_text(row[10]),
                            spec_dv_opt_text(row[11]),
                            spec_dv_opt_text(row[12]),
                            spec_dv_opt_text(row[13]),
                            spec_dv_opt_text(row[14]),
                        ) {
                            (Some(cktype), Some(ckhex), Some(proxy), Some(user), Some(pass)) => {
                                let checksum: Option<(ChecksumType, Seq<char>)> = match (
                                    cktype,
                                    ckhex,
                                ) {
                                    (Some(tname), Some(hex)) => match spec_checksum_type_from(
                                        tname,
                                    ) {
                                        Some(ct) => Some((ct, hex)),
                                        None => None,
                                    },
                                    _ => None,
                                };
                                Some(
                                    TaskView {
                                        id,
                                        url,
                                        dest_path: dest,
                                        status,
                                        priority: priority as i32,
                                        total_bytes: total as i64 as u64,
                                        downloaded_bytes: downloaded as i64 as u64,
                                        headers: Seq::empty(),
                                        cookies: Seq::empty(),
                                        mirrors: Seq::empty(),
                                        checksum,
                                        proxy_url: proxy,
                                        auth_user: user,
                                        auth_pass: pass,
                                        created_at: created as i64 as u64,
                                        updated_at: updated as i64 as u64,
                                        error,
                                    },
                                )
                            },
                            _ => None,
                        }
                    },
                    _ => None,
                }
            },
            _ => None,
        }
    }
}

/// Decode a task row, attaching the separately loaded headers, cookies,
/// and mirrors.
pub fn task_from_row(
    row: &Vec<DbValue>,
    headers: Vec<(String, String)>,
    cookies: Vec<(String, String)>,
    mirrors: Vec<String>,
) -> (r: Option<Task>)
    ensures
        match r {
            Some(t) => spec_decode_task(row@) is Some && t@ == (TaskView {
                headers: headers.deep_view(),
                cookies: cookies.deep_view(),
                mirrors: mirrors.deep_view(),
                ..spec_decode_task(row@)->Some_0
            }),
            None => spec_decode_task(row@) is None,
        },
{
    if row.len() != 15 {
        return None;
    }
    let idtext = match &row[0] {
        DbValue::TextVal(s) => s,
        _ => {
            return None;
        },
    };
    let url = match &row[1] {
        DbValue::TextVal(s) => s,
        _ => {
            return None;
        },
    };
    let dest = match &row[2] {
        DbValue::TextVal(s) => s,
        _ => {
            return None;
        },
    };
    let sttext = match &row[3] {
        DbValue::TextVal(s) => s,
        _ => {
            return None;
        },
    };
    let priority = match &row[4] {
        DbValue::IntVal(i) => *i,
        _ => {
            return None;
        },
    };
    let total = match &row[5] {
        DbValue::IntVal(i) => *i,
        _ => {
            return None;
        },
    };
    let downloaded = match &row[6] {
        DbValue::IntVal(i) => *i,
        _ => {
            return None;
        },
    };
    let created = match &row[7] {
        DbValue::IntVal(i) => *i,
        _ => {
            return None;
        },
    };
    let updated = match &row[8] {
        DbValue::IntVal(i) => *i,
        _ => {
            return None;
        },
    };
    let error = match &row[9] {
        DbValue::TextVal(s) => Some(s.clone()),
        DbValue::NullVal => None,
        _ => {
            return None;
        },
    };
    let id = match TaskId::parse_str(idtext.as_str()) {
        Some(id) => id,
        None => {
            return None;
        },
    };
    let status = match TaskStatus::from_str(sttext.as_str()) {
        Some(s) => s,
        None => {
            return None;
        },
    };
    let cktype = match &row[10] {
        DbValue::TextVal(s) => Some(s.clone()),
        DbValue::NullVal => None,
        _ => {
            return None;
        },
    };
    let ckhex = match &row[11] {
        DbValue::TextVal(s) => Some(s.clone()),
        DbValue::NullVal => None,
        _ => {
            return None;
        },
    };
    let proxy = match &row[12] {
        DbValue::TextVal(s) => Some(s.clone()),
        DbValue::NullVal => None,
        _ => {
            return None;
        },
    };
    let user = match &row[13] {
        DbValue::TextVal(s) => Some(s.clone()),
        DbValue::NullVal => None,
        _ => {
            return None;
        },
    };
    let pass = match &row[14] {
        DbValue::TextVal(s) => Some(s.clone()),
        DbValue::NullVal => None,
        _ => {
            return None;
        },
    };
    let checksum: Option<ChecksumRequest> = match (cktype, ckhex) {
        (Some(tname), Some(hex)) => {
            match ChecksumType::from_str(tname.as_str()) {
                Some(ct) => Some(ChecksumRequest { checksum_type: ct, expected_hex: hex }),
                None => None,
            }
        },
        _ => None,
    };
    Some(
        Task {
            id,
            url: url.clone(),
            dest_path: dest.clone(),
            status,
            priority: priority as i32,
            total_bytes: total as u64,
            downloaded_bytes: downloaded as u64,
            headers,
            cookies,
            mirrors,
            checksum,
            proxy_url: proxy,
            auth_user: user,
            auth_pass: pass,
            created_at: created as u64,
            updated_at: updated as u64,
            error,
        },
    )
}

/// Writing a task row and reading it back yields the task: any row that
/// carries the encoding of a task, as `task_to_row` writes it, decodes
/// to that task, its child collections supplied separately.
pub proof fn law_task_row_roundtrip(t: TaskView, row: Seq<DbValue>)
    requires
        t.headers == Seq::<(Seq<char>, Seq<char>)>::empty(),
        t.cookies == Seq::<(Seq<char>, Seq<char>)>::empty(),
        t.mirrors == Seq::<Seq<char>>::empty(),
        row.len() == 15,
        spec_dv_text(row[0]) == Some(spec_canonical_id(t.id)),
        spec_dv_text(row[1]) == Some(t.url),
        spec_dv_text(row[2]) == Some(t.dest_path),
        spec_dv_text(row[3]) == Some(spec_status_str(t.status)),
        spec_dv_int(row[4]) == Some(t.priority as int),
        spec_dv_int(row[5]) == Some(t.total_bytes as i64 as int),
        spec_dv_int(row[6]) == Some(t.downloaded_bytes as i64 as int),
        spec_dv_int(row[7]) == Some(t.created_at as i64 as int),
        spec_dv_int(row[8]) == Some(t.updated_at as i64 as int),
        spec_dv_opt_text(row[9]) == Some(t.error),
        spec_dv_opt_text(row[10]) == Some(match t.checksum {
            Some(c) => Some(spec_checksum_type_str(c.0)),
            None => None,
        }),
        spec_dv_opt_text(row[11]) == Some(match t.checksum {
            Some(c) => Some(c.1),
            None => None,
        }),
        spec_dv_opt_text(row[12]) == Some(t.proxy_url),
        spec_dv_opt_text(row[13]) == Some(t.auth_user),
        spec_dv_opt_text(row[14]) == Some(t.auth_pass),
    ensures
        spec_decode_task(row) == Some(t),
{
    law_task_id_roundtrip(t.id);
    law_status_roundtrip(t.status);
    match t.checksum {
        Some(c) => {
            law_checksum_type_roundtrip(c.0);
        },
        None => {},
    }
    let p = t.priority;
    assert((p as int) as i32 == p);
    let tb = t.total_bytes;
    let db = t.downloaded_bytes;
    let ca = t.created_at;
    let ua = t.updated_at;
    assert(tb as i64 as u64 == tb) by (bit_vector);
    assert(db as i64 as u64 == db) by (bit_vector);
    assert(ca as i64 as u64 == ca) by (bit_vector);
    assert(ua as i64 as u64 == ua) by (bit_vector);
    assert(spec_decode_task(row) == Some(t));
}

/// Encode one segment as its parameter row: task id, index, range start,
/// range end, downloaded bytes, status.
pub fn segment_to_row(task_id: &TaskId, seg: &Segment) -> (row: Vec<DbValue>)
    ensures
        row@.len() == 6,
        spec_dv_text(row@[0]) == Some(spec_canonical_id(task_id.bits)),
        spec_dv_int(row@[1]) == Some(seg.index as int),
        spec_dv_int(row@[2]) == Some(seg.range_start as i64 as int),
        spec_dv_int(row@[3]) == Some(seg.range_end as i64 as int),
        spec_dv_int(row@[4]) == Some(seg.downloaded_bytes as i64 as int),
        spec_dv_text(row@[5]) == Some(spec_segment_status_str(seg.status)),
{
    let mut row: Vec<DbValue> = Vec::new();
    row.push(DbValue::TextVal(task_id.to_canonical()));
    row.push(DbValue::IntVal(seg.index as i64));
    row.push(DbValue::IntVal(seg.range_start as i64));
    row.push(DbValue::IntVal(seg.range_end as i64));
    row.push(DbValue::IntVal(seg.downloaded_bytes as i64));
    row.push(DbValue::TextVal(String::from_str(seg.status.as_str())));
    row
}

/// The segment a queried row decodes to: index, start, end, downloaded,
/// status name.
pub open spec fn spec_decode_segment(row: Seq<DbValue>) -> Option<Segment> {
    if row.len() != 5 {
        None
    } else {
        match (
            spec_dv_int(row[0]),
            spec_dv_int(row[1]),
            spec_dv_int(row[2]),
            spec_dv_int(row[3]),
            spec_dv_text(row[4]),
        ) {
            (Some(index), Some(start), Some(end), Some(downloaded), Some(sttext)) => {
                match spec_segment_status_from(sttext) {
                    Some(status) => Some(
                        Segment {
                            index: index as i64 as u32,
                            range_start: start as i64 as u64,
                            range_end: end as i64 as u64,
                            downloaded_bytes: downloaded as i64 as u64,
                            status,
                        },
                    ),
                    None => None,
                }
            },
            _ => None,
        }
    }
}

/// Decode one queried segment row.
pub fn segment_from_row(row: &Vec<DbValue>) -> (r: Option<Segment>)
    ensures
        match r {
            Some(seg) => spec_decode_segment(row@) == Some(seg),
            None => spec_decode_segment(row@) is None,
        },
{
    if row.len() != 5 {
        return None;
    }
    let index = match &row[0] {
        DbValue::IntVal(i) => *i,
        _ => {
            return None;
        },
    };
    let start = match &row[1] {
        DbValue::IntVal(i) => *i,
        _ => {
            return None;
        },
    };
    let end = match &row[2] {
        DbValue::IntVal(i) => *i,
        _ => {
            return None;
        },
    };
    let downloaded = match &row[3] {
        DbValue::IntVal(i) => *i,
        _ => {
            return None;
        },
    };
    let sttext = match &row[4] {
        DbValue::TextVal(s) => s,
        _ => {
            return None;
        },
    };
    let status = match SegmentStatus::from_str(sttext.as_str()) {
        Some(s) => s,
        None => {
            return None;
        },
    };
    Some(
        Segment {
            index: index as u32,
            range_start: start as u64,
            range_end: end as u64,
            downloaded_bytes: downloaded as u64,
            status,
        },
    )
}

/// Writing a segment's columns and reading them back yields the
/// segment: the queried row carries the index, ranges, counter, and
/// status name exactly as stored.
pub proof fn law_segment_row_roundtrip(seg: Segment, row: Seq<DbValue>)
    requires
        row.len() == 5,
        spec_dv_int(row[0]) == Some(seg.index as int),
        spec_dv_int(row[1]) == Some(seg.range_start as i64 as int),
        spec_dv_int(row[2]) == Some(seg.range_end as i64 as int),
        spec_dv_int(row[3]) == Some(seg.downloaded_bytes as i64 as int),
        spec_dv_text(row[4]) == Some(spec_segment_status_str(seg.status)),
    ensures
        spec_decode_segment(row) == Some(seg),
{
    crate::segment::law_segment_status_roundtrip(seg.status);
    let ix = seg.index;
    let rs = seg.range_start;
    let re = seg.range_end;
    let db = seg.downloaded_bytes;
    assert((ix as int) as i64 as u32 == ix) by (bit_vector);
    assert(rs as i64 as u64 == rs) by (bit_vector);
    assert(re as i64 as u64 == re) by (bit_vector);
    assert(db as i64 as u64 == db) by (bit_vector);
    assert(spec_decode_segment(row) == Some(seg));
}

/// Durable storage backed by one SQLite database file.
pub struct SqliteStorage {
    conn: rusqlite::Connection,
}

impl SqliteStorage {
    /// Open the database at `path` and create the schema.
    pub fn new(path: &str) -> (r: Result<SqliteStorage, CoreError>)
        ensures
            r is Err ==> r->Err_0 is Storage,
    {
        let conn = match db_open(path) {
            Ok(c) => c,
            Err(e) => {
                return Err(e);
            },
        };
        let storage = SqliteStorage { conn };
        match storage.init() {
            Ok(_) => Ok(storage),
            Err(e) => Err(e),
        }
    }

    /// Create the task, segment, header, cookie, mirror, and event
    /// tables when they do not exist.
    pub fn init(&self) -> (r: Result<(), CoreError>)
        ensures
            r is Err ==> r->Err_0 is Storage,
    {
        db_exec_batch(
            &self.conn,
            "CREATE TABLE IF NOT EXISTS tasks (\n                id TEXT PRIMARY KEY,\n                url TEXT NOT NULL,\n                dest_path TEXT NOT NULL,\n                status TEXT NOT NULL,\n                priority INTEGER NOT NULL DEFAULT 0,\n                total_bytes INTEGER DEFAULT 0,\n                downloaded_bytes INTEGER DEFAULT 0,\n                created_at INTEGER NOT NULL,\n                updated_at INTEGER NOT NULL,\n                error TEXT,\n                checksum_type TEXT,\n                checksum_hex TEXT,\n                proxy_url TEXT,\n                auth_user TEXT,\n                auth_pass TEXT\n            );\n            CREATE TABLE IF NOT EXISTS segments (\n                id INTEGER PRIMARY KEY AUTOINCREMENT,\n                task_id TEXT NOT NULL,\n                segment_index INTEGER NOT NULL,\n                range_start INTEGER NOT NULL,\n                range_end INTEGER NOT NULL,\n                downloaded_bytes INTEGER NOT NULL DEFAULT 0,\n                status TEXT NOT NULL,\n                FOREIGN KEY(task_id) REFERENCES tasks(id)\n            );\n            CREATE TABLE IF NOT EXISTS headers (\n                id INTEGER PRIMARY KEY AUTOINCREMENT,\n                task_id TEXT NOT NULL,\n                name TEXT NOT NULL,\n                value TEXT NOT NULL,\n                FOREIGN KEY(task_id) REFERENCES tasks(id)\n            );\n            CREATE TABLE IF NOT EXISTS cookies (\n                id INTEGER PRIMARY KEY AUTOINCREMENT,\n                task_id TEXT NOT NULL,\n                name TEXT NOT NULL,\n                value TEXT NOT NULL,\n                domain TEXT,\n                path TEXT,\n                FOREIGN KEY(task_id) REFERENCES tasks(id)\n            );\n            CREATE TABLE IF NOT EXISTS mirrors (\n                id INTEGER PRIMARY KEY AUTOINCREMENT,\n                task_id TEXT NOT NULL,\n                url TEXT NOT NULL,\n                rank INTEGER NOT NULL DEFAULT 0,\n                FOREIGN KEY(task_id) REFERENCES tasks(id)\n            );\n            CREATE TABLE IF NOT EXISTS events (\n                id INTEGER PRIMARY KEY AUTOINCREMENT,\n                task_id TEXT NOT NULL,\n                event_type TEXT NOT NULL,\n                payload TEXT,\n                created_at INTEGER NOT NULL,\n                FOREIGN KEY(task_id) REFERENCES tasks(id)\n            );",
        )
    }

    fn rollback(&self) {
        let empty: Vec<DbValue> = Vec::new();
        let _ = db_exec(&self.conn, "ROLLBACK", &empty);
    }

    /// Write the task row and replace its header, cookie, and mirror
    /// child rows, in one transaction.
    pub fn save_task(&self, task: &Task) -> (r: Result<(), CoreError>)
        ensures
            r is Err ==> r->Err_0 is Storage,
    {
        let empty: Vec<DbValue> = Vec::new();
        if let Err(e) = db_exec(&self.conn, "BEGIN", &empty) {
            return Err(e);
        }
        let row = task_to_row(task);
        let sql =
            "INSERT INTO tasks (id, url, dest_path, status, priority, total_bytes, downloaded_bytes, created_at, updated_at, error, checksum_type, checksum_hex, proxy_url, auth_user, auth_pass) VALUES (?1, ?2, ?3, ?4, ?5, ?6, ?7, ?8, ?9, ?10, ?11, ?12, ?13, ?14, ?15) ON CONFLICT(id) DO UPDATE SET url=excluded.url, dest_path=excluded.dest_path, status=excluded.status, priority=excluded.priority, total_bytes=excluded.total_bytes, downloaded_bytes=excluded.downloaded_bytes, created_at=excluded.created_at, updated_at=excluded.updated_at, error=excluded.error, checksum_type=excluded.checksum_type, checksum_hex=excluded.checksum_hex, proxy_url=excluded.proxy_url, auth_user=excluded.auth_user, auth_pass=excluded.auth_pass";
        if let Err(e) = db_exec(&self.conn, sql, &row) {
            self.rollback();
            return Err(e);
        }
        let mut idp: Vec<DbValue> = Vec::new();
        idp.push(DbValue::TextVal(task.id.to_canonical()));
        if let Err(e) = db_exec(&self.conn, "DELETE FROM headers WHERE task_id = ?1", &idp) {
            self.rollback();
            return Err(e);
        }
        let mut i: usize = 0;
        while i < task.headers.len()
            decreases task.headers@.len() - i,
        {
            let mut p: Vec<DbValue> = Vec::new();
            p.push(DbValue::TextVal(task.id.to_canonical()));
            p.push(DbValue::TextVal(task.headers[i].0.clone()));
            p.push(DbValue::TextVal(task.headers[i].1.clone()));
            if let Err(e) = db_exec(
                &self.conn,
                "INSERT INTO headers (task_id, name, value) VALUES (?1, ?2, ?3)",
                &p,
            ) {
                self.rollback();
                return Err(e);
            }
            i = i + 1;
        }
        if let Err(e) = db_exec(&self.conn, "DELETE FROM cookies WHERE task_id = ?1", &idp) {
            self.rollback();
            return Err(e);
        }
        let mut i: usize = 0;
        while i < task.cookies.len()
            decreases task.cookies@.len() - i,
        {
            let mut p: Vec<DbValue> = Vec::new();
            p.push(DbValue::TextVal(task.id.to_canonical()));
            p.push(DbValue::TextVal(task.cookies[i].0.clone()));
            p.push(DbValue::TextVal(task.cookies[i].1.clone()));
            if let Err(e) = db_exec(
                &self.conn,
                "INSERT INTO cookies (task_id, name, value, domain, path) VALUES (?1, ?2, ?3, NULL, NULL)",
                &p,
            ) {
                self.rollback();
                return Err(e);
            }
            i = i + 1;
        }
        if let Err(e) = db_exec(&self.conn, "DELETE FROM mirrors WHERE task_id = ?1", &idp) {
            self.rollback();
            return Err(e);
        }
        let n = task.mirrors.len();
        let mut i: usize = 0;
        while i < n
            invariant
                i <= n == task.mirrors@.len(),
            decreases task.mirrors@.len() - i,
        {
            let mut p: Vec<DbValue> = Vec::new();
            p.push(DbValue::TextVal(task.id.to_canonical()));
            p.push(DbValue::TextVal(task.mirrors[i].clone()));
            #[verifier::truncate]
            let rank: i64 = i as i64;
            p.push(DbValue::IntVal(rank));
            if let Err(e) = db_exec(
                &self.conn,
                "INSERT INTO mirrors (task_id, url, rank) VALUES (?1, ?2, ?3)",
                &p,
            ) {
                self.rollback();
                return Err(e);
            }
            i = i + 1;
        }
        let commit = db_exec(&self.conn, "COMMIT", &empty);
        match commit {
            Ok(_) => Ok(()),
            Err(e) => {
                self.rollback();
                Err(e)
            },
        }
    }

    /// Load the task row under `id`, joined with its headers, cookies,
    /// and mirrors; an unknown id is `NotFound`, and a row that does not
    /// decode is a storage error.
    pub fn load_task(&self, id: &TaskId) -> (r: Result<Task, CoreError>)
        ensures
            r is Err ==> r->Err_0 is NotFound || r->Err_0 is Storage,
    {
        let mut idp: Vec<DbValue> = Vec::new();
        idp.push(DbValue::TextVal(id.to_canonical()));
        let rows = match db_query(
            &self.conn,
            "SELECT id, url, dest_path, status, priority, total_bytes, downloaded_bytes, created_at, updated_at, error, checksum_type, checksum_hex, proxy_url, auth_user, auth_pass FROM tasks WHERE id = ?1",
            &idp,
        ) {
            Ok(r) => r,
            Err(e) => {
                return Err(e);
            },
        };
        if rows.len() == 0 {
            return Err(CoreError::NotFound(id.to_canonical()));
        }
        let hrows = match db_query(
            &self.conn,
            "SELECT name, value FROM headers WHERE task_id = ?1",
            &idp,
        ) {
            Ok(r) => r,
            Err(e) => {
                return Err(e);
            },
        };
        let mut headers: Vec<(String, String)> = Vec::new();
        let mut i: usize = 0;
        while i < hrows.len()
            decreases hrows@.len() - i,
        {
            match pair_from_row(&hrows[i]) {
                Some(p) => {
                    headers.push(p);
                },
                None => {
                    return Err(CoreError::Storage(String::from_str("malformed header row")));
                },
            }
            i = i + 1;
        }
        let crows = match db_query(
            &self.conn,
            "SELECT name, value FROM cookies WHERE task_id = ?1",
            &idp,
        ) {
            Ok(r) => r,
            Err(e) => {
                return Err(e);
            },
        };
        let mut cookies: Vec<(String, String)> = Vec::new();
        let mut i: usize = 0;
        while i < crows.len()
            decreases crows@.len() - i,
        {
            match pair_from_row(&crows[i]) {
                Some(p) => {
                    cookies.push(p);
                },
                None => {
                    return Err(CoreError::Storage(String::from_str("malformed cookie row")));
                },
            }
            i = i + 1;
        }
        let mrows = match db_query(
            &self.conn,
            "SELECT url FROM mirrors WHERE task_id = ?1 ORDER BY rank ASC",
            &idp,
        ) {
            Ok(r) => r,
            Err(e) => {
                return Err(e);
            },
        };
        let mut mirrors: Vec<String> = Vec::new();
        let mut i: usize = 0;
        while i < mrows.len()
            decreases mrows@.len() - i,
        {
            if mrows[i].len() != 1 {
                return Err(CoreError::Storage(String::from_str("malformed mirror row")));
            }
            match &mrows[i][0] {
                DbValue::TextVal(u) => {
                    mirrors.push(u.clone());
                },
                _ => {
                    return Err(CoreError::Storage(String::from_str("malformed mirror row")));
                },
            }
            i = i + 1;
        }
        match task_from_row(&rows[0], headers, cookies, mirrors) {
            Some(t) => Ok(t),
            None => Err(CoreError::Storage(String::from_str("malformed task row"))),
        }
    }

    /// The identifiers of all stored tasks, then each task loaded.
    pub fn list_tasks(&self) -> (r: Result<Vec<Task>, CoreError>)
        ensures
            r is Err ==> r->Err_0 is NotFound || r->Err_0 is Storage,
    {
        let empty: Vec<DbValue> = Vec::new();
        let rows = match db_query(&self.conn, "SELECT id FROM tasks", &empty) {
            Ok(r) => r,
            Err(e) => {
                return Err(e);
            },
        };
        let mut tasks: Vec<Task> = Vec::new();
        let mut i: usize = 0;
        while i < rows.len()
            decreases rows@.len() - i,
        {
            if rows[i].len() != 1 {
                return Err(CoreError::Storage(String::from_str("malformed id row")));
            }
            let idtext = match &rows[i][0] {
                DbValue::TextVal(s) => s,
                _ => {
                    return Err(CoreError::Storage(String::from_str("malformed id row")));
                },
            };
            let id = match TaskId::parse_str(idtext.as_str()) {
                Some(id) => id,
                None => {
                    return Err(CoreError::Storage(String::from_str("malformed id row")));
                },
            };
            match self.load_task(&id) {
                Ok(t) => {
                    tasks.push(t);
                },
                Err(e) => {
                    return Err(e);
                },
            }
            i = i + 1;
        }
        Ok(tasks)
    }

    /// Remove the task row and every child row, in one transaction;
    /// removing an unknown id succeeds.
    pub fn delete_task(&self, id: &TaskId) -> (r: Result<(), CoreError>)
        ensures
            r is Err ==> r->Err_0 is Storage,
    {
        let empty: Vec<DbValue> = Vec::new();
        let mut idp: Vec<DbValue> = Vec::new();
        idp.push(DbValue::TextVal(id.to_canonical()));
        if let Err(e) = db_exec(&self.conn, "BEGIN", &empty) {
            return Err(e);
        }
        let stmts = [
            "DELETE FROM headers WHERE task_id = ?1",
            "DELETE FROM cookies WHERE task_id = ?1",
            "DELETE FROM mirrors WHERE task_id = ?1",
            "DELETE FROM segments WHERE task_id = ?1",
            "DELETE FROM tasks WHERE id = ?1",
        ];
        let mut i: usize = 0;
        while i < 5
            decreases 5 - i,
        {
            if let Err(e) = db_exec(&self.conn, stmts[i], &idp) {
                self.rollback();
                return Err(e);
            }
            i = i + 1;
        }
        match db_exec(&self.conn, "COMMIT", &empty) {
            Ok(_) => Ok(()),
            Err(e) => {
                self.rollback();
                Err(e)
            },
        }
    }

    /// Replace the stored segment rows of `task_id`, in one transaction.
    pub fn save_segments(&self, task_id: &TaskId, segments: &Vec<Segment>) -> (r: Result<
        (),
        CoreError,
    >)
        ensures
            r is Err ==> r->Err_0 is Storage,
    {
        let empty: Vec<DbValue> = Vec::new();
        let mut idp: Vec<DbValue> = Vec::new();
        idp.push(DbValue::TextVal(task_id.to_canonical()));
        if let Err(e) = db_exec(&self.conn, "BEGIN", &empty) {
            return Err(e);
        }
        if let Err(e) = db_exec(&self.conn, "DELETE FROM segments WHERE task_id = ?1", &idp) {
            self.rollback();
            return Err(e);
        }
        let mut i: usize = 0;
        while i < segments.len()
            decreases segments@.len() - i,
        {
            let row = segment_to_row(task_id, &segments[i]);
            if let Err(e) = db_exec(
                &self.conn,
                "INSERT INTO segments (task_id, segment_index, range_start, range_end, downloaded_bytes, status) VALUES (?1, ?2, ?3, ?4, ?5, ?6)",
                &row,
            ) {
                self.rollback();
                return Err(e);
            }
            i = i + 1;
        }
        match db_exec(&self.conn, "COMMIT", &empty) {
            Ok(_) => Ok(()),
            Err(e) => {
                self.rollback();
                Err(e)
            },
        }
    }

    /// The stored segments of `task_id`, in index order.
    pub fn load_segments(&self, task_id: &TaskId) -> (r: Result<Vec<Segment>, CoreError>)
        ensures
            r is Err ==> r->Err_0 is Storage,
    {
        let mut idp: Vec<DbValue> = Vec::new();
        idp.push(DbValue::TextVal(task_id.to_canonical()));
        let rows = match db_query(
            &self.conn,
            "SELECT segment_index, range_start, range_end, downloaded_bytes, status FROM segments WHERE task_id = ?1 ORDER BY segment_index ASC",
            &idp,
        ) {
            Ok(r) => r,
            Err(e) => {
                return Err(e);
            },
        };
        let mut segments: Vec<Segment> = Vec::new();
        let mut i: usize = 0;
        while i < rows.len()
            decreases rows@.len() - i,
        {
            match segment_from_row(&rows[i]) {
                Some(seg) => {
                    segments.push(seg);
                },
                None => {
                    return Err(CoreError::Storage(String::from_str("malformed segment row")));
                },
            }
            i = i + 1;
        }
        Ok(segments)
    }
}

/// A two-text child row as a pair.
fn pair_from_row(row: &Vec<DbValue>) -> (r: Option<(String, String)>)
    ensures
        match r {
            Some(p) => row@.len() == 2 && spec_dv_text(row@[0]) == Some(p.0@) && spec_dv_text(
                row@[1],
            ) == Some(p.1@),
            None => true,
        },
{
    if row.len() != 2 {
        return None;
    }
    let a = match &row[0] {
        DbValue::TextVal(s) => s.clone(),
        _ => {
            return None;
        },
    };
    let b = match &row[1] {
        DbValue::TextVal(s) => s.clone(),
        _ => {
            return None;
        },
    };
    Some((a, b))
}

} // verus!
