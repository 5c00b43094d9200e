//! The content-addressed cache: a durable key-value store over 64-bit
//! keys, holding framed record payloads beside denormalized columns. The
//! store is an optimization, never a correctness dependency: a storage
//! fault or a damaged payload reads as a miss, and a write fault is
//! surfaced without invalidating the in-memory record.

use vstd::prelude::*;

use crate::codec::{decode, encode};
use crate::datatype::{LogStamp, Metadata};

verus! {

#[verifier::external_type_specification]
#[verifier::external_body]
pub struct ExConnection(rusqlite::Connection);

#[verifier::external_type_specification]
#[verifier::external_body]
pub struct ExSqliteError(rusqlite::Error);

/// Error taxonomy of the durable cache.
#[derive(Debug)]
pub enum CacheError {
    /// The storage layer failed.
    Sqlite(rusqlite::Error),
}

pub type CacheResult<T> = Result<T, CacheError>;

/// A durable key-value store over 64-bit content hashes.
pub struct Cache {
    conn: rusqlite::Connection,
}

/// Relies on `rusqlite::Connection::open` and `Connection::execute`:
/// opens or creates the database file and ensures the metadata table
/// exists. What the file system holds is outside the library, so nothing
/// is promised of the connection.
#[verifier::external_body]
fn db_open(db_path: &str) -> Result<rusqlite::Connection, rusqlite::Error> {
    let conn = rusqlite::Connection::open(db_path)?;
    conn.execute(
        "CREATE TABLE IF NOT EXISTS metadata (id TEXT PRIMARY KEY, \
        serialized_data TEXT NOT NULL, name TEXT NOT NULL, b_finished BOOL NOT NULL, \
        episode INTEGER, time_at_episode INTEGER, season INTEGER, \
        logged_time INTEGER, note TEXT)",
        [],
    )?;
    Ok(conn)
}

/// Relies on `rusqlite::Connection::prepare` and `Statement::query_row`:
/// the payload stored under `key`, if any. What the database holds is
/// outside the library, so nothing is promised of the value.
#[verifier::external_body]
fn db_get_payload(conn: &rusqlite::Connection, key: u64) -> Option<String> {
    let mut stmt = conn.prepare("SELECT serialized_data FROM metadata WHERE id = ?1").ok()?;
    stmt.query_row((key.to_string(),), |row| row.get::<_, String>(0)).ok()
}

/// Relies on `rusqlite::Connection::prepare` and `Statement::execute`:
/// upserts one row keyed by `id`, holding the framed payload beside the
/// denormalized columns. Nothing is promised of the database's state.
#[verifier::external_body]
fn db_put_row(
    conn: &rusqlite::Connection,
    id: u64,
    payload: &str,
    name: &str,
    b_finished: bool,
    episode: Option<u16>,
    time_at_episode: Option<u32>,
    season: Option<u16>,
    logged_time: Option<i64>,
    note: &Option<String>,
) -> Result<(), rusqlite::Error> {
    let mut stmt = conn.prepare(
        "INSERT OR REPLACE INTO metadata (id, serialized_data, name, b_finished, \
        episode, time_at_episode, season, logged_time, note) \
        VALUES (?1, ?2, ?3, ?4, ?5, ?6, ?7, ?8, ?9)",
    )?;
    let key = id.to_string();
    stmt.execute((key, payload, name, b_finished, episode, time_at_episode, season, logged_time, note.as_deref()))?;
    Ok(())
}

/// The denormalized timestamp column: Unix epoch seconds of the stamp
/// read as UTC, by the civil-calendar day count. The year is shifted by
/// one 400-year era so every intermediate value stays non-negative; the
/// era's days are taken back out at the end.
pub open spec fn spec_epoch_seconds(t: LogStamp) -> int {
    let m = t.month as int;
    let yy = t.year + 400 - if m <= 2 {
        1int
    } else {
        0int
    };
    let era = yy / 400;
    let yoe = yy - era * 400;
    let mp = if m > 2 {
        m - 3
    } else {
        m + 9
    };
    let doe = yoe * 365 + yoe / 4 - yoe / 100 + (153 * mp + 2) / 5 + t.day;
    let days = era * 146097 + doe - 1 - 146097 - 719468;
    days * 86400 + t.hour * 3600 + t.minute * 60
}

/// The denormalized timestamp column value: Unix epoch seconds, as an
/// external inspector of the table would read a time.
pub fn epoch_seconds(t: &LogStamp) -> (r: i64)
    ensures
        r == spec_epoch_seconds(*t),
{
    let m = t.month as u64;
    let yy: u64 = t.year as u64 + 400 - if m <= 2 {
        1
    } else {
        0
    };
    let era = yy / 400;
    let yoe = yy - era * 400;
    let mp = if m > 2 {
        m - 3
    } else {
        m + 9
    };
    let doe = yoe * 365 + yoe / 4 - yoe / 100 + (153 * mp + 2) / 5 + t.day as u64;
    let days = (era * 146097 + doe) as i64 - 1 - 146097 - 719468;
    days * 86400 + (t.hour as i64) * 3600 + (t.minute as i64) * 60
}

impl Cache {
    /// Opens or creates the durable cache at `db_path`; the storage error
    /// is surfaced when the layer refuses.
    pub fn new(db_path: &str) -> CacheResult<Self> {
        match db_open(db_path) {
            Ok(conn) => Ok(Cache { conn }),
            Err(e) => Err(CacheError::Sqlite(e)),
        }
    }

    /// Looks one key up: a stored payload is read back into a record,
    /// whose position the caller overwrites. A storage fault, a damaged
    /// payload, or a row whose id disagrees with the key is a miss,
    /// never an error.
    pub fn query_cache(&self, hash_value: u64) -> (r: Option<Metadata>)
        ensures
            r matches Some(m) ==> m.wf() && m.id == hash_value,
    {
        match db_get_payload(&self.conn, hash_value) {
            None => None,
            Some(payload) => match decode(payload.as_str(), 0) {
                None => None,
                Some(m) => {
                    if m.id == hash_value {
                        Some(m)
                    } else {
                        None
                    }
                },
            },
        }
    }

    /// Upserts one record under its id: the framed payload beside the
    /// denormalized columns. A storage fault is returned to the caller,
    /// who keeps the in-memory record and loses only durability.
    pub fn add_or_update_cache(&self, metadata: &Metadata) -> CacheResult<()> {
        let payload = encode(metadata);
        let elapsed: Option<u32> = match &metadata.time_at_episode {
            Some(t) => Some(t.total_seconds()),
            None => None,
        };
        let logged: Option<i64> = match &metadata.logged_time {
            Some(t) => Some(epoch_seconds(t)),
            None => None,
        };
        match db_put_row(
            &self.conn,
            metadata.id,
            payload.as_str(),
            metadata.name.as_str(),
            metadata.b_finished,
            metadata.episode,
            elapsed,
            metadata.season,
            logged,
            &metadata.note,
        ) {
            Ok(_) => Ok(()),
            Err(e) => Err(CacheError::Sqlite(e)),
        }
    }
}

} // verus!
