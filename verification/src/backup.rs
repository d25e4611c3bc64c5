//! The compute side of the backup collaborator: whether a backup is due
//! today, and the payload built from the raw store bytes — compressed,
//! checksummed and encoded for delivery. Reading the store file and
//! sending the payload are the caller's concern; this module never
//! touches the disk or the network.

use vstd::prelude::*;
use std::io::Write;
use base64::Engine;
use chrono::Datelike;
use crate::errors::StoreError;

verus! {

/// What the gzip encoder produces for given bytes; the result depends
/// on the input alone.
pub uninterp spec fn gzip_of(bytes: Seq<u8>) -> Seq<u8>;

/// The lowercase hex digest of given bytes; the result depends on the
/// input alone.
pub uninterp spec fn md5_hex_of(bytes: Seq<u8>) -> Seq<char>;

/// The standard-alphabet encoding of given bytes; the result depends on
/// the input alone.
pub uninterp spec fn base64_of(bytes: Seq<u8>) -> Seq<char>;

/// Relies on flate2's gzip encoder over an in-memory buffer: writing
/// the input and finishing yields the compressed form of the input
/// bytes alone.
#[verifier::external_body]
fn gzip_compress(data: &Vec<u8>) -> (r: Option<Vec<u8>>)
    ensures
        r is Some ==> r->0@ == gzip_of(data@),
{
    let mut encoder = flate2::write::GzEncoder::new(Vec::new(), flate2::Compression::default());
    if encoder.write_all(data.as_slice()).is_err() {
        return None;
    }
    match encoder.finish() {
        Ok(v) => Some(v),
        Err(_) => None,
    }
}

/// Relies on md5::compute and its lowercase hex display: a 32-character
/// digest of the input bytes alone.
#[verifier::external_body]
fn md5_hex(data: &Vec<u8>) -> (r: String)
    ensures
        r@ == md5_hex_of(data@),
        r@.len() == 32,
{
    format!("{:x}", md5::compute(data.as_slice()))
}

/// Relies on base64's standard engine: the encoding of the input bytes
/// alone.
#[verifier::external_body]
fn base64_encode(data: &Vec<u8>) -> (r: String)
    ensures
        r@ == base64_of(data@),
{
    base64::engine::general_purpose::STANDARD.encode(data.as_slice())
}

/// Relies on chrono's local clock: some calendar day, with the month
/// and day fields in calendar range. Nothing more can be promised of a
/// clock reading.
#[verifier::external_body]
fn today_local() -> (r: (i64, i64, i64))
    ensures
        1 <= r.1 <= 12,
        1 <= r.2 <= 31,
{
    let now = chrono::Local::now().date_naive();
    (now.year() as i64, now.month() as i64, now.day() as i64)
}

/// The persisted backup bookkeeping.
#[derive(Debug, PartialEq)]
pub struct BackupStatus {
    /// The local calendar day of the last backup, as year, month, day.
    pub last_backup_day: Option<(i64, i64, i64)>,
    pub last_backup_success: bool,
    pub last_error: Option<String>,
    pub backup_count: u32,
}

impl Default for BackupStatus {
    /// The state before any backup ran.
    fn default() -> (r: Self)
        ensures
            r.last_backup_day is None,
            !r.last_backup_success,
            r.last_error is None,
            r.backup_count == 0,
    {
        BackupStatus {
            last_backup_day: None,
            last_backup_success: false,
            last_error: None,
            backup_count: 0,
        }
    }
}

/// A backup runs at most once per local calendar day: it is due when
/// none ever ran, or when the last one ran on a different day.
pub fn backup_due(last: &Option<(i64, i64, i64)>, today: (i64, i64, i64)) -> (r: bool)
    ensures
        r == match *last {
            None => true,
            Some(d) => d != today,
        },
{
    match last {
        None => true,
        Some(d) => !(d.0 == today.0 && d.1 == today.1 && d.2 == today.2),
    }
}

/// The payload a backup delivery carries.
#[derive(Debug, PartialEq)]
pub struct BackupPayload {
    /// The compressed store bytes.
    pub compressed: Vec<u8>,
    /// The compressed bytes, encoded for an attachment.
    pub attachment: String,
    /// The hex digest of the raw store bytes.
    pub checksum: String,
    /// How many raw bytes went in.
    pub original_size: u64,
}

/// The backup collaborator's compute side, bound to the resolved store
/// and status paths; the paths are plain values here, never opened.
#[derive(Debug, PartialEq)]
pub struct BackupService {
    pub db_path: String,
    pub status_path: String,
}

impl BackupService {
    /// Bind the collaborator to its two file paths.
    pub fn new(db_path: String, status_path: String) -> (s: BackupService)
        ensures
            s.db_path == db_path,
            s.status_path == status_path,
    {
        BackupService { db_path, status_path }
    }

    /// Whether a backup should run now: due against today's local day.
    /// With no backup on record it always runs.
    pub fn should_run_backup(&self, status: &BackupStatus) -> (r: bool)
        ensures
            status.last_backup_day is None ==> r,
    {
        let today = today_local();
        backup_due(&status.last_backup_day, today)
    }

    /// Build the delivery payload from the raw store bytes: compress,
    /// checksum the original, encode the compressed form.
    pub fn prepare_backup(&self, db_bytes: Vec<u8>) -> (r: Result<BackupPayload, StoreError>)
        requires
            db_bytes@.len() <= u64::MAX,
        ensures
            match r {
                Ok(p) => {
                    &&& p.compressed@ == gzip_of(db_bytes@)
                    &&& p.attachment@ == base64_of(gzip_of(db_bytes@))
                    &&& p.checksum@ == md5_hex_of(db_bytes@)
                    &&& p.checksum@.len() == 32
                    &&& p.original_size == db_bytes@.len()
                },
                Err(e) => e == StoreError::Storage,
            },
    {
        let checksum = md5_hex(&db_bytes);
        let compressed = match gzip_compress(&db_bytes) {
            Some(v) => v,
            None => {
                return Err(StoreError::Storage);
            },
        };
        let attachment = base64_encode(&compressed);
        let original_size = db_bytes.len() as u64;
        Ok(BackupPayload { compressed, attachment, checksum, original_size })
    }
}

} // verus!
