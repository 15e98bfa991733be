//! What a backup of the database is to do, decided before anything is done:
//! the name of the backup's file, the query that writes it, and whether the
//! file is compressed and sent to a store.

use vstd::prelude::*;

verus! {

/// A store that keeps backups.
#[derive(Clone, Copy, Debug, PartialEq, Eq, Structural)]
pub enum JsonDataStore {
    AwsS3,
}

/// What is asked of a backup.
#[derive(Clone, Copy, Debug, PartialEq, Eq)]
pub struct JsonBackup {
    /// Whether the backup's file is compressed; it is not where nothing is
    /// said.
    pub compress: Option<bool>,
    /// The store that the backup is sent to, where it is sent to one.
    pub data_store: Option<JsonDataStore>,
}

/// Why a backup was not made.
#[derive(Clone, Copy, Debug, PartialEq, Eq)]
pub enum ApiError {
    /// The user, given by its number, is no administrator.
    Admin(i32),
    /// The moment, in seconds since 1970, is out of the calendar's range.
    Timestamp(i64),
}

/// What a backup is to do.
#[derive(Clone, Debug, PartialEq, Eq)]
pub struct BackupPlan {
    /// The name of the file that the database is written to.
    pub backup_file_name: String,
    /// The name of the compressed file, where the backup is compressed.
    pub compress_file_name: Option<String>,
    /// The key under which the last file made is sent to the store, where
    /// it is sent to one.
    pub upload_key: Option<String>,
}

/// The text given, or `otherwise` where none is.
pub open spec fn text_or(given: Option<&str>, otherwise: Seq<char>) -> Seq<char> {
    match given {
        Some(text) => text@,
        None => otherwise,
    }
}

/// The name of a backup's file: `backup-`, the stem of the database's file
/// name or `bencher`, a hyphen, the moment, a point, and the extension of
/// the database's file name or `db`.
pub open spec fn backup_name(
    file_stem: Option<&str>,
    file_extension: Option<&str>,
    timestamp: Seq<char>,
) -> Seq<char> {
    "backup-"@ + text_or(file_stem, "bencher"@) + "-"@ + timestamp + "."@ + text_or(
        file_extension,
        "db"@,
    )
}

/// The name of the compressed file of a backup: that of its file, and `.gz`.
pub open spec fn compress_name(backup_file_name: Seq<char>) -> Seq<char> {
    backup_file_name + ".gz"@
}

/// The name of the last file that a backup makes.
pub open spec fn last_file_name(backup_file_name: Seq<char>, compress: Option<bool>) -> Seq<char> {
    if compress == Some(true) {
        compress_name(backup_file_name)
    } else {
        backup_file_name
    }
}

/// Whether `compressed` names the compressed file of a backup as asked: the
/// backup's file name and `.gz` where compression is asked for, and nothing
/// where it is not.
pub open spec fn is_compress_name(
    compressed: Option<String>,
    backup_file_name: Seq<char>,
    compress: Option<bool>,
) -> bool {
    match compressed {
        Some(name) => compress == Some(true) && name@ == compress_name(backup_file_name),
        None => compress != Some(true),
    }
}

/// Whether `key` is the key of a backup as asked: `backup/` and the name of
/// the last file made where a store is asked for, and nothing where none is.
pub open spec fn is_upload_key(
    key: Option<String>,
    backup_file_name: Seq<char>,
    json_backup: JsonBackup,
) -> bool {
    match key {
        Some(key) => json_backup.data_store == Some(JsonDataStore::AwsS3) && key@ == "backup/"@
            + last_file_name(backup_file_name, json_backup.compress),
        None => json_backup.data_store is None,
    }
}

/// Whether `plan` is what is asked of a backup of a database at a moment.
pub open spec fn is_plan(
    plan: BackupPlan,
    file_stem: Option<&str>,
    file_extension: Option<&str>,
    timestamp: Seq<char>,
    json_backup: JsonBackup,
) -> bool {
    let name = backup_name(file_stem, file_extension, timestamp);
    &&& plan.backup_file_name@ == name
    &&& is_compress_name(plan.compress_file_name, name, json_backup.compress)
    &&& is_upload_key(plan.upload_key, name, json_backup)
}

/// The layout in which the moment of a backup is written into the name of
/// its file: year, month, day, hour, minute and second, with hyphens
/// between them.
pub const BACKUP_LAYOUT: &'static str = "%Y-%m-%d-%H-%M-%S";

/// The moment `seconds` after the beginning of 1970, in universal time, as
/// the calendar writes it in the given layout. Nothing for a moment out of
/// the calendar's range.
pub uninterp spec fn timestamp_text(seconds: int, layout: Seq<char>) -> Option<Seq<char>>;

/// `chrono::DateTime::from_timestamp` gives the moment in universal time
/// that lies `seconds` after the beginning of 1970, or nothing where that
/// is out of range, and `chrono::DateTime::format` writes it in the layout.
/// What is written depends on the seconds and the layout alone. The layout
/// is that of backups, every item of which a moment can be written in.
#[verifier::external_body]
fn format_timestamp(seconds: i64, layout: &str) -> (text: Option<String>)
    requires
        layout@ == BACKUP_LAYOUT@,
    ensures
        match (text, timestamp_text(seconds as int, layout@)) {
            (Some(written), Some(wanted)) => written@ == wanted,
            (None, None) => true,
            _ => false,
        },
{
    match chrono::DateTime::from_timestamp(seconds, 0) {
        Some(moment) => Some(moment.format(layout).to_string()),
        None => None,
    }
}

/// The query that writes the database to the file at `backup_file_path`.
pub fn vacuum_query(backup_file_path: &str) -> (query: String)
    ensures
        query@ == "VACUUM INTO '"@ + backup_file_path@ + "'"@,
{
    let mut query = "VACUUM INTO '".to_owned();
    query.append(backup_file_path);
    query.append("'");
    query
}

/// The name of a backup's file.
fn backup_file_name(
    file_stem: Option<&str>,
    file_extension: Option<&str>,
    timestamp: &str,
) -> (name: String)
    ensures
        name@ == backup_name(file_stem, file_extension, timestamp@),
{
    let mut name = "backup-".to_owned();
    name.append(
        match file_stem {
            Some(stem) => stem,
            None => "bencher",
        },
    );
    name.append("-");
    name.append(timestamp);
    name.append(".");
    name.append(
        match file_extension {
            Some(extension) => extension,
            None => "db",
        },
    );
    assert(name@ =~= backup_name(file_stem, file_extension, timestamp@));
    name
}

/// The name of the compressed file of a backup, where compression is asked
/// for.
fn compress_file_name(backup_file_name: &str, compress: Option<bool>) -> (compressed: Option<
    String,
>)
    ensures
        is_compress_name(compressed, backup_file_name@, compress),
{
    match compress {
        Some(true) => {
            let mut name = backup_file_name.to_owned();
            name.append(".gz");
            Some(name)
        },
        _ => None,
    }
}

/// The key under which the last file of a backup is sent to the store,
/// where a store is asked for.
fn upload_key(last_file_name: &str, data_store: Option<JsonDataStore>) -> (key: Option<String>)
    ensures
        match key {
            Some(key) => data_store == Some(JsonDataStore::AwsS3) && key@ == "backup/"@
                + last_file_name@,
            None => data_store is None,
        },
{
    match data_store {
        Some(JsonDataStore::AwsS3) => {
            let mut key = "backup/".to_owned();
            key.append(last_file_name);
            Some(key)
        },
        None => None,
    }
}

/// What a backup is to do, for a user who asks for it at the moment that
/// `timestamp` writes: `Admin` for a user who is no administrator, and else
/// the plan.
pub fn plan_backup_at(
    is_admin: bool,
    user_id: i32,
    file_stem: Option<&str>,
    file_extension: Option<&str>,
    timestamp: &str,
    json_backup: JsonBackup,
) -> (r: Result<BackupPlan, ApiError>)
    ensures
        match r {
            Ok(plan) => is_admin && is_plan(
                plan,
                file_stem,
                file_extension,
                timestamp@,
                json_backup,
            ),
            Err(error) => !is_admin && error == ApiError::Admin(user_id),
        },
{
    if !is_admin {
        return Err(ApiError::Admin(user_id));
    }
    let backup_file_name = backup_file_name(file_stem, file_extension, timestamp);
    let compress_file_name = compress_file_name(backup_file_name.as_str(), json_backup.compress);
    let upload_key = match &compress_file_name {
        Some(compressed) => upload_key(compressed.as_str(), json_backup.data_store),
        None => upload_key(backup_file_name.as_str(), json_backup.data_store),
    };
    Ok(BackupPlan { backup_file_name, compress_file_name, upload_key })
}

/// What a backup is to do, for a user who asks for it `seconds` after the
/// beginning of 1970: `Admin` for a user who is no administrator,
/// `Timestamp` for a moment out of the calendar's range, and else the plan
/// for that moment as the calendar writes it.
pub fn plan_backup(
    is_admin: bool,
    user_id: i32,
    file_stem: Option<&str>,
    file_extension: Option<&str>,
    seconds: i64,
    json_backup: JsonBackup,
) -> (r: Result<BackupPlan, ApiError>)
    ensures
        match r {
            Ok(plan) => is_admin && (timestamp_text(seconds as int, BACKUP_LAYOUT@) matches Some(
                timestamp,
            ) && is_plan(plan, file_stem, file_extension, timestamp, json_backup)),
            Err(error) => if !is_admin {
                error == ApiError::Admin(user_id)
            } else {
                timestamp_text(seconds as int, BACKUP_LAYOUT@) is None && error
                    == ApiError::Timestamp(seconds)
            },
        },
{
    if !is_admin {
        return Err(ApiError::Admin(user_id));
    }
    match format_timestamp(seconds, BACKUP_LAYOUT) {
        Some(timestamp) => plan_backup_at(
            is_admin,
            user_id,
            file_stem,
            file_extension,
            timestamp.as_str(),
            json_backup,
        ),
        None => Err(ApiError::Timestamp(seconds)),
    }
}

} // verus!
