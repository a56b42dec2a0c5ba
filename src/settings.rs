//! The settings of the tool, read from a TOML text.
use vstd::prelude::*;

verus! {

/// The settings of one run of the tool.  Paths are kept as text.
#[derive(Debug, Clone)]
pub struct Settings {
    pub backup_folder: String,
    pub exclude_paths: Vec<String>,
    pub exclude_hidden: bool,
    pub remote_backup_dir: String,
    pub restore_path: String,
    pub compression_level: u32,
    pub max_backups: usize,
    pub tmp_path: String,
    pub ssh_host: String,
    pub ssh_port: u16,
    pub ssh_user: String,
    pub identity_file: String,
    pub encryption_key_path: String,
}

/// Errors in the settings.
#[derive(Debug, Clone, Copy, PartialEq, Eq, Structural)]
pub enum SettingsError {
    /// The text is not valid TOML, or a key is missing or holds a value that
    /// the parser cannot read as the field's type.
    Malformed,
    /// `compression_level` does not fit in 32 bits.
    CompressionLevelOutOfRange,
    /// `max_backups` is negative or too large.
    MaxBackupsOutOfRange,
    /// `port` is not a TCP port number.
    PortOutOfRange,
}

/// A key made of ASCII lowercase letters, digits, `_` and `.` only: a dotted
/// path with no subscripts.
pub open spec fn plain_key(key: Seq<char>) -> bool {
    forall|i: int|
        0 <= i < key.len() ==> ('a' <= #[trigger] key[i] <= 'z' || '0' <= key[i] <= '9' || key[i]
            == '_' || key[i] == '.')
}

/// The string at dotted key `key` of the TOML text `text`, where there is one.
pub uninterp spec fn toml_string(text: Seq<char>, key: Seq<char>) -> Option<Seq<char>>;

/// The integer at dotted key `key` of the TOML text `text`, where there is one.
pub uninterp spec fn toml_int(text: Seq<char>, key: Seq<char>) -> Option<int>;

/// The boolean at dotted key `key` of the TOML text `text`, where there is one.
pub uninterp spec fn toml_bool(text: Seq<char>, key: Seq<char>) -> Option<bool>;

/// The array of strings at dotted key `key` of the TOML text `text`, where
/// there is one.
pub uninterp spec fn toml_string_list(text: Seq<char>, key: Seq<char>) -> Option<Seq<Seq<char>>>;

/// Relies on the config crate's `Config::get_string`, on a configuration
/// built from the text alone (`File::from_str` in TOML format): the string
/// at a dotted key, or nothing where the text does not parse or the key is
/// missing or holds a table or an array (integers, floats and booleans are
/// read as their text).  With config's `preserve_order`, tables are merged
/// in document order, so the result depends on the text and key alone.
#[verifier::external_body]
fn lookup_string(text: &str, key: &str) -> (r: Option<String>)
    requires
        plain_key(key@),
    ensures
        match r {
            Some(v) => toml_string(text@, key@) == Some(v@),
            None => toml_string(text@, key@) is None,
        },
{
    let source = config::File::from_str(text, config::FileFormat::Toml);
    match config::Config::builder().add_source(source).build() {
        Ok(c) => c.get_string(key).ok(),
        Err(_) => None,
    }
}

/// Relies on the config crate's `Config::get_int`, on a configuration built
/// from the text alone: the integer at a dotted key, or nothing where the
/// text does not parse or the key is missing or cannot be read as an
/// integer.  Tables are merged in document order (`preserve_order`).
#[verifier::external_body]
fn lookup_int(text: &str, key: &str) -> (r: Option<i64>)
    requires
        plain_key(key@),
    ensures
        match r {
            Some(v) => toml_int(text@, key@) == Some(v as int),
            None => toml_int(text@, key@) is None,
        },
{
    let source = config::File::from_str(text, config::FileFormat::Toml);
    match config::Config::builder().add_source(source).build() {
        Ok(c) => c.get_int(key).ok(),
        Err(_) => None,
    }
}

/// Relies on the config crate's `Config::get_bool`, on a configuration built
/// from the text alone: the boolean at a dotted key, or nothing where the
/// text does not parse or the key is missing or cannot be read as a
/// boolean.  Tables are merged in document order (`preserve_order`).
#[verifier::external_body]
fn lookup_bool(text: &str, key: &str) -> (r: Option<bool>)
    requires
        plain_key(key@),
    ensures
        match r {
            Some(v) => toml_bool(text@, key@) == Some(v),
            None => toml_bool(text@, key@) is None,
        },
{
    let source = config::File::from_str(text, config::FileFormat::Toml);
    match config::Config::builder().add_source(source).build() {
        Ok(c) => c.get_bool(key).ok(),
        Err(_) => None,
    }
}

/// Relies on the config crate's `Config::get` at `Vec<String>`, on a
/// configuration built from the text alone: the array of strings at a
/// dotted key, or nothing where the text does not parse, the key is missing,
/// or the value is not an array whose elements can be read as strings.
/// Tables are merged in document order (`preserve_order`).
#[verifier::external_body]
fn lookup_string_list(text: &str, key: &str) -> (r: Option<Vec<String>>)
    requires
        plain_key(key@),
    ensures
        match r {
            Some(v) => toml_string_list(text@, key@) == Some(v.deep_view()),
            None => toml_string_list(text@, key@) is None,
        },
{
    let source = config::File::from_str(text, config::FileFormat::Toml);
    match config::Config::builder().add_source(source).build() {
        Ok(c) => c.get::<Vec<String>>(key).ok(),
        Err(_) => None,
    }
}

/// The error, if any, that the integer settings give: the first of them that
/// is out of its field's range.
pub open spec fn range_error(compression_level: int, max_backups: int, ssh_port: int) -> Option<SettingsError> {
    if !(0 <= compression_level <= u32::MAX) {
        Some(SettingsError::CompressionLevelOutOfRange)
    } else if !(0 <= max_backups <= usize::MAX) {
        Some(SettingsError::MaxBackupsOutOfRange)
    } else if !(0 <= ssh_port <= u16::MAX) {
        Some(SettingsError::PortOutOfRange)
    } else {
        None
    }
}

/// Builds the settings from the values read for each key.  The integers are
/// checked against the ranges of their fields; the text values are taken
/// as they are.
pub fn settings_from_values(
    backup_folder: String,
    exclude_paths: Vec<String>,
    exclude_hidden: bool,
    remote_backup_dir: String,
    restore_path: String,
    compression_level: i64,
    max_backups: i64,
    tmp_path: String,
    ssh_host: String,
    ssh_port: i64,
    ssh_user: String,
    identity_file: String,
    encryption_key_path: String,
) -> (r: Result<Settings, SettingsError>)
    ensures
        match range_error(compression_level as int, max_backups as int, ssh_port as int) {
            Some(e) => r == Err::<Settings, SettingsError>(e),
            None => r matches Ok(s) && s.compression_level == compression_level && s.max_backups
                == max_backups && s.ssh_port == ssh_port && s.backup_folder == backup_folder
                && s.exclude_paths == exclude_paths && s.exclude_hidden == exclude_hidden
                && s.remote_backup_dir == remote_backup_dir && s.restore_path == restore_path
                && s.tmp_path == tmp_path && s.ssh_host == ssh_host && s.ssh_user == ssh_user
                && s.identity_file == identity_file && s.encryption_key_path == encryption_key_path,
        },
{
    if compression_level < 0 || compression_level > u32::MAX as i64 {
        return Err(SettingsError::CompressionLevelOutOfRange);
    }
    if max_backups < 0 || max_backups as u64 > usize::MAX as u64 {
        return Err(SettingsError::MaxBackupsOutOfRange);
    }
    if ssh_port < 0 || ssh_port > u16::MAX as i64 {
        return Err(SettingsError::PortOutOfRange);
    }
    Ok(Settings {
        backup_folder,
        exclude_paths,
        exclude_hidden,
        remote_backup_dir,
        restore_path,
        compression_level: compression_level as u32,
        max_backups: max_backups as usize,
        tmp_path,
        ssh_host,
        ssh_port: ssh_port as u16,
        ssh_user,
        identity_file,
        encryption_key_path,
    })
}

/// Every key of the settings is present in `text` with a value of its type.
pub open spec fn settings_present(text: Seq<char>) -> bool {
    &&& toml_string(text, "backup.backup_folder"@) is Some
    &&& toml_string_list(text, "backup.exclude_paths"@) is Some
    &&& toml_bool(text, "backup.exclude_hidden"@) is Some
    &&& toml_string(text, "backup.remote_backup_dir"@) is Some
    &&& toml_string(text, "backup.restore_path"@) is Some
    &&& toml_int(text, "backup.compression_level"@) is Some
    &&& toml_int(text, "backup.max_backups"@) is Some
    &&& toml_string(text, "backup.tmp_path"@) is Some
    &&& toml_string(text, "ssh.host"@) is Some
    &&& toml_int(text, "ssh.port"@) is Some
    &&& toml_string(text, "ssh.user"@) is Some
    &&& toml_string(text, "ssh.identity_file"@) is Some
    &&& toml_string(text, "encryption.key_path"@) is Some
}

/// The range error, if any, of the integer settings in `text`.
pub open spec fn text_range_error(text: Seq<char>) -> Option<SettingsError> {
    range_error(
        toml_int(text, "backup.compression_level"@).unwrap(),
        toml_int(text, "backup.max_backups"@).unwrap(),
        toml_int(text, "ssh.port"@).unwrap(),
    )
}

/// Every field of `s` holds the value of its key in `text`.
pub open spec fn settings_read_from(s: Settings, text: Seq<char>) -> bool {
    &&& Some(s.backup_folder@) == toml_string(text, "backup.backup_folder"@)
    &&& Some(s.exclude_paths.deep_view()) == toml_string_list(text, "backup.exclude_paths"@)
    &&& Some(s.exclude_hidden) == toml_bool(text, "backup.exclude_hidden"@)
    &&& Some(s.remote_backup_dir@) == toml_string(text, "backup.remote_backup_dir"@)
    &&& Some(s.restore_path@) == toml_string(text, "backup.restore_path"@)
    &&& Some(s.compression_level as int) == toml_int(text, "backup.compression_level"@)
    &&& Some(s.max_backups as int) == toml_int(text, "backup.max_backups"@)
    &&& Some(s.tmp_path@) == toml_string(text, "backup.tmp_path"@)
    &&& Some(s.ssh_host@) == toml_string(text, "ssh.host"@)
    &&& Some(s.ssh_port as int) == toml_int(text, "ssh.port"@)
    &&& Some(s.ssh_user@) == toml_string(text, "ssh.user"@)
    &&& Some(s.identity_file@) == toml_string(text, "ssh.identity_file"@)
    &&& Some(s.encryption_key_path@) == toml_string(text, "encryption.key_path"@)
}

/// Reads the settings from the TOML text of a settings file: keys
/// `backup.backup_folder`, `backup.exclude_paths`, `backup.exclude_hidden`,
/// `backup.remote_backup_dir`, `backup.restore_path`,
/// `backup.compression_level`, `backup.max_backups`, `backup.tmp_path`,
/// `ssh.host`, `ssh.port`, `ssh.user`, `ssh.identity_file` and
/// `encryption.key_path`.  Text that does not parse, or a key that is missing
/// or holds a value the parser cannot read as its field's type (such as an
/// `exclude_paths` element that is a table or an array; scalars are read as
/// text where text is expected), gives `Malformed`; an integer out of its field's
/// range gives the matching error; otherwise every field holds its key's
/// value.
pub fn load_config(text: &str) -> (r: Result<Settings, SettingsError>)
    ensures
        !settings_present(text@) ==> r == Err::<Settings, SettingsError>(SettingsError::Malformed),
        settings_present(text@) ==> match text_range_error(text@) {
            Some(e) => r == Err::<Settings, SettingsError>(e),
            None => r matches Ok(s) && settings_read_from(s, text@),
        },
{
    proof {
        reveal_strlit("backup.backup_folder");
        reveal_strlit("backup.exclude_paths");
        reveal_strlit("backup.exclude_hidden");
        reveal_strlit("backup.remote_backup_dir");
        reveal_strlit("backup.restore_path");
        reveal_strlit("backup.compression_level");
        reveal_strlit("backup.max_backups");
        reveal_strlit("backup.tmp_path");
        reveal_strlit("ssh.host");
        reveal_strlit("ssh.port");
        reveal_strlit("ssh.user");
        reveal_strlit("ssh.identity_file");
        reveal_strlit("encryption.key_path");
        assert(plain_key("backup.backup_folder"@));
        assert(plain_key("backup.exclude_paths"@));
        assert(plain_key("backup.exclude_hidden"@));
        assert(plain_key("backup.remote_backup_dir"@));
        assert(plain_key("backup.restore_path"@));
        assert(plain_key("backup.compression_level"@));
        assert(plain_key("backup.max_backups"@));
        assert(plain_key("backup.tmp_path"@));
        assert(plain_key("ssh.host"@));
        assert(plain_key("ssh.port"@));
        assert(plain_key("ssh.user"@));
        assert(plain_key("ssh.identity_file"@));
        assert(plain_key("encryption.key_path"@));
    }
    let backup_folder = match lookup_string(text, "backup.backup_folder") {
        Some(v) => v,
        None => return Err(SettingsError::Malformed),
    };
    let exclude_paths = match lookup_string_list(text, "backup.exclude_paths") {
        Some(v) => v,
        None => return Err(SettingsError::Malformed),
    };
    let exclude_hidden = match lookup_bool(text, "backup.exclude_hidden") {
        Some(v) => v,
        None => return Err(SettingsError::Malformed),
    };
    let remote_backup_dir = match lookup_string(text, "backup.remote_backup_dir") {
        Some(v) => v,
        None => return Err(SettingsError::Malformed),
    };
    let restore_path = match lookup_string(text, "backup.restore_path") {
        Some(v) => v,
        None => return Err(SettingsError::Malformed),
    };
    let compression_level = match lookup_int(text, "backup.compression_level") {
        Some(v) => v,
        None => return Err(SettingsError::Malformed),
    };
    let max_backups = match lookup_int(text, "backup.max_backups") {
        Some(v) => v,
        None => return Err(SettingsError::Malformed),
    };
    let tmp_path = match lookup_string(text, "backup.tmp_path") {
        Some(v) => v,
        None => return Err(SettingsError::Malformed),
    };
    let ssh_host = match lookup_string(text, "ssh.host") {
        Some(v) => v,
        None => return Err(SettingsError::Malformed),
    };
    let ssh_port = match lookup_int(text, "ssh.port") {
        Some(v) => v,
        None => return Err(SettingsError::Malformed),
    };
    let ssh_user = match lookup_string(text, "ssh.user") {
        Some(v) => v,
        None => return Err(SettingsError::Malformed),
    };
    let identity_file = match lookup_string(text, "ssh.identity_file") {
        Some(v) => v,
        None => return Err(SettingsError::Malformed),
    };
    let encryption_key_path = match lookup_string(text, "encryption.key_path") {
        Some(v) => v,
        None => return Err(SettingsError::Malformed),
    };
    settings_from_values(
        backup_folder,
        exclude_paths,
        exclude_hidden,
        remote_backup_dir,
        restore_path,
        compression_level,
        max_backups,
        tmp_path,
        ssh_host,
        ssh_port,
        ssh_user,
        identity_file,
        encryption_key_path,
    )
}

} // verus!
