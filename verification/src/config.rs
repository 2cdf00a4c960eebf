//! Configuration file handling.
//!
//! Config lives at `~/.config/tor-js-gateway/config.json5`.
//! Data lives at `~/.local/share/tor-js-gateway/`.

use vstd::prelude::*;
use vstd::utf8::{decode_utf8, encode_utf8, valid_utf8};

use crate::json::{escaped, json_string, json_string_text, json_text_member, one_member};
use crate::path::{joined_text, lemma_plain_name, lossy_text, FilePath};
use crate::text::{
    all_digits, bool_chars, bool_text, decimal, decimal_text, decimal_value, join_strings,
    join_text, law_decimal_reads_back, string_views, utf8_text,
};
use crate::time::{Duration, NANOS_PER_SEC};
use crate::ws_proxy::{default_limits, WsLimits};

verus! {

/// The name of the directories of this program.
pub const APP_NAME: &'static str = "tor-js-gateway";

/// The directory for configuration, asked of `dirs::config_dir`. It depends on the environment
/// of the process: nothing is stated of it.
#[verifier::external_body]
pub(crate) fn user_config_dir() -> (r: Option<FilePath>) {
    dirs::config_dir().map(|p| FilePath { bytes: p.into_os_string().into_encoded_bytes() })
}

/// The directory for data, asked of `dirs::data_local_dir`. It depends on the environment of the
/// process: nothing is stated of it.
#[verifier::external_body]
fn user_data_dir() -> (r: Option<FilePath>) {
    dirs::data_local_dir().map(|p| FilePath { bytes: p.into_os_string().into_encoded_bytes() })
}

/// A directory, or the one that stands in for it.
pub open spec fn dir_or(dir: Option<FilePath>, otherwise: Seq<char>) -> Seq<u8> {
    match dir {
        Some(d) => d@,
        None => encode_utf8(otherwise),
    }
}

/// The configuration file, where the user's configuration is in `dir`.
pub open spec fn config_file(dir: Option<FilePath>) -> Seq<u8> {
    joined_text(joined_text(dir_or(dir, "~/.config"@), APP_NAME@), "config.json5"@)
}

/// The data directory, where the user's data is in `dir`.
pub open spec fn data_directory(dir: Option<FilePath>) -> Seq<u8> {
    joined_text(dir_or(dir, "~/.local/share"@), APP_NAME@)
}

/// A directory, or the one that stands in for it.
pub fn dir_or_default(dir: Option<FilePath>, otherwise: &str) -> (r: FilePath)
    ensures
        r@ == dir_or(dir, otherwise@),
{
    match dir {
        Some(d) => d,
        None => FilePath::from_text(otherwise),
    }
}

/// The configuration file, where the user's configuration is in `dir`.
pub fn config_path_in(dir: Option<FilePath>) -> (r: FilePath)
    ensures
        r@ == config_file(dir),
{
    dir_or_default(dir, "~/.config").join(APP_NAME).join("config.json5")
}

/// The data directory, where the user's data is in `dir`.
pub fn data_dir_in(dir: Option<FilePath>) -> (r: FilePath)
    ensures
        r@ == data_directory(dir),
{
    dir_or_default(dir, "~/.local/share").join(APP_NAME)
}

/// The path of the configuration file.
pub fn config_path() -> (r: FilePath)
    ensures
        exists|dir: Option<FilePath>| r@ == #[trigger] config_file(dir),
{
    config_path_in(user_config_dir())
}

/// The path of the data directory that is used where the configuration names no other.
pub fn default_data_dir() -> (r: FilePath)
    ensures
        exists|dir: Option<FilePath>| r@ == #[trigger] data_directory(dir),
{
    data_dir_in(user_data_dir())
}

/// The settings of the gateway.
#[derive(Debug)]
pub struct Config {
    /// Directory for cached consensus data and bootstrap archives
    pub data_dir: FilePath,
    /// HTTP server port (0 to disable)
    pub port: u16,
    /// Serve uncompressed /bootstrap.zip
    pub allow_uncompressed: bool,
    /// Max concurrent WebSocket relay connections
    pub ws_max_connections: usize,
    /// Max WebSocket relay connections per client IP
    pub ws_per_ip_limit: usize,
    /// WebSocket relay idle timeout in seconds
    pub ws_idle_timeout: u64,
    /// WebSocket relay max connection lifetime in seconds
    pub ws_max_lifetime: u64,
}

/// The settings that hold where nothing else is configured, with data kept in `data_dir`.
pub open spec fn default_settings(c: Config, data_dir: Seq<u8>) -> bool {
    &&& c.data_dir@ == data_dir
    &&& c.port == 42298
    &&& !c.allow_uncompressed
    &&& c.ws_max_connections == 8192
    &&& c.ws_per_ip_limit == 16
    &&& c.ws_idle_timeout == 300
    &&& c.ws_max_lifetime == 3600
}

/// The settings as they are written: for each a comment, its key, and its value in JSON.
pub open spec fn settings_of(c: Config) -> Seq<(Seq<char>, Seq<char>, Seq<char>)> {
    seq![
        (
            "Directory for cached consensus data and bootstrap archives"@,
            "data_dir"@,
            json_string_text(decode_utf8(c.data_dir@)),
        ),
        ("HTTP server port (0 to disable)"@, "port"@, decimal(c.port as nat)),
        (
            "Serve uncompressed /bootstrap.zip (production should use /bootstrap.zip.br)"@,
            "allow_uncompressed"@,
            bool_chars(c.allow_uncompressed),
        ),
        (
            "Max concurrent WebSocket relay connections"@,
            "ws_max_connections"@,
            decimal(c.ws_max_connections as nat),
        ),
        (
            "Max WebSocket relay connections per client IP"@,
            "ws_per_ip_limit"@,
            decimal(c.ws_per_ip_limit as nat),
        ),
        (
            "WebSocket relay idle timeout in seconds"@,
            "ws_idle_timeout"@,
            decimal(c.ws_idle_timeout as nat),
        ),
        (
            "WebSocket relay max connection lifetime in seconds"@,
            "ws_max_lifetime"@,
            decimal(c.ws_max_lifetime as nat),
        ),
    ]
}

/// A setting as it is written: a line with the comment, and a line with the key and the value.
pub open spec fn setting_text(setting: (Seq<char>, Seq<char>, Seq<char>)) -> Seq<char> {
    "\n  // "@ + setting.0 + "\n  \""@ + setting.1 + "\": "@ + setting.2 + ","@
}

/// The settings, each as it is written.
pub open spec fn setting_texts(c: Config) -> Seq<Seq<char>> {
    settings_of(c).map_values(|s: (Seq<char>, Seq<char>, Seq<char>)| setting_text(s))
}

/// The settings as a commented JSON5 document: an object with a member for each of them.
pub open spec fn json5_text(c: Config) -> Seq<char> {
    "{"@ + join_text(setting_texts(c), "\n"@) + "\n}"@
}

/// Writes a setting.
fn write_setting(comment: &str, key: &str, value: &str) -> (r: String)
    ensures
        r@ == setting_text((comment@, key@, value@)),
{
    let mut r = "\n  // ".to_string();
    r.append(comment);
    r.append("\n  \"");
    r.append(key);
    r.append("\": ");
    r.append(value);
    r.append(",");
    r
}

/// Whether a reader of the member that is written for the data directory finds the directory.
pub open spec fn data_dir_reads_back(c: Config) -> bool {
    let (_, key, value) = settings_of(c)[0];
    json_text_member(one_member(key, value), key) == Some(decode_utf8(c.data_dir@))
}

/// Every setting is in the written document once, under its own key, and each number and flag in
/// it reads back as the setting. That the data directory does is [`data_dir_reads_back`].
pub proof fn law_written_settings_read_back(c: Config)
    ensures
        ({
            let s = settings_of(c);
            &&& s.map_values(|x: (Seq<char>, Seq<char>, Seq<char>)| x.1) == seq![
                "data_dir"@,
                "port"@,
                "allow_uncompressed"@,
                "ws_max_connections"@,
                "ws_per_ip_limit"@,
                "ws_idle_timeout"@,
                "ws_max_lifetime"@,
            ]
            &&& all_digits(s[1].2) && decimal_value(s[1].2) == c.port
            &&& s[2].2 == (if c.allow_uncompressed {
                "true"@
            } else {
                "false"@
            })
            &&& all_digits(s[3].2) && decimal_value(s[3].2) == c.ws_max_connections
            &&& all_digits(s[4].2) && decimal_value(s[4].2) == c.ws_per_ip_limit
            &&& all_digits(s[5].2) && decimal_value(s[5].2) == c.ws_idle_timeout
            &&& all_digits(s[6].2) && decimal_value(s[6].2) == c.ws_max_lifetime
        }),
{
    law_decimal_reads_back(c.port as nat);
    law_decimal_reads_back(c.ws_max_connections as nat);
    law_decimal_reads_back(c.ws_per_ip_limit as nat);
    law_decimal_reads_back(c.ws_idle_timeout as nat);
    law_decimal_reads_back(c.ws_max_lifetime as nat);
    let s = settings_of(c);
    assert(s.map_values(|x: (Seq<char>, Seq<char>, Seq<char>)| x.1) =~= seq![
        "data_dir"@,
        "port"@,
        "allow_uncompressed"@,
        "ws_max_connections"@,
        "ws_per_ip_limit"@,
        "ws_idle_timeout"@,
        "ws_max_lifetime"@,
    ]);
}

/// Why the configuration could not be had.
pub open spec fn load_failure(path: Seq<u8>, loaded: Loaded) -> Seq<char> {
    match loaded {
        Loaded::Unreadable => "reading config at "@ + lossy_text(path)
            + "\n\nRun `tor-js-gateway init` to create a default config."@,
        _ => "parsing "@ + lossy_text(path),
    }
}

/// What came of reading the configuration file.
pub enum Loaded {
    /// The file could not be read.
    Unreadable,
    /// The file is not JSON5, or does not have the members of the settings and no others.
    Malformed,
    /// These settings.
    Settings(Config),
}

/// What there is to do to create the configuration file.
pub struct InitPlan {
    /// The directory to create first, with those above it.
    pub create_dir: Option<FilePath>,
    /// The text to write to the file.
    pub content: String,
    /// What to tell the user at the end.
    pub done: String,
}

/// Why there is no configuration file to create.
pub enum InitError {
    /// There is one already; the message for the user.
    Exists(String),
    /// The data directory has no name in UTF-8.
    DataDirNotText,
}

impl InitPlan {
    /// The plan that writes the settings `c` to `path`, with `parent` the directory above it.
    pub open spec fn writes(self, path: Seq<u8>, parent: Option<FilePath>, c: Config) -> bool {
        &&& self.create_dir == parent
        &&& self.content@ == json5_text(c)
        &&& self.done@ == "Created config at "@ + lossy_text(path)
    }
}

/// A message about a path: words before it and words after it.
pub fn path_message(before: &str, path: &FilePath, after: &str) -> (r: String)
    ensures
        r@ == before@ + lossy_text(path@) + after@,
{
    let mut r = before.to_string();
    r.append(path.display().as_str());
    r.append(after);
    r
}

impl Default for Config {
    fn default() -> (r: Self)
        ensures
            exists|dir: Option<FilePath>| default_settings(r, #[trigger] data_directory(dir)),
    {
        Config::with_data_dir(default_data_dir())
    }
}

impl Config {
    /// The default settings, with data kept in `data_dir`.
    pub fn with_data_dir(data_dir: FilePath) -> (r: Config)
        ensures
            default_settings(r, data_dir@),
            r.data_dir == data_dir,
    {
        Config {
            data_dir,
            port: 42298,
            allow_uncompressed: false,
            ws_max_connections: 8192,
            ws_per_ip_limit: 16,
            ws_idle_timeout: 300,
            ws_max_lifetime: 3600,
        }
    }

    /// Serialize to pretty JSON5 with comments; `None` where the data directory is not UTF-8.
    pub fn to_json5(&self) -> (r: Option<String>)
        ensures
            r is Some <==> valid_utf8(self.data_dir@),
            r matches Some(text) ==> text@ == json5_text(*self) && data_dir_reads_back(*self),
    {
        let dir = match utf8_text(self.data_dir.bytes.as_slice()) {
            Some(dir) => dir,
            None => {
                return None;
            },
        };
        let written = json_string(dir);
        proof {
            reveal_strlit("data_dir");
            assert(forall|i: int|
                0 <= i < "data_dir"@.len() ==> !escaped(#[trigger] "data_dir"@[i]));
            assert(json_text_member(one_member("data_dir"@, written@), "data_dir"@) == Some(dir@));
        }
        let mut parts: Vec<String> = Vec::new();
        parts.push(
            write_setting(
                "Directory for cached consensus data and bootstrap archives",
                "data_dir",
                written.as_str(),
            ),
        );
        parts.push(
            write_setting(
                "HTTP server port (0 to disable)",
                "port",
                decimal_text(self.port as u64).as_str(),
            ),
        );
        parts.push(
            write_setting(
                "Serve uncompressed /bootstrap.zip (production should use /bootstrap.zip.br)",
                "allow_uncompressed",
                bool_text(self.allow_uncompressed),
            ),
        );
        parts.push(
            write_setting(
                "Max concurrent WebSocket relay connections",
                "ws_max_connections",
                decimal_text(self.ws_max_connections as u64).as_str(),
            ),
        );
        parts.push(
            write_setting(
                "Max WebSocket relay connections per client IP",
                "ws_per_ip_limit",
                decimal_text(self.ws_per_ip_limit as u64).as_str(),
            ),
        );
        parts.push(
            write_setting(
                "WebSocket relay idle timeout in seconds",
                "ws_idle_timeout",
                decimal_text(self.ws_idle_timeout).as_str(),
            ),
        );
        parts.push(
            write_setting(
                "WebSocket relay max connection lifetime in seconds",
                "ws_max_lifetime",
                decimal_text(self.ws_max_lifetime).as_str(),
            ),
        );
        let mut r = "{".to_string();
        r.append(join_strings(&parts, "\n").as_str());
        r.append("\n}");
        assert(string_views(parts@) =~= setting_texts(*self));
        Some(r)
    }

    /// The default settings as pretty JSON5 with comments; `None` where the data directory is not
    /// UTF-8.
    pub fn to_json5_with_comments() -> (r: Option<String>)
        ensures
            exists|c: Config, dir: Option<FilePath>|
                default_settings(c, #[trigger] data_directory(dir)) && (r is Some <==> valid_utf8(
                    c.data_dir@,
                )) && (r matches Some(text) ==> text@ == #[trigger] json5_text(c)
                    && data_dir_reads_back(c)),
    {
        let c: Config = Default::default();
        let ghost dir = choose|dir: Option<FilePath>|
            default_settings(c, #[trigger] data_directory(dir));
        let r = c.to_json5();
        assert(default_settings(c, data_directory(dir)) && json5_text(c) == json5_text(c));
        r
    }

    /// Load config from the given path: the settings, or a message that says what failed.
    pub fn load(path: &FilePath, loaded: Loaded) -> (r: Result<Config, String>)
        ensures
            match (r, loaded) {
                (Ok(c), Loaded::Settings(d)) => c == d,
                (Err(m), Loaded::Settings(_)) => false,
                (Err(m), _) => m@ == load_failure(path@, loaded),
                _ => false,
            },
    {
        match loaded {
            Loaded::Settings(c) => Ok(c),
            Loaded::Unreadable => Err(
                path_message(
                    "reading config at ",
                    path,
                    "\n\nRun `tor-js-gateway init` to create a default config.",
                ),
            ),
            Loaded::Malformed => {
                let m = path_message("parsing ", path, "");
                proof {
                    reveal_strlit("");
                    assert(m@ =~= "parsing "@ + lossy_text(path@));
                }
                Err(m)
            },
        }
    }

    /// Plans the creation of a config file with these settings. Errors if it already exists.
    pub fn init_with(&self, path: &FilePath, exists: bool, parent: Option<FilePath>) -> (r: Result<
        InitPlan,
        InitError,
    >)
        ensures
            match r {
                Ok(plan) => !exists && valid_utf8(self.data_dir@) && plan.writes(
                    path@,
                    parent,
                    *self,
                ),
                Err(InitError::Exists(m)) => exists && m@ == "config already exists at "@
                    + lossy_text(path@),
                Err(InitError::DataDirNotText) => !exists && !valid_utf8(self.data_dir@),
            },
    {
        proof {
            reveal_strlit("");
        }
        if exists {
            let m = path_message("config already exists at ", path, "");
            assert(m@ =~= "config already exists at "@ + lossy_text(path@));
            return Err(InitError::Exists(m));
        }
        match self.to_json5() {
            None => Err(InitError::DataDirNotText),
            Some(content) => {
                let done = path_message("Created config at ", path, "");
                assert(done@ =~= "Created config at "@ + lossy_text(path@));
                Ok(InitPlan { create_dir: parent, content, done })
            },
        }
    }

    /// Plans the creation of the default config file. Errors if it already exists.
    pub fn init(path: &FilePath, exists: bool, parent: Option<FilePath>) -> (r: Result<
        InitPlan,
        InitError,
    >)
        ensures
            exists|c: Config, dir: Option<FilePath>|
                #![trigger json5_text(c), data_directory(dir)]
                default_settings(c, data_directory(dir)) && match r {
                    Ok(plan) => !exists && valid_utf8(c.data_dir@) && plan.writes(path@, parent, c),
                    Err(InitError::Exists(m)) => exists && m@ == "config already exists at "@
                        + lossy_text(path@),
                    Err(InitError::DataDirNotText) => !exists && !valid_utf8(c.data_dir@),
                },
    {
        let c: Config = Default::default();
        let ghost dir = choose|dir: Option<FilePath>|
            default_settings(c, #[trigger] data_directory(dir));
        let r = c.init_with(path, exists, parent);
        assert(default_settings(c, data_directory(dir)) && json5_text(c) == json5_text(c));
        r
    }

    /// The limits on relayed connections that the settings ask for.
    pub fn ws_limits(&self) -> (r: WsLimits)
        ensures
            r == config_limits(*self),
            r.max_connections == self.ws_max_connections,
            r.per_ip_limit == self.ws_per_ip_limit,
            r.idle_timeout.nanos == self.ws_idle_timeout * NANOS_PER_SEC,
            r.max_lifetime.nanos == self.ws_max_lifetime * NANOS_PER_SEC,
    {
        WsLimits {
            max_connections: self.ws_max_connections,
            per_ip_limit: self.ws_per_ip_limit,
            idle_timeout: Duration::from_secs(self.ws_idle_timeout),
            max_lifetime: Duration::from_secs(self.ws_max_lifetime),
        }
    }
}

/// The limits on relayed connections that settings ask for.
pub open spec fn config_limits(c: Config) -> WsLimits {
    WsLimits {
        max_connections: c.ws_max_connections,
        per_ip_limit: c.ws_per_ip_limit,
        idle_timeout: Duration { nanos: (c.ws_idle_timeout * NANOS_PER_SEC) as u128 },
        max_lifetime: Duration { nanos: (c.ws_max_lifetime * NANOS_PER_SEC) as u128 },
    }
}

/// The default settings ask for the default limits.
pub proof fn law_default_limits(c: Config, data_dir: Seq<u8>)
    requires
        default_settings(c, data_dir),
    ensures
        config_limits(c) == default_limits(),
{
}

/// The limits on relayed connections are those that the settings name, each as it is named; the
/// times are in seconds.
pub proof fn law_limits_are_the_configured_ones(c: Config)
    ensures
        config_limits(c).max_connections == c.ws_max_connections,
        config_limits(c).per_ip_limit == c.ws_per_ip_limit,
        config_limits(c).idle_timeout.nanos == c.ws_idle_timeout * 1_000_000_000,
        config_limits(c).max_lifetime.nanos == c.ws_max_lifetime * 1_000_000_000,
{
}

/// The configuration is in a directory of its own in that of the user's configuration, and the
/// data in one in that of the user's data; where the system names none, in those that are usual
/// in a home directory.
pub proof fn law_places(d: FilePath)
    requires
        d@.len() > 0,
        d@.last() != 47,
    ensures
        config_file(Some(d)) == d@ + seq![47u8] + encode_utf8("tor-js-gateway"@) + seq![47u8]
            + encode_utf8("config.json5"@),
        data_directory(Some(d)) == d@ + seq![47u8] + encode_utf8("tor-js-gateway"@),
        d@ == encode_utf8("~/.config"@) ==> config_file(None) == config_file(Some(d)),
        d@ == encode_utf8("~/.local/share"@) ==> data_directory(None) == data_directory(Some(d)),
{
    reveal_strlit("tor-js-gateway");
    reveal_strlit("config.json5");
    lemma_plain_name(d@, "tor-js-gateway"@);
    lemma_plain_name(joined_text(d@, "tor-js-gateway"@), "config.json5"@);
}

/// The written document is an object with all the settings, in order: each on a line with its key
/// and its value, after a line with its comment.
pub proof fn law_written_document(c: Config)
    ensures
        ({
            let s = settings_of(c);
            let line = |i: int|
                "\n  // "@ + s[i].0 + "\n  \""@ + s[i].1 + "\": "@ + s[i].2 + ","@;
            &&& s.len() == 7
            &&& json5_text(c) == "{"@ + (line(0) + "\n"@ + line(1) + "\n"@ + line(2) + "\n"@ + line(
                3,
            ) + "\n"@ + line(4) + "\n"@ + line(5) + "\n"@ + line(6)) + "\n}"@
        }),
{
    let t = setting_texts(c);
    let s = settings_of(c);
    let sep = "\n"@;
    assert(t.len() == 7);
    assert(forall|i: int| 0 <= i < 7 ==> #[trigger] t[i] == setting_text(s[i]));
    let t6 = t.drop_last();
    let t5 = t6.drop_last();
    let t4 = t5.drop_last();
    let t3 = t4.drop_last();
    let t2 = t3.drop_last();
    let t1 = t2.drop_last();
    assert(t1.len() == 1 && t1[0] == t[0]);
    assert(join_text(t1, sep) == t[0]);
    assert(t2.last() == t[1] && t3.last() == t[2] && t4.last() == t[3]);
    assert(t5.last() == t[4] && t6.last() == t[5] && t.last() == t[6]);
    assert(join_text(t2, sep) == t[0] + sep + t[1]);
    assert(join_text(t3, sep) == join_text(t2, sep) + sep + t[2]);
    assert(join_text(t4, sep) == join_text(t3, sep) + sep + t[3]);
    assert(join_text(t5, sep) == join_text(t4, sep) + sep + t[4]);
    assert(join_text(t6, sep) == join_text(t5, sep) + sep + t[5]);
    assert(join_text(t, sep) == join_text(t6, sep) + sep + t[6]);
}

/// A configuration that cannot be had is told by its path, and by what failed.
pub proof fn law_load_failures(path: Seq<u8>)
    ensures
        load_failure(path, Loaded::Unreadable) == "reading config at "@ + lossy_text(path)
            + "\n\nRun `tor-js-gateway init` to create a default config."@,
        load_failure(path, Loaded::Malformed) == "parsing "@ + lossy_text(path),
{
}

/// The settings that hold where nothing else is configured.
pub proof fn law_default_settings(c: Config, data_dir: Seq<u8>)
    requires
        default_settings(c, data_dir),
    ensures
        c.data_dir@ == data_dir,
        c.port == 42298,
        !c.allow_uncompressed,
        c.ws_max_connections == 8192,
        c.ws_per_ip_limit == 16,
        c.ws_idle_timeout == 300,
        c.ws_max_lifetime == 3600,
{
}

/// What is planned for a configuration file: the directory above it is created, the document with
/// the settings is written, and the user is told the path.
pub proof fn law_init_plan(plan: InitPlan, path: Seq<u8>, parent: Option<FilePath>, c: Config)
    requires
        plan.writes(path, parent, c),
    ensures
        plan.create_dir == parent,
        plan.content@ == json5_text(c),
        plan.done@ == "Created config at "@ + lossy_text(path),
{
}

} // verus!
