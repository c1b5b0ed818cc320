//! The server's configuration, read from a TOML text with the tables
//! `server` and `log`.

use crate::document::error_text;
use crate::document::flag_at;
use crate::document::get_flag;
use crate::document::get_table;
use crate::document::get_text;
use crate::document::parse_table;
use crate::document::table_at;
use crate::document::text_at;
use crate::document::toml_document;
use crate::task::text_view;
use toml::Table;
use vstd::prelude::*;

verus! {

/// The whole configuration of the server.
#[derive(Debug, PartialEq, Eq)]
pub struct Configs {
    pub server: Server,
    pub log: Log,
}

/// Where the server listens and the secret that requests must carry.
#[derive(Debug, PartialEq, Eq)]
pub struct Server {
    pub address: String,
    pub password: String,
}

/// How the server writes its log.
#[derive(Debug, PartialEq, Eq)]
pub struct Log {
    pub filter_level: String,
    pub with_ansi: bool,
    pub to_stdout: bool,
    pub directory: String,
    pub file_name: String,
    pub rolling: String,
}

/// The table `server` over sequences.
pub struct ServerView {
    pub address: Seq<char>,
    pub password: Seq<char>,
}

/// The table `log` over sequences.
pub struct LogView {
    pub filter_level: Seq<char>,
    pub with_ansi: bool,
    pub to_stdout: bool,
    pub directory: Seq<char>,
    pub file_name: Seq<char>,
    pub rolling: Seq<char>,
}

/// A configuration over sequences.
pub struct ConfigsView {
    pub server: ServerView,
    pub log: LogView,
}

impl View for Server {
    type V = ServerView;

    open spec fn view(&self) -> ServerView {
        ServerView { address: self.address@, password: self.password@ }
    }
}

impl View for Log {
    type V = LogView;

    open spec fn view(&self) -> LogView {
        LogView {
            filter_level: self.filter_level@,
            with_ansi: self.with_ansi,
            to_stdout: self.to_stdout,
            directory: self.directory@,
            file_name: self.file_name@,
            rolling: self.rolling@,
        }
    }
}

impl View for Configs {
    type V = ConfigsView;

    open spec fn view(&self) -> ConfigsView {
        ConfigsView { server: self.server@, log: self.log@ }
    }
}

/// A value that a configuration must hold.
#[derive(Clone, Copy, Debug, PartialEq, Eq, Structural)]
pub enum ConfigField {
    Server,
    ServerAddress,
    ServerPassword,
    Log,
    LogFilterLevel,
    LogWithAnsi,
    LogToStdout,
    LogDirectory,
    LogFileName,
    LogRolling,
}

/// Why a text is no configuration.
#[derive(Debug, Clone, PartialEq, Eq)]
pub enum ConfigError {
    /// The text is not valid TOML. The parser's message is carried along.
    Malformed(String),
    /// The value is missing or of the wrong type.
    Missing(ConfigField),
}

/// Why a text is no configuration, without the parser's message.
pub enum ConfigFault {
    Malformed,
    Missing(ConfigField),
}

impl View for ConfigError {
    type V = ConfigFault;

    open spec fn view(&self) -> ConfigFault {
        match self {
            ConfigError::Malformed(_) => ConfigFault::Malformed,
            ConfigError::Missing(field) => ConfigFault::Missing(*field),
        }
    }
}

/// The table `server` made of two values, each of which may be missing:
/// the first one missing is the fault.
pub open spec fn server_from_fields(address: Option<Seq<char>>, password: Option<Seq<char>>)
    -> Result<ServerView, ConfigFault> {
    if address is None {
        Err(ConfigFault::Missing(ConfigField::ServerAddress))
    } else if password is None {
        Err(ConfigFault::Missing(ConfigField::ServerPassword))
    } else {
        Ok(ServerView { address: address->0, password: password->0 })
    }
}

/// The table `log` made of six values, each of which may be missing: the
/// first one missing, in the order given, is the fault.
pub open spec fn log_from_fields(
    filter_level: Option<Seq<char>>,
    with_ansi: Option<bool>,
    to_stdout: Option<bool>,
    directory: Option<Seq<char>>,
    file_name: Option<Seq<char>>,
    rolling: Option<Seq<char>>,
) -> Result<LogView, ConfigFault> {
    if filter_level is None {
        Err(ConfigFault::Missing(ConfigField::LogFilterLevel))
    } else if with_ansi is None {
        Err(ConfigFault::Missing(ConfigField::LogWithAnsi))
    } else if to_stdout is None {
        Err(ConfigFault::Missing(ConfigField::LogToStdout))
    } else if directory is None {
        Err(ConfigFault::Missing(ConfigField::LogDirectory))
    } else if file_name is None {
        Err(ConfigFault::Missing(ConfigField::LogFileName))
    } else if rolling is None {
        Err(ConfigFault::Missing(ConfigField::LogRolling))
    } else {
        Ok(
            LogView {
                filter_level: filter_level->0,
                with_ansi: with_ansi->0,
                to_stdout: to_stdout->0,
                directory: directory->0,
                file_name: file_name->0,
                rolling: rolling->0,
            },
        )
    }
}

/// The table `server` that `table` holds: both of its values are strings.
pub open spec fn server_of(table: Table) -> Result<ServerView, ConfigFault> {
    server_from_fields(text_at(table, "address"@), text_at(table, "password"@))
}

/// The table `log` that `table` holds: two booleans and four strings.
pub open spec fn log_of(table: Table) -> Result<LogView, ConfigFault> {
    log_from_fields(
        text_at(table, "filter_level"@),
        flag_at(table, "with_ansi"@),
        flag_at(table, "to_stdout"@),
        text_at(table, "directory"@),
        text_at(table, "file_name"@),
        text_at(table, "rolling"@),
    )
}

/// The configuration that the TOML text `text` holds. The table `server`
/// is read first, then the table `log`; keys that are not asked for are
/// ignored.
pub open spec fn config_of(text: Seq<char>) -> Result<ConfigsView, ConfigFault> {
    match toml_document(text) {
        None => Err(ConfigFault::Malformed),
        Some(table) => if table_at(table, "server"@) is None {
            Err(ConfigFault::Missing(ConfigField::Server))
        } else {
            match server_of(table_at(table, "server"@)->0) {
                Err(fault) => Err(fault),
                Ok(server) => if table_at(table, "log"@) is None {
                    Err(ConfigFault::Missing(ConfigField::Log))
                } else {
                    match log_of(table_at(table, "log"@)->0) {
                        Err(fault) => Err(fault),
                        Ok(log) => Ok(ConfigsView { server, log }),
                    }
                },
            }
        },
    }
}

impl Server {
    /// Makes the table `server` of two values, each of which may be
    /// missing.
    pub fn from_fields(address: Option<String>, password: Option<String>) -> (r: Result<
        Server,
        ConfigError,
    >)
        ensures
            match r {
                Ok(server) => server_from_fields(text_view(address), text_view(password)) == Ok::<
                    ServerView,
                    ConfigFault,
                >(server@),
                Err(e) => server_from_fields(text_view(address), text_view(password)) == Err::<
                    ServerView,
                    ConfigFault,
                >(e@),
            },
    {
        let address = match address {
            Some(text) => text,
            None => {
                return Err(ConfigError::Missing(ConfigField::ServerAddress));
            },
        };
        let password = match password {
            Some(text) => text,
            None => {
                return Err(ConfigError::Missing(ConfigField::ServerPassword));
            },
        };
        Ok(Server { address, password })
    }

    /// Reads the table `server`.
    pub fn from_table(table: &Table) -> (r: Result<Server, ConfigError>)
        ensures
            match r {
                Ok(server) => server_of(*table) == Ok::<ServerView, ConfigFault>(server@),
                Err(e) => server_of(*table) == Err::<ServerView, ConfigFault>(e@),
            },
    {
        Server::from_fields(get_text(table, "address"), get_text(table, "password"))
    }
}

impl Log {
    /// Makes the table `log` of six values, each of which may be missing.
    pub fn from_fields(
        filter_level: Option<String>,
        with_ansi: Option<bool>,
        to_stdout: Option<bool>,
        directory: Option<String>,
        file_name: Option<String>,
        rolling: Option<String>,
    ) -> (r: Result<Log, ConfigError>)
        ensures
            match r {
                Ok(log) => log_from_fields(
                    text_view(filter_level),
                    with_ansi,
                    to_stdout,
                    text_view(directory),
                    text_view(file_name),
                    text_view(rolling),
                ) == Ok::<LogView, ConfigFault>(log@),
                Err(e) => log_from_fields(
                    text_view(filter_level),
                    with_ansi,
                    to_stdout,
                    text_view(directory),
                    text_view(file_name),
                    text_view(rolling),
                ) == Err::<LogView, ConfigFault>(e@),
            },
    {
        let filter_level = match filter_level {
            Some(text) => text,
            None => {
                return Err(ConfigError::Missing(ConfigField::LogFilterLevel));
            },
        };
        let with_ansi = match with_ansi {
            Some(flag) => flag,
            None => {
                return Err(ConfigError::Missing(ConfigField::LogWithAnsi));
            },
        };
        let to_stdout = match to_stdout {
            Some(flag) => flag,
            None => {
                return Err(ConfigError::Missing(ConfigField::LogToStdout));
            },
        };
        let directory = match directory {
            Some(text) => text,
            None => {
                return Err(ConfigError::Missing(ConfigField::LogDirectory));
            },
        };
        let file_name = match file_name {
            Some(text) => text,
            None => {
                return Err(ConfigError::Missing(ConfigField::LogFileName));
            },
        };
        let rolling = match rolling {
            Some(text) => text,
            None => {
                return Err(ConfigError::Missing(ConfigField::LogRolling));
            },
        };
        Ok(Log { filter_level, with_ansi, to_stdout, directory, file_name, rolling })
    }

    /// Reads the table `log`.
    pub fn from_table(table: &Table) -> (r: Result<Log, ConfigError>)
        ensures
            match r {
                Ok(log) => log_of(*table) == Ok::<LogView, ConfigFault>(log@),
                Err(e) => log_of(*table) == Err::<LogView, ConfigFault>(e@),
            },
    {
        Log::from_fields(
            get_text(table, "filter_level"),
            get_flag(table, "with_ansi"),
            get_flag(table, "to_stdout"),
            get_text(table, "directory"),
            get_text(table, "file_name"),
            get_text(table, "rolling"),
        )
    }
}

impl Configs {
    /// Reads the configuration from the text of its file.
    pub fn init(text: &str) -> (r: Result<Configs, ConfigError>)
        ensures
            match r {
                Ok(configs) => config_of(text@) == Ok::<ConfigsView, ConfigFault>(configs@),
                Err(e) => config_of(text@) == Err::<ConfigsView, ConfigFault>(e@),
            },
    {
        let table = match parse_table(text) {
            Ok(table) => table,
            Err(e) => {
                return Err(ConfigError::Malformed(error_text(&e)));
            },
        };
        let server = match get_table(&table, "server") {
            Some(inner) => Server::from_table(inner)?,
            None => {
                return Err(ConfigError::Missing(ConfigField::Server));
            },
        };
        let log = match get_table(&table, "log") {
            Some(inner) => Log::from_table(inner)?,
            None => {
                return Err(ConfigError::Missing(ConfigField::Log));
            },
        };
        Ok(Configs { server, log })
    }
}

} // verus!
