//! Task bundle distribution: packaging, content-addressed caching,
//! conditional transfer and supervised execution of task scripts.
//!
//! A task is a manifest and an entry script. The registry keeps the bundle
//! of each task; a client fetches a bundle as one archive, keeps it in a
//! local cache under the task's name and identifier, and runs its script
//! once the user has confirmed.
//!
//! The library decides and computes; it reads no file and opens no
//! connection. Files come in as names and bytes, answers as a status and a
//! body, and what has to be written or run goes out as a plan.
//!
//! - `archive`, `order`, `path`: packing and unpacking, the canonical order
//!   of files, and entry names that cannot leave their directory.
//! - `digest`, `cache`, `location`, `sync`: digests of archives, the
//!   content cache and where it keeps each task, and the exchange that
//!   transfers an archive only when it has changed.
//! - `task`, `bundle`, `document`: manifests, the checks on a bundle, and
//!   the TOML texts they are read from.
//! - `session`: the state machine that supervises one run of a script.
//! - `db`, `auth`, `result`, `config`: the registry of tasks, the shared
//!   secret, the responses to requests and the server's configuration.

pub mod archive;
pub mod auth;
pub mod bundle;
pub mod cache;
pub mod config;
pub mod db;
pub mod digest;
pub mod document;
pub mod location;
pub mod order;
pub mod path;
pub mod result;
pub mod session;
pub mod sync;
pub mod task;
pub mod text;

pub use archive::create_zip;
pub use archive::unpack_zip;
pub use config::Configs;
pub use config::Log;
pub use config::Server;
pub use db::TaskDatabase;
pub use result::AppError;
pub use result::Success;
pub use task::Task;
