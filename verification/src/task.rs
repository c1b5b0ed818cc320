//! Task manifests: the identity and description of a task.

use crate::document::error_text;
use crate::document::get_text;
use crate::document::parse_table;
use crate::document::text_at;
use crate::document::toml_document;
use crate::path::check_normal;
use crate::path::is_normal;
use crate::result::AppError;
use crate::result::AppErrorView;
use crate::text::utf8_text;
use vstd::prelude::*;
use vstd::string::StringExecFns;

verus! {

/// The manifest of a task: a stable identifier, a readable name and a free
/// description. The pair of identifier and name identifies one task.
#[derive(Debug, PartialEq, Eq)]
pub struct Task {
    pub uuid: String,
    pub name: String,
    pub description: String,
}

/// A manifest as three sequences of characters.
pub struct TaskView {
    pub uuid: Seq<char>,
    pub name: Seq<char>,
    pub description: Seq<char>,
}

impl View for Task {
    type V = TaskView;

    open spec fn view(&self) -> TaskView {
        TaskView { uuid: self.uuid@, name: self.name@, description: self.description@ }
    }
}

impl Clone for Task {
    fn clone(&self) -> (out: Task)
        ensures
            out@ == self@,
    {
        Task {
            uuid: self.uuid.clone(),
            name: self.name.clone(),
            description: self.description.clone(),
        }
    }
}

/// The text that names a task wherever its bundle or its cache is kept:
/// the name, a hyphen, the identifier.
pub open spec fn key_of(name: Seq<char>, uuid: Seq<char>) -> Seq<char> {
    name + seq!['-'] + uuid
}

/// Writes the key of a task.
pub fn make_key(name: &String, uuid: &String) -> (key: String)
    ensures
        key@ == key_of(name@, uuid@),
{
    proof {
        reveal_strlit("-");
    }
    let key = name.clone().concat("-").concat(uuid.as_str());
    assert(key@ =~= key_of(name@, uuid@)) by {
        assert("-"@ =~= seq!['-']);
    }
    key
}

impl Task {
    /// The key of the task: `{name}-{uuid}`.
    pub fn bundle_key(&self) -> (key: String)
        ensures
            key@ == key_of(self.name@, self.uuid@),
    {
        make_key(&self.name, &self.uuid)
    }

    /// Whether the task is the one identified by `uuid` and `name`.
    pub fn is_identified_by(&self, uuid: &String, name: &String) -> (same: bool)
        ensures
            same == (self.uuid@ == uuid@ && self.name@ == name@),
    {
        self.uuid == *uuid && self.name == *name
    }
}

/// A field of a manifest.
#[derive(Clone, Copy, Debug, PartialEq, Eq, Structural)]
pub enum ManifestField {
    Uuid,
    Name,
    Description,
}

/// Why a text is no manifest.
#[derive(Debug, Clone, PartialEq, Eq)]
pub enum ManifestError {
    /// The bytes are not text: they are not valid UTF-8.
    NotText,
    /// The text is not valid TOML. The parser's message is carried along.
    Malformed(String),
    /// The field is missing, or its value is no string.
    Missing(ManifestField),
}

/// Why a text is no manifest, without the parser's message.
pub enum ManifestFault {
    NotText,
    Malformed,
    Missing(ManifestField),
}

impl View for ManifestError {
    type V = ManifestFault;

    open spec fn view(&self) -> ManifestFault {
        match self {
            ManifestError::NotText => ManifestFault::NotText,
            ManifestError::Malformed(_) => ManifestFault::Malformed,
            ManifestError::Missing(field) => ManifestFault::Missing(*field),
        }
    }
}

/// The manifest made of three fields, each of which may be missing: the
/// first one missing, in the order uuid, name, description, is the fault.
pub open spec fn manifest_from_fields(
    uuid: Option<Seq<char>>,
    name: Option<Seq<char>>,
    description: Option<Seq<char>>,
) -> Result<TaskView, ManifestFault> {
    if uuid is None {
        Err(ManifestFault::Missing(ManifestField::Uuid))
    } else if name is None {
        Err(ManifestFault::Missing(ManifestField::Name))
    } else if description is None {
        Err(ManifestFault::Missing(ManifestField::Description))
    } else {
        Ok(TaskView { uuid: uuid->0, name: name->0, description: description->0 })
    }
}

/// The manifest that the TOML text `text` holds: its keys `uuid`, `name`
/// and `description` must each hold a string. Other keys are ignored.
pub open spec fn manifest_of(text: Seq<char>) -> Result<TaskView, ManifestFault> {
    match toml_document(text) {
        None => Err(ManifestFault::Malformed),
        Some(table) => manifest_from_fields(
            text_at(table, "uuid"@),
            text_at(table, "name"@),
            text_at(table, "description"@),
        ),
    }
}

/// The manifest that the bytes of a manifest file hold.
pub open spec fn manifest_of_bytes(bytes: Seq<u8>) -> Result<TaskView, ManifestFault> {
    if vstd::utf8::valid_utf8(bytes) {
        manifest_of(vstd::utf8::decode_utf8(bytes))
    } else {
        Err(ManifestFault::NotText)
    }
}

/// A result of reading a manifest, over sequences.
pub open spec fn manifest_result_view(r: Result<Task, ManifestError>) -> Result<
    TaskView,
    ManifestFault,
> {
    match r {
        Ok(task) => Ok(task@),
        Err(e) => Err(e@),
    }
}

/// A text as an optional sequence of characters.
pub open spec fn text_view(text: Option<String>) -> Option<Seq<char>> {
    match text {
        Some(t) => Some(t@),
        None => None,
    }
}

impl Task {
    /// Makes a manifest of three fields, each of which may be missing.
    pub fn from_fields(uuid: Option<String>, name: Option<String>, description: Option<String>) -> (r:
        Result<Task, ManifestError>)
        ensures
            manifest_result_view(r) == manifest_from_fields(
                text_view(uuid),
                text_view(name),
                text_view(description),
            ),
    {
        let uuid = match uuid {
            Some(text) => text,
            None => {
                return Err(ManifestError::Missing(ManifestField::Uuid));
            },
        };
        let name = match name {
            Some(text) => text,
            None => {
                return Err(ManifestError::Missing(ManifestField::Name));
            },
        };
        let description = match description {
            Some(text) => text,
            None => {
                return Err(ManifestError::Missing(ManifestField::Description));
            },
        };
        Ok(Task { uuid, name, description })
    }

    /// Reads a manifest from its TOML text.
    pub fn from_manifest(text: &str) -> (r: Result<Task, ManifestError>)
        ensures
            manifest_result_view(r) == manifest_of(text@),
    {
        match parse_table(text) {
            Err(e) => Err(ManifestError::Malformed(error_text(&e))),
            Ok(table) => Task::from_fields(
                get_text(&table, "uuid"),
                get_text(&table, "name"),
                get_text(&table, "description"),
            ),
        }
    }

    /// Reads a manifest from the bytes of its file.
    pub fn from_manifest_bytes(bytes: &Vec<u8>) -> (r: Result<Task, ManifestError>)
        ensures
            manifest_result_view(r) == manifest_of_bytes(bytes@),
    {
        match utf8_text(bytes.as_slice()) {
            Some(text) => Task::from_manifest(text.as_str()),
            None => Err(ManifestError::NotText),
        }
    }
}

/// The manifest text of a new task: the identifier and the name between
/// double quotes, and a description that says it is an example.
pub open spec fn new_manifest_text(uuid: Seq<char>, name: Seq<char>) -> Seq<char> {
    "uuid = \""@ + uuid + "\"\nname = \""@ + name
        + "\"\ndescription = \"This is an example task\"\n"@
}

/// Writes the manifest text of a new task.
pub fn render_manifest(uuid: &str, name: &str) -> (text: String)
    ensures
        text@ == new_manifest_text(uuid@, name@),
{
    String::from_str("uuid = \"").concat(uuid).concat("\"\nname = \"").concat(name).concat(
        "\"\ndescription = \"This is an example task\"\n",
    )
}

/// `Uuid::new_v4`, written in its hyphenated form: 32 hexadecimal digits in
/// five groups, 36 characters in all. Which digits is a matter of chance.
#[verifier::external_body]
pub(crate) fn fresh_uuid() -> (text: String)
    ensures
        text@.len() == 36,
{
    uuid::Uuid::new_v4().to_string()
}

/// The failure to find a task at an index.
pub open spec fn out_of_range() -> AppErrorView {
    AppErrorView::AnyHow("Task index out of range"@)
}

/// The task at `index` of a list, or the failure "Task index out of range".
pub fn select_task(tasks: &Vec<Task>, index: usize) -> (r: Result<Task, AppError>)
    ensures
        match r {
            Ok(task) => index < tasks@.len() && task@ == tasks@[index as int]@,
            Err(e) => index >= tasks@.len() && e@ == out_of_range(),
        },
{
    if index < tasks.len() {
        Ok(tasks[index].clone())
    } else {
        Err(AppError::anyhow("Task index out of range"))
    }
}

/// The tasks that an operation on "the task at `index`, or all tasks" is
/// about.
pub open spec fn selection(tasks: Seq<TaskView>, index: Option<usize>) -> Option<Seq<TaskView>> {
    match index {
        None => Some(tasks),
        Some(i) => if i < tasks.len() {
            Some(seq![tasks[i as int]])
        } else {
            None
        },
    }
}

/// The views of a list of manifests.
pub open spec fn manifests_view(tasks: Seq<Task>) -> Seq<TaskView> {
    tasks.map_values(|t: Task| t@)
}

/// The task at `index`, or all tasks where no index is given; the failure
/// "Task index out of range" where the index is beyond the list.
pub fn select_tasks(tasks: Vec<Task>, index: Option<usize>) -> (r: Result<Vec<Task>, AppError>)
    ensures
        match r {
            Ok(chosen) => selection(manifests_view(tasks@), index) == Some(
                manifests_view(chosen@),
            ),
            Err(e) => selection(manifests_view(tasks@), index) is None && e@ == out_of_range(),
        },
{
    match index {
        None => Ok(tasks),
        Some(i) => {
            if i < tasks.len() {
                let mut chosen: Vec<Task> = Vec::new();
                chosen.push(tasks[i].clone());
                assert(manifests_view(chosen@) =~= seq![manifests_view(tasks@)[i as int]]);
                Ok(chosen)
            } else {
                Err(AppError::anyhow("Task index out of range"))
            }
        },
    }
}

/// The pair of name and identifier that a request names a task by.
#[derive(Debug, Clone, PartialEq, Eq)]
pub struct TaskRef {
    pub uuid: String,
    pub name: String,
}

impl View for TaskRef {
    type V = (Seq<char>, Seq<char>);

    /// The name first, the identifier second.
    open spec fn view(&self) -> (Seq<char>, Seq<char>) {
        (self.name@, self.uuid@)
    }
}

/// What naming a task by form fields comes to: the name is asked for
/// first, the identifier second.
pub open spec fn task_ref_of(name: Option<Seq<char>>, uuid: Option<Seq<char>>) -> Result<
    (Seq<char>, Seq<char>),
    AppErrorView,
> {
    match (name, uuid) {
        (None, _) => Err(AppErrorView::AnyHow("Task name not found"@)),
        (Some(_), None) => Err(AppErrorView::AnyHow("Task UUID not found"@)),
        (Some(n), Some(u)) => Ok((n, u)),
    }
}

impl TaskRef {
    /// Reads the name and the identifier of a task from the fields of a
    /// form, each of which may be missing.
    pub fn from_form(name: Option<String>, uuid: Option<String>) -> (r: Result<TaskRef, AppError>)
        ensures
            match r {
                Ok(task) => task_ref_of(text_view(name), text_view(uuid)) == Ok::<
                    (Seq<char>, Seq<char>),
                    AppErrorView,
                >(task@),
                Err(e) => task_ref_of(text_view(name), text_view(uuid)) == Err::<
                    (Seq<char>, Seq<char>),
                    AppErrorView,
                >(e@),
            },
    {
        let name = match name {
            Some(text) => text,
            None => {
                return Err(AppError::anyhow("Task name not found"));
            },
        };
        let uuid = match uuid {
            Some(text) => text,
            None => {
                return Err(AppError::anyhow("Task UUID not found"));
            },
        };
        Ok(TaskRef { uuid, name })
    }

    /// The name and identifier of `task`.
    pub fn of(task: &Task) -> (r: TaskRef)
        ensures
            r@ == (task.name@, task.uuid@),
    {
        TaskRef { uuid: task.uuid.clone(), name: task.name.clone() }
    }

    /// The key of the task: `{name}-{uuid}`.
    pub fn key(&self) -> (key: String)
        ensures
            key@ == key_of(self.name@, self.uuid@),
    {
        make_key(&self.name, &self.uuid)
    }

    /// The directory, directly below the registry's root, that the bundle
    /// of the task is kept in: its key, where that is an ordinary file
    /// name on the platform, and `None` where it is not.
    pub fn bundle_dir(&self, windows: bool) -> (dir: Option<String>)
        ensures
            match dir {
                Some(name) => name@ == key_of(self.name@, self.uuid@) && is_normal(name@, windows),
                None => !is_normal(key_of(self.name@, self.uuid@), windows),
            },
    {
        let key = self.key();
        if check_normal(key.as_str(), windows) {
            Some(key)
        } else {
            None
        }
    }
}

} // verus!
