//! The rows of the store's tables, and what they say once read.

use crate::error::{DbError, DbFailure};
use crate::ids::{parsed_uuid, Uuid};
use crate::json::{
    json_content, json_parsed, opt_content, parsed_ids, plain_content_is_like_itself_only,
    plain_content_nests_within, read_ids, read_value, reads_alike, Json,
};
use crate::text::{opt_text, same};
use vstd::prelude::*;
use vstd::string::StringExecFns;

verus! {

/// Where a node of a task stands.
#[derive(Debug, Clone, Copy, PartialEq, Eq, Structural)]
pub enum NodeStatus {
    Pending,
    Running,
    Completed,
    Failed,
}

impl NodeStatus {
    /// The word for the status.
    pub open spec fn word(self) -> Seq<char> {
        match self {
            NodeStatus::Pending => "PENDING"@,
            NodeStatus::Running => "RUNNING"@,
            NodeStatus::Completed => "COMPLETED"@,
            NodeStatus::Failed => "FAILED"@,
        }
    }

    /// The word for the status.
    pub fn as_str(self) -> (text: &'static str)
        ensures
            text@ == self.word(),
    {
        match self {
            NodeStatus::Pending => "PENDING",
            NodeStatus::Running => "RUNNING",
            NodeStatus::Completed => "COMPLETED",
            NodeStatus::Failed => "FAILED",
        }
    }

    /// The status that the word stands for.
    pub fn try_from(value: &str) -> (res: Result<NodeStatus, DbError>)
        ensures
            match res {
                Ok(status) => read_status(value@) == Ok::<NodeStatus, DbFailure>(status),
                Err(err) => read_status(value@) == Err::<NodeStatus, DbFailure>(err@),
            },
    {
        if same(value, "PENDING") {
            Ok(NodeStatus::Pending)
        } else if same(value, "RUNNING") {
            Ok(NodeStatus::Running)
        } else if same(value, "COMPLETED") {
            Ok(NodeStatus::Completed)
        } else if same(value, "FAILED") {
            Ok(NodeStatus::Failed)
        } else {
            Err(DbError::InvalidState("unknown node status: ".to_owned().concat(value)))
        }
    }
}

/// The status that a word stands for, or the failure to know it.
pub open spec fn read_status(word: Seq<char>) -> Result<NodeStatus, DbFailure> {
    if word == NodeStatus::Pending.word() {
        Ok(NodeStatus::Pending)
    } else if word == NodeStatus::Running.word() {
        Ok(NodeStatus::Running)
    } else if word == NodeStatus::Completed.word() {
        Ok(NodeStatus::Completed)
    } else if word == NodeStatus::Failed.word() {
        Ok(NodeStatus::Failed)
    } else {
        Err(DbFailure::InvalidState("unknown node status: "@ + word))
    }
}

/// No word stands for two statuses.
pub proof fn status_words_differ()
    ensures
        forall|a: NodeStatus, b: NodeStatus| #[trigger] a.word() == #[trigger] b.word() ==> a == b,
        forall|status: NodeStatus| read_status(#[trigger] status.word()) == Ok::<NodeStatus, DbFailure>(
            status,
        ),
{
    reveal_strlit("PENDING");
    reveal_strlit("RUNNING");
    reveal_strlit("COMPLETED");
    reveal_strlit("FAILED");
    assert forall|a: NodeStatus, b: NodeStatus| #[trigger]
        a.word() == #[trigger] b.word() implies a == b by {
        assert(a.word().len() == b.word().len());
        assert(a.word()[0] == b.word()[0]);
    }
}

/// Each status goes by one word, and any other word is refused by name.
pub proof fn status_goes_by_its_word(word: Seq<char>)
    ensures
        NodeStatus::Pending.word() == "PENDING"@,
        NodeStatus::Running.word() == "RUNNING"@,
        NodeStatus::Completed.word() == "COMPLETED"@,
        NodeStatus::Failed.word() == "FAILED"@,
        forall|status: NodeStatus|
            read_status(word) == Ok::<NodeStatus, DbFailure>(status) <==> word
                == #[trigger] status.word(),
        read_status(word) matches Err(failure) ==> failure == DbFailure::InvalidState(
            "unknown node status: "@ + word,
        ),
{
    status_words_differ();
}

/// An identifier out of a column, or the failure to read it.
pub open spec fn read_id(text: Seq<char>) -> Result<Uuid, DbFailure> {
    match parsed_uuid(text) {
        Ok(id) => Ok(id),
        Err(words) => Err(DbFailure::Uuid(words)),
    }
}

/// An identifier out of a column that may be empty, or the failure to read it.
pub open spec fn read_opt_id(text: Option<Seq<char>>) -> Result<Option<Uuid>, DbFailure> {
    match text {
        Some(text) => match parsed_uuid(text) {
            Ok(id) => Ok(Some(id)),
            Err(words) => Err(DbFailure::Uuid(words)),
        },
        None => Ok(None),
    }
}

/// A JSON value out of a column, or the failure to read it.
pub open spec fn read_json(text: Seq<char>) -> Result<Json, DbFailure> {
    match json_parsed(text) {
        Ok(content) => Ok(content),
        Err(words) => Err(DbFailure::Json(words)),
    }
}

/// A JSON value out of a column that may be empty, or the failure to read it.
pub open spec fn read_opt_json(text: Option<Seq<char>>) -> Result<Option<Json>, DbFailure> {
    match text {
        Some(text) => match json_parsed(text) {
            Ok(content) => Ok(Some(content)),
            Err(words) => Err(DbFailure::Json(words)),
        },
        None => Ok(None),
    }
}

/// Reading a column gives back the content that was written to it: the same, but that numbers not
/// held as integers may differ in their last digit. Of content nested too deep to be read nothing is
/// said.
pub open spec fn is_kept(content: Json, read: Result<Json, DbFailure>) -> bool {
    &&& content.nests_within(127) ==> (read matches Ok(found) && content.alike(found, 127))
    &&& content.reads_back() ==> read == Ok::<Json, DbFailure>(content)
}

/// As [`is_kept`], for a column that may be empty.
pub open spec fn is_kept_there(content: Json, read: Result<Option<Json>, DbFailure>) -> bool {
    &&& content.nests_within(127) ==> (read matches Ok(Some(found)) && content.alike(found, 127))
    &&& content.reads_back() ==> read == Ok::<Option<Json>, DbFailure>(Some(content))
}

/// What reading the text of a content gives says whether the content is kept.
pub(crate) proof fn lemma_kept(content: Json, text: Seq<char>)
    requires
        content.nests_within(127) ==> reads_alike(content, json_parsed(text)),
    ensures
        is_kept(content, read_json(text)),
        is_kept_there(content, read_opt_json(Some(text))),
{
    if content.reads_back() {
        plain_content_nests_within(content, 127);
        plain_content_is_like_itself_only(content, json_parsed(text)->Ok_0, 127);
    }
}

/// A list of identifiers out of a column, or the failure to read it.
pub open spec fn read_id_list(text: Seq<char>) -> Result<Seq<Uuid>, DbFailure> {
    match parsed_ids(text) {
        Ok(ids) => Ok(ids),
        Err(words) => Err(DbFailure::Json(words)),
    }
}

fn id_of(text: &str) -> (res: Result<Uuid, DbError>)
    ensures
        match res {
            Ok(id) => read_id(text@) == Ok::<Uuid, DbFailure>(id),
            Err(err) => read_id(text@) == Err::<Uuid, DbFailure>(err@),
        },
{
    match Uuid::parse_str(text) {
        Ok(id) => Ok(id),
        Err(err) => Err(DbError::Uuid(err)),
    }
}

fn opt_id_of(text: &Option<String>) -> (res: Result<Option<Uuid>, DbError>)
    ensures
        match res {
            Ok(id) => read_opt_id(opt_text(*text)) == Ok::<Option<Uuid>, DbFailure>(id),
            Err(err) => read_opt_id(opt_text(*text)) == Err::<Option<Uuid>, DbFailure>(err@),
        },
{
    match text {
        Some(text) => match Uuid::parse_str(text.as_str()) {
            Ok(id) => Ok(Some(id)),
            Err(err) => Err(DbError::Uuid(err)),
        },
        None => Ok(None),
    }
}

fn json_of(text: &str) -> (res: Result<serde_json::Value, DbError>)
    ensures
        match res {
            Ok(value) => read_json(text@) == Ok::<Json, DbFailure>(json_content(value)),
            Err(err) => read_json(text@) == Err::<Json, DbFailure>(err@),
        },
{
    match read_value(text) {
        Ok(value) => Ok(value),
        Err(err) => Err(DbError::Json(err)),
    }
}

/// A JSON value out of a column that may be empty.
pub fn opt_json_of(text: &Option<String>) -> (res: Result<Option<serde_json::Value>, DbError>)
    ensures
        match res {
            Ok(value) => read_opt_json(opt_text(*text)) == Ok::<Option<Json>, DbFailure>(
                opt_content(value),
            ),
            Err(err) => read_opt_json(opt_text(*text)) == Err::<Option<Json>, DbFailure>(err@),
        },
{
    match text {
        Some(text) => match read_value(text.as_str()) {
            Ok(value) => Ok(Some(value)),
            Err(err) => Err(DbError::Json(err)),
        },
        None => Ok(None),
    }
}

/// A task as it is stored.
#[derive(Debug, PartialEq)]
pub struct GlobalTaskRow {
    pub id: String,
    pub goal: String,
    pub context: String,
    pub created_at: String,
}

/// What a stored task holds.
#[verifier::ext_equal]
pub struct TaskRecord {
    pub id: Seq<char>,
    pub goal: Seq<char>,
    pub context: Seq<char>,
    pub created_at: Seq<char>,
}

impl View for GlobalTaskRow {
    type V = TaskRecord;

    open spec fn view(&self) -> TaskRecord {
        TaskRecord {
            id: self.id@,
            goal: self.goal@,
            context: self.context@,
            created_at: self.created_at@,
        }
    }
}

impl Clone for GlobalTaskRow {
    fn clone(&self) -> (row: Self)
        ensures
            row@ == self@,
    {
        GlobalTaskRow {
            id: self.id.clone(),
            goal: self.goal.clone(),
            context: self.context.clone(),
            created_at: self.created_at.clone(),
        }
    }
}

impl GlobalTaskRow {
    /// The task's identifier.
    pub fn id(&self) -> (res: Result<Uuid, DbError>)
        ensures
            match res {
                Ok(id) => read_id(self.id@) == Ok::<Uuid, DbFailure>(id),
                Err(err) => read_id(self.id@) == Err::<Uuid, DbFailure>(err@),
            },
    {
        id_of(self.id.as_str())
    }

    /// The context that the task was registered with.
    pub fn context(&self) -> (res: Result<serde_json::Value, DbError>)
        ensures
            match res {
                Ok(value) => read_json(self.context@) == Ok::<Json, DbFailure>(json_content(value)),
                Err(err) => read_json(self.context@) == Err::<Json, DbFailure>(err@),
            },
    {
        json_of(self.context.as_str())
    }
}

/// A node as it is stored.
#[derive(Debug, PartialEq)]
pub struct DagNodeRow {
    pub id: String,
    pub task_id: String,
    pub status: String,
    pub dependencies: String,
    pub payload_schema: String,
    pub result_payload: Option<String>,
    pub acquired_at: Option<i64>,
    pub lease_id: Option<String>,
    pub lease_owner: Option<String>,
    pub lease_expires_at: Option<i64>,
    pub updated_at: i64,
}

/// What a stored node holds.
#[verifier::ext_equal]
pub struct NodeRecord {
    pub id: Seq<char>,
    pub task_id: Seq<char>,
    pub status: Seq<char>,
    pub dependencies: Seq<char>,
    pub payload_schema: Seq<char>,
    pub result_payload: Option<Seq<char>>,
    pub acquired_at: Option<i64>,
    pub lease_id: Option<Seq<char>>,
    pub lease_owner: Option<Seq<char>>,
    pub lease_expires_at: Option<i64>,
    pub updated_at: i64,
}

impl View for DagNodeRow {
    type V = NodeRecord;

    open spec fn view(&self) -> NodeRecord {
        NodeRecord {
            id: self.id@,
            task_id: self.task_id@,
            status: self.status@,
            dependencies: self.dependencies@,
            payload_schema: self.payload_schema@,
            result_payload: opt_text(self.result_payload),
            acquired_at: self.acquired_at,
            lease_id: opt_text(self.lease_id),
            lease_owner: opt_text(self.lease_owner),
            lease_expires_at: self.lease_expires_at,
            updated_at: self.updated_at,
        }
    }
}

impl Clone for DagNodeRow {
    fn clone(&self) -> (row: Self)
        ensures
            row@ == self@,
    {
        DagNodeRow {
            id: self.id.clone(),
            task_id: self.task_id.clone(),
            status: self.status.clone(),
            dependencies: self.dependencies.clone(),
            payload_schema: self.payload_schema.clone(),
            result_payload: self.result_payload.clone(),
            acquired_at: self.acquired_at,
            lease_id: self.lease_id.clone(),
            lease_owner: self.lease_owner.clone(),
            lease_expires_at: self.lease_expires_at,
            updated_at: self.updated_at,
        }
    }
}

impl DagNodeRow {
    /// The node's identifier.
    pub fn id(&self) -> (res: Result<Uuid, DbError>)
        ensures
            match res {
                Ok(id) => read_id(self.id@) == Ok::<Uuid, DbFailure>(id),
                Err(err) => read_id(self.id@) == Err::<Uuid, DbFailure>(err@),
            },
    {
        id_of(self.id.as_str())
    }

    /// The identifier of the node's task.
    pub fn task_id(&self) -> (res: Result<Uuid, DbError>)
        ensures
            match res {
                Ok(id) => read_id(self.task_id@) == Ok::<Uuid, DbFailure>(id),
                Err(err) => read_id(self.task_id@) == Err::<Uuid, DbFailure>(err@),
            },
    {
        id_of(self.task_id.as_str())
    }

    /// Where the node stands.
    pub fn status(&self) -> (res: Result<NodeStatus, DbError>)
        ensures
            match res {
                Ok(status) => read_status(self.status@) == Ok::<NodeStatus, DbFailure>(status),
                Err(err) => read_status(self.status@) == Err::<NodeStatus, DbFailure>(err@),
            },
    {
        NodeStatus::try_from(self.status.as_str())
    }

    /// The nodes that have to be completed before this one.
    pub fn dependencies(&self) -> (res: Result<Vec<Uuid>, DbError>)
        ensures
            match res {
                Ok(ids) => read_id_list(self.dependencies@) == Ok::<Seq<Uuid>, DbFailure>(ids@),
                Err(err) => read_id_list(self.dependencies@) == Err::<Seq<Uuid>, DbFailure>(err@),
            },
    {
        match read_ids(self.dependencies.as_str()) {
            Ok(ids) => Ok(ids),
            Err(err) => Err(DbError::Json(err)),
        }
    }

    /// What the node's payload should look like.
    pub fn payload_schema(&self) -> (res: Result<serde_json::Value, DbError>)
        ensures
            match res {
                Ok(value) => read_json(self.payload_schema@) == Ok::<Json, DbFailure>(
                    json_content(value),
                ),
                Err(err) => read_json(self.payload_schema@) == Err::<Json, DbFailure>(err@),
            },
    {
        json_of(self.payload_schema.as_str())
    }

    /// What the node ended with, if it has ended.
    pub fn result_payload(&self) -> (res: Result<Option<serde_json::Value>, DbError>)
        ensures
            match res {
                Ok(value) => read_opt_json(opt_text(self.result_payload)) == Ok::<
                    Option<Json>,
                    DbFailure,
                >(opt_content(value)),
                Err(err) => read_opt_json(opt_text(self.result_payload)) == Err::<
                    Option<Json>,
                    DbFailure,
                >(err@),
            },
    {
        opt_json_of(&self.result_payload)
    }

    /// The lease under which the node runs, if it runs.
    pub fn lease_id(&self) -> (res: Result<Option<Uuid>, DbError>)
        ensures
            match res {
                Ok(id) => read_opt_id(opt_text(self.lease_id)) == Ok::<Option<Uuid>, DbFailure>(id),
                Err(err) => read_opt_id(opt_text(self.lease_id)) == Err::<Option<Uuid>, DbFailure>(
                    err@,
                ),
            },
    {
        opt_id_of(&self.lease_id)
    }
}

/// What a completed or failed dependency left behind.
#[derive(Debug)]
pub struct DependencyResult {
    pub node_id: Uuid,
    pub result_payload: Option<serde_json::Value>,
}

/// What a dependency left behind.
pub struct DependencyInfo {
    pub node_id: Uuid,
    pub result_payload: Option<Json>,
}

impl View for DependencyResult {
    type V = DependencyInfo;

    open spec fn view(&self) -> DependencyInfo {
        DependencyInfo {
            node_id: self.node_id,
            result_payload: opt_content(self.result_payload),
        }
    }
}

/// A journal entry as it is stored.
#[derive(Debug, PartialEq)]
pub struct EventJournalRow {
    pub id: String,
    pub task_id: String,
    pub node_id: String,
    pub action_type: String,
    pub payload: String,
    pub timestamp: String,
}

/// What a stored journal entry holds.
#[verifier::ext_equal]
pub struct EventRecord {
    pub id: Seq<char>,
    pub task_id: Seq<char>,
    pub node_id: Seq<char>,
    pub action_type: Seq<char>,
    pub payload: Seq<char>,
    pub timestamp: Seq<char>,
}

impl View for EventJournalRow {
    type V = EventRecord;

    open spec fn view(&self) -> EventRecord {
        EventRecord {
            id: self.id@,
            task_id: self.task_id@,
            node_id: self.node_id@,
            action_type: self.action_type@,
            payload: self.payload@,
            timestamp: self.timestamp@,
        }
    }
}

impl Clone for EventJournalRow {
    fn clone(&self) -> (row: Self)
        ensures
            row@ == self@,
    {
        EventJournalRow {
            id: self.id.clone(),
            task_id: self.task_id.clone(),
            node_id: self.node_id.clone(),
            action_type: self.action_type.clone(),
            payload: self.payload.clone(),
            timestamp: self.timestamp.clone(),
        }
    }
}

/// A journal entry, read.
#[derive(Debug)]
pub struct JournalEvent {
    pub id: Uuid,
    pub task_id: Uuid,
    pub node_id: Uuid,
    pub action_type: String,
    pub payload: serde_json::Value,
    pub timestamp: String,
}

/// What a journal entry says.
pub struct EventInfo {
    pub id: Uuid,
    pub task_id: Uuid,
    pub node_id: Uuid,
    pub action_type: Seq<char>,
    pub payload: Json,
    pub timestamp: Seq<char>,
}

impl View for JournalEvent {
    type V = EventInfo;

    open spec fn view(&self) -> EventInfo {
        EventInfo {
            id: self.id,
            task_id: self.task_id,
            node_id: self.node_id,
            action_type: self.action_type@,
            payload: json_content(self.payload),
            timestamp: self.timestamp@,
        }
    }
}

/// What a stored journal entry says, or the first failure to read it.
pub open spec fn read_event(row: EventRecord) -> Result<EventInfo, DbFailure> {
    match (read_id(row.id), read_id(row.task_id), read_id(row.node_id), read_json(row.payload)) {
        (Err(failure), _, _, _) => Err(failure),
        (_, Err(failure), _, _) => Err(failure),
        (_, _, Err(failure), _) => Err(failure),
        (_, _, _, Err(failure)) => Err(failure),
        (Ok(id), Ok(task_id), Ok(node_id), Ok(payload)) => Ok(
            EventInfo {
                id,
                task_id,
                node_id,
                action_type: row.action_type,
                payload,
                timestamp: row.timestamp,
            },
        ),
    }
}

impl JournalEvent {
    /// Reads a stored journal entry.
    pub fn try_from(row: EventJournalRow) -> (res: Result<JournalEvent, DbError>)
        ensures
            match res {
                Ok(event) => read_event(row@) == Ok::<EventInfo, DbFailure>(event@),
                Err(err) => read_event(row@) == Err::<EventInfo, DbFailure>(err@),
            },
    {
        let id = id_of(row.id.as_str())?;
        let task_id = id_of(row.task_id.as_str())?;
        let node_id = id_of(row.node_id.as_str())?;
        let payload = json_of(row.payload.as_str())?;
        Ok(
            JournalEvent {
                id,
                task_id,
                node_id,
                action_type: row.action_type,
                payload,
                timestamp: row.timestamp,
            },
        )
    }
}

/// A task, read.
#[derive(Debug)]
pub struct GlobalTaskSnapshot {
    pub id: Uuid,
    pub goal: String,
    pub context: serde_json::Value,
    pub created_at: String,
}

/// What a task says.
pub struct TaskInfo {
    pub id: Uuid,
    pub goal: Seq<char>,
    pub context: Json,
    pub created_at: Seq<char>,
}

impl View for GlobalTaskSnapshot {
    type V = TaskInfo;

    open spec fn view(&self) -> TaskInfo {
        TaskInfo {
            id: self.id,
            goal: self.goal@,
            context: json_content(self.context),
            created_at: self.created_at@,
        }
    }
}

/// What a stored task says, or the first failure to read it.
pub open spec fn read_task(row: TaskRecord) -> Result<TaskInfo, DbFailure> {
    match (read_id(row.id), read_json(row.context)) {
        (Err(failure), _) => Err(failure),
        (_, Err(failure)) => Err(failure),
        (Ok(id), Ok(context)) => Ok(
            TaskInfo { id, goal: row.goal, context, created_at: row.created_at },
        ),
    }
}

impl GlobalTaskSnapshot {
    /// Reads a stored task.
    pub fn try_from(row: GlobalTaskRow) -> (res: Result<GlobalTaskSnapshot, DbError>)
        ensures
            match res {
                Ok(task) => read_task(row@) == Ok::<TaskInfo, DbFailure>(task@),
                Err(err) => read_task(row@) == Err::<TaskInfo, DbFailure>(err@),
            },
    {
        let id = row.id()?;
        let context = row.context()?;
        Ok(GlobalTaskSnapshot { id, goal: row.goal, context, created_at: row.created_at })
    }
}

/// A node, read.
#[derive(Debug)]
pub struct NodeSnapshot {
    pub id: Uuid,
    pub task_id: Uuid,
    pub status: NodeStatus,
    pub dependencies: Vec<Uuid>,
    pub payload_schema: serde_json::Value,
    pub result_payload: Option<serde_json::Value>,
    pub acquired_at: Option<i64>,
    pub lease_id: Option<Uuid>,
    pub lease_owner: Option<String>,
    pub lease_expires_at: Option<i64>,
    pub updated_at: i64,
}

/// What a node says.
#[verifier::ext_equal]
pub struct NodeInfo {
    pub id: Uuid,
    pub task_id: Uuid,
    pub status: NodeStatus,
    pub dependencies: Seq<Uuid>,
    pub payload_schema: Json,
    pub result_payload: Option<Json>,
    pub acquired_at: Option<i64>,
    pub lease_id: Option<Uuid>,
    pub lease_owner: Option<Seq<char>>,
    pub lease_expires_at: Option<i64>,
    pub updated_at: i64,
}

impl View for NodeSnapshot {
    type V = NodeInfo;

    open spec fn view(&self) -> NodeInfo {
        NodeInfo {
            id: self.id,
            task_id: self.task_id,
            status: self.status,
            dependencies: self.dependencies@,
            payload_schema: json_content(self.payload_schema),
            result_payload: opt_content(self.result_payload),
            acquired_at: self.acquired_at,
            lease_id: self.lease_id,
            lease_owner: opt_text(self.lease_owner),
            lease_expires_at: self.lease_expires_at,
            updated_at: self.updated_at,
        }
    }
}

/// What a stored node says, or the first failure to read it.
pub open spec fn read_node(row: NodeRecord) -> Result<NodeInfo, DbFailure> {
    match (read_id(row.id), read_id(row.task_id), read_status(row.status)) {
        (Err(failure), _, _) => Err(failure),
        (_, Err(failure), _) => Err(failure),
        (_, _, Err(failure)) => Err(failure),
        (Ok(id), Ok(task_id), Ok(status)) => match (
            read_id_list(row.dependencies),
            read_json(row.payload_schema),
            read_opt_json(row.result_payload),
            read_opt_id(row.lease_id),
        ) {
            (Err(failure), _, _, _) => Err(failure),
            (_, Err(failure), _, _) => Err(failure),
            (_, _, Err(failure), _) => Err(failure),
            (_, _, _, Err(failure)) => Err(failure),
            (Ok(dependencies), Ok(payload_schema), Ok(result_payload), Ok(lease_id)) => Ok(
                NodeInfo {
                    id,
                    task_id,
                    status,
                    dependencies,
                    payload_schema,
                    result_payload,
                    acquired_at: row.acquired_at,
                    lease_id,
                    lease_owner: row.lease_owner,
                    lease_expires_at: row.lease_expires_at,
                    updated_at: row.updated_at,
                },
            ),
        },
    }
}

impl NodeSnapshot {
    /// Reads a stored node.
    pub fn try_from(row: DagNodeRow) -> (res: Result<NodeSnapshot, DbError>)
        ensures
            match res {
                Ok(node) => read_node(row@) == Ok::<NodeInfo, DbFailure>(node@),
                Err(err) => read_node(row@) == Err::<NodeInfo, DbFailure>(err@),
            },
    {
        let id = row.id()?;
        let task_id = row.task_id()?;
        let status = row.status()?;
        let dependencies = row.dependencies()?;
        let payload_schema = row.payload_schema()?;
        let result_payload = row.result_payload()?;
        let lease_id = row.lease_id()?;
        Ok(
            NodeSnapshot {
                id,
                task_id,
                status,
                dependencies,
                payload_schema,
                result_payload,
                acquired_at: row.acquired_at,
                lease_id,
                lease_owner: row.lease_owner,
                lease_expires_at: row.lease_expires_at,
                updated_at: row.updated_at,
            },
        )
    }
}

/// A lease on a node.
#[derive(Debug)]
pub struct LeaseInfo {
    pub lease_id: Uuid,
    pub lease_owner: String,
    pub lease_expires_at: i64,
}

/// What a lease on a node says.
pub struct LeaseTerms {
    pub lease_id: Uuid,
    pub lease_owner: Seq<char>,
    pub lease_expires_at: i64,
}

impl View for LeaseInfo {
    type V = LeaseTerms;

    open spec fn view(&self) -> LeaseTerms {
        LeaseTerms {
            lease_id: self.lease_id,
            lease_owner: self.lease_owner@,
            lease_expires_at: self.lease_expires_at,
        }
    }
}

/// A lock on a resource as it is stored.
#[derive(Debug, PartialEq)]
pub struct ResourceLockRow {
    pub resource_key: String,
    pub lease_id: String,
    pub owner: String,
    pub provider: Option<String>,
    pub task_id: Option<String>,
    pub node_id: Option<String>,
    pub metadata: String,
    pub acquired_at: i64,
    pub lease_expires_at: i64,
    pub updated_at: i64,
}

/// What a stored lock holds.
#[verifier::ext_equal]
pub struct LockRecord {
    pub resource_key: Seq<char>,
    pub lease_id: Seq<char>,
    pub owner: Seq<char>,
    pub provider: Option<Seq<char>>,
    pub task_id: Option<Seq<char>>,
    pub node_id: Option<Seq<char>>,
    pub metadata: Seq<char>,
    pub acquired_at: i64,
    pub lease_expires_at: i64,
    pub updated_at: i64,
}

impl View for ResourceLockRow {
    type V = LockRecord;

    open spec fn view(&self) -> LockRecord {
        LockRecord {
            resource_key: self.resource_key@,
            lease_id: self.lease_id@,
            owner: self.owner@,
            provider: opt_text(self.provider),
            task_id: opt_text(self.task_id),
            node_id: opt_text(self.node_id),
            metadata: self.metadata@,
            acquired_at: self.acquired_at,
            lease_expires_at: self.lease_expires_at,
            updated_at: self.updated_at,
        }
    }
}

impl Clone for ResourceLockRow {
    fn clone(&self) -> (row: Self)
        ensures
            row@ == self@,
    {
        ResourceLockRow {
            resource_key: self.resource_key.clone(),
            lease_id: self.lease_id.clone(),
            owner: self.owner.clone(),
            provider: self.provider.clone(),
            task_id: self.task_id.clone(),
            node_id: self.node_id.clone(),
            metadata: self.metadata.clone(),
            acquired_at: self.acquired_at,
            lease_expires_at: self.lease_expires_at,
            updated_at: self.updated_at,
        }
    }
}

/// A lock on a resource, read.
#[derive(Debug)]
pub struct ResourceLockSnapshot {
    pub resource_key: String,
    pub lease_id: Uuid,
    pub owner: String,
    pub provider: Option<String>,
    pub task_id: Option<Uuid>,
    pub node_id: Option<Uuid>,
    pub metadata: serde_json::Value,
    pub acquired_at: i64,
    pub lease_expires_at: i64,
    pub updated_at: i64,
}

/// What a lock on a resource says.
pub struct LockInfo {
    pub resource_key: Seq<char>,
    pub lease_id: Uuid,
    pub owner: Seq<char>,
    pub provider: Option<Seq<char>>,
    pub task_id: Option<Uuid>,
    pub node_id: Option<Uuid>,
    pub metadata: Json,
    pub acquired_at: i64,
    pub lease_expires_at: i64,
    pub updated_at: i64,
}

impl View for ResourceLockSnapshot {
    type V = LockInfo;

    open spec fn view(&self) -> LockInfo {
        LockInfo {
            resource_key: self.resource_key@,
            lease_id: self.lease_id,
            owner: self.owner@,
            provider: opt_text(self.provider),
            task_id: self.task_id,
            node_id: self.node_id,
            metadata: json_content(self.metadata),
            acquired_at: self.acquired_at,
            lease_expires_at: self.lease_expires_at,
            updated_at: self.updated_at,
        }
    }
}

/// What a stored lock says, or the first failure to read it.
pub open spec fn read_lock(row: LockRecord) -> Result<LockInfo, DbFailure> {
    match (
        read_id(row.lease_id),
        read_opt_id(row.task_id),
        read_opt_id(row.node_id),
        read_json(row.metadata),
    ) {
        (Err(failure), _, _, _) => Err(failure),
        (_, Err(failure), _, _) => Err(failure),
        (_, _, Err(failure), _) => Err(failure),
        (_, _, _, Err(failure)) => Err(failure),
        (Ok(lease_id), Ok(task_id), Ok(node_id), Ok(metadata)) => Ok(
            LockInfo {
                resource_key: row.resource_key,
                lease_id,
                owner: row.owner,
                provider: row.provider,
                task_id,
                node_id,
                metadata,
                acquired_at: row.acquired_at,
                lease_expires_at: row.lease_expires_at,
                updated_at: row.updated_at,
            },
        ),
    }
}

impl ResourceLockSnapshot {
    /// Reads a stored lock.
    pub fn try_from(row: ResourceLockRow) -> (res: Result<ResourceLockSnapshot, DbError>)
        ensures
            match res {
                Ok(lock) => read_lock(row@) == Ok::<LockInfo, DbFailure>(lock@),
                Err(err) => read_lock(row@) == Err::<LockInfo, DbFailure>(err@),
            },
    {
        let lease_id = id_of(row.lease_id.as_str())?;
        let task_id = opt_id_of(&row.task_id)?;
        let node_id = opt_id_of(&row.node_id)?;
        let metadata = json_of(row.metadata.as_str())?;
        Ok(
            ResourceLockSnapshot {
                resource_key: row.resource_key,
                lease_id,
                owner: row.owner,
                provider: row.provider,
                task_id,
                node_id,
                metadata,
                acquired_at: row.acquired_at,
                lease_expires_at: row.lease_expires_at,
                updated_at: row.updated_at,
            },
        )
    }
}

/// A lock on a resource as it is granted.
#[derive(Debug)]
pub struct ResourceLockLease {
    pub resource_key: String,
    pub lease_id: Uuid,
    pub owner: String,
    pub provider: Option<String>,
    pub task_id: Option<Uuid>,
    pub node_id: Option<Uuid>,
    pub metadata: serde_json::Value,
    pub acquired_at: i64,
    pub lease_expires_at: i64,
}

/// What a granted lock says.
pub struct GrantInfo {
    pub resource_key: Seq<char>,
    pub lease_id: Uuid,
    pub owner: Seq<char>,
    pub provider: Option<Seq<char>>,
    pub task_id: Option<Uuid>,
    pub node_id: Option<Uuid>,
    pub metadata: Json,
    pub acquired_at: i64,
    pub lease_expires_at: i64,
}

impl View for ResourceLockLease {
    type V = GrantInfo;

    open spec fn view(&self) -> GrantInfo {
        GrantInfo {
            resource_key: self.resource_key@,
            lease_id: self.lease_id,
            owner: self.owner@,
            provider: opt_text(self.provider),
            task_id: self.task_id,
            node_id: self.node_id,
            metadata: json_content(self.metadata),
            acquired_at: self.acquired_at,
            lease_expires_at: self.lease_expires_at,
        }
    }
}

/// The grant that a stored lock amounts to, or the first failure to read it.
pub open spec fn read_grant(row: LockRecord) -> Result<GrantInfo, DbFailure> {
    match read_lock(row) {
        Ok(lock) => Ok(
            GrantInfo {
                resource_key: lock.resource_key,
                lease_id: lock.lease_id,
                owner: lock.owner,
                provider: lock.provider,
                task_id: lock.task_id,
                node_id: lock.node_id,
                metadata: lock.metadata,
                acquired_at: lock.acquired_at,
                lease_expires_at: lock.lease_expires_at,
            },
        ),
        Err(failure) => Err(failure),
    }
}

impl ResourceLockLease {
    /// Reads a stored lock as a grant.
    pub fn try_from(row: ResourceLockRow) -> (res: Result<ResourceLockLease, DbError>)
        ensures
            match res {
                Ok(grant) => read_grant(row@) == Ok::<GrantInfo, DbFailure>(grant@),
                Err(err) => read_grant(row@) == Err::<GrantInfo, DbFailure>(err@),
            },
    {
        let snapshot = ResourceLockSnapshot::try_from(row)?;
        Ok(
            ResourceLockLease {
                resource_key: snapshot.resource_key,
                lease_id: snapshot.lease_id,
                owner: snapshot.owner,
                provider: snapshot.provider,
                task_id: snapshot.task_id,
                node_id: snapshot.node_id,
                metadata: snapshot.metadata,
                acquired_at: snapshot.acquired_at,
                lease_expires_at: snapshot.lease_expires_at,
            },
        )
    }
}

/// A request for a lock on a resource.
#[derive(Debug)]
pub struct AcquireResourceLock {
    pub resource_key: String,
    pub owner: String,
    pub provider: Option<String>,
    pub lease_ttl: core::time::Duration,
    pub task_id: Option<Uuid>,
    pub node_id: Option<Uuid>,
    pub metadata: serde_json::Value,
}

} // verus!
