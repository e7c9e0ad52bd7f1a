//! Telemetry records. A session execution record is built incrementally
//! across a reply invocation, finalized exactly once with success or failure,
//! and handed to a fire-and-forget sink by the runtime.

use vstd::prelude::*;

verus! {

/// What kind of session an execution record describes.
#[derive(Clone, Copy, Debug, PartialEq, Eq, Structural)]
pub enum SessionType {
    Interactive,
    Scheduled,
}

/// How a session ended.
#[derive(Clone, Debug, PartialEq, Eq)]
pub enum SessionResult {
    Success,
    Error(String),
}

/// The telemetry record for one reply invocation.
#[derive(Clone, Debug, PartialEq, Eq)]
pub struct SessionExecution {
    pub session_id: String,
    pub session_type: SessionType,
    pub metadata: Vec<(String, String)>,
    pub result: Option<SessionResult>,
    pub message_count: Option<u64>,
    pub turn_count: Option<u64>,
    pub duration_ms: Option<u64>,
}

/// The ordered key/value image of a metadata list.
pub open spec fn metadata_view(m: Seq<(String, String)>) -> Seq<(Seq<char>, Seq<char>)> {
    m.map_values(|p: (String, String)| (p.0@, p.1@))
}

impl SessionExecution {
    /// A record is finalized once a result has been set.
    pub open spec fn finalized(&self) -> bool {
        self.result is Some
    }

    /// A fresh, unfinalized record.
    pub fn new(session_id: String, session_type: SessionType) -> (e: SessionExecution)
        ensures
            e.session_id@ == session_id@,
            e.session_type == session_type,
            metadata_view(e.metadata@) =~= Seq::<(Seq<char>, Seq<char>)>::empty(),
            !e.finalized(),
            e.message_count is None,
            e.turn_count is None,
            e.duration_ms is None,
    {
        SessionExecution {
            session_id,
            session_type,
            metadata: Vec::new(),
            result: None,
            message_count: None,
            turn_count: None,
            duration_ms: None,
        }
    }

    /// The record with one more metadata pair appended; every other field is
    /// kept.
    pub fn with_metadata(self, key: &str, value: &str) -> (e: SessionExecution)
        ensures
            metadata_view(e.metadata@) =~= metadata_view(self.metadata@).push((key@, value@)),
            e.session_id == self.session_id,
            e.session_type == self.session_type,
            e.result == self.result,
            e.message_count == self.message_count,
            e.turn_count == self.turn_count,
            e.duration_ms == self.duration_ms,
    {
        let mut e = self;
        e.metadata.push((String::from_str(key), String::from_str(value)));
        e
    }

    /// Finalize the record. A record is finalized exactly once: a result may
    /// not be set twice.
    pub fn with_result(self, result: SessionResult) -> (e: SessionExecution)
        requires
            !self.finalized(),
        ensures
            e.result == Some(result),
            e.finalized(),
            e.session_id == self.session_id,
            e.session_type == self.session_type,
            e.metadata == self.metadata,
            e.message_count == self.message_count,
            e.turn_count == self.turn_count,
            e.duration_ms == self.duration_ms,
    {
        let mut e = self;
        e.result = Some(result);
        e
    }

    /// The record with the message count filled in.
    pub fn with_message_count(self, count: u64) -> (e: SessionExecution)
        ensures
            e == (SessionExecution { message_count: Some(count), ..self }),
    {
        let mut e = self;
        e.message_count = Some(count);
        e
    }

    /// The record with the turn count filled in.
    pub fn with_turn_count(self, count: u64) -> (e: SessionExecution)
        ensures
            e == (SessionExecution { turn_count: Some(count), ..self }),
    {
        let mut e = self;
        e.turn_count = Some(count);
        e
    }

    /// The record with the wall-clock duration filled in.
    pub fn with_duration(self, duration_ms: u64) -> (e: SessionExecution)
        ensures
            e == (SessionExecution { duration_ms: Some(duration_ms), ..self }),
    {
        let mut e = self;
        e.duration_ms = Some(duration_ms);
        e
    }
}

/// The metadata a fresh server-side record starts with.
pub open spec fn spec_initial_metadata(
    session_type: Seq<char>,
    recipe_name: Option<Seq<char>>,
    recipe_version: Option<Seq<char>>,
) -> Seq<(Seq<char>, Seq<char>)> {
    let base = seq![
        ("execution_mode"@, "server"@),
        ("session_type"@, session_type),
        ("interface"@, "ui"@),
    ];
    let with_recipe = match recipe_name {
        Some(name) => base + seq![("recipe_name"@, name), ("session_mode"@, "recipe"@)],
        None => base,
    };
    let with_version = match recipe_version {
        Some(version) => with_recipe + seq![("recipe_version"@, version)],
        None => with_recipe,
    };
    match recipe_name {
        Some(_) => with_version,
        None => with_version + seq![("session_mode"@, "chat"@)],
    }
}

/// The session execution record a server-side invocation starts from: the
/// execution mode, session type and interface, plus the recipe pairs when the
/// invocation came from a named recipe, else a plain chat marker.
pub fn create_session_execution(
    session_id: &str,
    session_type: &str,
    recipe_name: Option<&str>,
    recipe_version: Option<&str>,
) -> (e: SessionExecution)
    ensures
        e.session_id@ == session_id@,
        e.session_type == SessionType::Interactive,
        !e.finalized(),
        e.message_count is None,
        e.turn_count is None,
        e.duration_ms is None,
        metadata_view(e.metadata@) =~= spec_initial_metadata(
            session_type@,
            match recipe_name {
                Some(n) => Some(n@),
                None => None,
            },
            match recipe_version {
                Some(v) => Some(v@),
                None => None,
            },
        ),
{
    let mut session_execution = SessionExecution::new(
        String::from_str(session_id),
        SessionType::Interactive,
    ).with_metadata("execution_mode", "server").with_metadata(
        "session_type",
        session_type,
    ).with_metadata("interface", "ui");

    if let Some(name) = recipe_name {
        session_execution = session_execution.with_metadata("recipe_name", name).with_metadata(
            "session_mode",
            "recipe",
        );
    }
    if let Some(version) = recipe_version {
        session_execution = session_execution.with_metadata("recipe_version", version);
    }
    if recipe_name.is_none() {
        session_execution = session_execution.with_metadata("session_mode", "chat");
    }
    session_execution
}

/// Finalize a record as failed, filling the error, the duration and whatever
/// counts are known.
pub fn fail_execution(
    session_execution: SessionExecution,
    error_message: String,
    duration_ms: u64,
    message_count: Option<u64>,
    turn_count: Option<u64>,
) -> (e: SessionExecution)
    requires
        !session_execution.finalized(),
    ensures
        e.finalized(),
        e.result matches Some(r) && r matches SessionResult::Error(m) && m@ == error_message@,
        e.duration_ms == Some(duration_ms),
        e.message_count == (match message_count {
            Some(c) => Some(c),
            None => session_execution.message_count,
        }),
        e.turn_count == (match turn_count {
            Some(c) => Some(c),
            None => session_execution.turn_count,
        }),
        e.session_id == session_execution.session_id,
        e.session_type == session_execution.session_type,
        e.metadata == session_execution.metadata,
{
    let mut e = session_execution.with_result(SessionResult::Error(error_message)).with_duration(
        duration_ms,
    );
    if let Some(count) = message_count {
        e = e.with_message_count(count);
    }
    if let Some(count) = turn_count {
        e = e.with_turn_count(count);
    }
    e
}

/// Finalize a record as successful, filling the counts and the duration.
pub fn succeed_execution(
    session_execution: SessionExecution,
    duration_ms: u64,
    message_count: u64,
    turn_count: u64,
) -> (e: SessionExecution)
    requires
        !session_execution.finalized(),
    ensures
        e.finalized(),
        e.result == Some(SessionResult::Success),
        e.duration_ms == Some(duration_ms),
        e.message_count == Some(message_count),
        e.turn_count == Some(turn_count),
        e.session_id == session_execution.session_id,
        e.session_type == session_execution.session_type,
        e.metadata == session_execution.metadata,
{
    session_execution.with_result(SessionResult::Success).with_message_count(
        message_count,
    ).with_turn_count(turn_count).with_duration(duration_ms)
}

/// The telemetry record for one recipe-driven invocation.
#[derive(Clone, Debug, PartialEq, Eq)]
pub struct RecipeExecution {
    pub recipe_name: String,
    pub recipe_version: String,
    pub result: SessionResult,
    pub duration_ms: u64,
    pub metadata: Vec<(String, String)>,
}

/// The recipe execution record sent when an invocation originated from a
/// named recipe: name, version, outcome, duration and the server metadata.
pub fn build_recipe_execution(
    recipe_name: &str,
    recipe_version: &str,
    result: SessionResult,
    duration_ms: u64,
    session_type: &str,
) -> (e: RecipeExecution)
    ensures
        e.recipe_name@ == recipe_name@,
        e.recipe_version@ == recipe_version@,
        e.result == result,
        e.duration_ms == duration_ms,
        metadata_view(e.metadata@) =~= seq![
            ("interface"@, "ui"@),
            ("execution_mode"@, "server"@),
            ("session_type"@, session_type@),
        ],
{
    let mut metadata: Vec<(String, String)> = Vec::new();
    metadata.push((String::from_str("interface"), String::from_str("ui")));
    metadata.push((String::from_str("execution_mode"), String::from_str("server")));
    metadata.push((String::from_str("session_type"), String::from_str(session_type)));
    RecipeExecution {
        recipe_name: String::from_str(recipe_name),
        recipe_version: String::from_str(recipe_version),
        result,
        duration_ms,
        metadata,
    }
}

} // verus!
