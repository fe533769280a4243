//! A host's request for a core context package: its checks, the limits and
//! query text it resolves to, and the note for an empty Core Store.
use vstd::prelude::*;
use crate::text::{is_blank, opt_view, trim_seq};
use crate::strset::str_eq;
use crate::types::{ContextPackageConfig, CoreContextTokenBudget};
use crate::error::MemoryEngineError;

verus! {

pub const CORE_CONTEXT_REQUEST_SCHEMA_VERSION: &'static str = "core_context_request.v1";

/// The widest offset from UTC, in minutes, that a request may carry.
pub const MAX_UTC_OFFSET_MINUTES: i32 = 1080;

/// What a host asks for when it wants a core context package.
pub struct CoreContextRequest {
    pub schema_version: String,
    pub session_id: String,
    pub domain_state: serde_json::Value,
    pub core_scope: Option<String>,
    pub query_text: Option<String>,
    pub recall_limit: usize,
    pub session_recent_limit: usize,
    pub session_trace_event_limit: usize,
    pub include_core: bool,
    pub utc_offset_minutes: i32,
    pub clock_untrusted: bool,
    pub token_budget: Option<CoreContextTokenBudget>,
}

// ---------------------------------------------------------------- checks

/// The first problem of a request after its schema: a blank session, or an
/// offset from UTC of more than eighteen hours either way.
pub open spec fn request_problem(session_id: Seq<char>, utc_offset_minutes: int) -> Option<
    Seq<char>,
> {
    if trim_seq(session_id).len() == 0 {
        Some("core context request session_id must not be empty"@)
    } else if utc_offset_minutes < -1080 || utc_offset_minutes > 1080 {
        Some("core context request utc_offset_minutes must be within +/-18 hours"@)
    } else {
        None
    }
}

/// Checks a request: the current schema, a session, and an offset from UTC
/// within eighteen hours either way.
pub fn validate_core_context_request(request: &CoreContextRequest) -> (r: Result<(), MemoryEngineError>)
    ensures
        request.schema_version@ != CORE_CONTEXT_REQUEST_SCHEMA_VERSION@ ==> (r matches Err(
            MemoryEngineError::IncompatibleSchema { expected, actual },
        ) && expected@ == CORE_CONTEXT_REQUEST_SCHEMA_VERSION@ && actual@
            == request.schema_version@),
        request.schema_version@ == CORE_CONTEXT_REQUEST_SCHEMA_VERSION@ ==> match request_problem(
            request.session_id@,
            request.utc_offset_minutes as int,
        ) {
            None => r is Ok,
            Some(m) => r matches Err(MemoryEngineError::Validation(v)) && v@ == m,
        },
{
    if !str_eq(request.schema_version.as_str(), CORE_CONTEXT_REQUEST_SCHEMA_VERSION) {
        return Err(
            MemoryEngineError::IncompatibleSchema {
                expected: CORE_CONTEXT_REQUEST_SCHEMA_VERSION.to_string(),
                actual: request.schema_version.clone(),
            },
        );
    }
    if is_blank(request.session_id.as_str()) {
        return Err(
            MemoryEngineError::Validation(
                "core context request session_id must not be empty".to_string(),
            ),
        );
    }
    if request.utc_offset_minutes < -MAX_UTC_OFFSET_MINUTES
        || request.utc_offset_minutes > MAX_UTC_OFFSET_MINUTES {
        return Err(
            MemoryEngineError::Validation(
                "core context request utc_offset_minutes must be within +/-18 hours".to_string(),
            ),
        );
    }
    Ok(())
}

// ---------------------------------------------------------------- limits and query

/// A requested limit, or the default when the request left it at zero.
pub open spec fn or_default(requested: usize, default: usize) -> usize {
    if requested == 0 {
        default
    } else {
        requested
    }
}

/// The first of three optional texts that is present.
pub open spec fn first_present(
    a: Option<Seq<char>>,
    b: Option<Seq<char>>,
    c: Option<Seq<char>>,
) -> Option<Seq<char>> {
    if a is Some {
        a
    } else if b is Some {
        b
    } else {
        c
    }
}

/// The limits, query text and token budget a request resolves to.
pub struct CoreContextPlan {
    pub session_recent_limit: usize,
    pub session_trace_limit: usize,
    pub recall_limit: usize,
    pub query_text: Option<String>,
    pub token_budget: CoreContextTokenBudget,
}

/// Resolves a request against the host's defaults: a zero limit takes the
/// default, the query text is the request's own or else the domain state's
/// recent text or else its current text, and a missing token budget takes
/// the configured one.
pub fn plan_core_context(
    request: &CoreContextRequest,
    config: &ContextPackageConfig,
    default_recall_limit: usize,
    recent_text: Option<String>,
    current_text: Option<String>,
) -> (r: CoreContextPlan)
    ensures
        r.session_recent_limit == or_default(
            request.session_recent_limit,
            config.default_session_recent_limit,
        ),
        r.session_trace_limit == or_default(
            request.session_trace_event_limit,
            config.default_session_trace_event_limit,
        ),
        r.recall_limit == or_default(request.recall_limit, default_recall_limit),
        opt_view(r.query_text) == first_present(
            opt_view(request.query_text),
            opt_view(recent_text),
            opt_view(current_text),
        ),
        r.token_budget == match request.token_budget {
            Some(b) => b,
            None => config.token_budget,
        },
{
    let session_recent_limit = if request.session_recent_limit == 0 {
        config.default_session_recent_limit
    } else {
        request.session_recent_limit
    };
    let session_trace_limit = if request.session_trace_event_limit == 0 {
        config.default_session_trace_event_limit
    } else {
        request.session_trace_event_limit
    };
    let recall_limit = if request.recall_limit == 0 {
        default_recall_limit
    } else {
        request.recall_limit
    };
    let query_text = match &request.query_text {
        Some(q) => Some(q.clone()),
        None => match recent_text {
            Some(t) => Some(t),
            None => current_text,
        },
    };
    let token_budget = match request.token_budget {
        Some(b) => b,
        None => config.token_budget,
    };
    CoreContextPlan { session_recent_limit, session_trace_limit, recall_limit, query_text, token_budget }
}

/// What `Value::get(key)` followed by `Value::as_str` gives: the string held
/// under `key` when the value is an object holding a string there. It
/// depends on the value and the key alone.
pub uninterp spec fn json_str_field(value: serde_json::Value, key: Seq<char>) -> Option<Seq<char>>;

/// `serde_json::Value::get` with `key`, then `Value::as_str`: the string held
/// under `key` when the value is an object holding a string there.
#[verifier::external_body]
pub(crate) fn value_str_field(value: &serde_json::Value, key: &str) -> (r: Option<String>)
    ensures
        opt_view(r) == json_str_field(*value, key@),
{
    value.get(key).and_then(serde_json::Value::as_str).map(str::to_string)
}

/// Resolves a request against the host's defaults, taking the fallback query
/// texts from the domain state's `recent_text` and `current_text` fields.
/// A query text in the request itself always wins.
pub fn plan_core_context_request(
    request: &CoreContextRequest,
    config: &ContextPackageConfig,
    default_recall_limit: usize,
) -> (r: CoreContextPlan)
    ensures
        r.session_recent_limit == or_default(
            request.session_recent_limit,
            config.default_session_recent_limit,
        ),
        r.session_trace_limit == or_default(
            request.session_trace_event_limit,
            config.default_session_trace_event_limit,
        ),
        r.recall_limit == or_default(request.recall_limit, default_recall_limit),
        opt_view(r.query_text) == first_present(
            opt_view(request.query_text),
            json_str_field(request.domain_state, "recent_text"@),
            json_str_field(request.domain_state, "current_text"@),
        ),
        r.token_budget == match request.token_budget {
            Some(b) => b,
            None => config.token_budget,
        },
{
    let recent = value_str_field(&request.domain_state, "recent_text");
    let current = value_str_field(&request.domain_state, "current_text");
    let r = plan_core_context(request, config, default_recall_limit, recent, current);
    assert(opt_view(r.query_text) == first_present(
        opt_view(request.query_text),
        opt_view(recent),
        opt_view(current),
    ));
    r
}

// ---------------------------------------------------------------- notes

/// The note a package carries when Core Store facts were asked for and none
/// came back.
pub open spec fn empty_core_note_spec(include_core: bool, core_fact_count: nat) -> Option<Seq<char>> {
    if include_core && core_fact_count == 0 {
        Some("core_facts are empty; no stable Core Store facts have been saved yet."@)
    } else {
        None
    }
}

/// The note about an empty Core Store, when the request asked for its facts
/// and there are none.
pub fn empty_core_note(include_core: bool, core_fact_count: usize) -> (r: Option<String>)
    ensures
        opt_view(r) == empty_core_note_spec(include_core, core_fact_count as nat),
{
    if include_core && core_fact_count == 0 {
        Some("core_facts are empty; no stable Core Store facts have been saved yet.".to_string())
    } else {
        None
    }
}

} // verus!
