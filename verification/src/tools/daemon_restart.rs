//! The `daemon_restart` tool: has the running daemon replaced by a fresh
//! invocation of itself, after a delay that lets the reply reach the user.
use crate::number::decimal;
use crate::number::push_decimal;
use vstd::prelude::*;
use vstd::string::*;

verus! {

/// The delay in seconds where the arguments give none.
pub const DEFAULT_DELAY_SECS: u64 = 2;

/// The longest delay in seconds.
pub const MAX_DELAY_SECS: u64 = 30;

// ---------------------------------------------------------------------------
// Arguments
// ---------------------------------------------------------------------------
/// `serde_json::Value`, the JSON value that holds the arguments of a call.
#[verifier::external_type_specification]
#[verifier::external_body]
pub struct ExValue(serde_json::Value);

/// The members of a JSON object whose values are integers that a `u64` can
/// hold. A value that is no object has none.
pub uninterp spec fn integer_members(value: serde_json::Value) -> Map<Seq<char>, u64>;

/// The members of a JSON object whose values are strings. A value that is no
/// object has none.
pub uninterp spec fn string_members(value: serde_json::Value) -> Map<Seq<char>, Seq<char>>;

/// `serde_json::Value::get` with a key, then `Value::as_u64` on what it finds.
/// Trusted to give the integer under that key, where the value is an object
/// with such a member.
#[verifier::external_body]
fn get_integer(value: &serde_json::Value, key: &str) -> (found: Option<u64>)
    ensures
        found == (if integer_members(*value).dom().contains(key@) {
            Some(integer_members(*value)[key@])
        } else {
            None
        }),
{
    value.get(key)?.as_u64()
}

/// `serde_json::Value::get` with a key, then `Value::as_str` on what it finds.
/// Trusted to give the string under that key, where the value is an object
/// with such a member.
#[verifier::external_body]
fn get_string<'a>(value: &'a serde_json::Value, key: &str) -> (found: Option<&'a str>)
    ensures
        match found {
            Some(text) => string_members(*value).dom().contains(key@) && string_members(
                *value,
            )[key@] == text@,
            None => !string_members(*value).dom().contains(key@),
        },
{
    value.get(key)?.as_str()
}

/// What a member of an object holds, if the object has that member.
pub open spec fn member<V>(members: Map<Seq<char>, V>, key: Seq<char>) -> Option<V> {
    if members.dom().contains(key) {
        Some(members[key])
    } else {
        None
    }
}

// ---------------------------------------------------------------------------
// The schema of the arguments
// ---------------------------------------------------------------------------
/// The schema of an integer argument.
#[derive(Debug)]
pub struct IntegerParameter {
    pub name: &'static str,
    pub minimum: u64,
    pub maximum: u64,
    pub default: u64,
    pub description: &'static str,
}

/// The schema of a text argument.
#[derive(Debug)]
pub struct StringParameter {
    pub name: &'static str,
    pub description: &'static str,
}

/// The schema of the arguments: an object with these two optional members.
#[derive(Debug)]
pub struct ParametersSchema {
    pub delay: IntegerParameter,
    pub reason: StringParameter,
    pub additional_properties: bool,
}

// ---------------------------------------------------------------------------
// The tool
// ---------------------------------------------------------------------------
/// The outcome that the caller of a tool sees.
#[derive(Debug)]
pub struct ToolResult {
    pub success: bool,
    pub output: String,
    pub error: Option<String>,
}

/// A restart to be carried out, and the confirmation for the caller.
#[derive(Debug)]
pub struct RestartPlan {
    pub delay_secs: u64,
    pub reason: String,
    pub result: ToolResult,
}

/// The delay that is waited for a requested one.
pub open spec fn chosen_delay(requested: Option<u64>) -> u64 {
    let delay = match requested {
        Some(secs) => secs,
        None => DEFAULT_DELAY_SECS,
    };
    if delay <= MAX_DELAY_SECS {
        delay
    } else {
        MAX_DELAY_SECS
    }
}

/// The reason that is recorded for a given one.
pub open spec fn chosen_reason(given: Option<Seq<char>>) -> Seq<char> {
    match given {
        Some(reason) => reason,
        None => "agent-initiated"@,
    }
}

/// The confirmation of a restart.
pub open spec fn confirmation(delay_secs: u64) -> Seq<char> {
    "Re-exec scheduled in ~"@ + decimal(delay_secs as nat)
        + "s. PID preserved; new binary picks up config changes."@
}

impl RestartPlan {
    /// Whether this is the plan for a requested delay and a given reason.
    pub open spec fn answers(self, requested: Option<u64>, given: Option<Seq<char>>) -> bool {
        &&& self.delay_secs == chosen_delay(requested)
        &&& self.reason@ == chosen_reason(given)
        &&& self.result.success
        &&& self.result.output@ == confirmation(self.delay_secs)
        &&& self.result.error is None
    }
}

/// Plans a restart.
pub fn plan_restart(requested: Option<u64>, given: Option<&str>) -> (plan: RestartPlan)
    ensures
        plan.answers(
            requested,
            match given {
                Some(reason) => Some(reason@),
                None => None,
            },
        ),
{
    let wanted: u64 = match requested {
        Some(secs) => secs,
        None => DEFAULT_DELAY_SECS,
    };
    let delay_secs: u64 = if wanted <= MAX_DELAY_SECS {
        wanted
    } else {
        MAX_DELAY_SECS
    };
    let reason: String = match given {
        Some(reason) => reason.to_owned(),
        None => "agent-initiated".to_owned(),
    };
    let mut output: String = "Re-exec scheduled in ~".to_owned();
    push_decimal(&mut output, delay_secs);
    output.append("s. PID preserved; new binary picks up config changes.");
    RestartPlan { delay_secs, reason, result: ToolResult { success: true, output, error: None } }
}

/// The tool that restarts the daemon.
#[derive(Debug)]
pub struct DaemonRestartTool;

impl DaemonRestartTool {
    /// Makes the tool.
    pub fn new() -> (tool: Self)
        ensures
            tool == DaemonRestartTool,
    {
        Self
    }

    /// The name under which the tool is called.
    pub fn name(&self) -> (name: &str)
        ensures
            name@ == "daemon_restart"@,
    {
        "daemon_restart"
    }

    /// What the tool does, as the model is told.
    pub fn description(&self) -> (description: &str)
        ensures
            description@ == TOOL_DESCRIPTION@,
    {
        TOOL_DESCRIPTION
    }

    /// The schema of the tool's arguments.
    pub fn parameters_schema(&self) -> (schema: ParametersSchema)
        ensures
            schema.delay.name@ == "delay_secs"@,
            schema.delay.minimum == 0,
            schema.delay.maximum == MAX_DELAY_SECS,
            schema.delay.default == DEFAULT_DELAY_SECS,
            schema.delay.description@
                == "Seconds to wait before exec (lets the reply ship). Default 2."@,
            schema.reason.name@ == "reason"@,
            schema.reason.description@ == "Optional human-readable reason recorded in logs."@,
            !schema.additional_properties,
    {
        ParametersSchema {
            delay: IntegerParameter {
                name: "delay_secs",
                minimum: 0,
                maximum: MAX_DELAY_SECS,
                default: DEFAULT_DELAY_SECS,
                description: "Seconds to wait before exec (lets the reply ship). Default 2.",
            },
            reason: StringParameter {
                name: "reason",
                description: "Optional human-readable reason recorded in logs.",
            },
            additional_properties: false,
        }
    }

    /// Plans the restart that a call with these arguments asks for.
    pub fn execute(&self, args: &serde_json::Value) -> (plan: RestartPlan)
        ensures
            plan.answers(
                member(integer_members(*args), "delay_secs"@),
                member(string_members(*args), "reason"@),
            ),
    {
        let requested: Option<u64> = get_integer(args, "delay_secs");
        let given: Option<&str> = get_string(args, "reason");
        plan_restart(requested, given)
    }
}

impl Default for DaemonRestartTool {
    fn default() -> (tool: Self)
        ensures
            tool == DaemonRestartTool,
    {
        Self::new()
    }
}

/// What the tool does, as the model is told.
pub const TOOL_DESCRIPTION: &'static str = "Re-exec the zeroclaw daemon to pick up config or provider changes. \
         The current process image is replaced atomically; the PID is preserved. \
         Use after editing ~/.zeroclaw/config.toml or registering a new MCP server. \
         Returns immediately with a confirmation; the actual exec fires ~2s later \
         so the in-flight reply still reaches the user.";

/// A restart is delayed by at least the minimum and at most the maximum of the
/// schema. A requested delay in that range is kept, and the schema's default is
/// taken where none is requested.
pub proof fn law_delay_stays_in_schema(requested: Option<u64>)
    ensures
        0 <= chosen_delay(requested) <= MAX_DELAY_SECS,
        requested matches Some(secs) && secs <= MAX_DELAY_SECS ==> chosen_delay(requested)
            == requested->Some_0,
        requested is None ==> chosen_delay(requested) == DEFAULT_DELAY_SECS,
{
}

/// A delay that is too long is cut to the longest one, and every shorter one is
/// waited as requested; the reason is recorded as given, and where none is given
/// the agent is named.
pub proof fn law_request_is_followed(secs: u64, reason: Seq<char>)
    ensures
        secs > 30 ==> chosen_delay(Some(secs)) == 30,
        secs <= 30 ==> chosen_delay(Some(secs)) == secs,
        chosen_delay(None) == 2,
        chosen_reason(Some(reason)) == reason,
        chosen_reason(None) == "agent-initiated"@,
{
}

/// The confirmation tells the delay: it has the number of seconds between two
/// texts that are always the same.
pub proof fn law_confirmation_tells_the_delay(delay_secs: u64)
    ensures
        ({
            let head = "Re-exec scheduled in ~"@;
            let tail = "s. PID preserved; new binary picks up config changes."@;
            let text = confirmation(delay_secs);
            &&& head.is_prefix_of(text)
            &&& tail.is_suffix_of(text)
            &&& text.subrange(head.len() as int, text.len() - tail.len()) == decimal(
                delay_secs as nat,
            )
        }),
{
    let head = "Re-exec scheduled in ~"@;
    let tail = "s. PID preserved; new binary picks up config changes."@;
    let text = confirmation(delay_secs);
    assert(text.subrange(0, head.len() as int) =~= head);
    assert(text.subrange(text.len() - tail.len(), text.len() as int) =~= tail);
    assert(text.subrange(head.len() as int, text.len() - tail.len()) =~= decimal(
        delay_secs as nat,
    ));
}

/// A plan for a restart tells the caller of success, without an error and with
/// the confirmation of the delay that is waited.
pub proof fn law_plan_confirms_its_delay(
    plan: RestartPlan,
    requested: Option<u64>,
    given: Option<Seq<char>>,
)
    requires
        plan.answers(requested, given),
    ensures
        plan.delay_secs == chosen_delay(requested),
        plan.reason@ == chosen_reason(given),
        plan.result.success,
        plan.result.error is None,
        plan.result.output@ == confirmation(plan.delay_secs),
{
}

} // verus!
