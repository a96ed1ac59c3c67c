//! The MCP server's request rules: which requests are answered and how, protocol
//! version negotiation, the modern-protocol marker, tool-call arguments, and the
//! command-line and environment switches of the server.
use vstd::prelude::*;

use crate::catalog::{cli_command_names, command_for_tool, command_of_tool};
use crate::text::text_eq;

verus! {

/// The modern protocol version.
pub const MODERN_PROTOCOL: &'static str = "2026-07-28";

/// The legacy version answered when a client asks for an unknown one.
pub const LATEST_LEGACY_PROTOCOL: &'static str = "2025-11-25";

/// JSON-RPC: the request was not JSON.
pub const PARSE_ERROR: i64 = -32700;

/// JSON-RPC: the request was not a valid request object.
pub const INVALID_REQUEST: i64 = -32600;

/// JSON-RPC: no such method.
pub const METHOD_NOT_FOUND: i64 = -32601;

/// JSON-RPC: the parameters were refused.
pub const INVALID_PARAMS: i64 = -32602;

/// The legacy protocol versions the server speaks, newest first.
pub open spec fn legacy_protocols() -> Seq<Seq<char>> {
    seq!["2025-11-25"@, "2025-06-18"@, "2025-03-26"@, "2024-11-05"@]
}

/// The version `initialize` answers: the requested legacy version when the server
/// speaks it, else the latest legacy version (also when none was requested).
pub open spec fn negotiated(requested: Option<Seq<char>>) -> Seq<char> {
    match requested {
        Some(v) => if legacy_protocols().contains(v) {
            v
        } else {
            "2025-11-25"@
        },
        None => "2025-11-25"@,
    }
}

/// `initialize_result`'s version negotiation.
pub fn negotiate_protocol(requested: Option<&str>) -> (r: &'static str)
    ensures
        r@ == negotiated(
            match requested {
                Some(v) => Some(v@),
                None => None,
            },
        ),
{
    let v = match requested {
        Some(v) => v,
        None => return "2025-11-25",
    };
    let r = if text_eq(v, "2025-11-25") {
        "2025-11-25"
    } else if text_eq(v, "2025-06-18") {
        "2025-06-18"
    } else if text_eq(v, "2025-03-26") {
        "2025-03-26"
    } else if text_eq(v, "2024-11-05") {
        "2024-11-05"
    } else {
        "2025-11-25"
    };
    proof {
        let l = legacy_protocols();
        if l.contains(v@) {
            let i = choose|i: int| 0 <= i < l.len() && l[i] == v@;
            assert(i == 0 || i == 1 || i == 2 || i == 3);
        } else {
            assert(v@ != l[0] && v@ != l[1] && v@ != l[2] && v@ != l[3]);
        }
        if v@ == "2025-06-18"@ {
            assert(l[1] == v@);
        }
        if v@ == "2025-03-26"@ {
            assert(l[2] == v@);
        }
        if v@ == "2024-11-05"@ {
            assert(l[3] == v@);
        }
        if v@ == "2025-11-25"@ {
            assert(l[0] == v@);
        }
    }
    r
}

/// `request_is_modern` (or discovery): the request speaks the modern protocol.
pub fn is_modern(method: &str, meta_protocol_version: Option<&str>) -> (r: bool)
    ensures
        r == (method@ == "server/discover"@ || match meta_protocol_version {
            Some(v) => v@ == "2026-07-28"@,
            None => false,
        }),
{
    text_eq(method, "server/discover") || match meta_protocol_version {
        Some(v) => text_eq(v, "2026-07-28"),
        None => false,
    }
}

/// The methods the server knows.
#[derive(Clone, Copy, Debug, PartialEq, Eq, Structural)]
pub enum Method {
    Discover,
    Initialize,
    Ping,
    ToolsList,
    ToolsCall,
    ResourcesList,
    ResourceTemplatesList,
    ResourcesRead,
    PromptsList,
    PromptsGet,
    Initialized,
    Unknown,
}

/// The method a name denotes.
pub open spec fn method_of(name: Seq<char>) -> Method {
    if name == "server/discover"@ {
        Method::Discover
    } else if name == "initialize"@ {
        Method::Initialize
    } else if name == "ping"@ {
        Method::Ping
    } else if name == "tools/list"@ {
        Method::ToolsList
    } else if name == "tools/call"@ {
        Method::ToolsCall
    } else if name == "resources/list"@ {
        Method::ResourcesList
    } else if name == "resources/templates/list"@ {
        Method::ResourceTemplatesList
    } else if name == "resources/read"@ {
        Method::ResourcesRead
    } else if name == "prompts/list"@ {
        Method::PromptsList
    } else if name == "prompts/get"@ {
        Method::PromptsGet
    } else if name == "notifications/initialized"@ {
        Method::Initialized
    } else {
        Method::Unknown
    }
}

/// `handle`'s routing.
pub fn route(name: &str) -> (r: Method)
    ensures
        r == method_of(name@),
{
    if text_eq(name, "server/discover") {
        Method::Discover
    } else if text_eq(name, "initialize") {
        Method::Initialize
    } else if text_eq(name, "ping") {
        Method::Ping
    } else if text_eq(name, "tools/list") {
        Method::ToolsList
    } else if text_eq(name, "tools/call") {
        Method::ToolsCall
    } else if text_eq(name, "resources/list") {
        Method::ResourcesList
    } else if text_eq(name, "resources/templates/list") {
        Method::ResourceTemplatesList
    } else if text_eq(name, "resources/read") {
        Method::ResourcesRead
    } else if text_eq(name, "prompts/list") {
        Method::PromptsList
    } else if text_eq(name, "prompts/get") {
        Method::PromptsGet
    } else if text_eq(name, "notifications/initialized") {
        Method::Initialized
    } else {
        Method::Unknown
    }
}

/// What `handle` reads of a request: whether it is an object, says `jsonrpc: "2.0"`,
/// carries an id, and its method name when it is a string.
#[derive(Clone, Debug)]
pub struct RequestShape {
    pub is_object: bool,
    pub jsonrpc_2_0: bool,
    pub has_id: bool,
    pub method: Option<String>,
}

/// How a request is handled.
#[derive(Clone, Copy, Debug, PartialEq, Eq, Structural)]
pub enum Handling {
    /// Answer `Invalid Request` with a null id.
    InvalidRequest,
    /// Answer `Invalid Request` to the request's id.
    InvalidRequestWithId,
    /// Answer `Method not found` to the request's id.
    MethodNotFound,
    /// Run the method; answer only when the request has an id.
    Run { method: Method, reply: bool },
    /// Send nothing.
    Silent,
}

/// `handle`'s decision for a request.
pub open spec fn handling_of(r: RequestShape) -> Handling {
    if !r.is_object || !r.jsonrpc_2_0 {
        Handling::InvalidRequest
    } else {
        match r.method {
            None => if r.has_id {
                Handling::InvalidRequestWithId
            } else {
                Handling::Silent
            },
            Some(m) => {
                let method = method_of(m@);
                if method == Method::Initialized {
                    Handling::Silent
                } else if method == Method::Unknown {
                    if r.has_id {
                        Handling::MethodNotFound
                    } else {
                        Handling::Silent
                    }
                } else {
                    Handling::Run { method, reply: r.has_id }
                }
            },
        }
    }
}

/// `handle`: how a request is answered.
pub fn handling(request: &RequestShape) -> (r: Handling)
    ensures
        r == handling_of(*request),
{
    if !request.is_object || !request.jsonrpc_2_0 {
        return Handling::InvalidRequest;
    }
    match &request.method {
        None => if request.has_id {
            Handling::InvalidRequestWithId
        } else {
            Handling::Silent
        },
        Some(m) => {
            let method = route(m.as_str());
            match method {
                Method::Initialized => Handling::Silent,
                Method::Unknown => if request.has_id {
                    Handling::MethodNotFound
                } else {
                    Handling::Silent
                },
                _ => Handling::Run { method, reply: request.has_id },
            }
        },
    }
}

/// Why a tool call was refused.
#[derive(Clone, Copy, Debug, PartialEq, Eq, Structural)]
pub enum ToolCallError {
    /// `name` is missing or not a string.
    MissingName,
    /// No tool has the name.
    UnknownTool,
    /// `arguments` is neither an object nor null.
    ArgumentsNotObject,
}

/// The kind of a tool call's `arguments`.
#[derive(Clone, Copy, Debug, PartialEq, Eq, Structural)]
pub enum ArgumentsKind {
    Missing,
    Null,
    Object,
    Other,
}

/// `call_tool`'s checks: the command behind the named tool, before any side effect.
pub fn check_tool_call(name: Option<&str>, arguments: ArgumentsKind) -> (r: Result<String, ToolCallError>)
    ensures
        match name {
            None => r == Err::<String, ToolCallError>(ToolCallError::MissingName),
            Some(n) => match command_of_tool(cli_command_names(), n@) {
                None => r == Err::<String, ToolCallError>(ToolCallError::UnknownTool),
                Some(c) => if arguments == ArgumentsKind::Other {
                    r == Err::<String, ToolCallError>(ToolCallError::ArgumentsNotObject)
                } else {
                    r matches Ok(x) && x@ == c
                },
            },
        },
{
    let n = match name {
        Some(n) => n,
        None => return Err(ToolCallError::MissingName),
    };
    let command = match command_for_tool(n) {
        Some(c) => c,
        None => return Err(ToolCallError::UnknownTool),
    };
    if arguments == ArgumentsKind::Other {
        return Err(ToolCallError::ArgumentsNotObject);
    }
    Ok(command)
}

/// An environment value that switches a flag on.
pub open spec fn truthy(v: Seq<char>) -> bool {
    v == "1"@ || v == "true"@ || v == "TRUE"@ || v == "yes"@ || v == "YES"@
}

/// `headed_requested`: the `--headed` flag, or a truthy `AGENT_DESKTOP_MCP_HEADED`.
pub fn headed_requested(flag: bool, env_value: Option<&str>) -> (r: bool)
    ensures
        r == (flag || match env_value {
            Some(v) => truthy(v@),
            None => false,
        }),
{
    flag || match env_value {
        Some(v) => text_eq(v, "1") || text_eq(v, "true") || text_eq(v, "TRUE") || text_eq(v, "yes")
            || text_eq(v, "YES"),
        None => false,
    }
}

/// An argument asking for help or the version.
pub open spec fn help_or_version(a: Seq<char>) -> bool {
    a == "-h"@ || a == "--help"@ || a == "-V"@ || a == "--version"@
}

/// `requested`: the process serves MCP when `--mcp` is given and help or the version is
/// not asked for.
pub fn mcp_requested(args: &Vec<String>) -> (r: bool)
    ensures
        r == ((exists|i: int| 0 <= i < args.len() && (#[trigger] args@[i])@ == "--mcp"@) && !(exists|i: int|
            0 <= i < args.len() && help_or_version((#[trigger] args@[i])@))),
{
    let mut mcp = false;
    let mut help = false;
    let mut i: usize = 0;
    while i < args.len()
        invariant
            i <= args.len(),
            mcp == exists|q: int| 0 <= q < i && (#[trigger] args@[q])@ == "--mcp"@,
            help == exists|q: int| 0 <= q < i && help_or_version((#[trigger] args@[q])@),
        decreases args.len() - i,
    {
        let a = args[i].as_str();
        if text_eq(a, "--mcp") {
            mcp = true;
        }
        if text_eq(a, "-h") || text_eq(a, "--help") || text_eq(a, "-V") || text_eq(a, "--version") {
            help = true;
        }
        i = i + 1;
    }
    mcp && !help
}

/// `initialize` always answers a legacy version the server speaks.
pub proof fn lemma_negotiated_version_is_supported(requested: Option<Seq<char>>)
    ensures
        legacy_protocols().contains(negotiated(requested)),
{
    assert(legacy_protocols()[0] == "2025-11-25"@);
}

/// A request without an id (a notification) is never answered with its id: it gets no
/// answer, or a null-id `Invalid Request` when it is not a valid request at all.
pub proof fn lemma_notifications_get_no_reply(r: RequestShape)
    requires
        !r.has_id,
    ensures
        handling_of(r) == Handling::InvalidRequest || handling_of(r) == Handling::Silent
            || (handling_of(r) matches Handling::Run { reply, .. } && !reply),
{
}

} // verus!
