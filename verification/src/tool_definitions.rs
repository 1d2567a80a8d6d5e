//! What each tool tells the model about itself: its name, what it does,
//! and the JSON schema of its arguments.
use vstd::prelude::*;

verus! {

/// A tool's self-description. `parameters` is the JSON text of the schema
/// of its arguments.
#[derive(Debug, Clone, PartialEq, Eq)]
pub struct ToolDefinition {
    pub name: String,
    pub description: String,
    pub parameters: String,
}

fn definition(name: &str, description: &str, parameters: &str) -> (d: ToolDefinition)
    ensures
        d.name@ == name@,
        d.description@ == description@,
        d.parameters@ == parameters@,
{
    ToolDefinition {
        name: name.to_owned(),
        description: description.to_owned(),
        parameters: parameters.to_owned(),
    }
}

/// The definition of the `fs-read` tool.
pub fn fs_read_definition() -> (d: ToolDefinition)
    ensures
        d.name@ == "fs-read"@,
        d.description@ == "Read a file body under the captured root. When `range` is supplied, returns the 1-indexed inclusive line span joined by newlines. No line numbers are added."@,
        d.parameters@ == "{\"type\":\"object\",\"properties\":{\"path\":{\"type\":\"string\",\"description\":\"File path relative to the captured root.\"},\"range\":{\"type\":\"object\",\"description\":\"Optional 1-indexed inclusive line span.\",\"properties\":{\"start\":{\"type\":\"integer\",\"minimum\":1},\"end\":{\"type\":\"integer\",\"minimum\":1}},\"required\":[\"start\",\"end\"]}},\"required\":[\"path\"]}"@,
{
    definition(
        "fs-read",
        "Read a file body under the captured root. When `range` is supplied, returns the 1-indexed inclusive line span joined by newlines. No line numbers are added.",
        "{\"type\":\"object\",\"properties\":{\"path\":{\"type\":\"string\",\"description\":\"File path relative to the captured root.\"},\"range\":{\"type\":\"object\",\"description\":\"Optional 1-indexed inclusive line span.\",\"properties\":{\"start\":{\"type\":\"integer\",\"minimum\":1},\"end\":{\"type\":\"integer\",\"minimum\":1}},\"required\":[\"start\",\"end\"]}},\"required\":[\"path\"]}",
    )
}

/// The definition of the `fs-edit` tool.
pub fn fs_edit_definition() -> (d: ToolDefinition)
    ensures
        d.name@ == "fs-edit"@,
        d.description@ == "Replace a 1-indexed inclusive line range in a file under the captured root with the supplied replacement text. An empty replacement deletes the range. Line breaks in the replacement create new lines. The original file's trailing newline state is preserved."@,
        d.parameters@ == "{\"type\":\"object\",\"properties\":{\"path\":{\"type\":\"string\"},\"range\":{\"type\":\"object\",\"properties\":{\"start\":{\"type\":\"integer\",\"minimum\":1},\"end\":{\"type\":\"integer\",\"minimum\":1}},\"required\":[\"start\",\"end\"]},\"replacement\":{\"type\":\"string\"}},\"required\":[\"path\",\"range\",\"replacement\"]}"@,
{
    definition(
        "fs-edit",
        "Replace a 1-indexed inclusive line range in a file under the captured root with the supplied replacement text. An empty replacement deletes the range. Line breaks in the replacement create new lines. The original file's trailing newline state is preserved.",
        "{\"type\":\"object\",\"properties\":{\"path\":{\"type\":\"string\"},\"range\":{\"type\":\"object\",\"properties\":{\"start\":{\"type\":\"integer\",\"minimum\":1},\"end\":{\"type\":\"integer\",\"minimum\":1}},\"required\":[\"start\",\"end\"]},\"replacement\":{\"type\":\"string\"}},\"required\":[\"path\",\"range\",\"replacement\"]}",
    )
}

/// The definition of the `fs-list` tool.
pub fn fs_list_definition() -> (d: ToolDefinition)
    ensures
        d.name@ == "fs-list"@,
        d.description@ == "List directory entries under the captured root. Returns a JSON array sorted directories-first then files. A glob whose first segment is `**` recurses; anything else lists only the immediate children of `path`."@,
        d.parameters@ == "{\"type\":\"object\",\"properties\":{\"path\":{\"type\":\"string\",\"description\":\"Directory path relative to the captured root.\"},\"glob\":{\"type\":\"string\",\"description\":\"Optional gitignore-flavored glob filter.\"}},\"required\":[\"path\"]}"@,
{
    definition(
        "fs-list",
        "List directory entries under the captured root. Returns a JSON array sorted directories-first then files. A glob whose first segment is `**` recurses; anything else lists only the immediate children of `path`.",
        "{\"type\":\"object\",\"properties\":{\"path\":{\"type\":\"string\",\"description\":\"Directory path relative to the captured root.\"},\"glob\":{\"type\":\"string\",\"description\":\"Optional gitignore-flavored glob filter.\"}},\"required\":[\"path\"]}",
    )
}

/// The definition of the `fs.absent` tool.
pub fn fs_absent_definition() -> (d: ToolDefinition)
    ensures
        d.name@ == "fs.absent"@,
        d.description@ == "Read a text file under the conversation root and report whether it lacks (\"cleared\") or contains (\"paused\") the supplied needle. Errors when the file does not exist or cannot be read."@,
        d.parameters@ == "{\"type\":\"object\",\"properties\":{\"path\":{\"type\":\"string\",\"description\":\"Path to the artifact, interpreted relative to the conversation root.\"},\"needle\":{\"type\":\"string\",\"description\":\"Substring whose presence flips the result from \\\"cleared\\\" to \\\"paused\\\".\"}},\"required\":[\"path\",\"needle\"]}"@,
{
    definition(
        "fs.absent",
        "Read a text file under the conversation root and report whether it lacks (\"cleared\") or contains (\"paused\") the supplied needle. Errors when the file does not exist or cannot be read.",
        "{\"type\":\"object\",\"properties\":{\"path\":{\"type\":\"string\",\"description\":\"Path to the artifact, interpreted relative to the conversation root.\"},\"needle\":{\"type\":\"string\",\"description\":\"Substring whose presence flips the result from \\\"cleared\\\" to \\\"paused\\\".\"}},\"required\":[\"path\",\"needle\"]}",
    )
}

/// The definition of the `fs.grep` tool.
pub fn fs_grep_definition() -> (d: ToolDefinition)
    ensures
        d.name@ == "fs.grep"@,
        d.description@ == "Search a file or a directory tree under the captured root for lines matching a Rust regex. Returns a JSON envelope with `results[*].path`, `results[*].matches[*].{line,text}`, and `total`. A glob whose first segment is `**` recurses; anything else searches only the immediate children of `path`."@,
        d.parameters@ == "{\"type\":\"object\",\"properties\":{\"path\":{\"type\":\"string\"},\"pattern\":{\"type\":\"string\"},\"glob\":{\"type\":\"string\"}},\"required\":[\"path\",\"pattern\"]}"@,
{
    definition(
        "fs.grep",
        "Search a file or a directory tree under the captured root for lines matching a Rust regex. Returns a JSON envelope with `results[*].path`, `results[*].matches[*].{line,text}`, and `total`. A glob whose first segment is `**` recurses; anything else searches only the immediate children of `path`.",
        "{\"type\":\"object\",\"properties\":{\"path\":{\"type\":\"string\"},\"pattern\":{\"type\":\"string\"},\"glob\":{\"type\":\"string\"}},\"required\":[\"path\",\"pattern\"]}",
    )
}

/// The definition of the `bash` tool.
pub fn bash_definition() -> (d: ToolDefinition)
    ensures
        d.name@ == "bash"@,
        d.description@ == "Execute a shell command via `bash -c`. Returns combined stdout, optional stderr block, and an exit-code footer."@,
        d.parameters@ == "{\"type\":\"object\",\"properties\":{\"command\":{\"type\":\"string\",\"description\":\"Shell command to execute via `bash -c`.\"},\"description\":{\"type\":\"string\",\"description\":\"Optional one-line human-readable explanation of why the command is being run.\"}},\"required\":[\"command\"]}"@,
{
    definition(
        "bash",
        "Execute a shell command via `bash -c`. Returns combined stdout, optional stderr block, and an exit-code footer.",
        "{\"type\":\"object\",\"properties\":{\"command\":{\"type\":\"string\",\"description\":\"Shell command to execute via `bash -c`.\"},\"description\":{\"type\":\"string\",\"description\":\"Optional one-line human-readable explanation of why the command is being run.\"}},\"required\":[\"command\"]}",
    )
}

/// The definition of the `web.search` tool.
pub fn web_search_definition() -> (d: ToolDefinition)
    ensures
        d.name@ == "web.search"@,
        d.description@ == "Search the web for a query string and return a JSON array of result objects with title, url, and snippet fields. Use for query-driven discovery when a known URL is not yet in hand."@,
        d.parameters@ == "{\"type\":\"object\",\"properties\":{\"query\":{\"type\":\"string\",\"description\":\"The search query.\"},\"max_results\":{\"type\":\"integer\",\"minimum\":1,\"maximum\":20,\"description\":\"Maximum number of results to return (clamped to the supported range).\"}},\"required\":[\"query\"]}"@,
{
    definition(
        "web.search",
        "Search the web for a query string and return a JSON array of result objects with title, url, and snippet fields. Use for query-driven discovery when a known URL is not yet in hand.",
        "{\"type\":\"object\",\"properties\":{\"query\":{\"type\":\"string\",\"description\":\"The search query.\"},\"max_results\":{\"type\":\"integer\",\"minimum\":1,\"maximum\":20,\"description\":\"Maximum number of results to return (clamped to the supported range).\"}},\"required\":[\"query\"]}",
    )
}

/// The definition of the `user-clarify` tool.
pub fn clarify_definition() -> (d: ToolDefinition)
    ensures
        d.name@ == "user-clarify"@,
        d.description@ == "Get clarification on a single focused question. Returns the answer (or a previously recorded answer to the same question). Use exactly one question per call. Do not concatenate."@,
        d.parameters@ == "{\"type\":\"object\",\"properties\":{\"question\":{\"type\":\"string\",\"description\":\"The question to ask the user. One concise question per call.\"},\"default\":{\"type\":\"string\",\"description\":\"Optional suggested answer the backend may surface during elicitation, or use as a fallback.\"}},\"required\":[\"question\"]}"@,
{
    definition(
        "user-clarify",
        "Get clarification on a single focused question. Returns the answer (or a previously recorded answer to the same question). Use exactly one question per call. Do not concatenate.",
        "{\"type\":\"object\",\"properties\":{\"question\":{\"type\":\"string\",\"description\":\"The question to ask the user. One concise question per call.\"},\"default\":{\"type\":\"string\",\"description\":\"Optional suggested answer the backend may surface during elicitation, or use as a fallback.\"}},\"required\":[\"question\"]}",
    )
}

/// The definition of the `web.fetch` tool.
pub fn web_fetch_definition() -> (d: ToolDefinition)
    ensures
        d.name@ == "web.fetch"@,
        d.description@ == "Fetch a known URL over HTTP(S) and return the response body as a UTF-8 string. The fetch is bounded by a body-size cap, an allow-list of textual content types, and a redirect limit."@,
        d.parameters@ == "{\"type\":\"object\",\"properties\":{\"url\":{\"type\":\"string\",\"description\":\"Absolute URL to fetch.\"}},\"required\":[\"url\"]}"@,
{
    definition(
        "web.fetch",
        "Fetch a known URL over HTTP(S) and return the response body as a UTF-8 string. The fetch is bounded by a body-size cap, an allow-list of textual content types, and a redirect limit.",
        "{\"type\":\"object\",\"properties\":{\"url\":{\"type\":\"string\",\"description\":\"Absolute URL to fetch.\"}},\"required\":[\"url\"]}",
    )
}

} // verus!
