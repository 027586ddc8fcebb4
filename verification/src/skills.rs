//! Skill management tools: list, search, install, info, enable,
//! link_secret, publish, remove and update.
//!
//! In standalone mode the tools only give guidance; in gateway mode the
//! gateway runs them against its skill manager. Either way the arguments
//! are checked here and the answers are worded here.

use vstd::prelude::*;
use vstd::string::StringExecFns;
use crate::text::{decimal, join, push_decimal, push_joined, str_eq, views};

verus! {

/// A value of a tool-call argument, as far as the tools read it.
#[derive(Debug, Clone)]
pub enum ArgValue {
    Str(String),
    Bool(bool),
    /// Any other JSON value.
    Other,
}

/// The arguments of a tool call: the members of its JSON object.
#[derive(Debug, Clone)]
pub struct ToolArgs {
    pub entries: Vec<(String, ArgValue)>,
}

/// The value of the first member named `key`, from index `i` on.
pub open spec fn lookup_from(e: Seq<(String, ArgValue)>, key: Seq<char>, i: int) -> Option<ArgValue>
    decreases e.len() - i,
{
    if i < 0 || i >= e.len() {
        None
    } else if e[i].0@ == key {
        Some(e[i].1)
    } else {
        lookup_from(e, key, i + 1)
    }
}

/// The string argument `key`, if it is present and a string.
pub open spec fn str_arg(args: ToolArgs, key: Seq<char>) -> Option<Seq<char>> {
    match lookup_from(args.entries@, key, 0) {
        Some(ArgValue::Str(s)) => Some(s@),
        _ => None,
    }
}

/// The boolean argument `key`, if it is present and a boolean.
pub open spec fn bool_arg(args: ToolArgs, key: Seq<char>) -> Option<bool> {
    match lookup_from(args.entries@, key, 0) {
        Some(ArgValue::Bool(b)) => Some(b),
        _ => None,
    }
}

impl ToolArgs {
    fn position(&self, key: &str) -> (r: Option<usize>)
        ensures
            r matches Some(i) ==> i < self.entries@.len() && lookup_from(self.entries@, key@, 0)
                == Some(self.entries@[i as int].1),
            r is None ==> lookup_from(self.entries@, key@, 0) is None,
    {
        let mut i: usize = 0;
        while i < self.entries.len()
            invariant
                i <= self.entries@.len(),
                lookup_from(self.entries@, key@, i as int) == lookup_from(self.entries@, key@, 0),
            decreases self.entries.len() - i,
        {
            if str_eq(self.entries[i].0.as_str(), key) {
                return Some(i);
            }
            i += 1;
        }
        None
    }

    /// The string argument `key`, if it is present and a string.
    pub fn get_str(&self, key: &str) -> (r: Option<String>)
        ensures
            r matches Some(s) ==> str_arg(*self, key@) == Some(s@),
            r is None ==> str_arg(*self, key@) is None,
    {
        match self.position(key) {
            Some(i) => match &self.entries[i].1 {
                ArgValue::Str(s) => Some(s.clone()),
                _ => None,
            },
            None => None,
        }
    }

    /// The boolean argument `key`, if it is present and a boolean.
    pub fn get_bool(&self, key: &str) -> (r: Option<bool>)
        ensures
            r == bool_arg(*self, key@),
    {
        match self.position(key) {
            Some(i) => match &self.entries[i].1 {
                ArgValue::Bool(b) => Some(*b),
                _ => None,
            },
            None => None,
        }
    }
}

/// The error for a missing required argument.
pub open spec fn missing(param: Seq<char>) -> Seq<char> {
    "Missing required parameter: "@ + param
}

fn missing_param(param: &str) -> (e: String)
    ensures
        e@ == missing(param@),
{
    let mut e = String::from_str("Missing required parameter: ");
    e.append(param);
    e
}

/// A required string argument.
fn required(args: &ToolArgs, key: &str) -> (r: Result<String, String>)
    ensures
        str_arg(*args, key@) matches Some(v) ==> (r matches Ok(s) && s@ == v),
        str_arg(*args, key@) is None ==> (r matches Err(e) && e@ == missing(key@)),
{
    match args.get_str(key) {
        Some(s) => Ok(s),
        None => Err(missing_param(key)),
    }
}

/// Whether a result is `Ok` with exactly the given text.
pub open spec fn ok_text(r: Result<String, String>, t: Seq<char>) -> bool {
    r matches Ok(s) && s@ == t
}

/// Whether a result is `Err` with exactly the given text.
pub open spec fn err_text(r: Result<String, String>, t: Seq<char>) -> bool {
    r matches Err(s) && s@ == t
}

/// The answer when a required string argument is missing, else `then`.
pub open spec fn needs(args: ToolArgs, key: Seq<char>, r: Result<String, String>, then: bool) -> bool {
    if str_arg(args, key) is None {
        err_text(r, missing(key))
    } else {
        then
    }
}

// ---------------------------------------------------------------------------
// Standalone tools
// ---------------------------------------------------------------------------

/// List all loaded skills with their status (standalone: none are loaded).
pub fn exec_skill_list(_args: &ToolArgs, _workspace_dir: &std::path::Path) -> (r: Result<String, String>)
    ensures
        ok_text(r, "No skills loaded (standalone mode). Connect to the gateway for full skill support."@),
{
    Ok(String::from_str("No skills loaded (standalone mode). Connect to the gateway for full skill support."))
}

/// Guidance for searching the registry.
pub open spec fn search_guide(q: Seq<char>) -> Seq<char> {
    "To search for skills matching '"@ + q + "':\n\nUse the CLI: rustyclaw skills search \""@ + q
        + "\"\nOr browse skills at: https://clawhub.ai"@
}

/// Search the ClawHub registry for installable skills (standalone: guidance).
pub fn exec_skill_search(args: &ToolArgs, _workspace_dir: &std::path::Path) -> (r: Result<String, String>)
    ensures
        needs(*args, "query"@, r, ok_text(r, search_guide(str_arg(*args, "query"@)->0))),
{
    let query = required(args, "query")?;
    let mut out = String::from_str("To search for skills matching '");
    out.append(query.as_str());
    out.append("':\n\nUse the CLI: rustyclaw skills search \"");
    out.append(query.as_str());
    out.append("\"\nOr browse skills at: https://clawhub.ai");
    Ok(out)
}

/// Guidance for installing a skill.
pub open spec fn install_guide(n: Seq<char>) -> Seq<char> {
    "To install the '"@ + n + "' skill:\n\nrustyclaw skills install "@ + n
        + "\n\nThe skill will be installed to your workspace/skills directory."@
}

/// Install a skill from the ClawHub registry (standalone: guidance).
pub fn exec_skill_install(args: &ToolArgs, _workspace_dir: &std::path::Path) -> (r: Result<String, String>)
    ensures
        needs(*args, "name"@, r, ok_text(r, install_guide(str_arg(*args, "name"@)->0))),
{
    let name = required(args, "name")?;
    let mut out = String::from_str("To install the '");
    out.append(name.as_str());
    out.append("' skill:\n\nrustyclaw skills install ");
    out.append(name.as_str());
    out.append("\n\nThe skill will be installed to your workspace/skills directory.");
    Ok(out)
}

/// Show detailed information about a loaded skill (standalone: guidance).
pub fn exec_skill_info(args: &ToolArgs, _workspace_dir: &std::path::Path) -> (r: Result<String, String>)
    ensures
        needs(*args, "name"@, r, ok_text(r, "Skill info requires gateway connection for full details."@)),
{
    let _name = required(args, "name")?;
    Ok(String::from_str("Skill info requires gateway connection for full details."))
}

/// Enable or disable a loaded skill (standalone: not possible).
pub fn exec_skill_enable(args: &ToolArgs, _workspace_dir: &std::path::Path) -> (r: Result<String, String>)
    ensures
        needs(
            *args,
            "name"@,
            r,
            if bool_arg(*args, "enabled"@) is None {
                err_text(r, missing("enabled"@))
            } else {
                err_text(r, "Skill enable/disable requires gateway connection."@)
            },
        ),
{
    let _name = required(args, "name")?;
    match args.get_bool("enabled") {
        Some(_) => {},
        None => {
            return Err(missing_param("enabled"));
        },
    }
    Err(String::from_str("Skill enable/disable requires gateway connection."))
}

/// The error for an action other than `link` and `unlink`.
pub open spec fn unknown_action(a: Seq<char>) -> Seq<char> {
    "Unknown action '"@ + a + "'. Use 'link' or 'unlink'."@
}

/// Standalone linking: an unknown action is named, a known one needs the gateway.
pub open spec fn standalone_link_outcome(a: Seq<char>, r: Result<String, String>) -> bool {
    if a == "link"@ || a == "unlink"@ {
        err_text(r, "Skill secret linking requires gateway connection."@)
    } else {
        err_text(r, unknown_action(a))
    }
}

fn unknown_action_error(action: &str) -> (e: String)
    ensures
        e@ == unknown_action(action@),
{
    let mut e = String::from_str("Unknown action '");
    e.append(action);
    e.append("'. Use 'link' or 'unlink'.");
    e
}

/// Link or unlink a vault credential to a skill (standalone: not possible).
pub fn exec_skill_link_secret(args: &ToolArgs, _workspace_dir: &std::path::Path) -> (r: Result<
    String,
    String,
>)
    ensures
        needs(
            *args,
            "action"@,
            r,
            needs(
                *args,
                "skill"@,
                r,
                needs(
                    *args,
                    "secret"@,
                    r,
                    standalone_link_outcome(str_arg(*args, "action"@)->0, r),
                ),
            ),
        ),
{
    let action = required(args, "action")?;
    let _skill = required(args, "skill")?;
    let _secret = required(args, "secret")?;
    if !(str_eq(action.as_str(), "link") || str_eq(action.as_str(), "unlink")) {
        return Err(unknown_action_error(action.as_str()));
    }
    Err(String::from_str("Skill secret linking requires gateway connection."))
}

/// Guidance for publishing a skill.
pub open spec fn publish_guide(n: Seq<char>) -> Seq<char> {
    "To publish skill '"@ + n + "':\n\nrustyclaw skills publish "@ + n
        + "\n\nRequires clawhub_token set in config.toml."@
}

/// Publish a local skill to the ClawHub registry (standalone: guidance).
pub fn exec_skill_publish(args: &ToolArgs, _workspace_dir: &std::path::Path) -> (r: Result<String, String>)
    ensures
        needs(*args, "name"@, r, ok_text(r, publish_guide(str_arg(*args, "name"@)->0))),
{
    let name = required(args, "name")?;
    let mut out = String::from_str("To publish skill '");
    out.append(name.as_str());
    out.append("':\n\nrustyclaw skills publish ");
    out.append(name.as_str());
    out.append("\n\nRequires clawhub_token set in config.toml.");
    Ok(out)
}

/// Guidance for removing a skill.
pub open spec fn remove_guide(n: Seq<char>) -> Seq<char> {
    "To remove skill '"@ + n + "':\n\nrustyclaw skills remove "@ + n
}

/// Remove an installed skill (standalone: guidance).
pub fn exec_skill_remove(args: &ToolArgs, _workspace_dir: &std::path::Path) -> (r: Result<String, String>)
    ensures
        needs(*args, "name"@, r, ok_text(r, remove_guide(str_arg(*args, "name"@)->0))),
{
    let name = required(args, "name")?;
    let mut out = String::from_str("To remove skill '");
    out.append(name.as_str());
    out.append("':\n\nrustyclaw skills remove ");
    out.append(name.as_str());
    Ok(out)
}

/// Guidance for updating a skill.
pub open spec fn update_guide(n: Seq<char>) -> Seq<char> {
    "To update skill '"@ + n + "':\n\nrustyclaw skills update "@ + n
}

/// Update a registry-installed skill to the latest version (standalone: guidance).
pub fn exec_skill_update(args: &ToolArgs, _workspace_dir: &std::path::Path) -> (r: Result<String, String>)
    ensures
        needs(*args, "name"@, r, ok_text(r, update_guide(str_arg(*args, "name"@)->0))),
{
    let name = required(args, "name")?;
    let mut out = String::from_str("To update skill '");
    out.append(name.as_str());
    out.append("':\n\nrustyclaw skills update ");
    out.append(name.as_str());
    Ok(out)
}


// ---------------------------------------------------------------------------
// Gateway tools
// ---------------------------------------------------------------------------

/// Where an installed skill came from.
#[derive(Debug, Clone)]
pub enum SkillSource {
    Local,
    Registry { version: String },
}

/// What the skill list shows of a loaded skill.
#[derive(Debug, Clone)]
pub struct SkillSummary {
    pub name: String,
    pub enabled: bool,
    pub source: SkillSource,
    pub description: Option<String>,
    pub linked_secrets: Vec<String>,
}

/// What the search shows of a registry entry.
#[derive(Debug, Clone)]
pub struct RegistryEntry {
    pub name: String,
    pub display_name: String,
    pub version: String,
    pub description: String,
    pub required_secrets: Vec<String>,
}

/// A checked skill tool call, ready to run against the skill manager.
#[derive(Debug, Clone)]
pub enum SkillToolCall {
    List { filter: String },
    Search { query: String },
    Install { name: String, version: Option<String> },
    Info { name: String },
    Enable { name: String, enabled: bool },
    LinkSecret { link: bool, skill: String, secret: String },
    Publish { name: String },
    Remove { name: String },
    Update { name: String },
}

/// What a tool call asks for, or why it is refused.
pub enum CallSpec {
    List(Seq<char>),
    Search(Seq<char>),
    Install(Seq<char>, Option<Seq<char>>),
    Info(Seq<char>),
    Enable(Seq<char>, bool),
    LinkSecret(bool, Seq<char>, Seq<char>),
    Publish(Seq<char>),
    Remove(Seq<char>),
    Update(Seq<char>),
    Refused(Seq<char>),
}

/// The call asking for the `name` argument, or the missing-argument refusal.
pub open spec fn with_name(args: ToolArgs, f: spec_fn(Seq<char>) -> CallSpec) -> CallSpec {
    match str_arg(args, "name"@) {
        Some(n) => f(n),
        None => CallSpec::Refused(missing("name"@)),
    }
}

/// How a gateway skill tool call is read: its required arguments, checked in
/// order, and an unknown tool or action refused.
pub open spec fn call_spec(tool: Seq<char>, args: ToolArgs) -> CallSpec {
    if tool == "skill_list"@ {
        CallSpec::List(
            match str_arg(args, "filter"@) {
                Some(f) => f,
                None => "all"@,
            },
        )
    } else if tool == "skill_search"@ {
        match str_arg(args, "query"@) {
            Some(q) => CallSpec::Search(q),
            None => CallSpec::Refused(missing("query"@)),
        }
    } else if tool == "skill_install"@ {
        with_name(args, |n: Seq<char>| CallSpec::Install(n, str_arg(args, "version"@)))
    } else if tool == "skill_info"@ {
        with_name(args, |n: Seq<char>| CallSpec::Info(n))
    } else if tool == "skill_enable"@ {
        with_name(
            args,
            |n: Seq<char>|
                match bool_arg(args, "enabled"@) {
                    Some(b) => CallSpec::Enable(n, b),
                    None => CallSpec::Refused(missing("enabled"@)),
                },
        )
    } else if tool == "skill_link_secret"@ {
        match (str_arg(args, "action"@), str_arg(args, "skill"@), str_arg(args, "secret"@)) {
            (None, _, _) => CallSpec::Refused(missing("action"@)),
            (Some(_), None, _) => CallSpec::Refused(missing("skill"@)),
            (Some(_), Some(_), None) => CallSpec::Refused(missing("secret"@)),
            (Some(a), Some(k), Some(x)) => if a == "link"@ {
                CallSpec::LinkSecret(true, k, x)
            } else if a == "unlink"@ {
                CallSpec::LinkSecret(false, k, x)
            } else {
                CallSpec::Refused(unknown_action(a))
            },
        }
    } else if tool == "skill_publish"@ {
        with_name(args, |n: Seq<char>| CallSpec::Publish(n))
    } else if tool == "skill_remove"@ {
        with_name(args, |n: Seq<char>| CallSpec::Remove(n))
    } else if tool == "skill_update"@ {
        with_name(args, |n: Seq<char>| CallSpec::Update(n))
    } else {
        CallSpec::Refused("Unknown skill tool: "@ + tool)
    }
}

/// Whether a checked call is the one the specification reads.
pub open spec fn is_call(r: Result<SkillToolCall, String>, c: CallSpec) -> bool {
    match c {
        CallSpec::List(f) => r matches Ok(SkillToolCall::List { filter }) && filter@ == f,
        CallSpec::Search(q) => r matches Ok(SkillToolCall::Search { query }) && query@ == q,
        CallSpec::Install(n, v) => r matches Ok(SkillToolCall::Install { name, version }) && name@
            == n && (match version {
            Some(x) => v == Some(x@),
            None => v is None,
        }),
        CallSpec::Info(n) => r matches Ok(SkillToolCall::Info { name }) && name@ == n,
        CallSpec::Enable(n, b) => r matches Ok(SkillToolCall::Enable { name, enabled }) && name@ == n
            && enabled == b,
        CallSpec::LinkSecret(l, k, x) => r matches Ok(SkillToolCall::LinkSecret { link, skill, secret })
            && link == l && skill@ == k && secret@ == x,
        CallSpec::Publish(n) => r matches Ok(SkillToolCall::Publish { name }) && name@ == n,
        CallSpec::Remove(n) => r matches Ok(SkillToolCall::Remove { name }) && name@ == n,
        CallSpec::Update(n) => r matches Ok(SkillToolCall::Update { name }) && name@ == n,
        CallSpec::Refused(e) => r matches Err(m) && m@ == e,
    }
}

/// Check a gateway skill tool call by its name and arguments.
pub fn parse_skill_tool(name: &str, args: &ToolArgs) -> (r: Result<SkillToolCall, String>)
    ensures
        is_call(r, call_spec(name@, *args)),
{
    if str_eq(name, "skill_list") {
        let filter = match args.get_str("filter") {
            Some(f) => f,
            None => String::from_str("all"),
        };
        Ok(SkillToolCall::List { filter })
    } else if str_eq(name, "skill_search") {
        let query = required(args, "query")?;
        Ok(SkillToolCall::Search { query })
    } else if str_eq(name, "skill_install") {
        let n = required(args, "name")?;
        let version = args.get_str("version");
        Ok(SkillToolCall::Install { name: n, version })
    } else if str_eq(name, "skill_info") {
        let n = required(args, "name")?;
        Ok(SkillToolCall::Info { name: n })
    } else if str_eq(name, "skill_enable") {
        let n = required(args, "name")?;
        match args.get_bool("enabled") {
            Some(b) => Ok(SkillToolCall::Enable { name: n, enabled: b }),
            None => Err(missing_param("enabled")),
        }
    } else if str_eq(name, "skill_link_secret") {
        let action = required(args, "action")?;
        let skill = required(args, "skill")?;
        let secret = required(args, "secret")?;
        if str_eq(action.as_str(), "link") {
            Ok(SkillToolCall::LinkSecret { link: true, skill, secret })
        } else if str_eq(action.as_str(), "unlink") {
            Ok(SkillToolCall::LinkSecret { link: false, skill, secret })
        } else {
            Err(unknown_action_error(action.as_str()))
        }
    } else if str_eq(name, "skill_publish") {
        let n = required(args, "name")?;
        Ok(SkillToolCall::Publish { name: n })
    } else if str_eq(name, "skill_remove") {
        let n = required(args, "name")?;
        Ok(SkillToolCall::Remove { name: n })
    } else if str_eq(name, "skill_update") {
        let n = required(args, "name")?;
        Ok(SkillToolCall::Update { name: n })
    } else {
        let mut e = String::from_str("Unknown skill tool: ");
        e.append(name);
        Err(e)
    }
}


/// A checked call carries exactly the arguments it was given: the tool named
/// decides the kind of call, and its name, query, version, flag, skill and
/// secret are the string (or boolean) arguments of those names; `link` and
/// `unlink` decide whether a secret is linked; a missing name is refused.
pub proof fn lemma_parsed_calls(args: ToolArgs, r: Result<SkillToolCall, String>)
    ensures
        is_call(r, call_spec("skill_list"@, args)) ==> (r matches Ok(SkillToolCall::List { filter })
            && filter@ == (if str_arg(args, "filter"@) is Some {
            str_arg(args, "filter"@)->0
        } else {
            "all"@
        })),
        (is_call(r, call_spec("skill_search"@, args)) && str_arg(args, "query"@) is Some) ==> (r matches Ok(
            SkillToolCall::Search { query },
        ) && query@ == str_arg(args, "query"@)->0),
        (is_call(r, call_spec("skill_install"@, args)) && str_arg(args, "name"@) is Some) ==> (r matches Ok(
            SkillToolCall::Install { name, version },
        ) && name@ == str_arg(args, "name"@)->0 && (version is Some <==> str_arg(args, "version"@) is Some)
            && (version is Some ==> version->0@ == str_arg(args, "version"@)->0)),
        (is_call(r, call_spec("skill_info"@, args)) && str_arg(args, "name"@) is Some) ==> (r matches Ok(
            SkillToolCall::Info { name },
        ) && name@ == str_arg(args, "name"@)->0),
        (is_call(r, call_spec("skill_enable"@, args)) && str_arg(args, "name"@) is Some && bool_arg(
            args,
            "enabled"@,
        ) is Some) ==> (r matches Ok(SkillToolCall::Enable { name, enabled }) && name@ == str_arg(
            args,
            "name"@,
        )->0 && enabled == bool_arg(args, "enabled"@)->0),
        (is_call(r, call_spec("skill_link_secret"@, args)) && str_arg(args, "skill"@) is Some && str_arg(
            args,
            "secret"@,
        ) is Some && (str_arg(args, "action"@) == Some("link"@) || str_arg(args, "action"@) == Some(
            "unlink"@,
        ))) ==> (r matches Ok(SkillToolCall::LinkSecret { link, skill, secret }) && (link <==> str_arg(
            args,
            "action"@,
        ) == Some("link"@)) && skill@ == str_arg(args, "skill"@)->0 && secret@ == str_arg(
            args,
            "secret"@,
        )->0),
        (is_call(r, call_spec("skill_publish"@, args)) && str_arg(args, "name"@) is Some) ==> (r matches Ok(
            SkillToolCall::Publish { name },
        ) && name@ == str_arg(args, "name"@)->0),
        (is_call(r, call_spec("skill_remove"@, args)) && str_arg(args, "name"@) is Some) ==> (r matches Ok(
            SkillToolCall::Remove { name },
        ) && name@ == str_arg(args, "name"@)->0),
        (is_call(r, call_spec("skill_update"@, args)) && str_arg(args, "name"@) is Some) ==> (r matches Ok(
            SkillToolCall::Update { name },
        ) && name@ == str_arg(args, "name"@)->0),
        (str_arg(args, "name"@) is None && (is_call(r, call_spec("skill_install"@, args)) || is_call(
            r,
            call_spec("skill_info"@, args),
        ) || is_call(r, call_spec("skill_enable"@, args)) || is_call(r, call_spec("skill_publish"@, args))
            || is_call(r, call_spec("skill_remove"@, args)) || is_call(r, call_spec("skill_update"@, args))))
            ==> (r matches Err(e) && e@ == missing("name"@)),
{
    reveal_strlit("skill_list");
    reveal_strlit("skill_search");
    reveal_strlit("skill_install");
    reveal_strlit("skill_info");
    reveal_strlit("skill_enable");
    reveal_strlit("skill_link_secret");
    reveal_strlit("skill_publish");
    reveal_strlit("skill_remove");
    reveal_strlit("skill_update");
    reveal_strlit("link");
    reveal_strlit("unlink");
    assert("skill_search"@[6] != "skill_list"@[6]);
    assert("skill_install"@[6] != "skill_list"@[6]);
    assert("skill_install"@[6] != "skill_search"@[6]);
    assert("skill_info"@[6] != "skill_list"@[6]);
    assert("skill_info"@[6] != "skill_search"@[6]);
    assert("skill_info"@[8] != "skill_install"@[8]);
    assert("skill_enable"@[6] != "skill_list"@[6]);
    assert("skill_enable"@[6] != "skill_search"@[6]);
    assert("skill_enable"@[6] != "skill_install"@[6]);
    assert("skill_enable"@[6] != "skill_info"@[6]);
    assert("skill_link_secret"@[8] != "skill_list"@[8]);
    assert("skill_link_secret"@[6] != "skill_search"@[6]);
    assert("skill_link_secret"@[6] != "skill_install"@[6]);
    assert("skill_link_secret"@[6] != "skill_info"@[6]);
    assert("skill_link_secret"@[6] != "skill_enable"@[6]);
    assert("skill_publish"@[6] != "skill_list"@[6]);
    assert("skill_publish"@[6] != "skill_search"@[6]);
    assert("skill_publish"@[6] != "skill_install"@[6]);
    assert("skill_publish"@[6] != "skill_info"@[6]);
    assert("skill_publish"@[6] != "skill_enable"@[6]);
    assert("skill_publish"@[6] != "skill_link_secret"@[6]);
    assert("skill_remove"@[6] != "skill_list"@[6]);
    assert("skill_remove"@[6] != "skill_search"@[6]);
    assert("skill_remove"@[6] != "skill_install"@[6]);
    assert("skill_remove"@[6] != "skill_info"@[6]);
    assert("skill_remove"@[6] != "skill_enable"@[6]);
    assert("skill_remove"@[6] != "skill_link_secret"@[6]);
    assert("skill_remove"@[6] != "skill_publish"@[6]);
    assert("skill_update"@[6] != "skill_list"@[6]);
    assert("skill_update"@[6] != "skill_search"@[6]);
    assert("skill_update"@[6] != "skill_install"@[6]);
    assert("skill_update"@[6] != "skill_info"@[6]);
    assert("skill_update"@[6] != "skill_enable"@[6]);
    assert("skill_update"@[6] != "skill_link_secret"@[6]);
    assert("skill_update"@[6] != "skill_publish"@[6]);
    assert("skill_update"@[6] != "skill_remove"@[6]);
    assert("link"@[0] != "unlink"@[0]);
}

/// Whether a skill passes the list filter: `enabled`, `disabled`,
/// `registry`, or anything else for all.
pub open spec fn passes(sk: SkillSummary, filter: Seq<char>) -> bool {
    if filter == "enabled"@ {
        sk.enabled
    } else if filter == "disabled"@ {
        !sk.enabled
    } else if filter == "registry"@ {
        sk.source is Registry
    } else {
        true
    }
}

/// The status mark of a skill.
pub open spec fn status_mark(enabled: bool) -> Seq<char> {
    if enabled {
        "\u{2713}"@
    } else {
        "\u{2717}"@
    }
}

/// The source of a skill as the list shows it.
pub open spec fn source_text(src: SkillSource) -> Seq<char> {
    match src {
        SkillSource::Local => "local"@,
        SkillSource::Registry { version } => "registry v"@ + version@,
    }
}

/// The description of a skill as the list shows it.
pub open spec fn description_text(d: Option<String>) -> Seq<char> {
    match d {
        Some(d) => d@,
        None => "(no description)"@,
    }
}

/// The linked secrets of a skill as the list shows them.
pub open spec fn secrets_text(secrets: Seq<String>) -> Seq<char> {
    if secrets.len() == 0 {
        seq![]
    } else {
        " [secrets: "@ + join(views(secrets), ", "@) + "]"@
    }
}

/// The list line of a skill: status mark, name, source, description and
/// linked secrets.
pub open spec fn skill_line(sk: SkillSummary) -> Seq<char> {
    "  "@ + status_mark(sk.enabled) + " "@ + sk.name@ + " ("@ + source_text(sk.source)
        + ") \u{2014} "@ + description_text(sk.description) + secrets_text(sk.linked_secrets@)
        + "\n"@
}

/// How many of the first `upto` skills pass the filter.
pub open spec fn passing_count(ss: Seq<SkillSummary>, filter: Seq<char>, upto: nat) -> nat
    decreases upto,
{
    if upto == 0 {
        0
    } else {
        passing_count(ss, filter, (upto - 1) as nat) + (if passes(ss[upto - 1], filter) {
            1nat
        } else {
            0nat
        })
    }
}

/// The lines of the first `upto` skills that pass the filter.
pub open spec fn passing_lines(ss: Seq<SkillSummary>, filter: Seq<char>, upto: nat) -> Seq<char>
    decreases upto,
{
    if upto == 0 {
        seq![]
    } else {
        passing_lines(ss, filter, (upto - 1) as nat) + (if passes(ss[upto - 1], filter) {
            skill_line(ss[upto - 1])
        } else {
            seq![]
        })
    }
}

/// The answer of the skill list.
pub open spec fn skill_list_text(ss: Seq<SkillSummary>, filter: Seq<char>) -> Seq<char> {
    if ss.len() == 0 {
        "No skills loaded."@
    } else if passing_count(ss, filter, ss.len()) == 0 {
        "No skills match filter '"@ + filter + "'."@
    } else {
        decimal(passing_count(ss, filter, ss.len())) + " skill(s):\n"@ + passing_lines(
            ss,
            filter,
            ss.len(),
        )
    }
}

/// How many of the first `upto` skills satisfy `p`.
pub open spec fn count_where(ss: Seq<SkillSummary>, upto: nat, p: spec_fn(SkillSummary) -> bool) -> nat
    decreases upto,
{
    if upto == 0 {
        0
    } else {
        count_where(ss, (upto - 1) as nat, p) + (if p(ss[upto - 1]) {
            1nat
        } else {
            0nat
        })
    }
}

/// The list lines of those of the first `upto` skills that satisfy `p`, in order.
pub open spec fn lines_where(ss: Seq<SkillSummary>, upto: nat, p: spec_fn(SkillSummary) -> bool) -> Seq<
    char,
>
    decreases upto,
{
    if upto == 0 {
        seq![]
    } else {
        lines_where(ss, (upto - 1) as nat, p) + (if p(ss[upto - 1]) {
            skill_line(ss[upto - 1])
        } else {
            seq![]
        })
    }
}

/// A list of the skills that satisfy `p`, shown under the name `filter`.
pub open spec fn listing(ss: Seq<SkillSummary>, filter: Seq<char>, p: spec_fn(SkillSummary) -> bool) -> Seq<
    char,
> {
    if ss.len() == 0 {
        "No skills loaded."@
    } else if count_where(ss, ss.len(), p) == 0 {
        "No skills match filter '"@ + filter + "'."@
    } else {
        decimal(count_where(ss, ss.len(), p)) + " skill(s):\n"@ + lines_where(ss, ss.len(), p)
    }
}

proof fn lemma_passing_as(ss: Seq<SkillSummary>, f: Seq<char>, p: spec_fn(SkillSummary) -> bool, u: nat)
    requires
        u <= ss.len(),
        forall|s: SkillSummary| #[trigger] passes(s, f) == p(s),
    ensures
        passing_count(ss, f, u) == count_where(ss, u, p),
        passing_lines(ss, f, u) == lines_where(ss, u, p),
    decreases u,
{
    if u > 0 {
        lemma_passing_as(ss, f, p, (u - 1) as nat);
        assert(passes(ss[u - 1], f) == p(ss[u - 1]));
    }
}

/// What each filter lists: `enabled` exactly the enabled skills, `disabled`
/// exactly the disabled ones, `registry` exactly those installed from the
/// registry, and any other filter every skill, each in the order given.
pub proof fn lemma_skill_list_filters(ss: Seq<SkillSummary>, f: Seq<char>)
    ensures
        skill_list_text(ss, "enabled"@) == listing(ss, "enabled"@, |s: SkillSummary| s.enabled),
        skill_list_text(ss, "disabled"@) == listing(ss, "disabled"@, |s: SkillSummary| !s.enabled),
        skill_list_text(ss, "registry"@) == listing(
            ss,
            "registry"@,
            |s: SkillSummary| s.source is Registry,
        ),
        (f != "enabled"@ && f != "disabled"@ && f != "registry"@) ==> skill_list_text(ss, f) == listing(
            ss,
            f,
            |s: SkillSummary| true,
        ),
{
    reveal_strlit("enabled");
    reveal_strlit("disabled");
    reveal_strlit("registry");
    assert("disabled"@[0] != "enabled"@[0]);
    assert("registry"@[0] != "enabled"@[0]);
    assert("registry"@[0] != "disabled"@[0]);
    let n = ss.len();
    lemma_passing_as(ss, "enabled"@, |s: SkillSummary| s.enabled, n);
    lemma_passing_as(ss, "disabled"@, |s: SkillSummary| !s.enabled, n);
    lemma_passing_as(ss, "registry"@, |s: SkillSummary| s.source is Registry, n);
    if f != "enabled"@ && f != "disabled"@ && f != "registry"@ {
        lemma_passing_as(ss, f, |s: SkillSummary| true, n);
    }
}

fn skill_passes(sk: &SkillSummary, filter: &str) -> (b: bool)
    ensures
        b == passes(*sk, filter@),
{
    if str_eq(filter, "enabled") {
        sk.enabled
    } else if str_eq(filter, "disabled") {
        !sk.enabled
    } else if str_eq(filter, "registry") {
        match &sk.source {
            SkillSource::Registry { .. } => true,
            SkillSource::Local => false,
        }
    } else {
        true
    }
}

fn push_source(out: &mut String, src: &SkillSource)
    ensures
        final(out)@ == old(out)@ + source_text(*src),
{
    match src {
        SkillSource::Local => out.append("local"),
        SkillSource::Registry { version } => {
            out.append("registry v");
            out.append(version.as_str());
            assert(final(out)@ =~= old(out)@ + source_text(*src));
        },
    }
}

fn push_secrets(out: &mut String, secrets: &Vec<String>)
    ensures
        final(out)@ == old(out)@ + secrets_text(secrets@),
{
    if secrets.len() > 0 {
        out.append(" [secrets: ");
        push_joined(out, secrets, ", ");
        out.append("]");
        assert(final(out)@ =~= old(out)@ + secrets_text(secrets@));
    } else {
        assert(final(out)@ =~= old(out)@ + secrets_text(secrets@));
    }
}

fn push_skill_line(out: &mut String, sk: &SkillSummary)
    ensures
        final(out)@ == old(out)@ + skill_line(*sk),
{
    let ghost start = out@;
    out.append("  ");
    out.append(if sk.enabled { "\u{2713}" } else { "\u{2717}" });
    out.append(" ");
    out.append(sk.name.as_str());
    out.append(" (");
    let ghost mid = out@;
    assert(mid =~= start + "  "@ + status_mark(sk.enabled) + " "@ + sk.name@ + " ("@);
    push_source(out, &sk.source);
    out.append(") \u{2014} ");
    match &sk.description {
        Some(d) => out.append(d.as_str()),
        None => out.append("(no description)"),
    }
    let ghost mid2 = out@;
    assert(mid2 =~= mid + source_text(sk.source) + ") \u{2014} "@ + description_text(sk.description));
    push_secrets(out, &sk.linked_secrets);
    out.append("\n");
    assert(final(out)@ =~= start + skill_line(*sk));
}

/// Word the list of loaded skills under a filter.
pub fn format_skill_list(skills: &Vec<SkillSummary>, filter: &str) -> (r: String)
    ensures
        r@ == skill_list_text(skills@, filter@),
{
    if skills.len() == 0 {
        return String::from_str("No skills loaded.");
    }
    let mut body = String::new();
    let mut count: usize = 0;
    let mut i: usize = 0;
    while i < skills.len()
        invariant
            i <= skills@.len(),
            count == passing_count(skills@, filter@, i as nat),
            count <= i,
            body@ == passing_lines(skills@, filter@, i as nat),
        decreases skills.len() - i,
    {
        if skill_passes(&skills[i], filter) {
            push_skill_line(&mut body, &skills[i]);
            count += 1;
        }
        i += 1;
    }
    if count == 0 {
        let mut out = String::from_str("No skills match filter '");
        out.append(filter);
        out.append("'.");
        return out;
    }
    let mut out = String::new();
    push_decimal(&mut out, count as u64);
    out.append(" skill(s):\n");
    out.append(body.as_str());
    assert(out@ =~= skill_list_text(skills@, filter@));
    out
}

/// The list filter of a call: the `filter` argument, or `all`.
pub open spec fn filter_arg(args: ToolArgs) -> Seq<char> {
    match str_arg(args, "filter"@) {
        Some(f) => f,
        None => "all"@,
    }
}

/// List the loaded skills (gateway mode), under the `filter` argument.
pub fn exec_gw_skill_list(args: &ToolArgs, skills: &Vec<SkillSummary>) -> (r: Result<String, String>)
    ensures
        ok_text(r, skill_list_text(skills@, filter_arg(*args))),
{
    let filter = match args.get_str("filter") {
        Some(f) => f,
        None => String::from_str("all"),
    };
    Ok(format_skill_list(skills, filter.as_str()))
}

/// The search line of a registry entry.
pub open spec fn result_line(e: RegistryEntry) -> Seq<char> {
    "  \u{2022} "@ + (if e.display_name@.len() == 0 {
        e.name@
    } else {
        e.display_name@
    }) + " ("@ + e.name@ + ") "@ + (if e.version@.len() == 0 {
        "latest"@
    } else {
        "v"@ + e.version@
    }) + " \u{2014} "@ + e.description@ + (if e.required_secrets@.len() == 0 {
        seq![]
    } else {
        " (needs: "@ + join(views(e.required_secrets@), ", "@) + ")"@
    }) + "\n"@
}

/// The lines of the first `upto` results.
pub open spec fn result_lines(rs: Seq<RegistryEntry>, upto: nat) -> Seq<char>
    decreases upto,
{
    if upto == 0 {
        seq![]
    } else {
        result_lines(rs, (upto - 1) as nat) + result_line(rs[upto - 1])
    }
}

/// The answer of a registry search.
pub open spec fn search_text(query: Seq<char>, rs: Seq<RegistryEntry>) -> Seq<char> {
    if rs.len() == 0 {
        "No skills found matching '"@ + query + "'."@
    } else {
        decimal(rs.len()) + " result(s) for '"@ + query + "':\n"@ + result_lines(rs, rs.len())
            + "\nTo install: clawhub install <skill-name>"@
    }
}

fn push_result_line(out: &mut String, e: &RegistryEntry)
    ensures
        final(out)@ == old(out)@ + result_line(*e),
{
    let ghost start = out@;
    out.append("  \u{2022} ");
    if e.display_name.as_str().is_empty() {
        out.append(e.name.as_str());
    } else {
        out.append(e.display_name.as_str());
    }
    out.append(" (");
    out.append(e.name.as_str());
    out.append(") ");
    let ghost a = out@;
    assert(a =~= start + "  \u{2022} "@ + (if e.display_name@.len() == 0 {
        e.name@
    } else {
        e.display_name@
    }) + " ("@ + e.name@ + ") "@);
    if e.version.as_str().is_empty() {
        out.append("latest");
    } else {
        out.append("v");
        out.append(e.version.as_str());
    }
    out.append(" \u{2014} ");
    out.append(e.description.as_str());
    let ghost b = out@;
    assert(b =~= a + (if e.version@.len() == 0 {
        "latest"@
    } else {
        "v"@ + e.version@
    }) + " \u{2014} "@ + e.description@);
    if e.required_secrets.len() > 0 {
        out.append(" (needs: ");
        push_joined(out, &e.required_secrets, ", ");
        out.append(")");
        assert(out@ =~= b + " (needs: "@ + join(views(e.required_secrets@), ", "@) + ")"@);
    }
    out.append("\n");
    assert(final(out)@ =~= old(out)@ + result_line(*e));
}

/// Word the results of a registry search.
pub fn format_search_results(query: &str, results: &Vec<RegistryEntry>) -> (r: String)
    ensures
        r@ == search_text(query@, results@),
{
    if results.len() == 0 {
        let mut out = String::from_str("No skills found matching '");
        out.append(query);
        out.append("'.");
        return out;
    }
    let mut out = String::new();
    push_decimal(&mut out, results.len() as u64);
    out.append(" result(s) for '");
    out.append(query);
    out.append("':\n");
    let ghost head = out@;
    let mut i: usize = 0;
    while i < results.len()
        invariant
            i <= results@.len(),
            out@ == head + result_lines(results@, i as nat),
        decreases results.len() - i,
    {
        push_result_line(&mut out, &results[i]);
        assert(out@ =~= head + result_lines(results@, (i + 1) as nat));
        i += 1;
    }
    out.append("\nTo install: clawhub install <skill-name>");
    assert(out@ =~= search_text(query@, results@));
    out
}

/// The answer after an install.
pub open spec fn installed_text(name: Seq<char>, version: Option<Seq<char>>) -> Seq<char> {
    "Skill '"@ + name + "'"@ + (match version {
        Some(v) => " v"@ + v,
        None => " (latest)"@,
    }) + " installed from ClawHub and loaded."@
}

/// Word the answer after an install.
pub fn installed_message(name: &str, version: Option<&str>) -> (r: String)
    ensures
        r@ == installed_text(name@, crate::webhook::opt_view(version)),
{
    let mut out = String::from_str("Skill '");
    out.append(name);
    out.append("'");
    match version {
        Some(v) => {
            out.append(" v");
            out.append(v);
        },
        None => out.append(" (latest)"),
    }
    out.append(" installed from ClawHub and loaded.");
    assert(out@ =~= installed_text(name@, crate::webhook::opt_view(version)));
    out
}

/// The answer to an info request: the manager's text, or not found.
pub fn info_result(name: &str, info: Option<String>) -> (r: Result<String, String>)
    ensures
        info matches Some(t) ==> ok_text(r, t@),
        info is None ==> err_text(r, "Skill '"@ + name@ + "' not found."@),
{
    match info {
        Some(t) => Ok(t),
        None => {
            let mut e = String::from_str("Skill '");
            e.append(name);
            e.append("' not found.");
            Err(e)
        },
    }
}

/// Word the answer after enabling or disabling a skill.
pub fn enabled_message(name: &str, enabled: bool) -> (r: String)
    ensures
        r@ == "Skill '"@ + name@ + "' is now "@ + (if enabled {
            "enabled"@
        } else {
            "disabled"@
        }) + "."@,
{
    let mut out = String::from_str("Skill '");
    out.append(name);
    out.append("' is now ");
    out.append(if enabled { "enabled" } else { "disabled" });
    out.append(".");
    out
}

/// Word the answer after linking or unlinking a secret.
pub fn linked_message(link: bool, skill: &str, secret: &str) -> (r: String)
    ensures
        r@ == "Secret '"@ + secret@ + (if link {
            "' linked to skill '"@
        } else {
            "' unlinked from skill '"@
        }) + skill@ + "'."@,
{
    let mut out = String::from_str("Secret '");
    out.append(secret);
    out.append(if link { "' linked to skill '" } else { "' unlinked from skill '" });
    out.append(skill);
    out.append("'.");
    out
}

/// Word the answer after removing a skill.
pub fn removed_message(name: &str) -> (r: String)
    ensures
        r@ == "Skill '"@ + name@ + "' removed."@,
{
    let mut out = String::from_str("Skill '");
    out.append(name);
    out.append("' removed.");
    out
}

/// Word the answer after an update: updated, or already current.
pub fn updated_message(name: &str, updated: bool) -> (r: String)
    ensures
        r@ == "Skill '"@ + name@ + (if updated {
            "' updated to latest version."@
        } else {
            "' is already up to date."@
        }),
{
    let mut out = String::from_str("Skill '");
    out.append(name);
    out.append(if updated { "' updated to latest version." } else { "' is already up to date." });
    out
}

} // verus!
