use rustyclaw::skills::{
    enabled_message, exec_gw_skill_list, exec_skill_enable, exec_skill_info, exec_skill_install,
    exec_skill_link_secret, exec_skill_list, exec_skill_publish, exec_skill_remove, exec_skill_search,
    exec_skill_update, format_search_results, format_skill_list, info_result, installed_message,
    linked_message, parse_skill_tool, removed_message, updated_message, ArgValue, RegistryEntry,
    SkillSource, SkillSummary, SkillToolCall, ToolArgs,
};
use std::path::Path;

fn args(pairs: &[(&str, ArgValue)]) -> ToolArgs {
    ToolArgs {
        entries: pairs
            .iter()
            .map(|(k, v)| {
                let v = match v {
                    ArgValue::Str(s) => ArgValue::Str(s.clone()),
                    ArgValue::Bool(b) => ArgValue::Bool(*b),
                    ArgValue::Other => ArgValue::Other,
                };
                (k.to_string(), v)
            })
            .collect(),
    }
}

fn s(v: &str) -> ArgValue {
    ArgValue::Str(v.to_string())
}

fn ws() -> &'static Path {
    Path::new("/tmp/ws")
}

#[test]
fn arg_lookup() {
    let a = args(&[("name", s("x")), ("enabled", ArgValue::Bool(true)), ("n", ArgValue::Other), ("name", s("y"))]);
    assert_eq!(a.get_str("name"), Some("x".to_string()));
    assert_eq!(a.get_str("enabled"), None);
    assert_eq!(a.get_bool("enabled"), Some(true));
    assert_eq!(a.get_bool("name"), None);
    assert_eq!(a.get_str("n"), None);
    assert_eq!(a.get_str("missing"), None);
}

#[test]
fn standalone_tools() {
    let none = args(&[]);
    assert_eq!(
        exec_skill_list(&none, ws()).unwrap(),
        "No skills loaded (standalone mode). Connect to the gateway for full skill support."
    );
    assert_eq!(exec_skill_search(&none, ws()).unwrap_err(), "Missing required parameter: query");
    assert_eq!(
        exec_skill_search(&args(&[("query", s("git"))]), ws()).unwrap(),
        "To search for skills matching 'git':\n\nUse the CLI: rustyclaw skills search \"git\"\nOr browse skills at: https://clawhub.ai"
    );
    assert_eq!(exec_skill_install(&none, ws()).unwrap_err(), "Missing required parameter: name");
    assert_eq!(
        exec_skill_install(&args(&[("name", s("crm"))]), ws()).unwrap(),
        "To install the 'crm' skill:\n\nrustyclaw skills install crm\n\nThe skill will be installed to your workspace/skills directory."
    );
    assert_eq!(
        exec_skill_info(&args(&[("name", s("crm"))]), ws()).unwrap(),
        "Skill info requires gateway connection for full details."
    );
    assert_eq!(
        exec_skill_enable(&args(&[("name", s("crm"))]), ws()).unwrap_err(),
        "Missing required parameter: enabled"
    );
    assert_eq!(
        exec_skill_enable(&args(&[("name", s("crm")), ("enabled", ArgValue::Bool(false))]), ws()).unwrap_err(),
        "Skill enable/disable requires gateway connection."
    );
    assert_eq!(
        exec_skill_publish(&args(&[("name", s("crm"))]), ws()).unwrap(),
        "To publish skill 'crm':\n\nrustyclaw skills publish crm\n\nRequires clawhub_token set in config.toml."
    );
    assert_eq!(
        exec_skill_remove(&args(&[("name", s("crm"))]), ws()).unwrap(),
        "To remove skill 'crm':\n\nrustyclaw skills remove crm"
    );
    assert_eq!(
        exec_skill_update(&args(&[("name", s("crm"))]), ws()).unwrap(),
        "To update skill 'crm':\n\nrustyclaw skills update crm"
    );
}

#[test]
fn standalone_link_secret() {
    assert_eq!(
        exec_skill_link_secret(&args(&[("skill", s("a")), ("secret", s("b"))]), ws()).unwrap_err(),
        "Missing required parameter: action"
    );
    assert_eq!(
        exec_skill_link_secret(&args(&[("action", s("bind")), ("secret", s("b"))]), ws()).unwrap_err(),
        "Missing required parameter: skill"
    );
    assert_eq!(
        exec_skill_link_secret(&args(&[("action", s("bind")), ("skill", s("a"))]), ws()).unwrap_err(),
        "Missing required parameter: secret"
    );
    assert_eq!(
        exec_skill_link_secret(&args(&[("action", s("bind")), ("skill", s("a")), ("secret", s("b"))]), ws())
            .unwrap_err(),
        "Unknown action 'bind'. Use 'link' or 'unlink'."
    );
    assert_eq!(
        exec_skill_link_secret(&args(&[("action", s("unlink")), ("skill", s("a")), ("secret", s("b"))]), ws())
            .unwrap_err(),
        "Skill secret linking requires gateway connection."
    );
}

#[test]
fn gateway_calls_are_parsed() {
    assert!(matches!(parse_skill_tool("skill_list", &args(&[])), Ok(SkillToolCall::List { filter }) if filter == "all"));
    assert!(matches!(
        parse_skill_tool("skill_install", &args(&[("name", s("crm")), ("version", s("1.2"))])),
        Ok(SkillToolCall::Install { name, version: Some(v) }) if name == "crm" && v == "1.2"
    ));
    assert!(matches!(
        parse_skill_tool("skill_enable", &args(&[("name", s("crm")), ("enabled", ArgValue::Bool(true))])),
        Ok(SkillToolCall::Enable { name, enabled: true }) if name == "crm"
    ));
    assert!(matches!(
        parse_skill_tool("skill_link_secret", &args(&[("action", s("unlink")), ("skill", s("k")), ("secret", s("x"))])),
        Ok(SkillToolCall::LinkSecret { link: false, skill, secret }) if skill == "k" && secret == "x"
    ));
    assert!(matches!(parse_skill_tool("skill_search", &args(&[])), Err(e) if e == "Missing required parameter: query"));
    assert!(matches!(parse_skill_tool("skill_frob", &args(&[])), Err(e) if e == "Unknown skill tool: skill_frob"));
    assert!(matches!(
        parse_skill_tool("skill_link_secret", &args(&[("action", s("x")), ("skill", s("k")), ("secret", s("x"))])),
        Err(e) if e == "Unknown action 'x'. Use 'link' or 'unlink'."
    ));
}

fn skill(name: &str, enabled: bool, source: SkillSource, desc: Option<&str>, secrets: &[&str]) -> SkillSummary {
    SkillSummary {
        name: name.to_string(),
        enabled,
        source,
        description: desc.map(|d| d.to_string()),
        linked_secrets: secrets.iter().map(|x| x.to_string()).collect(),
    }
}

#[test]
fn skill_list_wording() {
    let skills = vec![
        skill("crm", true, SkillSource::Local, Some("CRM sync"), &[]),
        skill("git", false, SkillSource::Registry { version: "1.0".to_string() }, None, &["GH", "TOKEN"]),
    ];
    assert_eq!(format_skill_list(&vec![], "all"), "No skills loaded.");
    assert_eq!(
        format_skill_list(&skills, "all"),
        "2 skill(s):\n  \u{2713} crm (local) \u{2014} CRM sync\n  \u{2717} git (registry v1.0) \u{2014} (no description) [secrets: GH, TOKEN]\n"
    );
    assert_eq!(format_skill_list(&skills, "registry"), "1 skill(s):\n  \u{2717} git (registry v1.0) \u{2014} (no description) [secrets: GH, TOKEN]\n");
    let only_enabled = vec![skill("crm", true, SkillSource::Local, None, &[])];
    assert_eq!(format_skill_list(&only_enabled, "disabled"), "No skills match filter 'disabled'.");
    assert_eq!(
        exec_gw_skill_list(&args(&[("filter", s("enabled"))]), &skills).unwrap(),
        "1 skill(s):\n  \u{2713} crm (local) \u{2014} CRM sync\n"
    );
    assert_eq!(exec_gw_skill_list(&args(&[]), &skills).unwrap(), format_skill_list(&skills, "all"));
}

#[test]
fn search_wording() {
    assert_eq!(format_search_results("zzz", &vec![]), "No skills found matching 'zzz'.");
    let rs = vec![
        RegistryEntry {
            name: "git-helper".to_string(),
            display_name: "Git Helper".to_string(),
            version: "2.1".to_string(),
            description: "git things".to_string(),
            required_secrets: vec!["GH".to_string()],
        },
        RegistryEntry {
            name: "plain".to_string(),
            display_name: String::new(),
            version: String::new(),
            description: "d".to_string(),
            required_secrets: vec![],
        },
    ];
    assert_eq!(
        format_search_results("git", &rs),
        "2 result(s) for 'git':\n  \u{2022} Git Helper (git-helper) v2.1 \u{2014} git things (needs: GH)\n  \u{2022} plain (plain) latest \u{2014} d\n\nTo install: clawhub install <skill-name>"
    );
}

#[test]
fn gateway_answers() {
    assert_eq!(installed_message("crm", Some("1.2")), "Skill 'crm' v1.2 installed from ClawHub and loaded.");
    assert_eq!(installed_message("crm", None), "Skill 'crm' (latest) installed from ClawHub and loaded.");
    assert_eq!(info_result("crm", Some("info".to_string())).unwrap(), "info");
    assert_eq!(info_result("crm", None).unwrap_err(), "Skill 'crm' not found.");
    assert_eq!(enabled_message("crm", true), "Skill 'crm' is now enabled.");
    assert_eq!(enabled_message("crm", false), "Skill 'crm' is now disabled.");
    assert_eq!(linked_message(true, "crm", "KEY"), "Secret 'KEY' linked to skill 'crm'.");
    assert_eq!(linked_message(false, "crm", "KEY"), "Secret 'KEY' unlinked from skill 'crm'.");
    assert_eq!(removed_message("crm"), "Skill 'crm' removed.");
    assert_eq!(updated_message("crm", true), "Skill 'crm' updated to latest version.");
    assert_eq!(updated_message("crm", false), "Skill 'crm' is already up to date.");
}
