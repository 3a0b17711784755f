use zeroclaw::{AutonomyLevel, BrowserOpenTool, SecurityPolicy};

fn test_tool(allowed_domains: Vec<&str>) -> BrowserOpenTool {
    BrowserOpenTool::new(allowed_domains.into_iter().map(String::from).collect())
}

fn supervised() -> SecurityPolicy {
    SecurityPolicy {
        autonomy: AutonomyLevel::Supervised,
        ..SecurityPolicy::default()
    }
}

fn err_text(tool: &BrowserOpenTool, url: &str) -> String {
    tool.validate_url(url).err().expect("expected a refusal").message()
}

#[test]
fn validate_accepts_exact_domain() {
    let tool = test_tool(vec!["example.com"]);
    let got = tool.validate_url("https://example.com/docs").ok().unwrap();
    assert_eq!(got, "https://example.com/docs");
}

#[test]
fn validate_accepts_subdomain() {
    let tool = test_tool(vec!["example.com"]);
    assert!(tool.validate_url("https://api.example.com/v1").is_ok());
}

#[test]
fn validate_accepts_wildcard_allowlist_for_public_host() {
    let tool = test_tool(vec!["*"]);
    assert!(tool.validate_url("https://www.rust-lang.org").is_ok());
}

#[test]
fn validate_wildcard_allowlist_still_rejects_private_host() {
    let tool = test_tool(vec!["*"]);
    let err = err_text(&tool, "https://localhost:8443");
    assert!(err.contains("local/private"));
}

#[test]
fn validate_rejects_http() {
    let tool = test_tool(vec!["example.com"]);
    let err = err_text(&tool, "http://example.com");
    assert!(err.contains("https://"));
}

#[test]
fn validate_rejects_localhost() {
    let tool = test_tool(vec!["localhost"]);
    let err = err_text(&tool, "https://localhost:8080");
    assert!(err.contains("local/private"));
}

#[test]
fn validate_rejects_private_ipv4() {
    let tool = test_tool(vec!["192.168.1.5"]);
    let err = err_text(&tool, "https://192.168.1.5");
    assert!(err.contains("local/private"));
}

#[test]
fn validate_rejects_allowlist_miss() {
    let tool = test_tool(vec!["example.com"]);
    let err = err_text(&tool, "https://google.com");
    assert!(err.contains("allowed_domains"));
}

#[test]
fn validate_rejects_whitespace() {
    let tool = test_tool(vec!["example.com"]);
    let err = err_text(&tool, "https://example.com/hello world");
    assert!(err.contains("whitespace"));
}

#[test]
fn validate_rejects_userinfo() {
    let tool = test_tool(vec!["example.com"]);
    let err = err_text(&tool, "https://user@example.com");
    assert!(err.contains("userinfo"));
}

#[test]
fn validate_requires_allowlist() {
    let tool = BrowserOpenTool::new(vec![]);
    let err = err_text(&tool, "https://example.com");
    assert!(err.contains("allowed_domains"));
}

#[test]
fn execute_blocks_readonly_mode() {
    let mut security = SecurityPolicy {
        autonomy: AutonomyLevel::ReadOnly,
        ..SecurityPolicy::default()
    };
    let tool = BrowserOpenTool::new(vec!["example.com".into()]);
    let result = tool
        .prepare_open(&mut security, Some("https://example.com"), 10)
        .err()
        .unwrap();
    assert!(!result.success);
    assert!(result.error.unwrap().contains("read-only"));
}

#[test]
fn execute_blocks_when_rate_limited() {
    let mut security = SecurityPolicy {
        max_actions_per_hour: Some(0),
        ..SecurityPolicy::default()
    };
    let tool = BrowserOpenTool::new(vec!["example.com".into()]);
    let result = tool
        .prepare_open(&mut security, Some("https://example.com"), 10)
        .err()
        .unwrap();
    assert!(!result.success);
    assert!(result.error.unwrap().contains("rate limit"));
}

#[test]
fn prepare_open_passes_valid_url_and_records_action() {
    let tool = test_tool(vec!["example.com"]);
    let mut security = supervised();
    let url = tool
        .prepare_open(&mut security, Some("  https://example.com/a  "), 5)
        .ok()
        .unwrap();
    assert_eq!(url, "https://example.com/a");
    assert_eq!(security.actions_in_window(), 1);
    let again = test_tool(vec!["example.com"]);
    assert!(again.prepare_open(&mut security, Some("https://example.com"), 6).is_ok());
    assert_eq!(security.actions_in_window(), 2);
}

#[test]
fn prepare_open_reports_missing_url() {
    let tool = test_tool(vec!["example.com"]);
    let mut security = supervised();
    let result = tool.prepare_open(&mut security, None, 5).err().unwrap();
    assert_eq!(result.error.unwrap(), "Missing 'url' parameter");
    assert_eq!(security.actions_in_window(), 0);
}

#[test]
fn prepare_open_reports_validation_error_text() {
    let tool = test_tool(vec!["example.com"]);
    let mut security = supervised();
    let result = tool
        .prepare_open(&mut security, Some("https://google.com"), 5)
        .err()
        .unwrap();
    assert_eq!(
        result.error.unwrap(),
        "Host 'google.com' is not in browser.allowed_domains"
    );
}

#[test]
fn opened_outcome_texts() {
    let ok = BrowserOpenTool::opened("https://example.com", Ok(()));
    assert!(ok.success);
    assert_eq!(ok.output, "Opened in system browser: https://example.com");
    let failed = BrowserOpenTool::opened("https://example.com", Err("no launcher".to_string()));
    assert!(!failed.success);
    assert_eq!(
        failed.error.unwrap(),
        "Failed to open system browser: no launcher"
    );
}

#[test]
fn subdomain_boundary_is_respected() {
    let tool = test_tool(vec!["example.com"]);
    assert!(tool.validate_url("https://api.example.com").is_ok());
    let err = err_text(&tool, "https://notexample.com");
    assert_eq!(err, "Host 'notexample.com' is not in browser.allowed_domains");
}

#[test]
fn wildcard_rejects_every_private_form() {
    let tool = test_tool(vec!["*"]);
    for url in [
        "https://127.0.0.1",
        "https://10.1.2.3/x",
        "https://172.16.0.1",
        "https://172.31.255.255",
        "https://169.254.169.254/latest",
        "https://0.0.0.0",
        "https://[::1]:8080",
        "https://[fe80::1]",
        "https://[fd00::2]",
        "https://127.1",
        "https://2130706433",
        "https://app.localhost",
        "https://LOCALHOST",
    ] {
        let err = err_text(&tool, url);
        assert!(err.contains("local/private"), "{url}: {err}");
    }
    for url in [
        "https://172.32.0.1",
        "https://8.8.8.8",
        "https://[2001:db8::1]",
        "https://Example.COM/Path",
    ] {
        assert!(tool.validate_url(url).is_ok(), "{url}");
    }
}

#[test]
fn validate_rejects_empty_and_missing_host() {
    let tool = test_tool(vec!["example.com"]);
    assert_eq!(err_text(&tool, "   "), "URL cannot be empty");
    assert_eq!(err_text(&tool, "https:///path"), "URL must include a host");
    assert_eq!(err_text(&tool, "https://:443"), "URL must include a host");
}

#[test]
fn allowlist_entries_are_normalized() {
    let tool = test_tool(vec!["  Example.COM ", "", "   "]);
    assert!(tool.validate_url("https://docs.example.com").is_ok());
    let empty = test_tool(vec!["", "  "]);
    assert!(err_text(&empty, "https://example.com").contains("allowed_domains"));
}

#[test]
fn leading_and_trailing_whitespace_is_trimmed() {
    let tool = test_tool(vec!["example.com"]);
    assert_eq!(
        tool.validate_url("\thttps://example.com/x \n").ok().unwrap(),
        "https://example.com/x"
    );
}

#[test]
fn trailing_dots_do_not_bypass_host_rule() {
    let tool = test_tool(vec!["*"]);
    for url in [
        "https://localhost.",
        "https://localhost..",
        "https://127.0.0.1.",
        "https://10.0.0.1./x",
        "https://app.localhost.:8080",
    ] {
        let err = err_text(&tool, url);
        assert!(err.contains("local/private"), "{url}: {err}");
    }
    assert_eq!(err_text(&tool, "https://.../x"), "URL must include a host");
    assert!(test_tool(vec!["example.com"]).validate_url("https://example.com.").is_ok());
}

#[test]
fn backslash_ends_the_authority() {
    let tool = test_tool(vec!["example.com"]);
    let err = err_text(&tool, "https://localhost\\.example.com");
    assert!(err.contains("local/private"), "{err}");
    assert!(tool.validate_url("https://example.com\\path").is_ok());
}
