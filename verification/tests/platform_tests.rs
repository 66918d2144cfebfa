use investa::platform::{gh_env_allowed, gh_env_allowlist_names, has_codex_deny_acl};

#[test]
fn recognizes_only_an_explicit_codex_no_access_entry() {
    assert!(has_codex_deny_acl(r"C:\data DESKTOP\CodexSandboxUsers:(OI)(CI)(N)"));
    assert!(!has_codex_deny_acl(r"C:\data DESKTOP\CodexSandboxUsers:(I)(OI)(CI)(RX)"));
    assert!(!has_codex_deny_acl(r"C:\data DESKTOP\OtherSandboxUsers:(OI)(CI)(N)"));
}

#[test]
fn the_deny_entry_must_sit_on_one_line() {
    assert!(!has_codex_deny_acl("CodexSandboxUsers:(OI)\n(N)"));
    assert!(has_codex_deny_acl("C:\\data\r\n DESKTOP\\CodexSandboxUsers:(N)\r\n"));
}

#[test]
fn github_environment_allowlist_excludes_tokens_and_financial_secrets() {
    let allowlist = gh_env_allowlist_names();
    for name in ["GH_TOKEN", "GITHUB_TOKEN", "TELEGRAM_BOT_TOKEN", "BINANCE_SECRET_KEY"] {
        assert!(!allowlist.contains(&name));
        assert!(!gh_env_allowed(name));
    }
    assert!(gh_env_allowed("PATH"));
}
