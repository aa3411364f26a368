use avm::catalog::AvmState;
use avm::error::AvmError;
use avm::install::{
    already_installed_message, canonical_key, commit_key, download_fallback_to_source,
    plan_install, plan_update, plan_use, InstallMethod, InstallPlan, UpdateStep, UseAction,
};
use avm::parse::{parse_install_target, parse_version, InstallTarget, TargetRequest, VersionRequest};
use avm::paths::{binary_file_name, lock_file_name, prebuilt_url, version_part_of_file_name};
use avm::proxy::{
    is_proxy_invocation, plan_proxy, propagate_exit_code, proxy_missing_binary_message,
    proxy_no_selection_message, ProxyAction,
};
use avm::registry::{
    get_latest_version, published_from_names, resolve_commit_from, retry_delay_ms, should_retry,
    sort_versions_ascending,
};
use avm::version::{str_eq, u64_to_string, Version};

const SHA: &str = "6cf200493a307c01487c7b492b4893e0d6f6cb23";

fn ver(text: &str) -> Version {
    match parse_version(text) {
        Ok(VersionRequest::Exact(v)) => v,
        _ => panic!("expected {text} to parse as an exact version"),
    }
}

#[test]
fn parse_plain_release() {
    let v = ver("0.29.0");
    assert_eq!(v.major, 0);
    assert_eq!(v.minor, 29);
    assert_eq!(v.patch, 0);
    assert!(v.pre.is_empty());
    assert!(v.build.is_empty());
}

#[test]
fn parse_with_pre_and_build() {
    let v = ver("1.2.3-alpha.1+build5");
    assert_eq!(v.major, 1);
    assert_eq!(v.minor, 2);
    assert_eq!(v.patch, 3);
    assert_eq!(v.pre, "alpha.1");
    assert_eq!(v.build, "build5");
}

#[test]
fn parse_rejects_garbage() {
    assert!(matches!(parse_version("1.q.r"), Err(AvmError::Usage(_))));
    assert!(matches!(parse_version(""), Err(AvmError::Usage(_))));
}

#[test]
fn parse_latest_literal() {
    assert!(matches!(parse_version("latest"), Ok(VersionRequest::Latest)));
    assert!(matches!(
        parse_install_target("latest"),
        Ok(TargetRequest::NeedLatest)
    ));
}

#[test]
fn install_target_version() {
    match parse_install_target("0.29.0") {
        Ok(TargetRequest::Ready(InstallTarget::Version(v))) => {
            assert_eq!(v.to_version_string(), "0.29.0");
        }
        _ => panic!("expected a version target"),
    }
}

#[test]
fn install_target_commit_in_pre_release() {
    let arg = format!("0.28.0-{SHA}");
    match parse_install_target(&arg) {
        Ok(TargetRequest::Ready(InstallTarget::Commit(c))) => assert_eq!(c, SHA),
        _ => panic!("expected a commit target"),
    }
}

#[test]
fn install_target_commit_prefix() {
    match parse_install_target(SHA) {
        Ok(TargetRequest::NeedCommitLookup(p)) => assert_eq!(p, SHA),
        _ => panic!("expected a commit lookup"),
    }
    match parse_install_target("6cf2004") {
        Ok(TargetRequest::NeedCommitLookup(p)) => assert_eq!(p, "6cf2004"),
        _ => panic!("expected a commit lookup"),
    }
}

#[test]
fn install_target_short_prefix_is_usage_error() {
    match parse_install_target("6cf20") {
        Err(e) => {
            assert_eq!(e.exit_code(), 2);
            assert!(e.message().contains("not a valid version or commit"));
        }
        _ => panic!("expected a usage error"),
    }
}

#[test]
fn ordering_core_versions() {
    assert!(ver("0.28.0").compare(&ver("0.29.0")) < 0);
    assert!(ver("0.29.0").compare(&ver("0.28.0")) > 0);
    assert!(ver("0.29.0").compare(&ver("0.29.0")) == 0);
    assert!(ver("1.0.0").compare(&ver("0.99.99")) > 0);
}

#[test]
fn ordering_pre_release_chain() {
    let chain = [
        "1.0.0-alpha",
        "1.0.0-alpha.1",
        "1.0.0-alpha.beta",
        "1.0.0-beta",
        "1.0.0-beta.2",
        "1.0.0-beta.11",
        "1.0.0-rc.1",
        "1.0.0",
    ];
    for w in chain.windows(2) {
        assert!(
            ver(w[0]).compare(&ver(w[1])) < 0,
            "{} should precede {}",
            w[0],
            w[1]
        );
    }
}

#[test]
fn ordering_ignores_build_metadata() {
    assert!(ver("1.0.0+a").compare(&ver("1.0.0+b")) == 0);
    assert!(ver("1.0.0+build").compare(&ver("1.0.0")) == 0);
}

#[test]
fn ordering_numeric_identifiers_by_value() {
    assert!(ver("1.0.0-2").compare(&ver("1.0.0-11")) < 0);
    assert!(ver("1.0.0-9").compare(&ver("1.0.0-10")) < 0);
    assert!(ver("1.0.0-0").compare(&ver("1.0.0-1")) < 0);
}

#[test]
fn leading_zero_numeric_identifier_is_rejected() {
    assert!(matches!(parse_version("1.0.0-01"), Err(AvmError::Usage(_))));
}

#[test]
fn version_rendering_round_trip() {
    for text in [
        "0.29.0".to_string(),
        "1.2.3-alpha.1+build5".to_string(),
        format!("0.0.0-{SHA}"),
    ] {
        assert_eq!(ver(&text).to_version_string(), text);
    }
    assert_eq!(u64_to_string(0), "0");
    assert_eq!(u64_to_string(29), "29");
    assert_eq!(u64_to_string(18446744073709551615), "18446744073709551615");
}

#[test]
fn binary_and_lock_names() {
    let v = ver("0.29.0");
    assert_eq!(binary_file_name(&v), "anchor-0.29.0");
    assert_eq!(lock_file_name(&v), "anchor-0.29.0.lock");
    assert_eq!(avm::paths::part_file_name(&v), "anchor-0.29.0.part");
}

#[test]
fn prebuilt_url_template() {
    let v = ver("0.29.0");
    assert_eq!(
        prebuilt_url(&v, "x86_64", "linux"),
        "https://github.com/coral-xyz/anchor/releases/download/v0.29.0/anchor-0.29.0-x86_64-linux"
    );
}

#[test]
fn path_variable_membership() {
    assert!(avm::paths::path_has_entry(
        "/usr/bin:/home/u/.avm/bin:/bin",
        "/home/u/.avm/bin"
    ));
    assert!(avm::paths::path_has_entry("/home/u/.avm/bin", "/home/u/.avm/bin"));
    assert!(!avm::paths::path_has_entry(
        "/usr/bin:/home/u/.avm/binx",
        "/home/u/.avm/bin"
    ));
    assert!(!avm::paths::path_has_entry("", "/home/u/.avm/bin"));
}

#[test]
fn file_name_parsing() {
    assert_eq!(
        version_part_of_file_name("anchor-0.29.0").as_deref(),
        Some("0.29.0")
    );
    assert!(version_part_of_file_name("other-0.29.0").is_none());
    assert!(version_part_of_file_name("anchor").is_none());
}

#[test]
fn scan_splits_versions_and_corrupt_names() {
    let names = vec![
        "anchor-0.29.0".to_string(),
        "anchor-bogus".to_string(),
        "unrelated".to_string(),
        format!("anchor-0.0.0-{SHA}"),
    ];
    let (versions, corrupt) = avm::catalog::versions_from_file_names(&names);
    let rendered: Vec<String> = versions.iter().map(|v| v.to_version_string()).collect();
    assert_eq!(rendered, vec!["0.29.0".to_string(), format!("0.0.0-{SHA}")]);
    assert_eq!(corrupt, vec!["anchor-bogus".to_string()]);
}

#[test]
fn sorting_is_ascending() {
    let input = vec![ver("0.29.0"), ver("0.28.0-rc.1"), ver("0.28.0"), ver("0.30.1")];
    let sorted = sort_versions_ascending(&input);
    let rendered: Vec<String> = sorted.iter().map(|v| v.to_version_string()).collect();
    assert_eq!(rendered, vec!["0.28.0-rc.1", "0.28.0", "0.29.0", "0.30.1"]);
}

#[test]
fn published_versions_filter_and_order() {
    let names = vec![
        "0.28.0".to_string(),
        "not-a-version".to_string(),
        "0.30.0".to_string(),
        "0.29.0".to_string(),
    ];
    let published = published_from_names(&names);
    let rendered: Vec<String> = published.iter().map(|v| v.to_version_string()).collect();
    assert_eq!(rendered, vec!["0.30.0", "0.29.0", "0.28.0"]);
    let latest = get_latest_version(&published).expect("registry is not empty");
    assert_eq!(latest.to_version_string(), "0.30.0");
}

#[test]
fn empty_registry_is_an_error() {
    let published: Vec<Version> = Vec::new();
    match get_latest_version(&published) {
        Err(e) => assert!(e.message().contains("no published versions")),
        Ok(_) => panic!("expected an empty-registry error"),
    }
}

#[test]
fn commit_resolution_cases() {
    let candidates = vec![
        SHA.to_string(),
        "aa0000000000000000000000000000000000aaaa".to_string(),
        "aa1111111111111111111111111111111111bbbb".to_string(),
    ];
    assert_eq!(
        resolve_commit_from("6cf2004", &candidates).expect("unique prefix"),
        SHA
    );
    assert!(matches!(
        resolve_commit_from("aa", &candidates),
        Err(AvmError::AmbiguousCommit(_))
    ));
    assert!(matches!(
        resolve_commit_from("dead", &candidates),
        Err(AvmError::UnknownCommit(_))
    ));
}

#[test]
fn commit_resolution_round_trip() {
    let candidates = vec![
        SHA.to_string(),
        "aa0000000000000000000000000000000000aaaa".to_string(),
    ];
    let full = resolve_commit_from("6cf2004", &candidates).expect("unique prefix");
    let again = resolve_commit_from(&full, &candidates).expect("full identifier resolves");
    assert_eq!(again, full);
}

#[test]
fn clean_install_selects_and_lists() {
    let mut st = AvmState::empty();
    let v = ver("0.29.0");
    st.record_install(v.clone());
    let cur = st.current().expect("install selects");
    assert_eq!(cur.to_version_string(), "0.29.0");
    let listed = st.list_installed();
    assert_eq!(listed.len(), 1);
    assert_eq!(listed[0].to_version_string(), "0.29.0");
}

#[test]
fn second_install_short_circuits() {
    let mut st = AvmState::empty();
    let v = ver("0.29.0");
    st.record_install(v.clone());
    let plan = plan_install(&st, &v, &InstallTarget::Version(v.clone()), false, false);
    assert!(matches!(plan, InstallPlan::AlreadyInstalled));
    assert!(already_installed_message(&v).contains("already installed"));
    assert_eq!(st.list_installed().len(), 1);
    assert_eq!(st.current().unwrap().to_version_string(), "0.29.0");
}

#[test]
fn force_install_proceeds() {
    let mut st = AvmState::empty();
    let v = ver("0.29.0");
    st.record_install(v.clone());
    let plan = plan_install(&st, &v, &InstallTarget::Version(v.clone()), true, false);
    assert!(matches!(plan, InstallPlan::Proceed(InstallMethod::Prebuilt)));
}

#[test]
fn commit_install_is_keyed_canonically() {
    let mut st = AvmState::empty();
    let key = commit_key(SHA.to_string());
    assert_eq!(key.to_version_string(), format!("0.0.0-{SHA}"));
    st.record_install(key);
    let listed = st.list_installed();
    assert_eq!(listed.len(), 1);
    assert_eq!(listed[0].major, 0);
    assert_eq!(listed[0].minor, 0);
    assert_eq!(listed[0].patch, 0);
    assert_eq!(listed[0].pre, SHA);
}

#[test]
fn canonical_keys_per_target() {
    let v = ver("0.29.0");
    let k = canonical_key(InstallTarget::Version(v), None).unwrap();
    assert_eq!(k.to_version_string(), "0.29.0");
    let k = canonical_key(InstallTarget::Commit(SHA.to_string()), None).unwrap();
    assert_eq!(k.to_version_string(), format!("0.0.0-{SHA}"));
    let k = canonical_key(
        InstallTarget::Path("/src/anchor".to_string()),
        Some(ver("0.27.0")),
    )
    .unwrap();
    assert_eq!(k.to_version_string(), "0.27.0");
    assert!(matches!(
        canonical_key(InstallTarget::Path("/src/anchor".to_string()), None),
        Err(AvmError::CorruptState(_))
    ));
}

#[test]
fn install_plans_choose_the_method() {
    let st = AvmState::empty();
    let v = ver("0.29.0");
    let plan = plan_install(&st, &v, &InstallTarget::Version(v.clone()), false, false);
    assert!(matches!(plan, InstallPlan::Proceed(InstallMethod::Prebuilt)));
    let plan = plan_install(&st, &v, &InstallTarget::Version(v.clone()), false, true);
    assert!(matches!(plan, InstallPlan::Proceed(InstallMethod::SourceBuild)));
    let key = commit_key(SHA.to_string());
    let plan = plan_install(
        &st,
        &key,
        &InstallTarget::Commit(SHA.to_string()),
        false,
        false,
    );
    assert!(matches!(plan, InstallPlan::Proceed(InstallMethod::SourceBuild)));
}

#[test]
fn download_fallback_only_on_missing_artifact() {
    assert!(download_fallback_to_source(404));
    assert!(!download_fallback_to_source(500));
    assert!(!download_fallback_to_source(403));
}

#[test]
fn use_of_missing_version_fails_and_keeps_selection() {
    let mut st = AvmState::empty();
    st.record_install(ver("0.29.0"));
    let missing = ver("9.9.9");
    match st.set_current(&missing) {
        Err(e) => {
            assert_eq!(e.exit_code(), 1);
            assert!(e.message().contains("is not installed"));
        }
        Ok(()) => panic!("expected a not-installed error"),
    }
    assert_eq!(st.current().unwrap().to_version_string(), "0.29.0");
}

#[test]
fn use_of_installed_version_updates_selection() {
    let mut st = AvmState::empty();
    st.record_install(ver("0.28.0"));
    st.record_install(ver("0.29.0"));
    let back = ver("0.28.0");
    st.set_current(&back).expect("0.28.0 is installed");
    assert_eq!(st.current().unwrap().to_version_string(), "0.28.0");
}

#[test]
fn list_marks_current_and_sorts_ascending() {
    let mut st = AvmState::empty();
    st.record_install(ver("0.29.0"));
    st.record_install(ver("0.28.0"));
    st.set_current(&ver("0.29.0")).unwrap();
    let sorted = st.list_installed();
    let lines = avm::catalog::render_list(&sorted, &st.current());
    assert_eq!(lines, vec!["0.28.0".to_string(), "0.29.0 (current)".to_string()]);
}

#[test]
fn uninstall_of_current_is_refused() {
    let mut st = AvmState::empty();
    st.record_install(ver("0.29.0"));
    let v = ver("0.29.0");
    match st.uninstall(&v) {
        Err(e) => assert!(e.message().contains("currently selected")),
        Ok(()) => panic!("expected uninstall of the current version to fail"),
    }
    assert_eq!(st.list_installed().len(), 1);
    assert_eq!(st.current().unwrap().to_version_string(), "0.29.0");
}

#[test]
fn uninstall_of_other_version_removes_it() {
    let mut st = AvmState::empty();
    st.record_install(ver("0.28.0"));
    st.record_install(ver("0.29.0"));
    let old = ver("0.28.0");
    st.uninstall(&old).expect("0.28.0 is not current");
    let listed = st.list_installed();
    assert_eq!(listed.len(), 1);
    assert_eq!(listed[0].to_version_string(), "0.29.0");
    let missing = ver("1.1.1");
    assert!(matches!(
        st.uninstall(&missing),
        Err(AvmError::NotInstalled(_))
    ));
}

#[test]
fn scan_assembles_a_consistent_state() {
    let (st, warned) = AvmState::from_scan(
        vec![ver("0.29.0"), ver("0.29.0"), ver("0.28.0")],
        Some(ver("0.29.0")),
    );
    assert!(!warned);
    assert_eq!(st.list_installed().len(), 2);
    assert_eq!(st.current().unwrap().to_version_string(), "0.29.0");
    let (st, warned) = AvmState::from_scan(vec![ver("0.28.0")], Some(ver("0.29.0")));
    assert!(warned);
    assert!(st.current().is_none());
}

#[test]
fn update_plans() {
    let mut st = AvmState::empty();
    let latest = ver("0.30.0");
    assert!(matches!(
        plan_update(&st, &latest),
        UpdateStep::InstallThenUse
    ));
    st.record_install(latest.clone());
    assert!(matches!(plan_update(&st, &latest), UpdateStep::UseOnly));
}

#[test]
fn use_without_argument_needs_a_terminal() {
    assert!(matches!(
        plan_use(None, false),
        Err(AvmError::NoVersionSpecified)
    ));
    assert!(matches!(plan_use(None, true), Ok(UseAction::InteractivePick)));
    match plan_use(Some(ver("0.29.0")), false) {
        Ok(UseAction::Select(v)) => assert_eq!(v.to_version_string(), "0.29.0"),
        _ => panic!("expected a selection"),
    }
}

#[test]
fn proxy_mode_is_decided_by_the_invocation_name() {
    assert!(is_proxy_invocation("anchor"));
    assert!(!is_proxy_invocation("avm"));
    assert!(str_eq("anchor", "anchor"));
    assert!(!str_eq("anchor", "anchors"));
}

#[test]
fn proxy_plans_and_messages() {
    let v = ver("0.29.0");
    match plan_proxy(Some(v.clone()), true) {
        ProxyAction::Run(w) => assert_eq!(w.to_version_string(), "0.29.0"),
        _ => panic!("expected the proxy to run the selected binary"),
    }
    match plan_proxy(Some(v.clone()), false) {
        ProxyAction::MissingBinary(w) => {
            let m = proxy_missing_binary_message(&w);
            assert_eq!(
                m,
                "anchor-cli 0.29.0 not installed. Please run `avm use 0.29.0`."
            );
        }
        _ => panic!("expected a missing-binary outcome"),
    }
    assert!(matches!(plan_proxy(None, true), ProxyAction::NoSelection));
    assert_eq!(
        proxy_no_selection_message(),
        "Anchor version not set. Please run `avm use latest`."
    );
}

#[test]
fn proxy_exit_code_is_transparent() {
    assert_eq!(propagate_exit_code(true, None), 0);
    assert_eq!(propagate_exit_code(true, Some(0)), 0);
    assert_eq!(propagate_exit_code(false, Some(3)), 3);
    assert_eq!(propagate_exit_code(false, None), 1);
}

#[test]
fn retry_policy_is_bounded_and_transient_only() {
    assert!(should_retry(None, 0));
    assert!(should_retry(Some(500), 1));
    assert!(should_retry(Some(429), 2));
    assert!(!should_retry(Some(500), 3));
    assert!(!should_retry(Some(404), 0));
    assert!(!should_retry(Some(403), 0));
    assert_eq!(retry_delay_ms(0), 500);
    assert_eq!(retry_delay_ms(1), 1000);
    assert_eq!(retry_delay_ms(2), 2000);
}

#[test]
fn error_messages_and_exit_codes() {
    assert_eq!(AvmError::Usage("bad".to_string()).exit_code(), 2);
    assert_eq!(AvmError::BuildFailed.exit_code(), 1);
    assert!(AvmError::BuildFailed.message().contains("build driver"));
    assert!(AvmError::LockBusy.message().contains("wait"));
    assert!(AvmError::UnknownCommit("abc1234".to_string())
        .message()
        .contains("unknown commit: abc1234"));
    assert!(AvmError::AmbiguousCommit("aa".to_string())
        .message()
        .contains("ambiguous"));
    assert!(AvmError::CorruptState("bad .version".to_string())
        .message()
        .contains("corrupt state"));
    assert!(AvmError::Network("timed out".to_string())
        .message()
        .contains("network error"));
    assert!(AvmError::PermissionDenied("bin".to_string())
        .message()
        .contains("permission denied"));
    assert!(AvmError::NoVersionSpecified.message().contains("no version"));
}
