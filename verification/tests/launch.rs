use std::cell::RefCell;
use dsh_desktop::launch::{
    backend_args, resolve_spec, resolve_spec_from, BackendSpec, SpecError, ENV_BACKEND_CWD,
    ENV_NODE, ENV_REPO_ROOT,
};
use dsh_desktop::path::baked_repo_root;

fn map(entries: &[(&str, &str)]) -> impl Fn(&str) -> Option<String> {
    let owned: Vec<(String, String)> = entries
        .iter()
        .map(|(k, v)| (k.to_string(), v.to_string()))
        .collect();
    move |key| {
        owned
            .iter()
            .find(|(k, _)| k == key)
            .map(|(_, v)| v.clone())
    }
}

fn baked() -> String {
    baked_repo_root(r"C:\repo\packages\desktop\app\src-tauri").unwrap()
}

#[test]
fn env_backend_cwd_wins_over_everything() {
    let env = map(&[
        (ENV_BACKEND_CWD, "C:\\repo"),
        (ENV_REPO_ROOT, "C:\\wrong"),
        (ENV_NODE, "C:\\node.exe"),
    ]);
    let spec = resolve_spec(&env, Some("C:\\baked".to_string())).unwrap();
    assert_eq!(
        spec,
        BackendSpec {
            node: "C:\\node.exe".to_string(),
            cli: r"C:\repo\apps\cli\lib\bin.js".to_string(),
            cwd: "C:\\repo".to_string(),
        }
    );
}

#[test]
fn repo_root_env_overrides_the_baked_fallback() {
    let env = map(&[(ENV_REPO_ROOT, "C:\\other")]);
    let spec = resolve_spec(&env, Some("C:\\baked".to_string())).unwrap();
    assert_eq!(spec.cwd, "C:\\other".to_string());
    assert_eq!(spec.node, "node".to_string());
}

#[test]
fn baked_fallback_is_the_manifest_four_levels_up() {
    let spec = resolve_spec(&map(&[]), Some(baked())).unwrap();
    assert_eq!(spec.cwd, baked());
    assert_eq!(spec.node, "node".to_string());
}

#[test]
fn missing_every_source_fails_loud() {
    assert_eq!(resolve_spec(&|_| None, None), Err(SpecError::MissingCwd));
}

#[test]
fn node_env_overrides_the_default() {
    let env = map(&[(ENV_BACKEND_CWD, "C:\\repo"), (ENV_NODE, "node18.exe")]);
    assert_eq!(resolve_spec(&env, None).unwrap().node, "node18.exe");
}

#[test]
fn args_are_profile_web_on_port_zero() {
    let spec = BackendSpec {
        node: "node".to_string(),
        cli: r"C:\repo\apps\cli\lib\bin.js".to_string(),
        cwd: "C:\\repo".to_string(),
    };
    assert_eq!(
        backend_args(&spec),
        vec![
            r"C:\repo\apps\cli\lib\bin.js",
            "--profile",
            "web",
            "--port",
            "0",
            "--no-open"
        ]
    );
}

#[test]
fn repo_root_env_is_read_only_without_backend_cwd() {
    let asked: RefCell<Vec<String>> = RefCell::new(Vec::new());
    let env = |key: &str| {
        asked.borrow_mut().push(key.to_string());
        if key == ENV_BACKEND_CWD {
            Some("D:\\work".to_string())
        } else {
            None
        }
    };
    let spec = resolve_spec(&env, None).unwrap();
    assert_eq!(spec.cwd, "D:\\work");
    assert_eq!(*asked.borrow(), vec![ENV_BACKEND_CWD.to_string(), ENV_NODE.to_string()]);
}

#[test]
fn node_env_is_not_read_when_resolution_fails() {
    let asked: RefCell<Vec<String>> = RefCell::new(Vec::new());
    let env = |key: &str| {
        asked.borrow_mut().push(key.to_string());
        None
    };
    assert_eq!(resolve_spec(&env, None), Err(SpecError::MissingCwd));
    assert_eq!(*asked.borrow(), vec![ENV_BACKEND_CWD.to_string(), ENV_REPO_ROOT.to_string()]);
}

#[test]
fn cli_join_respects_trailing_separators_and_drives() {
    let spec = resolve_spec_from(Some("C:\\repo\\".to_string()), None, None, None).unwrap();
    assert_eq!(spec.cli, r"C:\repo\apps\cli\lib\bin.js");
    let spec = resolve_spec_from(None, None, None, Some("C:".to_string())).unwrap();
    assert_eq!(spec.cli, r"C:apps\cli\lib\bin.js");
    let spec = resolve_spec_from(None, Some("/srv/repo/".to_string()), None, None).unwrap();
    assert_eq!(spec.cli, r"/srv/repo/apps\cli\lib\bin.js");
    let spec = resolve_spec_from(None, None, None, Some(String::new())).unwrap();
    assert_eq!(spec.cli, r"apps\cli\lib\bin.js");
}

#[test]
fn spec_error_message_names_the_variable() {
    assert_eq!(
        SpecError::MissingCwd.message(),
        "no backend working directory: set DSH_DESKTOP_BACKEND_CWD to the repository root"
    );
}
