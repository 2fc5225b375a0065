//! Resolving how the backend is launched: the node executable, the CLI script,
//! and the working directory.

use vstd::prelude::*;

use crate::path::{
    ancestor, begins_with_two_separators, is_plain_component, is_trimmed, join, join_component,
    lemma_fourth_ancestor_of_plain_root,
};

verus! {

/// Full override for the backend working directory (normally the repository
/// root, where `apps/cli/lib/bin.js` and the root `.env` live).
pub const ENV_BACKEND_CWD: &'static str = "DSH_DESKTOP_BACKEND_CWD";

/// Override for the compile-time repository-root fallback, for when the
/// repository moved after the shell was built.
pub const ENV_REPO_ROOT: &'static str = "DSH_DESKTOP_REPO_ROOT";

/// Override for the node executable (default: `node` resolved from PATH).
pub const ENV_NODE: &'static str = "DSH_DESKTOP_NODE";

/// Everything the shell needs to spawn the backend.
#[derive(Debug, Clone, PartialEq, Eq)]
pub struct BackendSpec {
    /// The node executable to run.
    pub node: String,
    /// The built CLI entry: `<repo>\apps\cli\lib\bin.js`.
    pub cli: String,
    /// The backend working directory; also the base of `cli` and of `.env`.
    pub cwd: String,
}

#[derive(Debug, Clone, PartialEq, Eq)]
pub enum SpecError {
    /// Neither an environment variable nor the injected fallback names a
    /// repository root.
    MissingCwd,
}

impl SpecError {
    /// The text that the shell shows for this error.
    pub fn message(&self) -> (text: String)
        ensures
            text@ == "no backend working directory: set "@ + ENV_BACKEND_CWD@
                + " to the repository root"@,
    {
        match self {
            SpecError::MissingCwd => {
                let mut text: String = String::from_str("no backend working directory: set ");
                text.append(ENV_BACKEND_CWD);
                text.append(" to the repository root");
                text
            },
        }
    }
}

/// The working directory the shell picks: `DSH_DESKTOP_BACKEND_CWD` wins over
/// everything, then `DSH_DESKTOP_REPO_ROOT`, then the compile-time fallback.
pub open spec fn chosen_cwd(
    backend_cwd: Option<Seq<char>>,
    repo_root: Option<Seq<char>>,
    baked: Option<Seq<char>>,
) -> Option<Seq<char>> {
    match backend_cwd {
        Some(dir) => Some(dir),
        None => match repo_root {
            Some(dir) => Some(dir),
            None => baked,
        },
    }
}

/// The node executable: `DSH_DESKTOP_NODE` if it is set, else `node`.
pub open spec fn node_program(node: Option<Seq<char>>) -> Seq<char> {
    match node {
        Some(program) => program,
        None => "node"@,
    }
}

/// The CLI entry below the working directory: `<cwd>\apps\cli\lib\bin.js`.
pub open spec fn cli_path(cwd: Seq<char>) -> Seq<char> {
    join(join(join(join(cwd, "apps"@), "cli"@), "lib"@), "bin.js"@)
}

/// Whether `result` is what resolution gives for these environment values
/// and this fallback: a spec for the chosen working directory, or
/// `MissingCwd` exactly when none of the three names a directory.
pub open spec fn is_resolution(
    result: Result<BackendSpec, SpecError>,
    backend_cwd: Option<Seq<char>>,
    repo_root: Option<Seq<char>>,
    node: Option<Seq<char>>,
    baked: Option<Seq<char>>,
) -> bool {
    match result {
        Ok(spec) => {
            &&& chosen_cwd(backend_cwd, repo_root, baked) == Some(spec.cwd@)
            &&& spec.cli@ == cli_path(spec.cwd@)
            &&& spec.node@ == node_program(node)
        },
        Err(e) => {
            &&& e == SpecError::MissingCwd
            &&& chosen_cwd(backend_cwd, repo_root, baked) is None
        },
    }
}

/// `DSH_DESKTOP_BACKEND_CWD`, when set, wins over everything: over
/// `DSH_DESKTOP_REPO_ROOT` and over the compile-time fallback.
pub proof fn lemma_backend_cwd_wins(
    result: Result<BackendSpec, SpecError>,
    dir: Seq<char>,
    repo_root: Option<Seq<char>>,
    node: Option<Seq<char>>,
    baked: Option<Seq<char>>,
)
    requires
        is_resolution(result, Some(dir), repo_root, node, baked),
    ensures
        result matches Ok(spec) && spec.cwd@ == dir && spec.cli@ == cli_path(dir),
{
}

/// Without `DSH_DESKTOP_BACKEND_CWD`, `DSH_DESKTOP_REPO_ROOT` overrides the
/// compile-time fallback.
pub proof fn lemma_repo_root_overrides_baked(
    result: Result<BackendSpec, SpecError>,
    dir: Seq<char>,
    node: Option<Seq<char>>,
    baked: Option<Seq<char>>,
)
    requires
        is_resolution(result, None, Some(dir), node, baked),
    ensures
        result matches Ok(spec) && spec.cwd@ == dir,
{
}

/// With neither variable set, the compile-time fallback is the working
/// directory; and resolution fails exactly when the fallback is missing too.
pub proof fn lemma_baked_fallback(
    result: Result<BackendSpec, SpecError>,
    node: Option<Seq<char>>,
    baked: Option<Seq<char>>,
)
    requires
        is_resolution(result, None, None, node, baked),
    ensures
        match baked {
            Some(dir) => result matches Ok(spec) && spec.cwd@ == dir,
            None => result == Err::<BackendSpec, SpecError>(SpecError::MissingCwd),
        },
{
}

/// `DSH_DESKTOP_NODE` overrides the node executable, whose default is `node`,
/// whichever directory was chosen.
pub proof fn lemma_node_choice(
    spec: BackendSpec,
    backend_cwd: Option<Seq<char>>,
    repo_root: Option<Seq<char>>,
    node: Option<Seq<char>>,
    baked: Option<Seq<char>>,
)
    requires
        is_resolution(Ok(spec), backend_cwd, repo_root, node, baked),
    ensures
        match node {
            Some(program) => spec.node@ == program,
            None => spec.node@ == "node"@,
        },
{
}

/// The CLI entry lies four levels below the working directory: its fourth
/// ancestor is the working directory again, for a directory that is a disk,
/// rooted or relative path written without trailing separators.
pub proof fn lemma_cli_is_four_levels_below_cwd(cwd: Seq<char>)
    requires
        is_trimmed(cwd),
        !begins_with_two_separators(cwd),
    ensures
        ancestor(cli_path(cwd), 4) == Some(cwd),
{
    reveal_strlit("apps");
    reveal_strlit("cli");
    reveal_strlit("lib");
    reveal_strlit("bin.js");
    assert("apps"@ != seq!['.']) by { assert("apps"@.len() != 1); }
    assert("cli"@ != seq!['.']) by { assert("cli"@.len() != 1); }
    assert("lib"@ != seq!['.']) by { assert("lib"@.len() != 1); }
    assert("bin.js"@ != seq!['.']) by { assert("bin.js"@.len() != 1); }
    lemma_fourth_ancestor_of_plain_root(cwd, "apps"@, "cli"@, "lib"@, "bin.js"@);
}

/// `<cwd>\apps\cli\lib\bin.js`.
fn cli_of(cwd: &String) -> (cli: String)
    ensures
        cli@ == cli_path(cwd@),
{
    proof {
        reveal_strlit("apps");
        reveal_strlit("cli");
        reveal_strlit("lib");
        reveal_strlit("bin.js");
        assert("apps"@ != seq!['.']) by { assert("apps"@.len() != 1); }
        assert("cli"@ != seq!['.']) by { assert("cli"@.len() != 1); }
        assert("lib"@ != seq!['.']) by { assert("lib"@.len() != 1); }
        assert("bin.js"@ != seq!['.']) by { assert("bin.js"@.len() != 1); }
        assert(is_plain_component("apps"@));
        assert(is_plain_component("cli"@));
        assert(is_plain_component("lib"@));
        assert(is_plain_component("bin.js"@));
    }
    let apps: String = join_component(cwd, "apps");
    let cli: String = join_component(&apps, "cli");
    let lib: String = join_component(&cli, "lib");
    join_component(&lib, "bin.js")
}

/// Resolve the backend launch spec from the values already read: the two
/// directory variables, the node variable and the compile-time fallback.
pub fn resolve_spec_from(
    backend_cwd: Option<String>,
    repo_root: Option<String>,
    node: Option<String>,
    baked: Option<String>,
) -> (result: Result<BackendSpec, SpecError>)
    ensures
        is_resolution(
            result,
            backend_cwd.deep_view(),
            repo_root.deep_view(),
            node.deep_view(),
            baked.deep_view(),
        ),
{
    let cwd: String = match backend_cwd {
        Some(dir) => dir,
        None => match repo_root {
            Some(dir) => dir,
            None => match baked {
                Some(dir) => dir,
                None => {
                    return Err(SpecError::MissingCwd);
                },
            },
        },
    };
    let program: String = match node {
        Some(program) => program,
        None => String::from_str("node"),
    };
    let cli: String = cli_of(&cwd);
    Ok(BackendSpec { node: program, cli, cwd })
}

/// Resolve the backend launch spec. `env` reads an environment variable by
/// name (tests inject a map); `baked` is the compile-time repository-root
/// fallback and stays `None` only in tests that pin the failure path.
/// `DSH_DESKTOP_REPO_ROOT` is read only when `DSH_DESKTOP_BACKEND_CWD` is not
/// set, and `DSH_DESKTOP_NODE` only once a working directory is found.
pub fn resolve_spec(env: &impl Fn(&str) -> Option<String>, baked: Option<String>) -> (result:
    Result<BackendSpec, SpecError>)
    requires
        forall|key: &str| call_requires(*env, (key,)),
    ensures
        exists|a: Option<String>, b: Option<String>, c: Option<String>|
            {
                &&& call_ensures(*env, (ENV_BACKEND_CWD,), a)
                &&& a is None ==> call_ensures(*env, (ENV_REPO_ROOT,), b)
                &&& chosen_cwd(a.deep_view(), b.deep_view(), baked.deep_view()) is Some
                    ==> call_ensures(*env, (ENV_NODE,), c)
                &&& #[trigger] is_resolution(
                    result,
                    a.deep_view(),
                    b.deep_view(),
                    c.deep_view(),
                    baked.deep_view(),
                )
            },
{
    let a: Option<String> = env(ENV_BACKEND_CWD);
    let b: Option<String> = if a.is_none() {
        env(ENV_REPO_ROOT)
    } else {
        None
    };
    let found: bool = a.is_some() || b.is_some() || baked.is_some();
    let c: Option<String> = if found {
        env(ENV_NODE)
    } else {
        None
    };
    let ghost (ga, gb, gc, gbaked) = (a, b, c, baked);
    let result = resolve_spec_from(a, b, c, baked);
    assert(is_resolution(
        result,
        ga.deep_view(),
        gb.deep_view(),
        gc.deep_view(),
        gbaked.deep_view(),
    ));
    result
}

/// The arguments the backend is started with after the node executable: the
/// CLI script, then `--profile web --port 0 --no-open`.
pub open spec fn backend_arg_list(cli: Seq<char>) -> Seq<Seq<char>> {
    seq![cli, "--profile"@, "web"@, "--port"@, "0"@, "--no-open"@]
}

/// The script the backend runs is the CLI path itself, unchanged (no quoting:
/// the process launcher passes each argument as it is), followed by exactly
/// the five fixed flags.
pub proof fn lemma_backend_arg_list_passes_cli_unchanged(cli: Seq<char>)
    ensures
        backend_arg_list(cli).len() == 6,
        backend_arg_list(cli)[0] == cli,
        backend_arg_list(cli)[1] == "--profile"@,
        backend_arg_list(cli)[2] == "web"@,
        backend_arg_list(cli)[3] == "--port"@,
        backend_arg_list(cli)[4] == "0"@,
        backend_arg_list(cli)[5] == "--no-open"@,
{
}

/// The backend command line, excluding the node executable itself.
pub fn backend_args(spec: &BackendSpec) -> (args: Vec<String>)
    ensures
        args@.map_values(|arg: String| arg@) == backend_arg_list(spec.cli@),
        args@.len() == 6,
        args@[0]@ == spec.cli@,
        args@[1]@ == "--profile"@,
        args@[2]@ == "web"@,
        args@[3]@ == "--port"@,
        args@[4]@ == "0"@,
        args@[5]@ == "--no-open"@,
{
    let mut args: Vec<String> = Vec::new();
    args.push(spec.cli.clone());
    args.push(String::from_str("--profile"));
    args.push(String::from_str("web"));
    args.push(String::from_str("--port"));
    args.push(String::from_str("0"));
    args.push(String::from_str("--no-open"));
    assert(args@.map_values(|arg: String| arg@) =~= backend_arg_list(spec.cli@));
    args
}

} // verus!
