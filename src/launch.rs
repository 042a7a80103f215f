//! What a new session's shell is started with: the program, the working
//! directory and a curated environment, from the values of the launching
//! process's environment.

use vstd::prelude::*;

verus! {

/// The launching process's environment variables that a session reads; `None`
/// for one that is unset.
pub struct LaunchEnv {
    pub shell: Option<String>,
    pub home: Option<String>,
    pub user: Option<String>,
    pub lang: Option<String>,
    pub lc_all: Option<String>,
    pub path: Option<String>,
}

/// How to start a session's shell.
pub struct ShellCommand {
    pub program: String,
    pub cwd: String,
    pub env: Vec<(String, String)>,
}

/// The shell used when `SHELL` is unset.
pub open spec fn default_shell() -> Seq<char> {
    "/bin/zsh"@
}

/// The directory used when `HOME` is unset.
pub open spec fn default_home() -> Seq<char> {
    "/"@
}

/// The locale used when `LANG` is unset.
pub open spec fn default_lang() -> Seq<char> {
    "en_US.UTF-8"@
}

/// Tool directories put ahead of the inherited search path: a process started
/// from the desktop does not get a login shell's `PATH`.
pub open spec fn tool_dirs() -> Seq<char> {
    "/opt/homebrew/bin:/opt/homebrew/sbin:/usr/local/bin"@
}

/// The system directories searched when no `PATH` is inherited.
pub open spec fn system_dirs() -> Seq<char> {
    "/usr/bin:/bin:/usr/sbin:/sbin"@
}

/// The value, or the default when it is unset.
pub open spec fn or_default(v: Option<String>, d: Seq<char>) -> Seq<char> {
    match v {
        Some(s) => s@,
        None => d,
    }
}

/// The search path of a session: the tool directories, then the inherited
/// path, or the system directories when none (or an empty one) is inherited.
pub open spec fn session_path(inherited: Option<String>) -> Seq<char> {
    match inherited {
        Some(p) if p@.len() > 0 => tool_dirs() + ":"@ + p@,
        _ => tool_dirs() + ":"@ + system_dirs(),
    }
}

/// A variable that is set only when the launching process has it.
pub open spec fn optional_var(name: Seq<char>, v: Option<String>) -> Seq<(Seq<char>, Seq<char>)> {
    match v {
        Some(s) => seq![(name, s@)],
        None => Seq::empty(),
    }
}

/// The environment of a session's shell, in the order it is set.
pub open spec fn session_env(e: LaunchEnv) -> Seq<(Seq<char>, Seq<char>)> {
    seq![
        ("TERM"@, "xterm-256color"@),
        ("COLORTERM"@, "truecolor"@),
        ("HOME"@, or_default(e.home, default_home())),
        ("SHELL"@, or_default(e.shell, default_shell())),
    ] + optional_var("USER"@, e.user) + seq![
        ("LANG"@, or_default(e.lang, default_lang())),
        ("PATH"@, session_path(e.path)),
    ] + optional_var("LC_ALL"@, e.lc_all)
}

/// The view of a list of variables.
pub open spec fn vars_view(v: Seq<(String, String)>) -> Seq<(Seq<char>, Seq<char>)> {
    v.map_values(|p: (String, String)| (p.0@, p.1@))
}

fn value_or(v: &Option<String>, d: &str) -> (r: String)
    ensures
        r@ == match v {
            Some(s) => s@,
            None => d@,
        },
{
    match v {
        Some(s) => s.clone(),
        None => String::from_str(d),
    }
}

fn push_var(vars: &mut Vec<(String, String)>, name: &str, value: String)
    ensures
        vars_view(final(vars)@) == vars_view(old(vars)@).push((name@, value@)),
{
    vars.push((String::from_str(name), value));
    assert(vars_view(vars@) =~= vars_view(old(vars)@).push((name@, value@)));
}

fn build_path(inherited: &Option<String>) -> (r: String)
    ensures
        r@ == session_path(*inherited),
{
    let mut p = String::from_str("/opt/homebrew/bin:/opt/homebrew/sbin:/usr/local/bin");
    p.append(":");
    match inherited {
        Some(s) if !s.as_str().is_empty() => {
            p.append(s.as_str());
        },
        _ => {
            p.append("/usr/bin:/bin:/usr/sbin:/sbin");
        },
    }
    p
}

/// How to start the shell of a new session: `SHELL` (or `/bin/zsh`) in `HOME`
/// (or `/`), with a terminal type, true-colour support, the user's identity and
/// locale, and a search path that puts the common tool directories first.
pub fn shell_command(e: &LaunchEnv) -> (r: ShellCommand)
    ensures
        r.program@ == or_default(e.shell, default_shell()),
        r.cwd@ == or_default(e.home, default_home()),
        vars_view(r.env@) == session_env(*e),
{
    let program = value_or(&e.shell, "/bin/zsh");
    let cwd = value_or(&e.home, "/");
    let mut env: Vec<(String, String)> = Vec::new();
    push_var(&mut env, "TERM", String::from_str("xterm-256color"));
    push_var(&mut env, "COLORTERM", String::from_str("truecolor"));
    push_var(&mut env, "HOME", cwd.clone());
    push_var(&mut env, "SHELL", program.clone());
    let ghost head = vars_view(env@);
    if let Some(u) = &e.user {
        push_var(&mut env, "USER", u.clone());
    }
    assert(vars_view(env@) == head + optional_var("USER"@, e.user));
    push_var(&mut env, "LANG", value_or(&e.lang, "en_US.UTF-8"));
    push_var(&mut env, "PATH", build_path(&e.path));
    let ghost mid = vars_view(env@);
    if let Some(l) = &e.lc_all {
        push_var(&mut env, "LC_ALL", l.clone());
    }
    assert(vars_view(env@) == mid + optional_var("LC_ALL"@, e.lc_all));
    assert(vars_view(env@) =~= session_env(*e));
    ShellCommand { program, cwd, env }
}

} // verus!
