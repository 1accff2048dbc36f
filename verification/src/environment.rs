//! The environment variables a run reads, and the directories they lead to.

use vstd::prelude::*;
use vstd::string::*;

use crate::error::Error;
use crate::text::{concat2, opt_view};

verus! {

/// The environment variables that the supervisor reads, as they were set when it started.
#[derive(Debug)]
pub struct Environment {
    /// `HOME`
    pub home: Option<String>,
    /// `CLAUDE_CONFIG_DIR`
    pub claude_config_dir: Option<String>,
    /// `CURSOR_CONFIG_DIR`
    pub cursor_config_dir: Option<String>,
    /// `CODEX_HOME`
    pub codex_home: Option<String>,
    /// `CHAINSAW_CONFIG`
    pub chainsaw_config: Option<String>,
    /// `CHAINSAW_DEFAULT_CLI`: the name of the default CLI.
    pub default_cli: String,
}

/// What an `Environment` is.
pub struct EnvironmentView {
    pub home: Option<Seq<char>>,
    pub claude_config_dir: Option<Seq<char>>,
    pub cursor_config_dir: Option<Seq<char>>,
    pub codex_home: Option<Seq<char>>,
    pub chainsaw_config: Option<Seq<char>>,
    pub default_cli: Seq<char>,
}

impl View for Environment {
    type V = EnvironmentView;

    open spec fn view(&self) -> EnvironmentView {
        EnvironmentView {
            home: opt_view(self.home),
            claude_config_dir: opt_view(self.claude_config_dir),
            cursor_config_dir: opt_view(self.cursor_config_dir),
            codex_home: opt_view(self.codex_home),
            chainsaw_config: opt_view(self.chainsaw_config),
            default_cli: self.default_cli@,
        }
    }
}

/// `part` below the directory `base`; `part` itself where it is absolute.
pub open spec fn path_of(base: Seq<char>, part: Seq<char>) -> Seq<char> {
    if part.len() > 0 && part[0] == '/' {
        part
    } else if base.len() == 0 || base.last() == '/' {
        base + part
    } else {
        base.push('/') + part
    }
}

/// Whether a path starts at the root.
pub fn is_absolute(path: &str) -> (r: bool)
    ensures
        r == (path@.len() > 0 && path@[0] == '/'),
{
    path.unicode_len() > 0 && path.get_char(0) == '/'
}

/// `part` below the directory `base`; `part` itself where it is absolute.
pub fn path_join(base: &str, part: &str) -> (r: String)
    ensures
        r@ == path_of(base@, part@),
{
    if is_absolute(part) {
        return part.to_owned();
    }
    let size = base.unicode_len();
    let mut r = base.to_owned();
    if size > 0 && base.get_char(size - 1) != '/' {
        r.push('/');
    }
    r.append(part);
    r
}

/// `path` where it is absolute, else where it leads from the directory `current`.
pub fn absolute_path(path: &str, current: &str) -> (r: String)
    ensures
        r@ == path_of(current@, path@),
        path@.len() > 0 && path@[0] == '/' ==> r@ == path@,
{
    path_join(current, path)
}

/// A CLI's own directory: the one its variable names, else `name` in the home directory.
pub open spec fn config_dir(
    variable: Option<Seq<char>>,
    home: Option<Seq<char>>,
    name: Seq<char>,
) -> Option<
    Seq<char>,
> {
    match variable {
        Some(dir) => Some(dir),
        None => match home {
            Some(home) => Some(path_of(home, name)),
            None => None,
        },
    }
}

/// A directory that was found, or that `HOME` is needed to find it.
pub open spec fn is_dir_or_unset(r: Result<String, Error>, dir: Option<Seq<char>>) -> bool {
    match dir {
        Some(dir) => r matches Ok(found) && found@ == dir,
        None => r matches Err(error) && error@ == seq!["HOME is not set"@],
    }
}

fn chosen_dir(
    variable: &Option<String>,
    env: &Environment,
    name: &str,
) -> (r: Result<String, Error>)
    ensures
        is_dir_or_unset(r, config_dir(opt_view(*variable), env@.home, name@)),
{
    match variable {
        Some(dir) => Ok(dir.clone()),
        None => match home_dir(env) {
            Ok(home) => Ok(path_join(home.as_str(), name)),
            Err(error) => Err(error),
        },
    }
}

/// The home directory.
pub fn home_dir(env: &Environment) -> (r: Result<String, Error>)
    ensures
        is_dir_or_unset(r, env@.home),
{
    match &env.home {
        Some(home) => Ok(home.clone()),
        None => Err(Error::from_text("HOME is not set")),
    }
}

/// Where the default CLI keeps its files.
pub fn claude_home(env: &Environment) -> (r: Result<String, Error>)
    ensures
        is_dir_or_unset(r, config_dir(env@.claude_config_dir, env@.home, "."@ + env@.default_cli)),
{
    chosen_dir(&env.claude_config_dir, env, concat2(".", env.default_cli.as_str()).as_str())
}

/// Where Cursor keeps its files.
pub fn cursor_home(env: &Environment) -> (r: Result<String, Error>)
    ensures
        is_dir_or_unset(r, config_dir(env@.cursor_config_dir, env@.home, ".cursor"@)),
{
    chosen_dir(&env.cursor_config_dir, env, ".cursor")
}

/// Where Codex keeps its files.
pub fn codex_home(env: &Environment) -> (r: Result<String, Error>)
    ensures
        is_dir_or_unset(r, config_dir(env@.codex_home, env@.home, ".codex"@)),
{
    chosen_dir(&env.codex_home, env, ".codex")
}

/// A part that is absolute is where it is; any other stands below the base, with one slash between
/// them.
pub proof fn law_part_stands_below_its_base(base: Seq<char>, part: Seq<char>)
    ensures
        path_of(base, seq!['/'] + part) == seq!['/'] + part,
        part.len() == 0 || part[0] != '/' ==> {
            &&& path_of(base.push('/'), part) == base.push('/') + part
            &&& base.len() > 0 && base.last() != '/' ==> path_of(base, part) == base.push('/')
                + part
            &&& path_of(Seq::empty(), part) == part
        },
{
    assert((seq!['/'] + part)[0] == '/');
    assert(Seq::<char>::empty() + part =~= part);
}

/// Going down two parts one after the other is going down both at once.
pub proof fn law_paths_are_joined_in_any_order(base: Seq<char>, first: Seq<char>, second: Seq<char>)
    requires
        first.len() > 0,
        second.len() == 0 || second[0] != '/',
    ensures
        path_of(path_of(base, first), second) == path_of(base, path_of(first, second)),
{
    let below = path_of(first, second);
    assert(below[0] == first[0]);
    let deep = path_of(base, first);
    assert(deep.last() == first.last());
    assert(path_of(deep, second) =~= path_of(base, below));
}

/// A CLI's directory is the one that its variable names, whatever the home directory is; without
/// the variable it is in the home directory, and without either there is none.
pub proof fn law_variable_goes_before_home(
    dir: Seq<char>,
    home: Option<Seq<char>>,
    name: Seq<char>,
)
    ensures
        config_dir(Some(dir), home, name) == Some(dir),
        config_dir(None, home, name) is Some <==> home is Some,
        home is Some ==> config_dir(None, home, name) == Some(path_of(home->Some_0, name)),
{
}

/// A directory is the one that was found, and the want of one is told as the want of a home.
pub proof fn law_directory_is_found_or_home_is_missing(
    r: Result<String, Error>,
    dir: Option<Seq<char>>,
)
    requires
        is_dir_or_unset(r, dir),
    ensures
        dir is Some <==> r is Ok,
        dir is Some ==> r->Ok_0@ == dir->Some_0,
        dir is None ==> r->Err_0@ == seq!["HOME is not set"@],
{
}

/// The environment stands for what its variables were set to.
pub proof fn law_environment_stands_for_its_variables(env: Environment)
    ensures
        env@.home == opt_view(env.home),
        env@.claude_config_dir == opt_view(env.claude_config_dir),
        env@.cursor_config_dir == opt_view(env.cursor_config_dir),
        env@.codex_home == opt_view(env.codex_home),
        env@.chainsaw_config == opt_view(env.chainsaw_config),
        env@.default_cli == env.default_cli@,
{
}

} // verus!
