//! The project environment helper: what a command line asks for, and the
//! texts and paths it writes (the `.envrc`, the script and footprint
//! paths).

use vstd::prelude::*;
use crate::paths::file_name_of;
use crate::text::{is_word, push_str, str_concat, to_chars, from_chars};

verus! {

/// What the helper is asked to do.
#[derive(Debug, Clone, PartialEq, Eq)]
pub enum Command {
    /// Print the project's `.envrc`.
    PrintEnvrc,
    /// Remove the `.envrc`, then initialise.
    Reinit,
    /// Create `bin`, write the `.envrc` if missing, allow it.
    Init,
    /// Edit the `.envrc`.
    Edit,
    /// List the scripts, with `ls` options.
    List(Option<String>),
    /// Save the `.envrc` as `user@host.envrc`.
    Footprint,
    Help,
    /// Create (if needed) and edit a script.
    Script(String),
}

pub enum CommandV {
    PrintEnvrc,
    Reinit,
    Init,
    Edit,
    List(Option<Seq<char>>),
    Footprint,
    Help,
    Script(Seq<char>),
}

pub open spec fn command_view(c: Command) -> CommandV {
    match c {
        Command::PrintEnvrc => CommandV::PrintEnvrc,
        Command::Reinit => CommandV::Reinit,
        Command::Init => CommandV::Init,
        Command::Edit => CommandV::Edit,
        Command::List(o) => CommandV::List(
            match o {
                Some(s) => Some(s@),
                None => None,
            },
        ),
        Command::Footprint => CommandV::Footprint,
        Command::Help => CommandV::Help,
        Command::Script(s) => CommandV::Script(s@),
    }
}

/// The command for the arguments after the program name.
pub open spec fn command_spec(args: Seq<Seq<char>>) -> CommandV {
    if args.len() == 0 {
        CommandV::PrintEnvrc
    } else {
        let a = args[0];
        if a == "reinit"@ {
            CommandV::Reinit
        } else if a == "init"@ {
            CommandV::Init
        } else if a == "erc"@ {
            CommandV::PrintEnvrc
        } else if a == "e"@ || a == "edit"@ {
            CommandV::Edit
        } else if a == "ls"@ || a == "list"@ {
            CommandV::List(if args.len() > 1 { Some(args[1]) } else { None })
        } else if a == "paw"@ || a == "footprint"@ || a == "fp"@ {
            CommandV::Footprint
        } else if a == "h"@ || a == "help"@ || a == "-h"@ || a == "--help"@ {
            CommandV::Help
        } else if a.len() > 0 {
            CommandV::Script(a)
        } else {
            CommandV::PrintEnvrc
        }
    }
}

pub open spec fn strs(v: Seq<String>) -> Seq<Seq<char>> {
    v.map_values(|s: String| s@)
}

/// The command asked for by `args` (without the program name).
pub fn command(args: &Vec<String>) -> (c: Command)
    ensures
        command_view(c) == command_spec(strs(args@)),
{
    if args.len() == 0 {
        return Command::PrintEnvrc;
    }
    let a = to_chars(args[0].as_str());
    let t = a.as_slice();
    if is_word(t, "reinit") {
        Command::Reinit
    } else if is_word(t, "init") {
        Command::Init
    } else if is_word(t, "erc") {
        Command::PrintEnvrc
    } else if is_word(t, "e") || is_word(t, "edit") {
        Command::Edit
    } else if is_word(t, "ls") || is_word(t, "list") {
        Command::List(if args.len() > 1 { Some(args[1].clone()) } else { None })
    } else if is_word(t, "paw") || is_word(t, "footprint") || is_word(t, "fp") {
        Command::Footprint
    } else if is_word(t, "h") || is_word(t, "help") || is_word(t, "-h") || is_word(t, "--help") {
        Command::Help
    } else if a.len() > 0 {
        Command::Script(args[0].clone())
    } else {
        Command::PrintEnvrc
    }
}

/// `dir/name`.
pub fn child_path(dir: &str, name: &str) -> (r: String)
    ensures
        r@ == dir@ + seq!['/'] + name@,
{
    let mut v = to_chars(dir);
    v.push('/');
    push_str(&mut v, name);
    from_chars(v.as_slice())
}

/// The scripts directory of a project: `PROJECT_BIN` when set, else the
/// project's `bin`.
pub fn project_bin(bin_var: Option<&str>, project_path: &str) -> (r: String)
    ensures
        r@ == match bin_var {
            Some(b) => b@,
            None => project_path@ + "/bin"@,
        },
{
    match bin_var {
        Some(b) => b.to_owned(),
        None => str_concat(project_path, "/bin"),
    }
}

/// The footprint file name `user@host.envrc`.
pub fn footprint_name(user: &str, host: &str) -> (r: String)
    ensures
        r@ == user@ + seq!['@'] + host@ + ".envrc"@,
{
    let mut v = to_chars(user);
    v.push('@');
    push_str(&mut v, host);
    push_str(&mut v, ".envrc");
    from_chars(v.as_slice())
}

/// The `.envrc` of a project created on `date`: the project's `bin` and
/// `node_modules/.bin` on the path when they exist, and the project
/// variables.
pub open spec fn envrc_spec(path: Seq<char>, name: Seq<char>, date: Seq<char>) -> Seq<char> {
    let bin = path + "/bin"@;
    let nm = path + "/node_modules/.bin"@;
    "#!/usr/bin/env bash\n\n[ -d "@ + bin + " ] && export PATH="@ + bin + ":$PATH\n[ -d "@ + nm
        + " ] && export PATH="@ + nm + ":$PATH\nexport PROJECT_PATH="@ + path + "\nexport PROJECT_BIN="@ + path
        + "/bin\nexport PROJECT_NAME="@ + name + "\nexport PROJECT_CREATED=\""@ + date
        + "\"\nexport VAR_ROOT=\"$PROJECT_PATH/tmp\"\n"@
}

/// The `.envrc` text for a project created on `date`.
pub fn envrc_text(project_path: &str, project_name: &str, date: &str) -> (r: String)
    ensures
        r@ == envrc_spec(project_path@, project_name@, date@),
{
    let bin = str_concat(project_path, "/bin");
    let nm = str_concat(project_path, "/node_modules/.bin");
    let mut v = to_chars("#!/usr/bin/env bash\n\n[ -d ");
    push_str(&mut v, bin.as_str());
    push_str(&mut v, " ] && export PATH=");
    push_str(&mut v, bin.as_str());
    push_str(&mut v, ":$PATH\n[ -d ");
    push_str(&mut v, nm.as_str());
    push_str(&mut v, " ] && export PATH=");
    push_str(&mut v, nm.as_str());
    push_str(&mut v, ":$PATH\nexport PROJECT_PATH=");
    push_str(&mut v, project_path);
    push_str(&mut v, "\nexport PROJECT_BIN=");
    push_str(&mut v, project_path);
    push_str(&mut v, "/bin\nexport PROJECT_NAME=");
    push_str(&mut v, project_name);
    push_str(&mut v, "\nexport PROJECT_CREATED=\"");
    push_str(&mut v, date);
    push_str(&mut v, "\"\nexport VAR_ROOT=\"$PROJECT_PATH/tmp\"\n");
    from_chars(v.as_slice())
}

/// `dd.mm.yyyy`-shaped: two digits, a dot, two digits, a dot, then the
/// year.
pub open spec fn date_shaped(s: Seq<char>) -> bool {
    &&& s.len() >= 6
    &&& s[2] == '.'
    &&& s[5] == '.'
    &&& '0' <= s[0] <= '9'
    &&& '0' <= s[1] <= '9'
    &&& '0' <= s[3] <= '9'
    &&& '0' <= s[4] <= '9'
}

/// Today's local date as chrono formats it with `%d.%m.%Y`. It depends
/// on the clock and the time zone, so only its shape is stated: chrono
/// pads day and month to two digits.
#[verifier::external_body]
fn today() -> (r: String)
    ensures
        date_shaped(r@),
{
    chrono::Local::now().format("%d.%m.%Y").to_string()
}

/// The `.envrc` text for a project created today.
pub fn generate_envrc_content(project_path: &str, project_name: &str) -> (r: String)
    ensures
        exists|date: Seq<char>| date_shaped(date) && r@ == envrc_spec(project_path@, project_name@, date),
{
    let date = today();
    let r = envrc_text(project_path, project_name, date.as_str());
    assert(date_shaped(date@) && r@ == envrc_spec(project_path@, project_name@, date@));
    r
}

/// `Path::file_name` of a path: its final component.
pub open spec fn path_file_name(path: Seq<char>) -> Option<Seq<char>> {
    file_name_of(path)
}

/// `Path::new(path).file_name()` as text: the final component, after
/// trailing slashes and `.` components; none for an empty path, the root,
/// or one that ends in `..` ([`path_file_name`]).
#[verifier::external_body]
fn file_name(path: &str) -> (r: Option<String>)
    ensures
        match r {
            Some(s) => path_file_name(path@) == Some(s@),
            None => path_file_name(path@) is None,
        },
{
    match std::path::Path::new(path).file_name() {
        Some(s) => Some(s.to_string_lossy().into_owned()),
        None => None,
    }
}

/// The project's name: the last component of its path, empty when there
/// is none.
pub fn project_name(project_path: &str) -> (r: String)
    ensures
        r@ == match path_file_name(project_path@) {
            Some(s) => s,
            None => Seq::empty(),
        },
{
    match file_name(project_path) {
        Some(s) => s,
        None => String::new(),
    }
}

} // verus!
