//! The command line: which command runs, and the options of `serve`.
use vstd::prelude::*;

use crate::text::{chars_of, owned, parse_unsigned, parse_unsigned_range, push_str, same_text};

verus! {

/// The options of `davbox serve`.
#[derive(Debug, Clone)]
pub struct ServeArgs {
    pub target: String,
    pub host: Option<String>,
    pub port: Option<u16>,
    pub name: Option<String>,
    pub read_only: Option<bool>,
    pub user: Option<String>,
    pub password: Option<String>,
    pub no_auth: bool,
    pub tui: Option<bool>,
    pub config_path: Option<String>,
}

pub struct ServeArgsView {
    pub target: Seq<char>,
    pub host: Option<Seq<char>>,
    pub port: Option<u16>,
    pub name: Option<Seq<char>>,
    pub read_only: Option<bool>,
    pub user: Option<Seq<char>>,
    pub password: Option<Seq<char>>,
    pub no_auth: bool,
    pub tui: Option<bool>,
    pub config_path: Option<Seq<char>>,
}

pub open spec fn opt_str(o: Option<String>) -> Option<Seq<char>> {
    match o {
        Some(s) => Some(s@),
        None => None,
    }
}

impl View for ServeArgs {
    type V = ServeArgsView;

    open spec fn view(&self) -> ServeArgsView {
        ServeArgsView {
            target: self.target@,
            host: opt_str(self.host),
            port: self.port,
            name: opt_str(self.name),
            read_only: self.read_only,
            user: opt_str(self.user),
            password: opt_str(self.password),
            no_auth: self.no_auth,
            tui: self.tui,
            config_path: opt_str(self.config_path),
        }
    }
}

pub open spec fn empty_args() -> ServeArgsView {
    ServeArgsView {
        target: Seq::empty(),
        host: None,
        port: None,
        name: None,
        read_only: None,
        user: None,
        password: None,
        no_auth: false,
        tui: None,
        config_path: None,
    }
}

impl Default for ServeArgs {
    fn default() -> (a: Self)
        ensures
            a@ == empty_args(),
    {
        ServeArgs {
            target: String::new(),
            host: None,
            port: None,
            name: None,
            read_only: None,
            user: None,
            password: None,
            no_auth: false,
            tui: None,
            config_path: None,
        }
    }
}

pub open spec fn missing_value(name: Seq<char>) -> Seq<char> {
    "Missing value for "@ + name
}

/// What the arguments `args`, read after the options already taken into
/// `acc`, make of the `serve` options.
pub open spec fn parse_serve_from(args: Seq<String>, acc: ServeArgsView) -> Result<
    ServeArgsView,
    Seq<char>,
>
    decreases args.len(),
{
    if args.len() == 0 {
        if acc.target.len() == 0 {
            Err("Missing folder or profile. Try: davbox serve ~/Movies"@)
        } else {
            Ok(acc)
        }
    } else {
        let a = args[0]@;
        if a == "--host"@ {
            if args.len() < 2 {
                Err(missing_value(a))
            } else {
                parse_serve_from(args.skip(2), ServeArgsView { host: Some(args[1]@), ..acc })
            }
        } else if a == "--port"@ {
            if args.len() < 2 {
                Err(missing_value(a))
            } else {
                match parse_unsigned(args[1]@, 65535) {
                    Some(p) => parse_serve_from(
                        args.skip(2),
                        ServeArgsView { port: Some(p as u16), ..acc },
                    ),
                    None => Err("Invalid --port"@),
                }
            }
        } else if a == "--name"@ {
            if args.len() < 2 {
                Err(missing_value(a))
            } else {
                parse_serve_from(args.skip(2), ServeArgsView { name: Some(args[1]@), ..acc })
            }
        } else if a == "--read-only"@ {
            parse_serve_from(args.skip(1), ServeArgsView { read_only: Some(true), ..acc })
        } else if a == "--user"@ {
            if args.len() < 2 {
                Err(missing_value(a))
            } else {
                parse_serve_from(args.skip(2), ServeArgsView { user: Some(args[1]@), ..acc })
            }
        } else if a == "--password"@ {
            if args.len() < 2 {
                Err(missing_value(a))
            } else {
                parse_serve_from(args.skip(2), ServeArgsView { password: Some(args[1]@), ..acc })
            }
        } else if a == "--no-auth"@ {
            parse_serve_from(args.skip(1), ServeArgsView { no_auth: true, ..acc })
        } else if a == "--no-tui"@ {
            parse_serve_from(args.skip(1), ServeArgsView { tui: Some(false), ..acc })
        } else if a == "--config"@ {
            if args.len() < 2 {
                Err(missing_value(a))
            } else {
                parse_serve_from(
                    args.skip(2),
                    ServeArgsView { config_path: Some(args[1]@), ..acc },
                )
            }
        } else if a.len() > 0 && a[0] == '-' {
            Err("Unknown option: "@ + a)
        } else if acc.target.len() > 0 {
            Err("Only one folder or profile can be served at a time"@)
        } else {
            parse_serve_from(args.skip(1), ServeArgsView { target: a, ..acc })
        }
    }
}

/// The options of `serve` that the arguments give.
pub open spec fn parse_serve_spec(args: Seq<String>) -> Result<ServeArgsView, Seq<char>> {
    parse_serve_from(args, empty_args())
}

/// The argument after an option that takes a value.
fn take_value(args: &[String], i: &mut usize, name: &str) -> (r: Result<String, String>)
    requires
        *old(i) < args@.len(),
    ensures
        *final(i) == *old(i) + 1,
        *final(i) < args@.len() ==> (r matches Ok(v) && v@ == args@[*final(i) as int]@),
        *final(i) >= args@.len() ==> (r matches Err(e) && e@ == missing_value(name@)),
{
    let n = args.len();
    *i = *i + 1;
    if *i < n {
        Ok(args[*i].clone())
    } else {
        let mut e = owned("Missing value for ");
        push_str(&mut e, name);
        Err(e)
    }
}

impl ServeArgs {
    /// Reads the arguments of `davbox serve`: one folder or profile, and options.
    #[verifier::rlimit(80)]
    pub fn parse(args: &[String]) -> (r: Result<Self, String>)
        ensures
            match (r, parse_serve_spec(args@)) {
                (Ok(a), Ok(v)) => a@ == v,
                (Err(e), Err(m)) => e@ == m,
                _ => false,
            },
    {
        proof {
            reveal_strlit("--host");
            reveal_strlit("--port");
            reveal_strlit("--name");
            reveal_strlit("--read-only");
            reveal_strlit("--user");
            reveal_strlit("--password");
            reveal_strlit("--no-auth");
            reveal_strlit("--no-tui");
            reveal_strlit("--config");
        }
        let mut out = ServeArgs::default();
        let mut i: usize = 0;
        assert(args@.skip(0) =~= args@);
        while i < args.len()
            invariant
                0 <= i <= args@.len(),
                parse_serve_spec(args@) == parse_serve_from(args@.skip(i as int), out@),
            decreases args@.len() - i,
        {
            let ghost rest = args@.skip(i as int);
            assert(rest[0] == args@[i as int]);
            assert(rest.skip(1) =~= args@.skip(i + 1));
            if args.len() - i >= 2 {
                assert(rest.skip(2) =~= args@.skip(i + 2));
            }
            let a = args[i].as_str();
            if same_text(a, "--host") {
                let v = take_value(args, &mut i, "--host")?;
                out.host = Some(v);
            } else if same_text(a, "--port") {
                let v = take_value(args, &mut i, "--port")?;
                let vc = chars_of(v.as_str());
                assert(vc@.subrange(0, vc@.len() as int) =~= vc@);
                match parse_unsigned_range(&vc, 0, vc.len(), 65535) {
                    Some(p) => {
                        out.port = Some(p as u16);
                    },
                    None => {
                        return Err(owned("Invalid --port"));
                    },
                }
            } else if same_text(a, "--name") {
                let v = take_value(args, &mut i, "--name")?;
                out.name = Some(v);
            } else if same_text(a, "--read-only") {
                out.read_only = Some(true);
            } else if same_text(a, "--user") {
                let v = take_value(args, &mut i, "--user")?;
                out.user = Some(v);
            } else if same_text(a, "--password") {
                let v = take_value(args, &mut i, "--password")?;
                out.password = Some(v);
            } else if same_text(a, "--no-auth") {
                out.no_auth = true;
            } else if same_text(a, "--no-tui") {
                out.tui = Some(false);
            } else if same_text(a, "--config") {
                let v = take_value(args, &mut i, "--config")?;
                out.config_path = Some(v);
            } else {
                let ac = chars_of(a);
                if ac.len() > 0 && ac[0] == '-' {
                    let mut e = owned("Unknown option: ");
                    push_str(&mut e, a);
                    return Err(e);
                }
                if out.target.as_str().unicode_len() > 0 {
                    return Err(owned("Only one folder or profile can be served at a time"));
                }
                out.target = owned(a);
            }
            i += 1;
        }
        assert(args@.skip(i as int).len() == 0);
        if out.target.as_str().unicode_len() == 0 {
            return Err(owned("Missing folder or profile. Try: davbox serve ~/Movies"));
        }
        Ok(out)
    }
}

/// The program's version.
pub const VERSION: &'static str = "0.1.3";

/// What `davbox --help` prints.
pub const HELP: &'static str = r#"DAVBOX // local WebDAV uplink

Usage:
  davbox serve <folder-or-profile> [options]
  davbox config init
  davbox config path
  davbox config show

Serve options:
  --host HOST             Bind address, default 0.0.0.0
  --port PORT             Bind port, default 8080. Use 0 for a random free port
  --name NAME             Display/server name
  --read-only             Reject write methods
  --user USER             Basic auth username
  --password PASSWORD     Basic auth password
  --no-auth               Disable authentication
  --no-tui                Plain startup output
  --config FILE           Use an explicit config file

Examples:
  davbox serve ~/Movies
  davbox serve ~/Movies --read-only
  DAVBOX_PASSWORD=secret davbox serve movies
"#;

// ---------------------------------------------------------------------------
// Commands
// ---------------------------------------------------------------------------

/// What the command line asks for.
#[derive(Debug, Clone)]
pub enum Command {
    Help,
    Version,
    /// `config path`.
    ConfigPath,
    /// `config init`, with the file given by `--config`, if any.
    ConfigInit(Option<String>),
    /// `config show`, with the file given by `--config`, if any.
    ConfigShow(Option<String>),
    /// `serve` and its arguments.
    Serve(Vec<String>),
}

pub enum CommandView {
    Help,
    Version,
    ConfigPath,
    ConfigInit(Option<Seq<char>>),
    ConfigShow(Option<Seq<char>>),
    Serve(Seq<String>),
}

impl View for Command {
    type V = CommandView;

    open spec fn view(&self) -> CommandView {
        match self {
            Command::Help => CommandView::Help,
            Command::Version => CommandView::Version,
            Command::ConfigPath => CommandView::ConfigPath,
            Command::ConfigInit(p) => CommandView::ConfigInit(opt_str(*p)),
            Command::ConfigShow(p) => CommandView::ConfigShow(opt_str(*p)),
            Command::Serve(a) => CommandView::Serve(a@),
        }
    }
}

/// The argument after the first `name` that has one after it.
pub open spec fn option_value_spec(args: Seq<String>, name: Seq<char>) -> Option<Seq<char>>
    decreases args.len(),
{
    if args.len() < 2 {
        None
    } else if args[0]@ == name {
        Some(args[1]@)
    } else {
        option_value_spec(args.drop_first(), name)
    }
}

/// The value given to option `name`, such as the file after `--config`.
pub fn option_value(args: &[String], name: &str) -> (r: Option<String>)
    ensures
        opt_str(r) == option_value_spec(args@, name@),
{
    let mut i: usize = 0;
    assert(args@.skip(0) =~= args@);
    while i < args.len() && args.len() - i >= 2
        invariant
            0 <= i <= args@.len(),
            option_value_spec(args@, name@) == option_value_spec(args@.skip(i as int), name@),
        decreases args@.len() - i,
    {
        let ghost rest = args@.skip(i as int);
        assert(rest[0] == args@[i as int] && rest[1] == args@[i + 1]);
        if same_text(args[i].as_str(), name) {
            return Some(args[i + 1].clone());
        }
        assert(rest.drop_first() =~= args@.skip(i + 1));
        i += 1;
    }
    proof {
        let rest = args@.skip(i as int);
        assert(rest.len() < 2);
    }
    None
}

pub open spec fn config_usage() -> Seq<char> {
    "Usage: davbox config <init|path|show> [--config FILE]"@
}

/// `-h` or `--help`: after `serve` or `config` it asks for the help text.
pub open spec fn is_help_flag(a: Seq<char>) -> bool {
    a == "-h"@ || a == "--help"@
}

/// The `config` subcommand that the arguments after `config` ask for.
pub open spec fn config_command_spec(rest: Seq<String>) -> Result<CommandView, Seq<char>> {
    if rest.len() == 0 {
        Err(config_usage())
    } else if is_help_flag(rest[0]@) {
        Ok(CommandView::Help)
    } else if rest[0]@ == "path"@ {
        Ok(CommandView::ConfigPath)
    } else if rest[0]@ == "init"@ {
        Ok(CommandView::ConfigInit(option_value_spec(rest, "--config"@)))
    } else if rest[0]@ == "show"@ {
        Ok(CommandView::ConfigShow(option_value_spec(rest, "--config"@)))
    } else {
        Err(config_usage())
    }
}

/// The command that the arguments (without the program name) ask for.
pub open spec fn command_spec(args: Seq<String>) -> Result<CommandView, Seq<char>> {
    if args.len() == 0 {
        Ok(CommandView::Help)
    } else {
        let a = args[0]@;
        if a == "-h"@ || a == "--help"@ || a == "help"@ {
            Ok(CommandView::Help)
        } else if a == "-V"@ || a == "--version"@ {
            Ok(CommandView::Version)
        } else if a == "config"@ {
            config_command_spec(args.skip(1))
        } else if a == "serve"@ {
            if args.len() > 1 && is_help_flag(args[1]@) {
                Ok(CommandView::Help)
            } else {
                Ok(CommandView::Serve(args.skip(1)))
            }
        } else {
            Err("Unknown command: "@ + a + "\n\nTry: davbox --help"@)
        }
    }
}

/// The arguments after the first, as a vector.
fn rest_of(args: &[String]) -> (v: Vec<String>)
    requires
        args@.len() >= 1,
    ensures
        v@ == args@.skip(1),
{
    let mut v: Vec<String> = Vec::new();
    let mut i: usize = 1;
    while i < args.len()
        invariant
            1 <= i <= args@.len(),
            v@ == args@.subrange(1, i as int),
        decreases args@.len() - i,
    {
        v.push(args[i].clone());
        assert(args@.subrange(1, i + 1) =~= args@.subrange(1, i as int).push(args@[i as int]));
        i += 1;
    }
    assert(args@.subrange(1, args@.len() as int) =~= args@.skip(1));
    v
}

/// Decides what `davbox` does with its arguments.
#[verifier::rlimit(40)]
pub fn parse_command(args: &[String]) -> (r: Result<Command, String>)
    ensures
        match (r, command_spec(args@)) {
            (Ok(c), Ok(v)) => c@ == v,
            (Err(e), Err(m)) => e@ == m,
            _ => false,
        },
{
    proof {
        reveal_strlit("-h");
        reveal_strlit("--help");
        reveal_strlit("help");
        reveal_strlit("-V");
        reveal_strlit("--version");
        reveal_strlit("config");
        reveal_strlit("serve");
        reveal_strlit("path");
        reveal_strlit("init");
        reveal_strlit("show");
    }
    if args.len() == 0 {
        return Ok(Command::Help);
    }
    let a = args[0].as_str();
    if same_text(a, "-h") || same_text(a, "--help") || same_text(a, "help") {
        Ok(Command::Help)
    } else if same_text(a, "-V") || same_text(a, "--version") {
        Ok(Command::Version)
    } else if same_text(a, "config") {
        let rest = rest_of(args);
        if rest.len() == 0 {
            return Err(owned("Usage: davbox config <init|path|show> [--config FILE]"));
        }
        let c = rest[0].as_str();
        if same_text(c, "-h") || same_text(c, "--help") {
            Ok(Command::Help)
        } else if same_text(c, "path") {
            Ok(Command::ConfigPath)
        } else if same_text(c, "init") {
            Ok(Command::ConfigInit(option_value(rest.as_slice(), "--config")))
        } else if same_text(c, "show") {
            Ok(Command::ConfigShow(option_value(rest.as_slice(), "--config")))
        } else {
            Err(owned("Usage: davbox config <init|path|show> [--config FILE]"))
        }
    } else if same_text(a, "serve") {
        if args.len() > 1 && (same_text(args[1].as_str(), "-h") || same_text(
            args[1].as_str(),
            "--help",
        )) {
            return Ok(Command::Help);
        }
        Ok(Command::Serve(rest_of(args)))
    } else {
        let mut e = owned("Unknown command: ");
        push_str(&mut e, a);
        push_str(&mut e, "\n\nTry: davbox --help");
        Err(e)
    }
}

} // verus!
