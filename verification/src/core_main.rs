//! Command-line handling of the host server.
use vstd::prelude::*;
use crate::text::{parse_u16, parse_u16_spec};
use crate::platform::linux::str_eq;

verus! {

/// The options gathered from the command line.
pub struct CliOptions {
    /// Arguments that are not `--port` or `--password` options, in order.
    pub args: Vec<String>,
    /// Port given with `--port` (0 when absent or not a valid port number).
    pub direct_port: u16,
    /// Password given with `--password` (empty when absent).
    pub password: String,
}

/// What the host server does with its command line.
pub enum CoreAction {
    PrintVersion,
    PrintBuildDate,
    PrintUsage,
    /// The first non-option argument is not understood; the process exits with status 2.
    UnknownOption(String),
    /// Starts the server, first storing the direct-access port and the permanent password
    /// when they were given.
    Run { direct_port: Option<u16>, password: Option<String> },
}

/// Options in the spec: plain arguments, port and password.
pub struct CliSpec {
    pub args: Seq<Seq<char>>,
    pub direct_port: u16,
    pub password: Seq<char>,
}

/// Reads the arguments from index `j` on: `--port` and `--password` take the next argument as
/// their value (and are ignored when they come last); everything else is a plain argument.
pub open spec fn scan_args(a: Seq<Seq<char>>, j: int, acc: CliSpec) -> CliSpec
    decreases a.len() - j,
{
    if j < 0 || j >= a.len() {
        acc
    } else if a[j] == "--port"@ {
        if j + 1 < a.len() {
            let port = match parse_u16_spec(a[j + 1]) {
                Some(p) => p,
                None => 0u16,
            };
            scan_args(a, j + 2, CliSpec { direct_port: port, ..acc })
        } else {
            acc
        }
    } else if a[j] == "--password"@ {
        if j + 1 < a.len() {
            scan_args(a, j + 2, CliSpec { password: a[j + 1], ..acc })
        } else {
            acc
        }
    } else {
        scan_args(a, j + 1, CliSpec { args: acc.args.push(a[j]), ..acc })
    }
}

/// The options of a command line whose first element is the program name.
pub open spec fn cli_spec(a: Seq<Seq<char>>) -> CliSpec {
    scan_args(a, 1, CliSpec { args: seq![], direct_port: 0, password: seq![] })
}

pub open spec fn views(v: Seq<String>) -> Seq<Seq<char>> {
    v.map_values(|s: String| s@)
}

/// Gathers the options from the process arguments `env_args` (the program name first).
pub fn parse_cli_args(env_args: &Vec<String>) -> (r: CliOptions)
    ensures
        ({
            let c = cli_spec(views(env_args@));
            &&& views(r.args@) == c.args
            &&& r.direct_port == c.direct_port
            &&& r.password@ == c.password
        }),
{
    let ghost a = views(env_args@);
    let mut args: Vec<String> = Vec::new();
    let mut direct_port: u16 = 0;
    let mut password = String::new();
    let n = env_args.len();
    let mut j: usize = 1;
    proof {
        reveal_strlit("--port");
        reveal_strlit("--password");
    }
    if n == 0 {
        return CliOptions { args, direct_port, password };
    }
    assert(views(args@) =~= Seq::<Seq<char>>::empty());
    while j < n
        invariant
            n == env_args@.len(),
            a == views(env_args@),
            1 <= j <= n,
            cli_spec(a) == scan_args(
                a,
                j as int,
                CliSpec { args: views(args@), direct_port, password: password@ },
            ),
        decreases n - j,
    {
        let arg = &env_args[j];
        if str_eq(arg.as_str(), "--port") {
            if j + 1 < n {
                direct_port = match parse_u16(env_args[j + 1].as_str()) {
                    Some(p) => p,
                    None => 0,
                };
                j = j + 2;
            } else {
                j = n;
            }
        } else if str_eq(arg.as_str(), "--password") {
            if j + 1 < n {
                password = env_args[j + 1].clone();
                j = j + 2;
            } else {
                j = n;
            }
        } else {
            let ghost old_args = args@;
            args.push(arg.clone());
            assert(views(args@) =~= views(old_args).push(a[j - 1 + 1]));
            j = j + 1;
        }
    }
    CliOptions { args, direct_port, password }
}

/// What the host does with the gathered options: the first plain argument selects a command,
/// otherwise the server runs.
pub open spec fn action_matches(c: CliSpec, r: CoreAction) -> bool {
    if c.args.len() > 0 {
        let cmd = c.args[0];
        if cmd == "--version"@ {
            r is PrintVersion
        } else if cmd == "--build-date"@ {
            r is PrintBuildDate
        } else if cmd == "--help"@ || cmd == "-h"@ {
            r is PrintUsage
        } else {
            r matches CoreAction::UnknownOption(s) && s@ == cmd
        }
    } else {
        r matches CoreAction::Run { direct_port, password } && direct_port == (if c.direct_port
            > 0 {
            Some(c.direct_port)
        } else {
            None
        }) && (match password {
            Some(p) => c.password.len() > 0 && p@ == c.password,
            None => c.password.len() == 0,
        })
    }
}

/// Decides what the host server does with its command line `env_args` (program name first).
pub fn core_main(env_args: &Vec<String>) -> (r: CoreAction)
    ensures
        action_matches(cli_spec(views(env_args@)), r),
{
    let opts = parse_cli_args(env_args);
    proof {
        reveal_strlit("--version");
        reveal_strlit("--build-date");
        reveal_strlit("--help");
        reveal_strlit("-h");
    }
    if opts.args.len() > 0 {
        let cmd = opts.args[0].as_str();
        if str_eq(cmd, "--version") {
            return CoreAction::PrintVersion;
        } else if str_eq(cmd, "--build-date") {
            return CoreAction::PrintBuildDate;
        } else if str_eq(cmd, "--help") || str_eq(cmd, "-h") {
            return CoreAction::PrintUsage;
        } else {
            return CoreAction::UnknownOption(opts.args[0].clone());
        }
    }
    let direct_port = if opts.direct_port > 0 {
        Some(opts.direct_port)
    } else {
        None
    };
    let password = if opts.password.as_str().unicode_len() > 0 {
        Some(opts.password)
    } else {
        None
    };
    CoreAction::Run { direct_port, password }
}


proof fn lemma_scan_keeps_args(a: Seq<Seq<char>>, j: int, acc: CliSpec)
    ensures
        acc.args.len() <= scan_args(a, j, acc).args.len(),
        scan_args(a, j, acc).args.subrange(0, acc.args.len() as int) == acc.args,
    decreases a.len() - j,
{
    if j < 0 || j >= a.len() {
        assert(acc.args.subrange(0, acc.args.len() as int) =~= acc.args);
    } else if a[j] == "--port"@ {
        if j + 1 < a.len() {
            let port = match parse_u16_spec(a[j + 1]) {
                Some(p) => p,
                None => 0u16,
            };
            lemma_scan_keeps_args(a, j + 2, CliSpec { direct_port: port, ..acc });
        } else {
            assert(acc.args.subrange(0, acc.args.len() as int) =~= acc.args);
        }
    } else if a[j] == "--password"@ {
        if j + 1 < a.len() {
            lemma_scan_keeps_args(a, j + 2, CliSpec { password: a[j + 1], ..acc });
        } else {
            assert(acc.args.subrange(0, acc.args.len() as int) =~= acc.args);
        }
    } else {
        let next = CliSpec { args: acc.args.push(a[j]), ..acc };
        lemma_scan_keeps_args(a, j + 1, next);
        let res = scan_args(a, j + 1, next).args;
        assert(res.subrange(0, acc.args.len() as int) =~= res.subrange(0, next.args.len() as int).subrange(
            0,
            acc.args.len() as int,
        ));
        assert(next.args.subrange(0, acc.args.len() as int) =~= acc.args);
    }
}

/// A command line whose first argument after the program name is `--help` or `-h` prints the
/// usage, `--version` the version and `--build-date` the build date; any other first argument
/// that is not an option taking a value is reported as unknown.
pub proof fn lemma_first_argument_selects_command(a: Seq<Seq<char>>, r: CoreAction)
    requires
        a.len() >= 2,
        a[1] != "--port"@,
        a[1] != "--password"@,
        action_matches(cli_spec(a), r),
    ensures
        (a[1] == "--help"@ || a[1] == "-h"@) ==> r is PrintUsage,
        a[1] == "--version"@ ==> r is PrintVersion,
        a[1] == "--build-date"@ ==> r is PrintBuildDate,
        (a[1] != "--help"@ && a[1] != "-h"@ && a[1] != "--version"@ && a[1] != "--build-date"@)
            ==> (r matches CoreAction::UnknownOption(s) && s@ == a[1]),
{
    let init = CliSpec { args: seq![], direct_port: 0, password: seq![] };
    let next = CliSpec { args: seq![a[1]], ..init };
    assert(init.args.push(a[1]) =~= seq![a[1]]);
    assert(cli_spec(a) == scan_args(a, 2, next));
    lemma_scan_keeps_args(a, 2, next);
    let res = cli_spec(a).args;
    assert(res.subrange(0, 1)[0] == res[0]);
    assert(res[0] == a[1]);
    reveal_strlit("--help");
    reveal_strlit("-h");
    reveal_strlit("--version");
    reveal_strlit("--build-date");
    reveal_strlit("--port");
    reveal_strlit("--password");
}

} // verus!
