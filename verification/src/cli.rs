use vstd::prelude::*;
use vstd::string::*;
use crate::text::str_eq;

verus! {

/// The parsed invocation: the global verbosity switch and one command.
#[derive(Debug)]
pub struct Options {
    pub verbose: bool,
    pub command: Command,
}

/// The closed set of commands the tool accepts, with their payloads.
#[derive(Debug)]
pub enum Command {
    Help,
    Version,
    Configs { all: bool },
    Encrypt { plantexts: Vec<String>, file: Option<String> },
    GenKey { keypass: String },
    Pull { name: String, force: bool },
    Recipes { all: bool },
    Rm { recipe_id: String },
    Run { name: Option<String>, path: Option<String>, force: bool },
}

pub ghost enum CommandSpec {
    Help,
    Version,
    Configs { all: bool },
    Encrypt { plantexts: Seq<Seq<char>>, file: Option<Seq<char>> },
    GenKey { keypass: Seq<char> },
    Pull { name: Seq<char>, force: bool },
    Recipes { all: bool },
    Rm { recipe_id: Seq<char> },
    Run { name: Option<Seq<char>>, path: Option<Seq<char>>, force: bool },
}

impl View for Command {
    type V = CommandSpec;

    open spec fn view(&self) -> CommandSpec {
        match self {
            Command::Help => CommandSpec::Help,
            Command::Version => CommandSpec::Version,
            Command::Configs { all } => CommandSpec::Configs { all: *all },
            Command::Encrypt { plantexts, file } => CommandSpec::Encrypt {
                plantexts: plantexts.deep_view(),
                file: crate::recipe::opt_view(*file),
            },
            Command::GenKey { keypass } => CommandSpec::GenKey { keypass: keypass@ },
            Command::Pull { name, force } => CommandSpec::Pull { name: name@, force: *force },
            Command::Recipes { all } => CommandSpec::Recipes { all: *all },
            Command::Rm { recipe_id } => CommandSpec::Rm { recipe_id: recipe_id@ },
            Command::Run { name, path, force } => CommandSpec::Run {
                name: crate::recipe::opt_view(*name),
                path: crate::recipe::opt_view(*path),
                force: *force,
            },
        }
    }
}

/// How an invocation can be rejected.
#[derive(Debug)]
pub enum CliError {
    /// `encrypt --file` without a path value.
    EncryptFileValue,
    /// `genkey` without a passphrase.
    GenKeyPass,
    /// `pull` without a recipe reference.
    PullName,
    /// `rm` without an id.
    RmId,
    /// `run --path` without a path value.
    RunPathValue,
    /// `run` with both a name and `--path`.
    RunNameAndPath,
}

impl CliError {
    /// The error text, as shown to the user.
    pub fn message(&self) -> (r: String)
        ensures
            self is EncryptFileValue ==> r@ == "encrypt --file expects a path value"@,
            self is GenKeyPass ==> r@ == "genkey expects <keypass> argument"@,
            self is PullName ==> r@ == "pull expects <name> argument"@,
            self is RmId ==> r@ == "rm expects <recipe_id>"@,
            self is RunPathValue ==> r@ == "run --path expects a recipe path"@,
            self is RunNameAndPath ==> r@ == "run does not support both name and --path together"@,
    {
        match self {
            CliError::EncryptFileValue => String::from_str("encrypt --file expects a path value"),
            CliError::GenKeyPass => String::from_str("genkey expects <keypass> argument"),
            CliError::PullName => String::from_str("pull expects <name> argument"),
            CliError::RmId => String::from_str("rm expects <recipe_id>"),
            CliError::RunPathValue => String::from_str("run --path expects a recipe path"),
            CliError::RunNameAndPath => String::from_str(
                "run does not support both name and --path together",
            ),
        }
    }
}

/// The arguments with every `--verbose` removed.
pub open spec fn retain_spec(args: Seq<Seq<char>>) -> Seq<Seq<char>>
    decreases args.len(),
{
    if args.len() == 0 {
        Seq::empty()
    } else {
        let r = retain_spec(args.drop_last());
        if args.last() == "--verbose"@ {
            r
        } else {
            r.push(args.last())
        }
    }
}

pub open spec fn has_verbose(args: Seq<Seq<char>>) -> bool {
    exists|i: int| 0 <= i < args.len() && args[i] == "--verbose"@
}

pub open spec fn any_flag(args: Seq<Seq<char>>, w1: Seq<char>, w2: Seq<char>) -> bool {
    exists|i: int| 0 <= i < args.len() && (#[trigger] args[i] == w1 || args[i] == w2)
}

/// The `encrypt` argument scan: `--file` takes the next argument (the last
/// occurrence wins), everything else is a plaintext to encrypt.
pub open spec fn encrypt_args(
    args: Seq<Seq<char>>,
    idx: int,
    ps: Seq<Seq<char>>,
    f: Option<Seq<char>>,
) -> Result<(Seq<Seq<char>>, Option<Seq<char>>), CliError>
    decreases args.len() - idx,
    when 0 <= idx
{
    if idx >= args.len() {
        Result::Ok((ps, f))
    } else if args[idx] == "--file"@ {
        if idx + 1 >= args.len() {
            Result::Err(CliError::EncryptFileValue)
        } else {
            encrypt_args(args, idx + 2, ps, Option::Some(args[idx + 1]))
        }
    } else {
        encrypt_args(args, idx + 1, ps.push(args[idx]), f)
    }
}

/// The `run` argument scan: force flags, `--path` with its value, and the
/// first non-flag argument as the recipe name.
pub open spec fn run_args(
    args: Seq<Seq<char>>,
    idx: int,
    name: Option<Seq<char>>,
    path: Option<Seq<char>>,
    force: bool,
) -> Result<(Option<Seq<char>>, Option<Seq<char>>, bool), CliError>
    decreases args.len() - idx,
    when 0 <= idx
{
    if idx >= args.len() {
        Result::Ok((name, path, force))
    } else if args[idx] == "-f"@ || args[idx] == "--force"@ {
        run_args(args, idx + 1, name, path, true)
    } else if args[idx] == "--path"@ {
        if idx + 1 >= args.len() {
            Result::Err(CliError::RunPathValue)
        } else {
            run_args(args, idx + 2, name, Option::Some(args[idx + 1]), force)
        }
    } else if !(args[idx].len() > 0 && args[idx][0] == '-') && name is None {
        run_args(args, idx + 1, Option::Some(args[idx]), path, force)
    } else {
        run_args(args, idx + 1, name, path, force)
    }
}

/// The command a filtered, non-empty argument list denotes; an unknown
/// command shows the help text.
pub open spec fn command_spec(args: Seq<Seq<char>>) -> Result<CommandSpec, CliError> {
    let a0 = args[0];
    if a0 == "-h"@ || a0 == "--help"@ {
        Result::Ok(CommandSpec::Help)
    } else if a0 == "-v"@ || a0 == "--version"@ {
        Result::Ok(CommandSpec::Version)
    } else if a0 == "configs"@ {
        Result::Ok(
            CommandSpec::Configs {
                all: args.len() > 1 && (args[1] == "-a"@ || args[1] == "--all"@),
            },
        )
    } else if a0 == "encrypt"@ {
        match encrypt_args(args, 1, Seq::empty(), Option::None) {
            Result::Ok(pf) => Result::Ok(CommandSpec::Encrypt { plantexts: pf.0, file: pf.1 }),
            Result::Err(e) => Result::Err(e),
        }
    } else if a0 == "genkey"@ {
        if args.len() < 2 {
            Result::Err(CliError::GenKeyPass)
        } else {
            Result::Ok(CommandSpec::GenKey { keypass: args[1] })
        }
    } else if a0 == "pull"@ {
        if args.len() < 2 {
            Result::Err(CliError::PullName)
        } else {
            Result::Ok(
                CommandSpec::Pull { name: args[1], force: any_flag(args, "-f"@, "--force"@) },
            )
        }
    } else if a0 == "recipes"@ {
        Result::Ok(CommandSpec::Recipes { all: any_flag(args, "-a"@, "--all"@) })
    } else if a0 == "rm"@ {
        if args.len() < 2 {
            Result::Err(CliError::RmId)
        } else {
            Result::Ok(CommandSpec::Rm { recipe_id: args[1] })
        }
    } else if a0 == "run"@ {
        match run_args(args, 1, Option::None, Option::None, false) {
            Result::Err(e) => Result::Err(e),
            Result::Ok(npf) => {
                if npf.0 is Some && npf.1 is Some {
                    Result::Err(CliError::RunNameAndPath)
                } else {
                    Result::Ok(CommandSpec::Run { name: npf.0, path: npf.1, force: npf.2 })
                }
            },
        }
    } else {
        Result::Ok(CommandSpec::Help)
    }
}

/// What an invocation parses to: no arguments show the help; otherwise the
/// `--verbose` flags are filtered out, and the remainder names the command.
pub open spec fn cli_spec(args: Seq<Seq<char>>) -> Result<(bool, CommandSpec), CliError> {
    if args.len() == 0 {
        Result::Ok((false, CommandSpec::Help))
    } else {
        let filtered = retain_spec(args);
        let verbose = has_verbose(args);
        if filtered.len() == 0 {
            Result::Ok((verbose, CommandSpec::Help))
        } else {
            match command_spec(filtered) {
                Result::Ok(c) => Result::Ok((verbose, c)),
                Result::Err(e) => Result::Err(e),
            }
        }
    }
}

/// Parses a command line, exactly as `cli_spec` describes.
pub fn parse(args: &Vec<String>) -> (r: Result<Options, CliError>)
    ensures
        match cli_spec(args.deep_view()) {
            Result::Ok(vc) => r matches Ok(o) && o.verbose == vc.0 && o.command@ == vc.1,
            Result::Err(e) => r matches Err(err) && err == e,
        },
{
    let ghost whole = args.deep_view();
    if args.len() == 0 {
        return Ok(Options { verbose: false, command: Command::Help });
    }
    let mut filtered: Vec<String> = Vec::new();
    let mut verbose = false;
    let n = args.len();
    let mut i: usize = 0;
    proof {
        assert(whole.take(0) =~= Seq::<Seq<char>>::empty());
        assert(filtered.deep_view() =~= retain_spec(whole.take(0)));
    }
    while i < n
        invariant
            whole == args.deep_view(),
            n == args@.len(),
            0 <= i <= n,
            filtered.deep_view() == retain_spec(whole.take(i as int)),
            verbose == (exists|q: int| 0 <= q < i && whole[q] == "--verbose"@),
        decreases n - i,
    {
        proof {
            assert(whole.take(i + 1).drop_last() =~= whole.take(i as int));
            assert(whole.take(i + 1).last() == whole[i as int]);
            assert(whole[i as int] == args@[i as int]@);
        }
        let a = &args[i];
        if str_eq(a.as_str(), "--verbose") {
            verbose = true;
        } else {
            filtered.push(String::from_str(a.as_str()));
            proof {
                assert(filtered.deep_view() =~= retain_spec(whole.take(i as int)).push(
                    whole[i as int],
                ));
            }
        }
        i += 1;
    }
    proof {
        assert(whole.take(n as int) =~= whole);
    }
    let ghost fargs = retain_spec(whole);
    if filtered.len() == 0 {
        return Ok(Options { verbose, command: Command::Help });
    }
    let a0 = filtered[0].as_str();
    proof {
        assert(fargs[0] == filtered@[0]@);
    }
    let cmd: Command = if str_eq(a0, "-h") || str_eq(a0, "--help") {
        Command::Help
    } else if str_eq(a0, "-v") || str_eq(a0, "--version") {
        Command::Version
    } else if str_eq(a0, "configs") {
        let all = if filtered.len() > 1 {
            str_eq(filtered[1].as_str(), "-a") || str_eq(filtered[1].as_str(), "--all")
        } else {
            false
        };
        proof {
            if filtered@.len() > 1 {
                assert(fargs[1] == filtered@[1]@);
            }
        }
        Command::Configs { all }
    } else if str_eq(a0, "encrypt") {
        let mut plantexts: Vec<String> = Vec::new();
        let mut file: Option<String> = None;
        let fn_ = filtered.len();
        let mut idx: usize = 1;
        proof {
            assert(plantexts.deep_view() =~= Seq::<Seq<char>>::empty());
        }
        while idx < fn_
            invariant
                whole == args.deep_view(),
                fargs == retain_spec(whole),
                fargs == filtered.deep_view(),
                verbose == has_verbose(whole),
                whole.len() > 0,
                fn_ == filtered@.len(),
                fn_ > 0,
                1 <= idx <= fn_ + 1,
                encrypt_args(fargs, 1, Seq::empty(), Option::None) == encrypt_args(
                    fargs,
                    idx as int,
                    plantexts.deep_view(),
                    crate::recipe::opt_view(file),
                ),
                cli_spec(whole) == (match encrypt_args(fargs, 1, Seq::empty(), Option::None) {
                    Result::Ok(pf) => Result::<(bool, CommandSpec), CliError>::Ok(
                        (verbose, CommandSpec::Encrypt { plantexts: pf.0, file: pf.1 }),
                    ),
                    Result::Err(e) => Result::<(bool, CommandSpec), CliError>::Err(e),
                }),
            decreases fn_ - idx,
        {
            proof {
                assert(fargs[idx as int] == filtered@[idx as int]@);
            }
            if str_eq(filtered[idx].as_str(), "--file") {
                if idx + 1 >= fn_ {
                    return Err(CliError::EncryptFileValue);
                }
                proof {
                    assert(fargs[idx + 1] == filtered@[idx + 1]@);
                }
                file = Some(String::from_str(filtered[idx + 1].as_str()));
                idx += 2;
            } else {
                let ghost pv = plantexts.deep_view();
                plantexts.push(String::from_str(filtered[idx].as_str()));
                proof {
                    assert(plantexts.deep_view() =~= pv.push(fargs[idx as int]));
                }
                idx += 1;
            }
        }
        Command::Encrypt { plantexts, file }
    } else if str_eq(a0, "genkey") {
        if filtered.len() < 2 {
            return Err(CliError::GenKeyPass);
        }
        proof {
            assert(fargs[1] == filtered@[1]@);
        }
        Command::GenKey { keypass: String::from_str(filtered[1].as_str()) }
    } else if str_eq(a0, "pull") {
        if filtered.len() < 2 {
            return Err(CliError::PullName);
        }
        proof {
            assert(fargs[1] == filtered@[1]@);
        }
        let force = scan_flag(&filtered, "-f", "--force");
        Command::Pull { name: String::from_str(filtered[1].as_str()), force }
    } else if str_eq(a0, "recipes") {
        let all = scan_flag(&filtered, "-a", "--all");
        Command::Recipes { all }
    } else if str_eq(a0, "rm") {
        if filtered.len() < 2 {
            return Err(CliError::RmId);
        }
        proof {
            assert(fargs[1] == filtered@[1]@);
        }
        Command::Rm { recipe_id: String::from_str(filtered[1].as_str()) }
    } else if str_eq(a0, "run") {
        let mut name: Option<String> = None;
        let mut path: Option<String> = None;
        let mut force = false;
        let fn_ = filtered.len();
        let mut idx: usize = 1;
        while idx < fn_
            invariant
                whole == args.deep_view(),
                fargs == retain_spec(whole),
                fargs == filtered.deep_view(),
                verbose == has_verbose(whole),
                whole.len() > 0,
                fn_ == filtered@.len(),
                fn_ > 0,
                1 <= idx <= fn_ + 1,
                run_args(fargs, 1, Option::None, Option::None, false) == run_args(
                    fargs,
                    idx as int,
                    crate::recipe::opt_view(name),
                    crate::recipe::opt_view(path),
                    force,
                ),
                cli_spec(whole) == (match run_args(fargs, 1, Option::None, Option::None, false) {
                    Result::Err(e) => Result::<(bool, CommandSpec), CliError>::Err(e),
                    Result::Ok(npf) => {
                        if npf.0 is Some && npf.1 is Some {
                            Result::<(bool, CommandSpec), CliError>::Err(CliError::RunNameAndPath)
                        } else {
                            Result::<(bool, CommandSpec), CliError>::Ok(
                                (
                                    verbose,
                                    CommandSpec::Run { name: npf.0, path: npf.1, force: npf.2 },
                                ),
                            )
                        }
                    },
                }),
            decreases fn_ - idx,
        {
            proof {
                assert(fargs[idx as int] == filtered@[idx as int]@);
            }
            let cur = filtered[idx].as_str();
            if str_eq(cur, "-f") || str_eq(cur, "--force") {
                force = true;
                idx += 1;
            } else if str_eq(cur, "--path") {
                if idx + 1 >= fn_ {
                    return Err(CliError::RunPathValue);
                }
                proof {
                    assert(fargs[idx + 1] == filtered@[idx + 1]@);
                }
                path = Some(String::from_str(filtered[idx + 1].as_str()));
                idx += 2;
            } else {
                let takes_name = cur.unicode_len() == 0 || cur.get_char(0) != '-';
                if takes_name && name.is_none() {
                    name = Some(String::from_str(cur));
                }
                idx += 1;
            }
        }
        if name.is_some() && path.is_some() {
            return Err(CliError::RunNameAndPath);
        }
        Command::Run { name, path, force }
    } else {
        Command::Help
    };
    Ok(Options { verbose, command: cmd })
}

/// Whether either flag spelling occurs among the arguments.
fn scan_flag(args: &Vec<String>, w1: &str, w2: &str) -> (r: bool)
    ensures
        r == any_flag(args.deep_view(), w1@, w2@),
{
    let n = args.len();
    let mut i: usize = 0;
    while i < n
        invariant
            n == args@.len(),
            0 <= i <= n,
            forall|q: int|
                0 <= q < i ==> !(#[trigger] args.deep_view()[q] == w1@ || args.deep_view()[q]
                    == w2@),
        decreases n - i,
    {
        proof {
            assert(args.deep_view()[i as int] == args@[i as int]@);
        }
        if str_eq(args[i].as_str(), w1) || str_eq(args[i].as_str(), w2) {
            return true;
        }
        i += 1;
    }
    false
}

} // verus!
