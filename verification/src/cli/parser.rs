//! Reading the command line into a command.
use vstd::prelude::*;
use crate::cli::args::{CliArgs, Command};
use crate::errors::error::Error;
use crate::text::{texts, split_char, str_eq, str_starts_with};
use crate::stdtext::lowercase;

verus! {

/// Reads command lines and prints usage.
pub struct CliParser;

/// An argument that starts with a dash.
pub open spec fn is_option(s: Seq<char>) -> bool {
    s.len() > 0 && s[0] == '-'
}

/// The text after the first `=` of an argument, up to any further `=`.
pub open spec fn eq_value(s: Seq<char>) -> Seq<char> {
    split_char(s, '=')[1]
}

/// The commit message: the argument after the first `--message` or `-m`
/// (from position `p`) that is followed by one; empty when there is none.
pub open spec fn commit_message(args: Seq<Seq<char>>, p: int) -> Seq<char>
    decreases args.len() - p,
{
    if p < 0 || p >= args.len() {
        Seq::empty()
    } else if (args[p] == "--message"@ || args[p] == "-m"@) && p + 1 < args.len() {
        args[p + 1]
    } else {
        commit_message(args, p + 1)
    }
}

/// The colour option from position `p`: the argument after the first
/// `--color` that has one, or the value of a `--color=<value>` argument,
/// whichever comes first.
pub open spec fn color_option(args: Seq<Seq<char>>, p: int) -> Option<Seq<char>>
    decreases args.len() - p,
{
    if p < 0 || p >= args.len() {
        None
    } else if args[p] == "--color"@ && p + 1 < args.len() {
        Some(args[p + 1])
    } else if "--color="@.is_prefix_of(args[p]) {
        Some(eq_value(args[p]))
    } else {
        color_option(args, p + 1)
    }
}

/// Some argument from position `p` is `flag`.
pub open spec fn has_arg(args: Seq<Seq<char>>, p: int, flag: Seq<char>) -> bool {
    exists|i: int| p <= i < args.len() && args[i] == flag
}

/// The paths of a diff from position `p`: arguments that are no options.
pub open spec fn diff_paths(args: Seq<Seq<char>>, p: int) -> Seq<Seq<char>>
    decreases args.len() - p,
{
    if p < 0 || p >= args.len() {
        Seq::empty()
    } else if args[p] == "--cached"@ || args[p] == "--staged"@ || is_option(args[p]) {
        diff_paths(args, p + 1)
    } else {
        seq![args[p]] + diff_paths(args, p + 1)
    }
}

/// Branch options read from position `p` on top of `st` = (name, start
/// point, verbose, delete, force); an unknown option is returned as error.
pub open spec fn branch_scan(args: Seq<Seq<char>>, p: int, st: (Seq<char>, Option<Seq<char>>, bool, bool, bool))
    -> Result<(Seq<char>, Option<Seq<char>>, bool, bool, bool), Seq<char>>
    decreases args.len() - p,
{
    if p < 0 || p >= args.len() {
        Ok(st)
    } else {
        let a = args[p];
        if a == "-v"@ || a == "--verbose"@ {
            branch_scan(args, p + 1, (st.0, st.1, true, st.3, st.4))
        } else if a == "-d"@ || a == "--delete"@ {
            branch_scan(args, p + 1, (st.0, st.1, st.2, true, st.4))
        } else if a == "-f"@ || a == "--force"@ {
            branch_scan(args, p + 1, (st.0, st.1, st.2, st.3, true))
        } else if a == "-D"@ {
            branch_scan(args, p + 1, (st.0, st.1, st.2, true, true))
        } else if is_option(a) {
            Err(a)
        } else if st.0.len() == 0 {
            branch_scan(args, p + 1, (a, st.1, st.2, st.3, st.4))
        } else if st.1 is None {
            branch_scan(args, p + 1, (st.0, Some(a), st.2, st.3, st.4))
        } else {
            branch_scan(args, p + 1, st)
        }
    }
}

/// Log options read from position `p` on top of `st` = (revisions, abbrev,
/// format, patch, decorate); an unknown option is returned as error.
pub open spec fn log_scan(args: Seq<Seq<char>>, p: int, st: (Seq<Seq<char>>, bool, Seq<char>, bool, Seq<char>))
    -> Result<(Seq<Seq<char>>, bool, Seq<char>, bool, Seq<char>), Seq<char>>
    decreases args.len() - p,
{
    if p < 0 || p >= args.len() {
        Ok(st)
    } else {
        let a = args[p];
        if a == "--abbrev-commit"@ {
            log_scan(args, p + 1, (st.0, true, st.2, st.3, st.4))
        } else if a == "--no-abbrev-commit"@ {
            log_scan(args, p + 1, (st.0, false, st.2, st.3, st.4))
        } else if a == "--pretty"@ || a == "--format"@ {
            if p + 1 < args.len() {
                log_scan(args, p + 2, (st.0, st.1, args[p + 1], st.3, st.4))
            } else {
                log_scan(args, p + 1, st)
            }
        } else if "--pretty="@.is_prefix_of(a) || "--format="@.is_prefix_of(a) {
            log_scan(args, p + 1, (st.0, st.1, eq_value(a), st.3, st.4))
        } else if a == "--oneline"@ {
            log_scan(args, p + 1, (st.0, true, "oneline"@, st.3, st.4))
        } else if a == "-p"@ || a == "-u"@ || a == "--patch"@ {
            log_scan(args, p + 1, (st.0, st.1, st.2, true, st.4))
        } else if a == "-s"@ || a == "--no-patch"@ {
            log_scan(args, p + 1, (st.0, st.1, st.2, false, st.4))
        } else if a == "--decorate"@ {
            log_scan(args, p + 1, (st.0, st.1, st.2, st.3, "short"@))
        } else if "--decorate="@.is_prefix_of(a) {
            log_scan(args, p + 1, (st.0, st.1, st.2, st.3, eq_value(a)))
        } else if a == "--no-decorate"@ {
            log_scan(args, p + 1, (st.0, st.1, st.2, st.3, "no"@))
        } else if is_option(a) {
            Err(a)
        } else {
            log_scan(args, p + 1, (st.0.push(a), st.1, st.2, st.3, st.4))
        }
    }
}

/// A generic error with message `msg`.
pub open spec fn is_generic(r: Result<CliArgs, Error>, msg: Seq<char>) -> bool {
    r matches Err(Error::Generic(m)) && m@ == msg
}

/// Of an optional string, its text.
pub open spec fn opt_text(o: Option<String>) -> Option<Seq<char>> {
    match o {
        Some(s) => Some(s@),
        None => None,
    }
}

/// What the command line `a` reads as: usage error when there is no command;
/// `init` (path or `.`), `commit` (the `-m`/`--message` argument, required),
/// `add` (paths, required), `status`, `diff`, `branch`, `checkout` (target,
/// required) and `log` with their options; any other command is unknown,
/// named by its lowercase text.
pub open spec fn parsed_as(a: Seq<Seq<char>>, r: Result<CliArgs, Error>) -> bool {
    if a.len() < 2 {
        is_generic(r, "Usage: ash <command> [options]"@)
    } else {
        let cmd = lowercase(a[1]);
        if cmd == "init"@ {
            r matches Ok(c) && c.command matches Command::Init { path }
                && path@ == (if a.len() > 2 { a[2] } else { "."@ })
        } else if cmd == "commit"@ {
            let msg = commit_message(a, 2);
            if msg.len() == 0 {
                is_generic(r, "Commit message is required. Use --message <msg> or -m <msg>"@)
            } else {
                r matches Ok(c) && c.command matches Command::Commit { message, amend, reuse_message, edit }
                    && message@ == msg && !amend && reuse_message is None && !edit
            }
        } else if cmd == "add"@ {
            if a.len() < 3 {
                is_generic(r, "File path is required for add command"@)
            } else {
                r matches Ok(c) && c.command matches Command::Add { paths } && texts(paths@) == a.skip(2)
            }
        } else if cmd == "status"@ {
            r matches Ok(c) && c.command matches Command::Status { porcelain, color }
                && porcelain == has_arg(a, 2, "--porcelain"@)
                && color@ == (match color_option(a, 2) {
                Some(v) => v,
                None => "auto"@,
            })
        } else if cmd == "diff"@ {
            r matches Ok(c) && c.command matches Command::Diff { paths, cached }
                && texts(paths@) == diff_paths(a, 2)
                && cached == (has_arg(a, 2, "--cached"@) || has_arg(a, 2, "--staged"@))
        } else if cmd == "branch"@ {
            match branch_scan(a, 2, (Seq::empty(), None, false, false, false)) {
                Err(opt) => is_generic(r, "Unknown option: "@ + opt),
                Ok(st) => r matches Ok(c) && c.command matches Command::Branch { name, start_point, verbose, delete, force }
                    && name@ == st.0 && opt_text(start_point) == st.1 && verbose == st.2 && delete == st.3
                    && force == st.4,
            }
        } else if cmd == "checkout"@ {
            if a.len() < 3 {
                is_generic(r, "No checkout target specified"@)
            } else {
                r matches Ok(c) && c.command matches Command::Checkout { target } && target@ == a[2]
            }
        } else if cmd == "log"@ {
            match log_scan(a, 2, (Seq::empty(), false, "medium"@, false, "auto"@)) {
                Err(opt) => is_generic(r, "Unknown option: "@ + opt),
                Ok(st) => r matches Ok(c) && c.command matches Command::Log { revisions, abbrev, format, patch, decorate }
                    && texts(revisions@) == st.0 && abbrev == st.1 && format@ == st.2 && patch == st.3
                    && decorate@ == st.4,
            }
        } else {
            r matches Ok(c) && c.command matches Command::Unknown { name } && name@ == cmd
        }
    }
}

/// The text after the first `=` of an argument that holds one.
fn value_after_eq(arg: &str) -> (v: String)
    requires
        arg@.contains('='),
    ensures
        v@ == eq_value(arg@),
{
    let cs = crate::text::chars_of(arg);
    let parts = crate::text::split_on(cs.as_slice(), '=');
    proof {
        let k = choose|k: int| 0 <= k < arg@.len() && arg@[k] == '=';
        assert(arg@ =~= arg@.take(k) + seq!['='] + arg@.skip(k + 1));
        crate::text::lemma_split_char_concat(arg@.take(k), arg@.skip(k + 1), '=');
        crate::text::lemma_split_char_len(arg@.take(k), '=');
        crate::text::lemma_split_char_len(arg@.skip(k + 1), '=');
    }
    crate::text::string_of(parts[1].as_slice())
}

/// Starting with the text `-` is starting with a dash.
proof fn lemma_dash_prefix(s: Seq<char>)
    ensures
        "-"@.is_prefix_of(s) <==> is_option(s),
{
    reveal_strlit("-");
    assert("-"@ =~= seq!['-']);
    if s.len() > 0 {
        assert(s.subrange(0, 1)[0] == s[0]);
        if s[0] == '-' {
            assert(s.subrange(0, 1) =~= seq!['-']);
        }
    }
}

/// A prefix ending in `=` makes the argument hold an `=`.
proof fn lemma_prefix_eq(p: Seq<char>, s: Seq<char>)
    requires
        p.len() > 0,
        p.last() == '=',
        p.is_prefix_of(s),
    ensures
        s.contains('='),
{
    assert(s[p.len() - 1] == p[p.len() - 1]);
}

impl CliParser {
    /// Reads the command line (program name first) into a command.
    pub fn parse(args: Vec<String>) -> (r: Result<CliArgs, Error>)
        ensures
            parsed_as(texts(args@), r),
    {
        let ghost a = texts(args@);
        if args.len() < 2 {
            return Err(crate::errors::error::generic("Usage: ash <command> [options]"));
        }
        let command = crate::stdtext::to_lowercase(args[1].as_str());
        assert(a[1] == args@[1]@);
        if str_eq(command.as_str(), "init") {
            let path = if args.len() > 2 {
                assert(a[2] == args@[2]@);
                args[2].clone()
            } else {
                ".".to_string()
            };
            return Ok(CliArgs { command: Command::Init { path } });
        }
        if str_eq(command.as_str(), "commit") {
            return Self::parse_commit(&args);
        }
        if str_eq(command.as_str(), "add") {
            if args.len() < 3 {
                return Err(crate::errors::error::generic("File path is required for add command"));
            }
            let rest = crate::text::copy_strings_from(args.as_slice(), 2);
            return Ok(CliArgs { command: Command::Add { paths: rest } });
        }
        if str_eq(command.as_str(), "status") {
            return Ok(Self::parse_status(&args));
        }
        if str_eq(command.as_str(), "diff") {
            return Ok(Self::parse_diff(&args));
        }
        if str_eq(command.as_str(), "branch") {
            return Self::parse_branch(&args);
        }
        if str_eq(command.as_str(), "checkout") {
            if args.len() < 3 {
                return Err(crate::errors::error::generic("No checkout target specified"));
            }
            assert(a[2] == args@[2]@);
            let target = args[2].clone();
            return Ok(CliArgs { command: Command::Checkout { target } });
        }
        if str_eq(command.as_str(), "log") {
            return Self::parse_log(&args);
        }
        Ok(CliArgs { command: Command::Unknown { name: command } })
    }

    /// The `commit` command: its message is required.
    fn parse_commit(args: &Vec<String>) -> (r: Result<CliArgs, Error>)
        requires
            args@.len() >= 2,
        ensures
            ({
                let msg = commit_message(texts(args@), 2);
                if msg.len() == 0 {
                    is_generic(r, "Commit message is required. Use --message <msg> or -m <msg>"@)
                } else {
                    r matches Ok(c) && c.command matches Command::Commit { message, amend, reuse_message, edit }
                        && message@ == msg && !amend && reuse_message is None && !edit
                }
            }),
    {
        let ghost a = texts(args@);
        let mut message = String::new();
        let mut i: usize = 2;
        loop
            invariant_except_break
                2 <= i <= args@.len(),
                a == texts(args@),
                message@.len() == 0,
                commit_message(a, 2) == commit_message(a, i as int),
            ensures
                message@ == commit_message(a, 2),
            decreases args@.len() - i,
        {
            if i >= args.len() {
                break;
            }
            assert(a[i as int] == args@[i as int]@);
            if (str_eq(args[i].as_str(), "--message") || str_eq(args[i].as_str(), "-m")) && i + 1 < args.len() {
                assert(a[i + 1] == args@[i + 1]@);
                message = args[i + 1].clone();
                break;
            }
            i += 1;
        }
        if crate::text::str_is_empty(message.as_str()) {
            return Err(crate::errors::error::generic("Commit message is required. Use --message <msg> or -m <msg>"));
        }
        Ok(CliArgs { command: Command::Commit { message, amend: false, reuse_message: None, edit: false } })
    }

    /// The `status` command: `--porcelain` and the colour option.
    fn parse_status(args: &Vec<String>) -> (c: CliArgs)
        requires
            args@.len() >= 2,
        ensures
            c.command matches Command::Status { porcelain, color }
                && porcelain == has_arg(texts(args@), 2, "--porcelain"@)
                && color@ == (match color_option(texts(args@), 2) {
                Some(v) => v,
                None => "auto"@,
            }),
    {
        let ghost a = texts(args@);
        let mut porcelain = false;
        let mut i: usize = 2;
        while i < args.len()
            invariant
                2 <= i <= args@.len(),
                a == texts(args@),
                porcelain == exists|k: int| 2 <= k < i && a[k] == "--porcelain"@,
            decreases args@.len() - i,
        {
            assert(a[i as int] == args@[i as int]@);
            if str_eq(args[i].as_str(), "--porcelain") {
                porcelain = true;
            }
            i += 1;
        }
        let mut color: Option<String> = None;
        let mut j: usize = 2;
        loop
            invariant_except_break
                2 <= j <= args@.len(),
                a == texts(args@),
                color is None,
                color_option(a, 2) == color_option(a, j as int),
            ensures
                opt_text(color) == color_option(a, 2),
            decreases args@.len() - j,
        {
            if j >= args.len() {
                break;
            }
            assert(a[j as int] == args@[j as int]@);
            if str_eq(args[j].as_str(), "--color") && j + 1 < args.len() {
                assert(a[j + 1] == args@[j + 1]@);
                color = Some(args[j + 1].clone());
                break;
            }
            if str_starts_with(args[j].as_str(), "--color=") {
                proof {
                    reveal_strlit("--color=");
                    lemma_prefix_eq("--color="@, a[j as int]);
                }
                color = Some(value_after_eq(args[j].as_str()));
                break;
            }
            j += 1;
        }
        let color = match color {
            Some(c) => c,
            None => "auto".to_string(),
        };
        CliArgs { command: Command::Status { porcelain, color } }
    }

    /// The `diff` command: `--cached`/`--staged` and the paths.
    fn parse_diff(args: &Vec<String>) -> (c: CliArgs)
        requires
            args@.len() >= 2,
        ensures
            c.command matches Command::Diff { paths, cached }
                && texts(paths@) == diff_paths(texts(args@), 2)
                && cached == (has_arg(texts(args@), 2, "--cached"@) || has_arg(texts(args@), 2, "--staged"@)),
    {
        let ghost a = texts(args@);
        let mut paths: Vec<String> = Vec::new();
        let mut cached = false;
        let mut i: usize = 2;
        while i < args.len()
            invariant
                2 <= i <= args@.len(),
                a == texts(args@),
                texts(paths@) + diff_paths(a, i as int) == diff_paths(a, 2),
                cached == ((exists|k: int| 2 <= k < i && a[k] == "--cached"@) || (exists|k: int| 2 <= k < i && a[k] == "--staged"@)),
            decreases args@.len() - i,
        {
            assert(a[i as int] == args@[i as int]@);
            let arg = &args[i];
            let ghost before = texts(paths@);
            if str_eq(arg.as_str(), "--cached") || str_eq(arg.as_str(), "--staged") {
                cached = true;
                assert(diff_paths(a, i as int) == diff_paths(a, i + 1));
            } else if !str_starts_with(arg.as_str(), "-") {
                paths.push(arg.clone());
                proof {
                    lemma_dash_prefix(a[i as int]);
                    assert(texts(paths@) =~= before.push(a[i as int]));
                    assert(before.push(a[i as int]) + diff_paths(a, i + 1) =~= before + (seq![a[i as int]] + diff_paths(a, i + 1)));
                }
            } else {
                proof {
                    lemma_dash_prefix(a[i as int]);
                    assert(diff_paths(a, i as int) == diff_paths(a, i + 1));
                }
            }
            i += 1;
        }
        assert(diff_paths(a, i as int) =~= Seq::<Seq<char>>::empty());
        assert(texts(paths@) + Seq::<Seq<char>>::empty() =~= texts(paths@));
        CliArgs { command: Command::Diff { paths, cached } }
    }

    /// The `branch` command: name, start point and flags.
    fn parse_branch(args: &Vec<String>) -> (r: Result<CliArgs, Error>)
        requires
            args@.len() >= 2,
        ensures
            match branch_scan(texts(args@), 2, (Seq::empty(), None, false, false, false)) {
                Err(opt) => is_generic(r, "Unknown option: "@ + opt),
                Ok(st) => r matches Ok(c) && c.command matches Command::Branch { name, start_point, verbose, delete, force }
                    && name@ == st.0 && opt_text(start_point) == st.1 && verbose == st.2 && delete == st.3
                    && force == st.4,
            },
    {
        let ghost a = texts(args@);
        let ghost goal = branch_scan(a, 2, (Seq::empty(), None, false, false, false));
        let mut name = String::new();
        let mut start_point: Option<String> = None;
        let mut verbose = false;
        let mut delete = false;
        let mut force = false;
        let mut i: usize = 2;
        while i < args.len()
            invariant
                2 <= i <= args@.len(),
                a == texts(args@),
                goal == branch_scan(a, 2, (Seq::empty(), None, false, false, false)),
                goal == branch_scan(a, i as int, (name@, opt_text(start_point), verbose, delete, force)),
            decreases args@.len() - i,
        {
            assert(a[i as int] == args@[i as int]@);
            let arg = &args[i];
            if str_eq(arg.as_str(), "-v") || str_eq(arg.as_str(), "--verbose") {
                verbose = true;
            } else if str_eq(arg.as_str(), "-d") || str_eq(arg.as_str(), "--delete") {
                delete = true;
            } else if str_eq(arg.as_str(), "-f") || str_eq(arg.as_str(), "--force") {
                force = true;
            } else if str_eq(arg.as_str(), "-D") {
                delete = true;
                force = true;
            } else if str_starts_with(arg.as_str(), "-") {
                proof {
                    lemma_dash_prefix(a[i as int]);
                }
                return Err(Error::Generic(crate::text::concat("Unknown option: ", arg.as_str())));
            } else {
                proof {
                    lemma_dash_prefix(a[i as int]);
                }
                if crate::text::str_is_empty(name.as_str()) {
                    name = arg.clone();
                } else if start_point.is_none() {
                    start_point = Some(arg.clone());
                }
            }
            i += 1;
        }
        Ok(CliArgs { command: Command::Branch { name, start_point, verbose, delete, force } })
    }

    /// The `log` command: revisions and display options.
    fn parse_log(args: &Vec<String>) -> (r: Result<CliArgs, Error>)
        requires
            args@.len() >= 2,
        ensures
            match log_scan(texts(args@), 2, (Seq::empty(), false, "medium"@, false, "auto"@)) {
                Err(opt) => is_generic(r, "Unknown option: "@ + opt),
                Ok(st) => r matches Ok(c) && c.command matches Command::Log { revisions, abbrev, format, patch, decorate }
                    && texts(revisions@) == st.0 && abbrev == st.1 && format@ == st.2 && patch == st.3
                    && decorate@ == st.4,
            },
    {
        let ghost a = texts(args@);
        let ghost goal = log_scan(a, 2, (Seq::empty(), false, "medium"@, false, "auto"@));
        let mut revisions: Vec<String> = Vec::new();
        let mut abbrev = false;
        let mut format = "medium".to_string();
        let mut patch = false;
        let mut decorate = "auto".to_string();
        let mut i: usize = 2;
        assert(texts(revisions@) =~= Seq::<Seq<char>>::empty());
        while i < args.len()
            invariant
                2 <= i <= args@.len(),
                a == texts(args@),
                goal == log_scan(a, 2, (Seq::empty(), false, "medium"@, false, "auto"@)),
                goal == log_scan(a, i as int, (texts(revisions@), abbrev, format@, patch, decorate@)),
            decreases args@.len() - i,
        {
            assert(a[i as int] == args@[i as int]@);
            let arg = &args[i];
            if str_eq(arg.as_str(), "--abbrev-commit") {
                abbrev = true;
                i += 1;
            } else if str_eq(arg.as_str(), "--no-abbrev-commit") {
                abbrev = false;
                i += 1;
            } else if str_eq(arg.as_str(), "--pretty") || str_eq(arg.as_str(), "--format") {
                if i + 1 < args.len() {
                    assert(a[i + 1] == args@[i + 1]@);
                    format = args[i + 1].clone();
                    i += 2;
                } else {
                    i += 1;
                }
            } else if str_starts_with(arg.as_str(), "--pretty=") || str_starts_with(arg.as_str(), "--format=") {
                proof {
                    reveal_strlit("--pretty=");
                    reveal_strlit("--format=");
                    if "--pretty="@.is_prefix_of(a[i as int]) {
                        lemma_prefix_eq("--pretty="@, a[i as int]);
                    } else {
                        lemma_prefix_eq("--format="@, a[i as int]);
                    }
                }
                format = value_after_eq(arg.as_str());
                i += 1;
            } else if str_eq(arg.as_str(), "--oneline") {
                format = "oneline".to_string();
                abbrev = true;
                i += 1;
            } else if str_eq(arg.as_str(), "-p") || str_eq(arg.as_str(), "-u") || str_eq(arg.as_str(), "--patch") {
                patch = true;
                i += 1;
            } else if str_eq(arg.as_str(), "-s") || str_eq(arg.as_str(), "--no-patch") {
                patch = false;
                i += 1;
            } else if str_eq(arg.as_str(), "--decorate") {
                decorate = "short".to_string();
                i += 1;
            } else if str_starts_with(arg.as_str(), "--decorate=") {
                proof {
                    reveal_strlit("--decorate=");
                    lemma_prefix_eq("--decorate="@, a[i as int]);
                }
                decorate = value_after_eq(arg.as_str());
                i += 1;
            } else if str_eq(arg.as_str(), "--no-decorate") {
                decorate = "no".to_string();
                i += 1;
            } else if str_starts_with(arg.as_str(), "-") {
                proof {
                    lemma_dash_prefix(a[i as int]);
                }
                return Err(Error::Generic(crate::text::concat("Unknown option: ", arg.as_str())));
            } else {
                proof {
                    lemma_dash_prefix(a[i as int]);
                }
                let ghost before = texts(revisions@);
                revisions.push(arg.clone());
                assert(texts(revisions@) =~= before.push(a[i as int]));
                i += 1;
            }
        }
        Ok(CliArgs { command: Command::Log { revisions, abbrev, format, patch, decorate } })
    }

    /// The usage text: the commands and their options, one per line.
    pub fn format_help() -> (s: String)
        ensures
            s@ == help_text(),
    {
        let mut s = String::new();
        crate::text::push_str(&mut s, "Usage: ash <command> [options]\n");
        crate::text::push_str(&mut s, "Commands:\n");
        crate::text::push_str(&mut s, "  init [path]                      Initialize a new repository\n");
        crate::text::push_str(&mut s, "  commit <message>                 Commit changes to the repository\n");
        crate::text::push_str(&mut s, "  add <paths...>                   Add file contents to the index\n");
        crate::text::push_str(&mut s, "  status [--porcelain] [--color=<when>]   Show the working tree status\n");
        crate::text::push_str(&mut s, "         --porcelain               Machine-readable output\n");
        crate::text::push_str(&mut s, "         --color=<when>            Colorize output (always|auto|never)\n");
        crate::text::push_str(&mut s, "  diff [--cached] [paths...]      Show changes between commits, commit and working tree, etc\n");
        crate::text::push_str(&mut s, "  branch <n> [start-point]        Create a new branch\n");
        crate::text::push_str(&mut s, "         <n>                       Name of the branch to create\n");
        crate::text::push_str(&mut s, "         [start-point]             Revision to start the branch at (defaults to HEAD)\n");
        crate::text::push_str(&mut s, "  checkout <target>                Switch branches or restore working tree files");
        s
    }
}

/// The usage text.
pub open spec fn help_text() -> Seq<char> {
    "Usage: ash <command> [options]\n"@ + "Commands:\n"@
        + "  init [path]                      Initialize a new repository\n"@
        + "  commit <message>                 Commit changes to the repository\n"@
        + "  add <paths...>                   Add file contents to the index\n"@
        + "  status [--porcelain] [--color=<when>]   Show the working tree status\n"@
        + "         --porcelain               Machine-readable output\n"@
        + "         --color=<when>            Colorize output (always|auto|never)\n"@
        + "  diff [--cached] [paths...]      Show changes between commits, commit and working tree, etc\n"@
        + "  branch <n> [start-point]        Create a new branch\n"@
        + "         <n>                       Name of the branch to create\n"@
        + "         [start-point]             Revision to start the branch at (defaults to HEAD)\n"@
        + "  checkout <target>                Switch branches or restore working tree files"@
}

} // verus!
