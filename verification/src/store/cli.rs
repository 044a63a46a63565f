//! The command line: what was asked for, and how a run ends.

use crate::store::error::{StoreError, StoreErrorView};
use crate::store::profile::{join_path, path_in};
use crate::store::refresh::RefreshOptions;
use crate::store::rows::copy_texts;
use crate::text::{debug_quoted, debug_text, opt_view, same, views};
use vstd::prelude::*;

verus! {

/// How the program is used.
pub const USAGE: &'static str = "\
sumer -- a local-first ledger of what your providers say

USAGE
  sumer [--profile <dir>] <command> [options]

COMMANDS
  init                      create the profile (prints what is and is not
                            protected -- read it once)
  connect <argv>...         run an adapter, record it and its resources
  refresh [--resume]        sweep every connected adapter
          [--confirm-empty] retract 100% of a resource (the only way)
          [--adapter <id>]
  balances                  every balance line, with source and freshness
  history [--resource <id>] the live records
  show <local_id>           one record's whole chain, retractions included
  status                    adapters, resources, crawls and discrepancies

  --profile <dir>           default: $SUMER_PROFILE, else ~/.sumer

EXIT
  0 ok · 1 a resource failed · 2 usage or profile error · 3 lock held";

/// A command line without the profile: the profile that it named last in front
/// of the command, and the rest. The rest starts with the command, and nothing
/// behind that is touched.
pub open spec fn split_args(args: Seq<Seq<char>>, dir: Option<Seq<char>>) -> Result<
    (Option<Seq<char>>, Seq<Seq<char>>),
    StoreErrorView,
>
    decreases args.len(),
{
    if args.len() == 0 || args[0] != "--profile"@ {
        Ok((dir, args))
    } else if args.len() == 1 {
        Err(StoreErrorView::Usage("--profile needs a directory"@))
    } else {
        split_args(args.skip(2), Some(args[1]))
    }
}

/// The profile directory and the rest of a command line: what it named, else
/// what the environment names, else the place in the home directory.
pub open spec fn profile_and_rest(
    args: Seq<Seq<char>>,
    named: Option<Seq<char>>,
    home: Option<Seq<char>>,
) -> Result<(Seq<char>, Seq<Seq<char>>), StoreErrorView> {
    match split_args(args, None) {
        Err(e) => Err(e),
        Ok((dir, rest)) => match (dir, named, home) {
            (Some(dir), _, _) => Ok((dir, rest)),
            (None, Some(dir), _) => Ok((dir, rest)),
            (None, None, Some(home)) => Ok((path_in(home, ".sumer"@), rest)),
            (None, None, None) => Err(
                StoreErrorView::Usage("no profile: set --profile or SUMER_PROFILE"@),
            ),
        },
    }
}

fn usage(message: &str) -> (r: StoreError)
    ensures
        r@ == StoreErrorView::Usage(message@),
{
    StoreError::Usage(message.to_owned())
}

/// Takes the profile directory off a command line.
pub fn split_profile(args: &Vec<String>, named: Option<String>, home: Option<String>) -> (r: Result<
    (String, Vec<String>),
    StoreError,
>)
    ensures
        match (r, profile_and_rest(views(args@), opt_view(named), opt_view(home))) {
            (Ok((dir, rest)), Ok(expected)) => dir@ == expected.0 && views(rest@) == expected.1,
            (Err(e), Err(expected)) => e@ == expected,
            _ => false,
        },
{
    let ghost all = views(args@);
    let mut dir: Option<String> = None;
    let mut i: usize = 0;
    proof {
        assert(all.skip(0) =~= all);
    }
    while i < args.len() && same(args[i].as_str(), "--profile")
        invariant
            i <= args@.len(),
            all == views(args@),
            split_args(all, None) == split_args(all.skip(i as int), opt_view(dir)),
        decreases args@.len() - i,
    {
        let ghost left = all.skip(i as int);
        proof {
            assert(left[0] == args@[i as int]@);
        }
        if i + 1 >= args.len() {
            return Err(usage("--profile needs a directory"));
        }
        proof {
            assert(left[1] == args@[i + 1]@);
            assert(left.skip(2) =~= all.skip(i + 2));
        }
        dir = Some(args[i + 1].clone());
        i = i + 2;
    }
    let ghost left = all.skip(i as int);
    proof {
        if i < args@.len() {
            assert(left[0] == args@[i as int]@);
        }
    }
    let mut rest: Vec<String> = Vec::new();
    let mut k: usize = i;
    while k < args.len()
        invariant
            i <= k <= args@.len(),
            rest@.len() == k - i,
            forall|n: int| 0 <= n < rest@.len() ==> (#[trigger] rest@[n])@ == args@[i + n]@,
        decreases args@.len() - k,
    {
        rest.push(args[k].clone());
        k = k + 1;
    }
    proof {
        assert(views(rest@) =~= left);
    }
    match (dir, named, home) {
        (Some(dir), _, _) => Ok((dir, rest)),
        (None, Some(dir), _) => Ok((dir, rest)),
        (None, None, Some(home)) => Ok((join_path(home.as_str(), ".sumer"), rest)),
        (None, None, None) => Err(usage("no profile: set --profile or SUMER_PROFILE")),
    }
}

/// What was asked for.
#[derive(Debug)]
pub enum Command {
    /// Nothing; the usage is printed, and the run counts as misused.
    Nothing,
    Help,
    Init,
    /// Connect the adapter with this command line.
    Connect(Vec<String>),
    Refresh(RefreshOptions),
    Balances,
    /// The live records, of one resource or of all.
    History(Option<String>),
    Show(String),
    Status,
}

/// What was asked for.
pub enum CommandView {
    Nothing,
    Help,
    Init,
    Connect(Seq<Seq<char>>),
    Refresh(OptionsView),
    Balances,
    History(Option<Seq<char>>),
    Show(Seq<char>),
    Status,
}

/// What was asked of a refresh.
pub struct OptionsView {
    pub resume: bool,
    pub confirm_empty: bool,
    pub adapter_id: Option<Seq<char>>,
}

impl View for RefreshOptions {
    type V = OptionsView;

    open spec fn view(&self) -> OptionsView {
        OptionsView {
            resume: self.resume,
            confirm_empty: self.confirm_empty,
            adapter_id: opt_view(self.adapter_id),
        }
    }
}

impl View for Command {
    type V = CommandView;

    open spec fn view(&self) -> CommandView {
        match self {
            Command::Nothing => CommandView::Nothing,
            Command::Help => CommandView::Help,
            Command::Init => CommandView::Init,
            Command::Connect(argv) => CommandView::Connect(views(argv@)),
            Command::Refresh(options) => CommandView::Refresh(options@),
            Command::Balances => CommandView::Balances,
            Command::History(resource) => CommandView::History(opt_view(*resource)),
            Command::Show(id) => CommandView::Show(id@),
            Command::Status => CommandView::Status,
        }
    }
}

/// The options of a refresh, one after the other.
pub open spec fn refresh_options(args: Seq<Seq<char>>, so_far: OptionsView) -> Result<
    OptionsView,
    StoreErrorView,
>
    decreases args.len(),
{
    if args.len() == 0 {
        Ok(so_far)
    } else if args[0] == "--resume"@ {
        refresh_options(args.skip(1), OptionsView { resume: true, ..so_far })
    } else if args[0] == "--confirm-empty"@ {
        refresh_options(args.skip(1), OptionsView { confirm_empty: true, ..so_far })
    } else if args[0] == "--adapter"@ {
        if args.len() == 1 {
            Err(StoreErrorView::Usage("--adapter needs an id"@))
        } else {
            refresh_options(args.skip(2), OptionsView { adapter_id: Some(args[1]), ..so_far })
        }
    } else {
        Err(StoreErrorView::Usage("refresh: unknown option "@ + debug_text(args[0])))
    }
}

/// The options of a history, one after the other.
pub open spec fn history_options(args: Seq<Seq<char>>, so_far: Option<Seq<char>>) -> Result<
    Option<Seq<char>>,
    StoreErrorView,
>
    decreases args.len(),
{
    if args.len() == 0 {
        Ok(so_far)
    } else if args[0] == "--resource"@ {
        if args.len() == 1 {
            Err(StoreErrorView::Usage("--resource needs an id"@))
        } else {
            history_options(args.skip(2), Some(args[1]))
        }
    } else {
        Err(StoreErrorView::Usage("history: unknown option "@ + debug_text(args[0])))
    }
}

/// What a command line without the profile asks for.
pub open spec fn command_of(rest: Seq<Seq<char>>) -> Result<CommandView, StoreErrorView> {
    if rest.len() == 0 {
        Ok(CommandView::Nothing)
    } else {
        let name = rest[0];
        let options = rest.skip(1);
        if name == "init"@ {
            Ok(CommandView::Init)
        } else if name == "connect"@ {
            if options.len() == 0 {
                Err(
                    StoreErrorView::Usage(
                        "connect needs an adapter command line, e.g. `sumer connect ./adapter --wallets w.json`"@,
                    ),
                )
            } else {
                Ok(CommandView::Connect(options))
            }
        } else if name == "refresh"@ {
            match refresh_options(
                options,
                OptionsView { resume: false, confirm_empty: false, adapter_id: None },
            ) {
                Ok(options) => Ok(CommandView::Refresh(options)),
                Err(e) => Err(e),
            }
        } else if name == "balances"@ {
            Ok(CommandView::Balances)
        } else if name == "history"@ {
            match history_options(options, None) {
                Ok(resource) => Ok(CommandView::History(resource)),
                Err(e) => Err(e),
            }
        } else if name == "show"@ {
            if options.len() == 0 {
                Err(StoreErrorView::Usage("show needs a local_id"@))
            } else {
                Ok(CommandView::Show(options[0]))
            }
        } else if name == "status"@ {
            Ok(CommandView::Status)
        } else if name == "help"@ || name == "--help"@ || name == "-h"@ {
            Ok(CommandView::Help)
        } else {
            Err(
                StoreErrorView::Usage(
                    "unknown command "@ + debug_text(name) + ". Try `sumer help`."@,
                ),
            )
        }
    }
}

fn quoting(before: &str, what: &str, after: &str) -> (r: StoreError)
    ensures
        r@ == StoreErrorView::Usage(before@ + debug_text(what@) + after@),
{
    let mut out = before.to_owned();
    out.append(debug_quoted(what).as_str());
    out.append(after);
    StoreError::Usage(out)
}

fn parse_refresh(rest: &Vec<String>) -> (r: Result<RefreshOptions, StoreError>)
    requires
        rest@.len() > 0,
    ensures
        match (
            r,
            refresh_options(
                views(rest@).skip(1),
                OptionsView { resume: false, confirm_empty: false, adapter_id: None },
            ),
        ) {
            (Ok(options), Ok(expected)) => options@ == expected,
            (Err(e), Err(expected)) => e@ == expected,
            _ => false,
        },
{
    let ghost all = views(rest@);
    let ghost none = OptionsView { resume: false, confirm_empty: false, adapter_id: None };
    let mut options = RefreshOptions { resume: false, confirm_empty: false, adapter_id: None };
    let mut i: usize = 1;
    while i < rest.len()
        invariant
            1 <= i <= rest@.len(),
            all == views(rest@),
            none == (OptionsView { resume: false, confirm_empty: false, adapter_id: None }),
            refresh_options(all.skip(1), none) == refresh_options(all.skip(i as int), options@),
        decreases rest@.len() - i,
    {
        let ghost left = all.skip(i as int);
        let option = rest[i].as_str();
        proof {
            assert(left[0] == option@);
            assert(left.skip(1) =~= all.skip(i + 1));
        }
        if same(option, "--resume") {
            options.resume = true;
        } else if same(option, "--confirm-empty") {
            options.confirm_empty = true;
        } else if same(option, "--adapter") {
            if i + 1 >= rest.len() {
                return Err(usage("--adapter needs an id"));
            }
            proof {
                assert(left[1] == rest@[i + 1]@);
                assert(left.skip(2) =~= all.skip(i + 2));
            }
            i = i + 1;
            options.adapter_id = Some(rest[i].clone());
        } else {
            let e = quoting("refresh: unknown option ", option, "");
            proof {
                reveal_strlit("");
                assert("refresh: unknown option "@ + debug_text(option@) + ""@
                    =~= "refresh: unknown option "@ + debug_text(option@));
            }
            return Err(e);
        }
        i = i + 1;
    }
    proof {
        assert(all.skip(i as int).len() == 0);
    }
    Ok(options)
}

fn parse_history(rest: &Vec<String>) -> (r: Result<Option<String>, StoreError>)
    requires
        rest@.len() > 0,
    ensures
        match (r, history_options(views(rest@).skip(1), None)) {
            (Ok(resource), Ok(expected)) => opt_view(resource) == expected,
            (Err(e), Err(expected)) => e@ == expected,
            _ => false,
        },
{
    let ghost all = views(rest@);
    let mut wanted: Option<String> = None;
    let mut i: usize = 1;
    while i < rest.len()
        invariant
            1 <= i <= rest@.len(),
            all == views(rest@),
            history_options(all.skip(1), None) == history_options(
                all.skip(i as int),
                opt_view(wanted),
            ),
        decreases rest@.len() - i,
    {
        let ghost left = all.skip(i as int);
        let option = rest[i].as_str();
        proof {
            assert(left[0] == option@);
        }
        if !same(option, "--resource") {
            let e = quoting("history: unknown option ", option, "");
            proof {
                reveal_strlit("");
                assert("history: unknown option "@ + debug_text(option@) + ""@
                    =~= "history: unknown option "@ + debug_text(option@));
            }
            return Err(e);
        }
        if i + 1 >= rest.len() {
            return Err(usage("--resource needs an id"));
        }
        proof {
            assert(left[1] == rest@[i + 1]@);
            assert(left.skip(2) =~= all.skip(i + 2));
        }
        wanted = Some(rest[i + 1].clone());
        i = i + 2;
    }
    proof {
        assert(all.skip(i as int).len() == 0);
    }
    Ok(wanted)
}

/// Reads a command line without the profile.
pub fn parse_command(rest: &Vec<String>) -> (r: Result<Command, StoreError>)
    ensures
        match (r, command_of(views(rest@))) {
            (Ok(command), Ok(expected)) => command@ == expected,
            (Err(e), Err(expected)) => e@ == expected,
            _ => false,
        },
{
    if rest.len() == 0 {
        return Ok(Command::Nothing);
    }
    let ghost all = views(rest@);
    let name = rest[0].as_str();
    proof {
        assert(all[0] == name@);
    }
    if same(name, "init") {
        Ok(Command::Init)
    } else if same(name, "connect") {
        if rest.len() == 1 {
            return Err(
                usage(
                    "connect needs an adapter command line, e.g. `sumer connect ./adapter --wallets w.json`",
                ),
            );
        }
        let mut argv = copy_texts(rest);
        let ghost copied = argv@;
        argv.remove(0);
        proof {
            assert(views(argv@) =~= all.skip(1)) by {
                assert forall|i: int| 0 <= i < argv@.len() implies (#[trigger] views(argv@)[i])
                    == all.skip(1)[i] by {
                    assert(argv@[i] == copied[i + 1]);
                    assert(views(copied)[i + 1] == all[i + 1]);
                }
            }
        }
        Ok(Command::Connect(argv))
    } else if same(name, "refresh") {
        match parse_refresh(rest) {
            Ok(options) => Ok(Command::Refresh(options)),
            Err(e) => Err(e),
        }
    } else if same(name, "balances") {
        Ok(Command::Balances)
    } else if same(name, "history") {
        match parse_history(rest) {
            Ok(resource) => Ok(Command::History(resource)),
            Err(e) => Err(e),
        }
    } else if same(name, "show") {
        if rest.len() == 1 {
            return Err(usage("show needs a local_id"));
        }
        proof {
            assert(all.skip(1)[0] == rest@[1]@);
        }
        Ok(Command::Show(rest[1].clone()))
    } else if same(name, "status") {
        Ok(Command::Status)
    } else if same(name, "help") || same(name, "--help") || same(name, "-h") {
        Ok(Command::Help)
    } else {
        Err(quoting("unknown command ", name, ". Try `sumer help`."))
    }
}

/// The exit status of a run that failed: a locked profile has one of its own.
pub open spec fn failure_status(error: StoreErrorView) -> u8 {
    if error is ProfileLocked {
        3
    } else {
        2
    }
}

/// The exit status of a run that failed.
pub fn exit_status(error: &StoreError) -> (r: u8)
    ensures
        r == failure_status(error@),
{
    match error {
        StoreError::ProfileLocked(_) => 3,
        _ => 2,
    }
}

/// What a run that failed tells the user.
pub open spec fn complaint_text(error: StoreErrorView) -> Seq<char> {
    match error {
        StoreErrorView::ProfileLocked(path) =>
            "sumer: another sumer process is writing to the profile at "@ + path
                + ".\nTwo writers would each derive retractions from a live set the other is changing underneath it; one refresh's older crawl would re-activate what the other correctly retracted. Wait for it, or use --profile."@,
        _ => "sumer: "@ + error.message(),
    }
}

/// What a run that failed tells the user.
pub fn complaint(error: &StoreError) -> (r: String)
    ensures
        r@ == complaint_text(error@),
{
    match error {
        StoreError::ProfileLocked(path) => {
            let mut out = "sumer: another sumer process is writing to the profile at ".to_owned();
            out.append(path.as_str());
            out.append(
                ".\nTwo writers would each derive retractions from a live set the other is changing underneath it; one refresh's older crawl would re-activate what the other correctly retracted. Wait for it, or use --profile.",
            );
            out
        },
        _ => {
            let mut out = "sumer: ".to_owned();
            out.append(error.to_string().as_str());
            out
        },
    }
}

/// A raw adapter command line is never touched: whatever follows `connect` is
/// handed on as it stands, options of this program among it.
pub proof fn law_an_adapters_arguments_are_its_own(argv: Seq<Seq<char>>)
    requires
        argv.len() > 0,
    ensures
        split_args(seq!["connect"@] + argv, None) == Ok::<
            (Option<Seq<char>>, Seq<Seq<char>>),
            StoreErrorView,
        >((None, seq!["connect"@] + argv)),
        command_of(seq!["connect"@] + argv) == Ok::<CommandView, StoreErrorView>(
            CommandView::Connect(argv),
        ),
{
    reveal_strlit("connect");
    reveal_strlit("--profile");
    reveal_strlit("init");
    let args = seq!["connect"@] + argv;
    assert(args[0] == "connect"@);
    assert("connect"@[0] != "--profile"@[0]);
    assert("connect"@[0] != "init"@[0]);
    assert(args.skip(1) =~= argv);
}

} // verus!
