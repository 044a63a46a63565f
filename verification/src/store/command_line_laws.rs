//! What a command line asks for.

use crate::store::cli::{
    command_of, complaint_text, failure_status, history_options, profile_and_rest,
    refresh_options, split_args, CommandView, OptionsView,
};
use crate::store::error::StoreErrorView;
use crate::store::profile::path_in;
use crate::text::debug_text;
use vstd::prelude::*;

verus! {

/// Options in front of the command choose the profile's directory, the last one of them;
/// whatever begins otherwise is the command.
pub proof fn law_a_directory_in_front_is_the_profiles(
    args: Seq<Seq<char>>,
    dir: Seq<char>,
    before: Option<Seq<char>>,
)
    ensures
        split_args(seq!["--profile"@, dir] + args, before) == split_args(args, Some(dir)),
        split_args(seq!["--profile"@], before) == Err::<
            (Option<Seq<char>>, Seq<Seq<char>>),
            StoreErrorView,
        >(StoreErrorView::Usage("--profile needs a directory"@)),
        args.len() == 0 || args[0] != "--profile"@ ==> split_args(args, before) == Ok::<
            (Option<Seq<char>>, Seq<Seq<char>>),
            StoreErrorView,
        >((before, args)),
{
    assert((seq!["--profile"@, dir] + args).skip(2) =~= args);
}

/// A name in a directory: a slash is put between them unless one is there.
pub proof fn law_a_path_has_one_slash(dir: Seq<char>, name: Seq<char>)
    ensures
        dir.len() == 0 ==> path_in(dir, name) == name,
        dir.len() > 0 && dir.last() == '/' ==> path_in(dir, name) == dir + name,
        dir.len() > 0 && dir.last() != '/' ==> path_in(dir, name) == dir + "/"@ + name,
{
    if dir.len() == 0 {
        assert(dir + name =~= name);
    }
}

/// The profile is the one on the command line; without one there, the one that the
/// environment names; without one there, the one in the home directory; and without a home
/// there is none.
pub proof fn law_which_profile_is_used(
    args: Seq<Seq<char>>,
    dir: Seq<char>,
    named: Option<Seq<char>>,
    home: Option<Seq<char>>,
)
    requires
        args.len() == 0 || args[0] != "--profile"@,
    ensures
        profile_and_rest(seq!["--profile"@, dir] + args, named, home) == Ok::<
            (Seq<char>, Seq<Seq<char>>),
            StoreErrorView,
        >((dir, args)),
        profile_and_rest(args, named, home) == (if named is Some {
            Ok((named->0, args))
        } else if home is Some {
            Ok((path_in(home->0, ".sumer"@), args))
        } else {
            Err(StoreErrorView::Usage("no profile: set --profile or SUMER_PROFILE"@))
        }),
{
    law_a_directory_in_front_is_the_profiles(args, dir, None);
}

proof fn lemma_option_names()
    ensures
        "--resume"@ != "--confirm-empty"@,
        "--resume"@ != "--adapter"@,
        "--confirm-empty"@ != "--adapter"@,
{
    reveal_strlit("--resume");
    reveal_strlit("--confirm-empty");
    reveal_strlit("--adapter");
    assert("--resume"@[2] == 'r');
    assert("--confirm-empty"@[2] == 'c');
    assert("--adapter"@[2] == 'a');
}

/// The options of a refresh, one by one: each sets its own thing and leaves the others.
pub proof fn law_what_a_refresh_is_asked(
    args: Seq<Seq<char>>,
    so_far: OptionsView,
    id: Seq<char>,
)
    ensures
        refresh_options(Seq::empty(), so_far) == Ok::<OptionsView, StoreErrorView>(so_far),
        refresh_options(seq!["--resume"@] + args, so_far) == refresh_options(
            args,
            OptionsView {
                resume: true,
                confirm_empty: so_far.confirm_empty,
                adapter_id: so_far.adapter_id,
            },
        ),
        refresh_options(seq!["--confirm-empty"@] + args, so_far) == refresh_options(
            args,
            OptionsView {
                resume: so_far.resume,
                confirm_empty: true,
                adapter_id: so_far.adapter_id,
            },
        ),
        refresh_options(seq!["--adapter"@, id] + args, so_far) == refresh_options(
            args,
            OptionsView {
                resume: so_far.resume,
                confirm_empty: so_far.confirm_empty,
                adapter_id: Some(id),
            },
        ),
        refresh_options(seq!["--adapter"@], so_far) == Err::<OptionsView, StoreErrorView>(
            StoreErrorView::Usage("--adapter needs an id"@),
        ),
        args.len() > 0 && args[0] != "--resume"@ && args[0] != "--confirm-empty"@ && args[0]
            != "--adapter"@ ==> refresh_options(args, so_far) == Err::<OptionsView, StoreErrorView>(
            StoreErrorView::Usage("refresh: unknown option "@ + debug_text(args[0])),
        ),
{
    lemma_option_names();
    assert((seq!["--resume"@] + args).skip(1) =~= args);
    assert((seq!["--confirm-empty"@] + args).skip(1) =~= args);
    assert((seq!["--adapter"@, id] + args).skip(2) =~= args);
    assert((seq!["--resume"@] + args)[0] == "--resume"@);
    assert((seq!["--confirm-empty"@] + args)[0] == "--confirm-empty"@);
    assert((seq!["--adapter"@, id] + args)[0] == "--adapter"@);
    assert((seq!["--adapter"@, id] + args)[1] == id);
}

/// The options of a history: the last resource that is named.
pub proof fn law_what_a_history_is_asked(
    args: Seq<Seq<char>>,
    so_far: Option<Seq<char>>,
    id: Seq<char>,
)
    ensures
        history_options(Seq::empty(), so_far) == Ok::<Option<Seq<char>>, StoreErrorView>(so_far),
        history_options(seq!["--resource"@, id] + args, so_far) == history_options(args, Some(id)),
        history_options(seq!["--resource"@], so_far) == Err::<Option<Seq<char>>, StoreErrorView>(
            StoreErrorView::Usage("--resource needs an id"@),
        ),
        args.len() > 0 && args[0] != "--resource"@ ==> history_options(args, so_far) == Err::<
            Option<Seq<char>>,
            StoreErrorView,
        >(StoreErrorView::Usage("history: unknown option "@ + debug_text(args[0]))),
{
    assert((seq!["--resource"@, id] + args).skip(2) =~= args);
    assert((seq!["--resource"@, id] + args)[0] == "--resource"@);
    assert((seq!["--resource"@, id] + args)[1] == id);
}

proof fn lemma_command_names()
    ensures
        "init"@.len() == 4 && "init"@[0] == 'i',
        "connect"@.len() == 7 && "connect"@[0] == 'c',
        "refresh"@.len() == 7 && "refresh"@[0] == 'r',
        "balances"@.len() == 8 && "balances"@[0] == 'b',
        "history"@.len() == 7 && "history"@[0] == 'h',
        "show"@.len() == 4 && "show"@[0] == 's',
        "status"@.len() == 6 && "status"@[0] == 's',
        "help"@.len() == 4 && "help"@[0] == 'h',
        "--help"@.len() == 6 && "--help"@[0] == '-',
        "-h"@.len() == 2 && "-h"@[0] == '-',
{
    reveal_strlit("init");
    reveal_strlit("connect");
    reveal_strlit("refresh");
    reveal_strlit("balances");
    reveal_strlit("history");
    reveal_strlit("show");
    reveal_strlit("status");
    reveal_strlit("help");
    reveal_strlit("--help");
    reveal_strlit("-h");
}

/// Each command goes by its name.
pub proof fn law_each_command_has_its_name(rest: Seq<Seq<char>>)
    requires
        rest.len() > 0,
    ensures
        ({
            let name = rest[0];
            let options = rest.skip(1);
            let plain = OptionsView { resume: false, confirm_empty: false, adapter_id: None };
            &&& name == "init"@ ==> command_of(rest) == Ok::<CommandView, StoreErrorView>(
                CommandView::Init,
            )
            &&& name == "connect"@ && rest.len() > 1 ==> command_of(rest) == Ok::<
                CommandView,
                StoreErrorView,
            >(CommandView::Connect(options))
            &&& name == "connect"@ && rest.len() == 1 ==> command_of(rest) == Err::<
                CommandView,
                StoreErrorView,
            >(
                StoreErrorView::Usage(
                    "connect needs an adapter command line, e.g. `sumer connect ./adapter --wallets w.json`"@,
                ),
            )
            &&& name == "refresh"@ ==> command_of(rest) == (match refresh_options(options, plain) {
                Ok(asked) => Ok::<CommandView, StoreErrorView>(CommandView::Refresh(asked)),
                Err(e) => Err(e),
            })
            &&& name == "balances"@ ==> command_of(rest) == Ok::<CommandView, StoreErrorView>(
                CommandView::Balances,
            )
            &&& name == "history"@ ==> command_of(rest) == (match history_options(options, None) {
                Ok(asked) => Ok::<CommandView, StoreErrorView>(CommandView::History(asked)),
                Err(e) => Err(e),
            })
            &&& name == "show"@ && rest.len() > 1 ==> command_of(rest) == Ok::<
                CommandView,
                StoreErrorView,
            >(CommandView::Show(rest[1]))
            &&& name == "show"@ && rest.len() == 1 ==> command_of(rest) == Err::<
                CommandView,
                StoreErrorView,
            >(StoreErrorView::Usage("show needs a local_id"@))
            &&& name == "status"@ ==> command_of(rest) == Ok::<CommandView, StoreErrorView>(
                CommandView::Status,
            )
            &&& name == "help"@ || name == "--help"@ || name == "-h"@ ==> command_of(rest) == Ok::<
                CommandView,
                StoreErrorView,
            >(CommandView::Help)
        }),
{
    lemma_command_names();
}

/// No command at all is one of its own, and an unknown one is refused by its name.
pub proof fn law_an_unknown_command_is_refused(rest: Seq<Seq<char>>)
    ensures
        rest.len() == 0 ==> command_of(rest) == Ok::<CommandView, StoreErrorView>(
            CommandView::Nothing,
        ),
        rest.len() > 0 && rest[0] != "init"@ && rest[0] != "connect"@ && rest[0] != "refresh"@
            && rest[0] != "balances"@ && rest[0] != "history"@ && rest[0] != "show"@ && rest[0]
            != "status"@ && rest[0] != "help"@ && rest[0] != "--help"@ && rest[0] != "-h"@
            ==> command_of(rest) == Err::<CommandView, StoreErrorView>(
            StoreErrorView::Usage(
                "unknown command "@ + debug_text(rest[0]) + ". Try `sumer help`."@,
            ),
        ),
{
}

/// A profile that another process is writing to has an exit status of its own.
pub proof fn law_a_locked_profile_has_its_own_status(error: StoreErrorView)
    ensures
        error is ProfileLocked ==> failure_status(error) == 3,
        !(error is ProfileLocked) ==> failure_status(error) == 2,
{
}

/// How a failure is told: by its message, and a locked profile at more length.
pub proof fn law_how_a_failure_is_told(error: StoreErrorView)
    ensures
        !(error is ProfileLocked) ==> complaint_text(error) == "sumer: "@ + error.message(),
        error matches StoreErrorView::ProfileLocked(path) ==> complaint_text(error)
            == "sumer: another sumer process is writing to the profile at "@ + path
            + ".\nTwo writers would each derive retractions from a live set the other is changing underneath it; one refresh's older crawl would re-activate what the other correctly retracted. Wait for it, or use --profile."@,
{
}

/// Every failure says what it is about.
pub proof fn law_every_failure_says_what_it_is(e: Seq<char>, found: int, expected: int)
    ensures
        StoreErrorView::Sqlite(e).message() == "sqlite: "@ + e,
        StoreErrorView::Io(e).message() == "io: "@ + e,
        StoreErrorView::Json(e).message() == "json: "@ + e,
        StoreErrorView::Host(e).message() == "adapter: "@ + e,
        StoreErrorView::ProfileLocked(e).message()
            == "another sumer process is writing to the profile at "@ + e,
        StoreErrorView::NoProfile(e).message() == "no profile at "@ + e
            + " -- run `sumer init` first"@,
        StoreErrorView::SchemaVersion(e, found, expected).message() == "profile at "@ + e
            + " is schema version "@ + crate::text::signed_decimal(found) + ", this build speaks "@
            + crate::text::signed_decimal(expected),
        StoreErrorView::CorruptRow(e).message() == "stored row is unreadable: "@ + e,
        StoreErrorView::Usage(e).message() == e,
{
}

} // verus!
