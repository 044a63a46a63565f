//! How a connection ends: what the process, the reader and the close decide
//! between them.

use crate::host::mux::Terminal;
use crate::text::same;
use crate::wire::failure::ProtocolViolationKind;
use vstd::prelude::*;

verus! {

/// Whether a variable of the host's environment is passed on to an adapter.
pub open spec fn env_allowed(key: Seq<char>) -> bool {
    ||| key == "PATH"@
    ||| key == "HOME"@
    ||| key == "LANG"@
    ||| key == "LC_ALL"@
    ||| key == "TMPDIR"@
}

/// Decides whether a variable of the host's environment is passed on.
pub fn is_env_allowed(key: &str) -> (r: bool)
    ensures
        r == env_allowed(key@),
{
    same(key, "PATH") || same(key, "HOME") || same(key, "LANG") || same(key, "LC_ALL") || same(
        key,
        "TMPDIR",
    )
}

/// The variables of the host's environment that pass, in order.
pub open spec fn passed_on(host: Seq<(String, String)>) -> Seq<(String, String)>
    decreases host.len(),
{
    if host.len() == 0 {
        Seq::empty()
    } else if env_allowed(host.last().0@) {
        passed_on(host.drop_last()).push(host.last())
    } else {
        passed_on(host.drop_last())
    }
}

/// The environment of an adapter: what passes of the host's own, and then what
/// its caller adds. A later entry overrides an earlier one of the same name.
pub fn child_env(host: &Vec<(String, String)>, extra: Vec<(String, String)>) -> (r: Vec<
    (String, String),
>)
    ensures
        r@ == passed_on(host@) + extra@,
{
    let mut r: Vec<(String, String)> = Vec::new();
    let mut i: usize = 0;
    while i < host.len()
        invariant
            i <= host@.len(),
            r@ == passed_on(host@.take(i as int)),
        decreases host@.len() - i,
    {
        proof {
            assert(host@.take(i + 1).drop_last() =~= host@.take(i as int));
        }
        if is_env_allowed(host[i].0.as_str()) {
            r.push((host[i].0.clone(), host[i].1.clone()));
        }
        i = i + 1;
    }
    proof {
        assert(host@.take(host@.len() as int) =~= host@);
    }
    let mut extra = extra;
    r.append(&mut extra);
    r
}

/// What a caller is told of an adapter command line without a program.
pub open spec fn empty_argv_message() -> Seq<char> {
    "empty adapter argv"@
}

/// Splits an adapter command line into the program and its arguments.
pub fn split_argv(argv: &Vec<String>) -> (r: Result<(&String, &[String]), String>)
    ensures
        match r {
            Ok((program, args)) => argv@.len() > 0 && *program == argv@[0] && args@ == argv@.subrange(
                1,
                argv@.len() as int,
            ),
            Err(message) => argv@.len() == 0 && message@ == empty_argv_message(),
        },
{
    if argv.len() == 0 {
        Err("empty adapter argv".to_owned())
    } else {
        let all = argv.as_slice();
        Ok((&argv[0], &all[1..argv.len()]))
    }
}

/// Why a connection is finished once the process has exited with `code`.
///
/// `published` is the kill request that was waiting, if there was one: a
/// violation in it is the truest reason there is. Otherwise the exit alone is
/// no end of the stream: if the reader did not come to its own end in time, the
/// host cannot say that it read everything.
pub open spec fn exit_reason(
    code: Option<i32>,
    drained: bool,
    published: Option<Option<ProtocolViolationKind>>,
) -> Terminal {
    match published {
        Some(Some(kind)) => Terminal::Violation(kind),
        _ => if drained {
            Terminal::Crashed(code)
        } else {
            Terminal::Violation(ProtocolViolationKind::StdoutHeldOpen)
        },
    }
}

/// Decides why a connection is finished once the process has exited.
pub fn on_exit(
    code: Option<i32>,
    drained: bool,
    published: Option<Option<ProtocolViolationKind>>,
) -> (r: Terminal)
    ensures
        r == exit_reason(code, drained, published),
{
    match published {
        Some(Some(kind)) => Terminal::Violation(kind),
        _ => if drained {
            Terminal::Crashed(code)
        } else {
            Terminal::Violation(ProtocolViolationKind::StdoutHeldOpen)
        },
    }
}

/// Decides why a connection is finished once a kill was requested: the
/// violation it was requested for, or nothing for a deliberate shutdown, whose
/// caller already knows why.
pub fn on_kill(request: Option<Option<ProtocolViolationKind>>) -> (r: Option<Terminal>)
    ensures
        r == match request {
            Some(Some(kind)) => Some(Terminal::Violation(kind)),
            _ => None,
        },
{
    match request {
        Some(Some(kind)) => Some(Terminal::Violation(kind)),
        _ => None,
    }
}

/// Decides what a close that did not come to its end in time is charged with.
/// An adapter that is still running ignored the end of its input; one that has
/// exited kept that rule, and only its output is still open.
pub fn on_close_timeout(exited: bool) -> (r: Terminal)
    ensures
        r == Terminal::Violation(
            if exited {
                ProtocolViolationKind::StdoutHeldOpen
            } else {
                ProtocolViolationKind::StdinEofIgnored
            },
        ),
{
    if exited {
        Terminal::Violation(ProtocolViolationKind::StdoutHeldOpen)
    } else {
        Terminal::Violation(ProtocolViolationKind::StdinEofIgnored)
    }
}

/// An adapter that has exited is never blamed for ignoring the end of its
/// input, neither by its exit nor by a close that timed out.
pub proof fn law_an_exit_is_never_blamed_on_stdin(
    code: Option<i32>,
    drained: bool,
    published: Option<Option<ProtocolViolationKind>>,
)
    requires
        published != Some(Some(ProtocolViolationKind::StdinEofIgnored)),
    ensures
        exit_reason(code, drained, published) != Terminal::Violation(
            ProtocolViolationKind::StdinEofIgnored,
        ),
{
}

/// A violation that was established outranks the exit, and a clean exit is one
/// whose output came to its end without a violation.
pub proof fn law_a_clean_exit_is_a_drained_one(
    code: Option<i32>,
    drained: bool,
    published: Option<Option<ProtocolViolationKind>>,
)
    ensures
        exit_reason(code, drained, published) is Crashed <==> drained && !(published matches Some(
            Some(_),
        )),
{
}

} // verus!
