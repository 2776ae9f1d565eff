use vstd::prelude::*;
use vstd::string::*;

use crate::errors::{CommandError, ParseError};
use crate::lex::string_eq;

verus! {

/// The lowercase form of `s`, as Unicode defines it.
pub uninterp spec fn lower_of(s: Seq<char>) -> Seq<char>;

/// Relies on str::to_lowercase: the result depends on the characters alone.
#[verifier::external_body]
fn lowercase(s: &str) -> (r: String)
    ensures
        r@ == lower_of(s@),
{
    s.to_lowercase()
}

/// A command's two-phase lifecycle. `parse` reads the command's own arguments
/// first; `execute` runs the command, and may only be invoked once `parse` has
/// succeeded — a command whose `parse` fails never has `execute` invoked, and
/// that ordering is part of this contract. Adding a command to the tool means
/// implementing these two methods and registering the command's name with the
/// dispatcher; nothing else changes.
pub trait CommandHandler {
    /// Whether a successful `parse` has prepared this handler.
    spec fn parsed(&self) -> bool;

    /// The tokens the last `parse` call received.
    spec fn parsed_args(&self) -> Vec<String>;

    /// The error the last `parse` call failed with, if it failed.
    spec fn parse_failure(&self) -> Option<ParseError>;

    /// Reads the command's own arguments, everything after the command name.
    /// An implementation keeps a record of the call: afterwards `parsed`
    /// holds exactly when this call succeeded, `parsed_args` holds the tokens
    /// it received, and on failure `parse_failure` holds its error.
    fn parse(&mut self, args: &Vec<String>) -> (r: Result<(), ParseError>)
        ensures
            final(self).parsed() == (r is Ok),
            final(self).parsed_args()@ == args@,
            r matches Err(e) ==> final(self).parse_failure() == Some(e),
    ;

    /// Runs the command.
    fn execute(&self) -> (r: Result<(), CommandError>)
        requires
            self.parsed(),
    ;
}

/// What a dispatch run came to, for the caller to report.
#[derive(Debug)]
pub enum DispatchOutcome {
    /// No command token was given; the placeholder help notice stands in for
    /// an unimplemented help menu, and the run still counts as a success.
    NoCommand,
    /// The selected command parsed and executed without error.
    Completed,
    /// The selected command parsed, then failed while executing. The failure
    /// is reported as a diagnostic and the run still counts as a success.
    ExecutionFailed(CommandError),
}

/// Selects a command by its name, matched case-insensitively, and runs its
/// two-phase lifecycle. The first argument is the invocation path and is
/// discarded; the second is the command name; the rest belong to the command.
/// An unknown name fails with `CommandNotFound`, holding the name exactly as
/// given. A parse failure propagates and aborts the run; an execution failure
/// is returned as a successful outcome that carries the error. So the run
/// succeeds if and only if the selected command's `parse` succeeded on the
/// remaining tokens, whatever `execute` then returned.
pub fn handle_args<H: CommandHandler>(args: &Vec<String>, install_handler: &mut H) -> (r: Result<
    DispatchOutcome,
    ParseError,
>)
    ensures
        args@.len() <= 1 ==> (r matches Ok(o) && o is NoCommand)
            && *final(install_handler) == *old(install_handler),
        args@.len() >= 2 && lower_of(args@[1]@) != "install"@ ==> (r matches Err(e)
            && e matches ParseError::CommandNotFound(n) && n@ == args@[1]@)
            && *final(install_handler) == *old(install_handler),
        args@.len() >= 2 && lower_of(args@[1]@) == "install"@ ==> {
            &&& r is Ok <==> final(install_handler).parsed()
            &&& r matches Ok(o) ==> (o is Completed || o is ExecutionFailed)
            &&& final(install_handler).parsed_args()@ == args@.skip(2)
            &&& r matches Err(e) ==> final(install_handler).parse_failure() == Some(e)
        },
{
    if args.len() <= 1 {
        return Ok(DispatchOutcome::NoCommand);
    }
    let command = &args[1];
    let lowered = lowercase(command.as_str());
    let install = String::from_str("install");
    if !string_eq(&lowered, &install) {
        return Err(ParseError::CommandNotFound(command.clone()));
    }

    let mut rest: Vec<String> = Vec::new();
    let mut i: usize = 2;
    proof {
        assert(rest@ =~= args@.subrange(2, 2));
    }
    while i < args.len()
        invariant
            2 <= i <= args@.len(),
            rest@ == args@.subrange(2, i as int),
        decreases args@.len() - i,
    {
        rest.push(args[i].clone());
        i = i + 1;
        proof {
            assert(rest@ =~= args@.subrange(2, i as int));
        }
    }
    proof {
        assert(rest@ == args@.skip(2)) by {
            assert(args@.subrange(2, args@.len() as int) =~= args@.skip(2));
        }
    }

    match install_handler.parse(&rest) {
        Err(e) => {
            return Err(e);
        },
        Ok(_) => {},
    }
    match install_handler.execute() {
        Ok(_) => Ok(DispatchOutcome::Completed),
        Err(e) => Ok(DispatchOutcome::ExecutionFailed(e)),
    }
}

} // verus!
