//! What a command line asks for.
//!
//! A command line is the name of the program followed by its arguments. It
//! must hold exactly one argument, the duration expression.

use vstd::prelude::*;
use crate::duration::parse_seconds;
use crate::duration::Time;
use crate::error::WaitError;
use crate::error::WaitFault;

verus! {

/// The wait that the command line `args` asks for, in seconds, or why it asks
/// for none.
pub open spec fn requested_seconds(args: Seq<String>) -> Result<nat, WaitFault> {
    if args.len() != 2 {
        Err(WaitFault::InvalidArgs)
    } else {
        match parse_seconds(args[1]@) {
            Ok(secs) => Ok(secs),
            Err(fault) => Err(WaitFault::CannotParse(fault)),
        }
    }
}

/// The duration expression on the command line `args`: its one argument.
///
/// Returns `InvalidArgs` where `args` holds no argument, or more than one.
pub fn duration_argument(args: &Vec<String>) -> (r: Result<&String, WaitError>)
    ensures
        args.len() == 2 ==> r == Ok::<&String, WaitError>(&args[1]),
        args.len() != 2 ==> r == Err::<&String, WaitError>(WaitError::InvalidArgs),
{
    if args.len() != 2 {
        Err(WaitError::InvalidArgs)
    } else {
        Ok(&args[1])
    }
}

/// The wait that the command line `args` asks for.
///
/// Returns `InvalidArgs` where `args` does not hold exactly one argument, and
/// `CannotParse` with the fault where that argument is refused as a duration
/// expression.
pub fn requested_wait(args: &Vec<String>) -> (r: Result<Time, WaitError>)
    ensures
        match r {
            Ok(time) => requested_seconds(args@) == Ok::<nat, WaitFault>(time@),
            Err(e) => requested_seconds(args@) == Err::<nat, WaitFault>(e@),
        },
{
    let expression = match duration_argument(args) {
        Ok(expression) => expression,
        Err(e) => {
            return Err(e);
        },
    };
    match Time::try_from(expression.clone()) {
        Ok(time) => Ok(time),
        Err(e) => Err(WaitError::from(e)),
    }
}

} // verus!
