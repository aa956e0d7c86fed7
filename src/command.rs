//! Command lines handed to the executor.
use vstd::prelude::*;

use crate::error::StorageError;
use crate::filesystem::argv;

verus! {

/// Splits a command line into its program and arguments. An empty command
/// line is refused with `MissingCommand`.
pub fn split_command(cmd: &Vec<String>) -> (r: Result<(String, Vec<String>), StorageError>)
    ensures
        match r {
            Ok(pa) => cmd@.len() > 0 && pa.0@ == cmd@[0]@ && argv(pa.1) == argv(*cmd).drop_first(),
            Err(e) => cmd@.len() == 0 && e is MissingCommand,
        },
{
    if cmd.len() == 0 {
        return Err(StorageError::MissingCommand);
    }
    let program = cmd[0].clone();
    let mut args: Vec<String> = Vec::new();
    let mut i: usize = 1;
    while i < cmd.len()
        invariant
            1 <= i <= cmd@.len(),
            argv(args) == argv(*cmd).subrange(1, i as int),
        decreases cmd@.len() - i,
    {
        let ghost before = args@;
        args.push(cmd[i].clone());
        assert(argv(args) =~= before.map_values(|w: String| w@).push(cmd@[i as int]@));
        assert(argv(*cmd).subrange(1, i as int + 1) =~= argv(*cmd).subrange(1, i as int).push(
            cmd@[i as int]@,
        ));
        i = i + 1;
    }
    assert(argv(*cmd).subrange(1, i as int) =~= argv(*cmd).drop_first());
    Ok((program, args))
}

} // verus!
