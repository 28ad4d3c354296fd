//! The command line: from the program's arguments to the codec it runs.
use vstd::prelude::*;

use crate::transform::{codec_named, create_transform, Codec};

verus! {

/// Why the command line named no codec; the program prints its usage.
#[derive(Debug, Clone, Copy, PartialEq, Eq)]
pub enum UsageError {
    /// Not exactly a direction and a kind after the program's name.
    WrongArgumentCount,
    /// A direction and kind that name no codec.
    UnsupportedTransform,
}

/// Picks the codec from the arguments, the program's name first.
pub fn codec_from_args(args: &Vec<String>) -> (r: Result<Codec, UsageError>)
    ensures
        args@.len() != 3 ==> r == Err::<Codec, UsageError>(UsageError::WrongArgumentCount),
        args@.len() == 3 ==> r == (match codec_named(args@[1]@, args@[2]@) {
            Some(c) => Ok(c),
            None => Err(UsageError::UnsupportedTransform),
        }),
{
    if args.len() != 3 {
        return Err(UsageError::WrongArgumentCount);
    }
    match create_transform(args[1].as_str(), args[2].as_str()) {
        Ok(c) => Ok(c),
        Err(_) => Err(UsageError::UnsupportedTransform),
    }
}

} // verus!
