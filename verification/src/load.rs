use vstd::prelude::*;
use crate::dict::{Dict, put_dict};
use crate::key::Key;

verus! {

/// `std::io::Error`, the error of reading the input; carried through unseen.
#[verifier::external_type_specification]
#[verifier::external_body]
pub struct ExIoError(std::io::Error);

/// Stores what was read from the input (a file, or standard input when no
/// file is named) under `k`. A read that failed stores nothing and hands
/// its error back.
pub fn load_input_to_dict(
    dict: &mut Dict,
    k: &Key,
    input: Result<String, std::io::Error>,
) -> (r: Result<(), std::io::Error>)
    ensures
        match input {
            Ok(text) => r is Ok && final(dict)@ == old(dict)@.insert(k@, text@),
            Err(e) => r == Err::<(), std::io::Error>(e) && final(dict)@ == old(dict)@,
        },
{
    match input {
        Ok(text) => {
            put_dict(dict, k, text.as_str());
            Ok(())
        },
        Err(e) => Err(e),
    }
}

} // verus!
