//! Where a value saved under a key is kept.

use vstd::prelude::*;
use vstd::string::StringExecFns;

verus! {

/// The name of the file that holds what was saved under `key`: the key with
/// `.json` behind it.
pub open spec fn file_of(key: Seq<char>) -> Seq<char> {
    key + ".json"@
}

/// The name of the file that holds what was saved under `key`.
pub fn storage_file(key: &str) -> (r: String)
    ensures
        r@ == file_of(key@),
{
    key.to_owned().concat(".json")
}

} // verus!
