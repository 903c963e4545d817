use vstd::prelude::*;
use vstd::string::StringExecFns;

verus! {

/// The name given to the hidden function that holds the body of a function
/// marked with the `manyerrors` attribute: `__manyerrors_internal_helper_`,
/// the function's own name, then `__`.
pub fn helper_fn_name(fn_name: &str) -> (r: String)
    ensures
        r@ == "__manyerrors_internal_helper_"@ + fn_name@ + "__"@,
{
    let mut name = String::from_str("__manyerrors_internal_helper_");
    name.append(fn_name);
    name.append("__");
    name
}

} // verus!
