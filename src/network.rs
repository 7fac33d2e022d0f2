use vstd::prelude::*;

verus! {

/// The path segment under which a network's routes are served: `mainnet`
/// for id 0, `testnet` for id 1, `canary` for id 2; any other id names no
/// supported network.
pub fn network_name(id: u16) -> (r: Option<&'static str>)
    ensures
        r.is_some() <==> id <= 2,
        id == 0 ==> r.unwrap()@ == "mainnet"@,
        id == 1 ==> r.unwrap()@ == "testnet"@,
        id == 2 ==> r.unwrap()@ == "canary"@,
{
    if id == 0 {
        Some("mainnet")
    } else if id == 1 {
        Some("testnet")
    } else if id == 2 {
        Some("canary")
    } else {
        None
    }
}

} // verus!
