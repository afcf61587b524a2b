//! The commands that configure a tunnel interface on Linux.

use vstd::prelude::*;

verus! {

/// The arguments of `ip` that give the interface `iface` an address (or
/// take it away): `-4|-6 address add|remove <address/prefix> dev <iface>`.
pub open spec fn ip_address_args_spec(v4: bool, add: bool, address: Seq<char>, iface: Seq<char>) -> Seq<Seq<char>> {
    seq![
        if v4 { "-4"@ } else { "-6"@ },
        "address"@,
        if add { "add"@ } else { "remove"@ },
        address,
        "dev"@,
        iface,
    ]
}

/// The `ip` arguments that add or remove an address of a Linux interface.
pub fn ip_address_args(v4: bool, add: bool, address: &str, iface: &str) -> (r: Vec<String>)
    ensures
        r@.map_values(|a: String| a@) == ip_address_args_spec(v4, add, address@, iface@),
{
    let family = if v4 { "-4".to_owned() } else { "-6".to_owned() };
    let verb = if add { "add".to_owned() } else { "remove".to_owned() };
    let r = vec![family, "address".to_owned(), verb, address.to_owned(), "dev".to_owned(), iface.to_owned()];
    assert(r@.map_values(|a: String| a@) =~= ip_address_args_spec(v4, add, address@, iface@));
    r
}

} // verus!
