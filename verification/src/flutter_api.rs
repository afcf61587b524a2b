//! What the Flutter front end asks of the library.

use vstd::prelude::*;
use vstd::string::*;

verus! {

/// The version of this library.
pub const VERSION: &'static str = "0.1.0";

/// What the library tells the Flutter front end.
#[derive(PartialEq, Eq, Structural, Clone, Copy, Debug)]
pub enum ForNetFlutterMessage {
    Stop,
    ConfigChange,
    Start,
}

/// Where the configuration is kept: the path chosen when the library was
/// built (`FORNET_CONFIG`), else the default one.
pub fn get_config_path(configured: Option<&str>) -> (r: String)
    ensures
        configured matches Some(c) ==> r@ == c@,
        configured is None ==> r@ == crate::default_config_path_spec(),
{
    match configured {
        Some(c) => c.to_owned(),
        None => crate::default_config_path(),
    }
}

/// The version of this library.
pub fn version() -> (r: String)
    ensures
        r@ == VERSION@,
{
    VERSION.to_owned()
}

} // verus!
