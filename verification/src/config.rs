//! Runtime configuration carried by the switcher: the country codes the
//! rotation was requested with, and the configuration-format version.
//!
//! Reading and writing the configuration file is the front end's business;
//! this module only defines the value it carries.

use vstd::prelude::*;

verus! {

/// The saved settings of the switcher.  An empty `country_codes` list means
/// "rotate through all installed layouts".
pub struct Config {
    pub country_codes: Vec<String>,
    pub version: String,
}

impl Config {
    /// A configuration with no selected country codes and the current
    /// configuration-format version.
    pub fn new() -> (r: Config)
        ensures
            r.country_codes@ =~= Seq::<String>::empty(),
            r.version@ == "0.7.0"@,
    {
        Config { country_codes: Vec::new(), version: String::from_str("0.7.0") }
    }

    /// A configuration holding the given country codes, with the current
    /// configuration-format version.
    pub fn with_country_codes(country_codes: Vec<String>) -> (r: Config)
        ensures
            r.country_codes == country_codes,
            r.version@ == "0.7.0"@,
    {
        Config { country_codes, version: String::from_str("0.7.0") }
    }
}

} // verus!
