//! The configuration values a storage location carries: the id prefix, an
//! optional default author, and a fallback output format name.  Reading and
//! writing the document is the caller's business; the library holds the
//! values and their defaults.

use vstd::prelude::*;

verus! {

/// The recognized configuration values.
#[derive(Debug)]
pub struct Config {
    pub prefix: String,
    pub default_author: Option<String>,
    pub default_format: String,
}

/// The id prefix used when none is configured.
pub fn default_prefix() -> (r: String)
    ensures
        r@ == "d"@,
{
    "d".to_owned()
}

/// The output format name used when none is configured.
pub fn default_format() -> (r: String)
    ensures
        r@ == "auto"@,
{
    "auto".to_owned()
}

impl Default for Config {
    /// The configuration with no document present: prefix "d", no default
    /// author, format "auto".
    fn default() -> (r: Self)
        ensures
            r.prefix@ == "d"@,
            r.default_author is None,
            r.default_format@ == "auto"@,
    {
        Config {
            prefix: default_prefix(),
            default_author: None,
            default_format: default_format(),
        }
    }
}

} // verus!
