use vstd::prelude::*;
use vstd::string::StringExecFns;

use crate::pkg::Package;

verus! {

/// Where the pool of installed packages lives: the configured location if
/// one is set, else the built-in default.
pub fn get_pool_location(configured: Option<String>) -> (r: String)
    ensures
        r@ == (match configured {
            Some(x) => x@,
            None => "/fpkg/pool"@,
        }),
{
    match configured {
        Some(x) => x,
        None => String::from_str("/fpkg/pool"),
    }
}

/// The pool directory of one package: `<pool>/<name>-<version>`.
pub fn package_to_pool_location(pool: &str, pkg: &Package) -> (r: String)
    ensures
        r@ == pool@ + "/"@ + pkg@.name + "-"@ + pkg@.version,
{
    let mut s = pool.to_owned();
    s.append("/");
    s.append(pkg.name.as_str());
    s.append("-");
    s.append(pkg.version.as_str());
    s
}

/// The embedded manifest of an installed package:
/// `<pool>/<name>-<version>/fpkg/pkg.kdl`.
pub fn package_manifest_location(pool: &str, pkg: &Package) -> (r: String)
    ensures
        r@ == pool@ + "/"@ + pkg@.name + "-"@ + pkg@.version + "/fpkg/pkg.kdl"@,
{
    let mut s = package_to_pool_location(pool, pkg);
    s.append("/fpkg/pkg.kdl");
    s
}

} // verus!
