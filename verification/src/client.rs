//! What the client package offers: its version, and a sum written out.

use crate::numeral::{numeral, push_number};
use crate::version::{python_version, python_version_of};
use vstd::prelude::*;

verus! {

/// The version of the client package as Python tools write it, made from
/// the version `package_version` that the package was built with.
pub fn get_pyrumqttc_version(package_version: &str) -> (v: String)
    ensures
        v@ == python_version(package_version@),
{
    python_version_of(package_version)
}

/// The sum of two numbers in decimal.
pub fn sum_as_string(a: usize, b: usize) -> (r: String)
    requires
        a + b <= usize::MAX,
    ensures
        r@ == numeral((a + b) as nat, 10),
{
    let mut out = String::new();
    push_number(&mut out, (a + b) as u64, 10);
    assert(Seq::<char>::empty() + numeral((a + b) as nat, 10) =~= numeral((a + b) as nat, 10));
    out
}

} // verus!
