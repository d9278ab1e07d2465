//! Hardware addresses.

use vstd::prelude::*;

verus! {

/// A hardware address of six bytes, `macaddr::MacAddr6`. It is only handed on.
#[verifier::external_type_specification]
#[verifier::external_body]
pub struct ExMacAddr6(macaddr::MacAddr6);

} // verus!
