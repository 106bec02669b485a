//! The concurrent map of `dashmap` that the download queue, the account
//! store, the scheduler and the addon registry keep their records in. Each
//! holder names what its maps contain and gives the methods it calls their
//! contracts.
use vstd::prelude::*;

verus! {

/// `dashmap::DashMap`: a map sharded behind locks. Its contents are named by
/// the modules that hold one.
#[verifier::external_type_specification]
#[verifier::external_body]
#[verifier::reject_recursive_types(K)]
#[verifier::reject_recursive_types(V)]
#[verifier::reject_recursive_types(S)]
pub struct ExDashMap<K, V, S>(dashmap::DashMap<K, V, S>);

} // verus!
