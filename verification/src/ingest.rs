//! The assignment decision of the ingest path: which collections this
//! worker owns, given the assignment policy's answers.
//!
//! The policy itself (rendezvous hashing over the member list) is a
//! collaborator outside the library; it answers one address per collection,
//! or nothing where it failed, and the worker keeps the collections whose
//! answer names its own address.

use crate::log::CollectionRecord;
use vstd::prelude::*;

verus! {

/// Whether an assignment answer names this worker.
pub open spec fn assigned_here(a: Option<String>, my_ip: Seq<char>) -> bool {
    match a {
        Some(addr) => addr@ == my_ip,
        None => false,
    }
}

/// The first `n` collections whose assignment names this worker, in input
/// order.
pub open spec fn spec_selected(
    cs: Seq<CollectionRecord>,
    asg: Seq<Option<String>>,
    my_ip: Seq<char>,
    n: int,
) -> Seq<CollectionRecord>
    decreases n,
{
    if n <= 0 {
        Seq::empty()
    } else {
        spec_selected(cs, asg, my_ip, n - 1) + if assigned_here(asg[n - 1], my_ip) {
            seq![cs[n - 1]]
        } else {
            Seq::empty()
        }
    }
}

/// Keeps the collections whose assignment answer names this worker's
/// address; a collection whose assignment failed is skipped.
#[verifier::loop_isolation(false)]
pub fn select_assigned_collections(
    collections: Vec<CollectionRecord>,
    assignments: Vec<Option<String>>,
    my_ip: &String,
) -> (r: Vec<CollectionRecord>)
    requires
        assignments@.len() == collections@.len(),
    ensures
        r@ == spec_selected(collections@, assignments@, my_ip@, collections@.len() as int),
{
    let n = collections.len();
    let mut result: Vec<CollectionRecord> = Vec::new();
    let mut k: usize = 0;
    while k < n
        invariant
            k <= n,
            result@ == spec_selected(collections@, assignments@, my_ip@, k as int),
        decreases n - k,
    {
        match &assignments[k] {
            Some(addr) => {
                if *addr == *my_ip {
                    result.push(collections[k].clone());
                }
            },
            None => {},
        }
        proof {
            assert(result@ =~= spec_selected(collections@, assignments@, my_ip@, k + 1));
        }
        k = k + 1;
    }
    result
}

} // verus!
