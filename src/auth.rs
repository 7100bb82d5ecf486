use vstd::prelude::*;
use crate::error::ServiceError;

verus! {

/// The weight authority's answer for one peer, as handed in by a caller whose host
/// vouches that it came from the authority.
#[derive(Debug)]
pub struct WeightResult {
    pub success: bool,
    pub weight: u32,
    pub peer_id: String,
    pub error: String,
}

impl WeightResult {
    /// Whether this answer authorizes a write owned by `peer_id`.
    pub open spec fn authorizes(&self, peer_id: Seq<char>) -> bool {
        self.success && self.peer_id@ == peer_id
    }
}

/// Fails closed unless the weight answer was obtained and is about `peer_id`.
pub fn check_weight_peer_id(peer_id: &String, weight: &WeightResult) -> (r: Result<(), ServiceError>)
    ensures
        r is Ok <==> weight.authorizes(peer_id@),
        r is Err ==> r == Err::<(), ServiceError>(ServiceError::Unauthorized),
{
    if weight.success && weight.peer_id == *peer_id {
        Ok(())
    } else {
        Err(ServiceError::Unauthorized)
    }
}

} // verus!
