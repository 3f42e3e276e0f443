use vstd::prelude::*;

verus! {

/// The reply of the recommendation endpoint. The recommendation computation
/// itself is an unimplemented extension point, so the reply carries no fields
/// yet; its shape is part of the external contract.
pub struct GetRecommendationsResponse {}

/// The recommendation service. It owns no state; the encoder's outputs are
/// the substrate a future similarity computation would consume.
pub struct LibRateRecSvc {}

impl core::default::Default for LibRateRecSvc {
    fn default() -> (r: LibRateRecSvc)
        ensures
            r == (LibRateRecSvc {  }),
    {
        LibRateRecSvc {  }
    }
}

impl LibRateRecSvc {
    /// Answer a recommendation query. Until the similarity computation is
    /// implemented, every query gets the empty reply, whatever it asks.
    pub fn get_recommendations(&self) -> (r: GetRecommendationsResponse)
        ensures
            r == (GetRecommendationsResponse {  }),
    {
        GetRecommendationsResponse {  }
    }
}

} // verus!
