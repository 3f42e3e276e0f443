use recommendation::service::{GetRecommendationsResponse, LibRateRecSvc};

#[test]
fn recommendation_endpoint_returns_the_empty_reply() {
    let svc = LibRateRecSvc::default();
    let _reply: GetRecommendationsResponse = svc.get_recommendations();
}
