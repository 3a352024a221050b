use vstd::prelude::*;

verus! {

/// The opaque JSON value that a segment carries as its resource token.
#[verifier::external_type_specification]
#[verifier::external_body]
pub struct ExJsonValue(serde_json::Value);

/// What the availability endpoint answers.
#[derive(Default, Debug, PartialEq)]
pub struct ResponseData {
    pub staff_ids: Vec<String>,
    pub availability: Vec<Availability>,
    pub resources: Resources,
}

/// One candidate time window, with epoch-second bounds.
#[derive(Default, Debug, PartialEq)]
pub struct Availability {
    pub start: i64,
    pub end: i64,
    pub available: bool,
    pub staff_id: String,
    pub segments: Vec<Segment>,
}

/// A sub-interval of a window, tied to a resource and an employee.
#[derive(Default, Debug, PartialEq)]
pub struct Segment {
    pub start: i64,
    pub end: i64,
    pub resource_token: serde_json::Value,
    pub employee_token: String,
}

/// Reserved by the endpoint; carries nothing.
#[derive(Default, Debug, Clone, PartialEq)]
pub struct Resources {}

} // verus!
