//! The metrics endpoint: the default registry in the text exposition format.
use vstd::prelude::*;

verus! {

#[verifier::external_type_specification]
#[verifier::external_body]
pub struct ExMetricFamily(prometheus::proto::MetricFamily);

#[verifier::external_type_specification]
#[verifier::external_body]
pub struct ExPrometheusError(prometheus::Error);

/// Whether a metric family has the type `UNTYPED`.
pub uninterp spec fn untyped_family(f: prometheus::proto::MetricFamily) -> bool;

/// Relies on `prometheus::gather`: the metric families registered in the
/// default registry at the time of the call.
#[verifier::external_body]
fn gather_families() -> (r: Vec<prometheus::proto::MetricFamily>) {
    prometheus::gather()
}

/// Relies on `MetricFamily::get_field_type`: whether the family's type is
/// `MetricType::UNTYPED`.
#[verifier::external_body]
fn is_untyped(f: &prometheus::proto::MetricFamily) -> (r: bool)
    ensures
        r == untyped_family(*f),
{
    match f.get_field_type() {
        prometheus::proto::MetricType::COUNTER => false,
        prometheus::proto::MetricType::GAUGE => false,
        prometheus::proto::MetricType::SUMMARY => false,
        prometheus::proto::MetricType::UNTYPED => true,
        prometheus::proto::MetricType::HISTOGRAM => false,
    }
}

/// Relies on `prometheus::TextEncoder::encode_to_string`: the families in the
/// text exposition format, or the encoder's error. The encoder does not
/// handle an untyped family (it stops at `unimplemented!`), so none is
/// handed to it.
#[verifier::external_body]
fn encode_text(families: &Vec<prometheus::proto::MetricFamily>) -> (r: Result<String, prometheus::Error>)
    requires
        forall|i: int| 0 <= i < families@.len() ==> !untyped_family(#[trigger] families@[i]),
{
    prometheus::TextEncoder::new().encode_to_string(families)
}

/// Records request latencies for the metrics endpoint.
pub struct PrometheusMiddleware;

/// The current metrics in the text exposition format; `None` when a family
/// is untyped, which the text encoder cannot write, or when the encoder fails.
pub fn metrics() -> (r: Option<String>) {
    let families: Vec<prometheus::proto::MetricFamily> = gather_families();
    let mut i: usize = 0;
    while i < families.len()
        invariant
            0 <= i <= families@.len(),
            forall|k: int| 0 <= k < i ==> !untyped_family(#[trigger] families@[k]),
        decreases families@.len() - i,
    {
        if is_untyped(&families[i]) {
            return None;
        }
        i = i + 1;
    }
    match encode_text(&families) {
        Ok(text) => Some(text),
        Err(_) => None,
    }
}

} // verus!
