use vstd::prelude::*;

verus! {

#[verifier::external_type_specification]
#[verifier::external_body]
pub struct ExInstant(std::time::Instant);

/// Measures the time since it was made.
pub struct Telemetry {
    pub start: std::time::Instant,
}

/// Calls `Instant::now`. The result is the moment of the call.
#[verifier::external_body]
fn now() -> (moment: std::time::Instant) {
    std::time::Instant::now()
}

/// Calls `Instant::elapsed`. The result depends on when it is called.
#[verifier::external_body]
fn elapsed_since(start: &std::time::Instant) -> (span: std::time::Duration) {
    start.elapsed()
}

impl Telemetry {
    /// Starts measuring.
    pub fn new() -> (telemetry: Self) {
        Telemetry { start: now() }
    }

    /// The time since measuring started.
    pub fn elapsed(&self) -> (span: std::time::Duration) {
        elapsed_since(&self.start)
    }
}

} // verus!
