use vstd::prelude::*;

use crate::config::LoadConfig;

verus! {

#[verifier::external_type_specification]
#[verifier::external_body]
pub struct ExMulti(curl::multi::Multi);

#[verifier::external_type_specification]
#[verifier::external_body]
pub struct ExMultiError(curl::MultiError);

#[verifier::external_type_specification]
#[verifier::external_body]
pub struct ExCurlError(curl::Error);

/// The cap on physical connections that a session holds open at once.
pub uninterp spec fn total_connections_cap(m: curl::multi::Multi) -> int;

/// The cap on streams that one connection of a session carries at once.
pub uninterp spec fn concurrent_streams_cap(m: curl::multi::Multi) -> int;

/// The stream cap that libcurl keeps for a requested value: the value itself
/// when it is a positive `int`, else its default of 100.
pub open spec fn effective_streams_cap(val: int) -> int {
    if 1 <= val <= i32::MAX {
        val
    } else {
        100
    }
}

/// Relies on curl's `Multi::new`: a fresh multi session. It panics only when
/// libcurl's global initialisation fails or it cannot allocate a session,
/// neither of which depends on an input.
pub assume_specification[ curl::multi::Multi::new ]() -> curl::multi::Multi;

/// Relies on curl's `Multi::set_max_total_connections`, which hands `val` to
/// libcurl as a C `long` (CURLMOPT_MAX_TOTAL_CONNECTIONS). A `long` has at
/// least 32 bits on every target, so a value up to `i32::MAX` arrives intact,
/// and libcurl stores it as the cap; above that the outcome depends on the
/// target, and nothing is stated. The stream cap is untouched. The session
/// itself enforces the cap.
pub assume_specification[ curl::multi::Multi::set_max_total_connections ](
    m: &mut curl::multi::Multi,
    val: usize,
) -> (r: Result<(), curl::MultiError>)
    ensures
        val <= i32::MAX as usize ==> (r is Ok && total_connections_cap(*final(m)) == val),
        concurrent_streams_cap(*final(m)) == concurrent_streams_cap(*old(m)),
;

/// Relies on curl's `Multi::set_max_concurrent_streams`, which hands `val` to
/// libcurl as a C `long` (CURLMOPT_MAX_CONCURRENT_STREAMS): libcurl always
/// accepts it. A value up to `i32::MAX` arrives intact, and libcurl keeps it,
/// or 100 in place of 0; above that the value kept depends on the target, and
/// nothing is stated. The connection cap is untouched. The cap holds per
/// connection; the session enforces it.
pub assume_specification[ curl::multi::Multi::set_max_concurrent_streams ](
    m: &mut curl::multi::Multi,
    val: usize,
) -> (r: Result<(), curl::MultiError>)
    ensures
        r is Ok,
        val <= i32::MAX as usize ==> concurrent_streams_cap(*final(m)) == effective_streams_cap(
            val as int,
        ),
        total_connections_cap(*final(m)) == total_connections_cap(*old(m)),
;

/// A failure while setting up a worker; fatal to that worker alone.
pub enum SubmissionError {
    /// The engine refused a connection limit.
    Engine(curl::MultiError),
    /// A cap of the configuration is larger than `i32::MAX`, more than every
    /// target's engine can take.
    LimitOutOfRange,
    /// A request could not be built or registered with the engine.
    Request(curl::Error),
    /// The engine refused to take a request.
    Register(curl::MultiError),
}

impl SubmissionError {
    pub open spec fn is_limit_out_of_range(&self) -> bool {
        self is LimitOutOfRange
    }
}

/// Whether both caps of `config` can be handed to the engine intact.
pub open spec fn limits_in_range(config: LoadConfig) -> bool {
    config.max_connections <= i32::MAX && config.max_streams <= i32::MAX
}

/// Builds the engine of one worker, with both caps of `config` applied;
/// refuses a configuration whose caps exceed `i32::MAX`.
pub fn new_engine(config: &LoadConfig) -> (r: Result<curl::multi::Multi, SubmissionError>)
    ensures
        r is Ok <==> limits_in_range(*config),
        r is Err ==> r->Err_0.is_limit_out_of_range(),
        r is Ok ==> total_connections_cap(r->Ok_0) == config.max_connections,
        r is Ok ==> concurrent_streams_cap(r->Ok_0) == effective_streams_cap(
            config.max_streams as int,
        ),
{
    if config.max_connections > i32::MAX as usize || config.max_streams > i32::MAX as usize {
        return Err(SubmissionError::LimitOutOfRange);
    }
    let mut multi = curl::multi::Multi::new();
    match multi.set_max_total_connections(config.max_connections) {
        Ok(()) => {},
        Err(e) => {
            return Err(SubmissionError::Engine(e));
        },
    }
    match multi.set_max_concurrent_streams(config.max_streams) {
        Ok(()) => {},
        Err(e) => {
            return Err(SubmissionError::Engine(e));
        },
    }
    Ok(multi)
}

} // verus!
