use vstd::prelude::*;

use crate::error::AppError;

verus! {

/// Upper bound, in milliseconds, on the wait of one stream probe.
pub const PROBE_TIMEOUT_MS: u64 = 5000;

/// What one probe observed of one stream.
#[derive(Debug, Clone)]
pub struct QualitySample {
    pub url: String,
    /// Advertised bandwidth in bits per second; 0 when unknown.
    pub bandwidth: u64,
    /// Time from request start to response, in milliseconds.
    pub response_ms: u64,
}

/// The mathematical value of a sample.
pub struct SampleView {
    pub url: Seq<char>,
    pub bandwidth: u64,
    pub response_ms: u64,
}

impl View for QualitySample {
    type V = SampleView;

    open spec fn view(&self) -> SampleView {
        SampleView { url: self.url@, bandwidth: self.bandwidth, response_ms: self.response_ms }
    }
}

impl QualitySample {
    /// A copy of this sample.
    pub fn duplicate(&self) -> (r: QualitySample)
        ensures
            r == *self,
    {
        QualitySample { url: self.url.clone(), bandwidth: self.bandwidth, response_ms: self.response_ms }
    }
}

/// The views of a sequence of samples.
pub open spec fn views(s: Seq<QualitySample>) -> Seq<SampleView> {
    s.map_values(|q: QualitySample| q@)
}

pub open spec fn is_digit(c: char) -> bool {
    '0' <= c && c <= '9'
}

pub open spec fn all_digits(s: Seq<char>) -> bool {
    forall|i: int| 0 <= i < s.len() ==> is_digit(#[trigger] s[i])
}

/// The number that a string of decimal digits denotes.
pub open spec fn digits_value(s: Seq<char>) -> nat
    decreases s.len(),
{
    if s.len() == 0 {
        0
    } else {
        (digits_value(s.drop_last()) * 10 + (s.last() as int - '0' as int)) as nat
    }
}

/// The digits of an unsigned decimal: one leading `+` is allowed.
pub open spec fn unsigned_digits(s: Seq<char>) -> Seq<char> {
    if s.len() > 0 && s[0] == '+' {
        s.drop_first()
    } else {
        s
    }
}

/// `s` is an unsigned decimal that fits in 64 bits.
pub open spec fn is_u64_text(s: Seq<char>) -> bool {
    let d = unsigned_digits(s);
    d.len() > 0 && all_digits(d) && digits_value(d) <= u64::MAX
}

/// The bandwidth that an optional header value advertises: its number where it
/// is an unsigned 64-bit decimal, else 0.
pub open spec fn advertised_bandwidth(h: Option<Seq<char>>) -> u64 {
    match h {
        Some(s) => if is_u64_text(s) {
            digits_value(unsigned_digits(s)) as u64
        } else {
            0
        },
        None => 0,
    }
}

proof fn lemma_digits_value_grows(s: Seq<char>, k: int)
    requires
        0 <= k <= s.len(),
        all_digits(s),
    ensures
        digits_value(s.take(k)) <= digits_value(s),
    decreases s.len(),
{
    if k < s.len() {
        assert(is_digit(s[s.len() - 1]));
        assert(all_digits(s.drop_last()));
        lemma_digits_value_grows(s.drop_last(), k);
        assert(s.drop_last().take(k) =~= s.take(k));
    } else {
        assert(s.take(k) =~= s);
    }
}

/// Reads a bandwidth header value as an unsigned 64-bit decimal; 0 where it
/// is absent or is no such number.
pub fn parse_bandwidth(header: Option<&str>) -> (r: u64)
    ensures
        r == advertised_bandwidth(match header {
            Some(h) => Some(h@),
            None => None,
        }),
{
    let text = match header {
        Some(h) => h,
        None => return 0,
    };
    let n = text.unicode_len();
    let mut start: usize = 0;
    if n > 0 && text.get_char(0) == '+' {
        start = 1;
    }
    let ghost d = unsigned_digits(text@);
    assert(d =~= text@.subrange(start as int, n as int));
    if start >= n {
        return 0;
    }
    let mut value: u64 = 0;
    let mut i: usize = start;
    while i < n
        invariant
            start <= i <= n,
            n == text@.len(),
            d =~= text@.subrange(start as int, n as int),
            d == unsigned_digits(text@),
            header == Some(text),
            all_digits(d.take(i - start)),
            value as nat == digits_value(d.take(i - start)),
        decreases n - i,
    {
        let c = text.get_char(i);
        let ghost k = i - start;
        assert(d.take(k + 1).drop_last() =~= d.take(k));
        assert(d[k] == c);
        assert(d.take(k + 1).last() == c);
        if !('0' <= c && c <= '9') {
            assert(!is_digit(d[k]));
            assert(!all_digits(d));
            return 0;
        }
        let digit = (c as u32 - '0' as u32) as u64;
        let next = match value.checked_mul(10) {
            Some(m) => m.checked_add(digit),
            None => None,
        };
        match next {
            Some(v) => {
                value = v;
            },
            None => {
                proof {
                    if all_digits(d) {
                        lemma_digits_value_grows(d, k + 1);
                    }
                }
                return 0;
            },
        }
        i = i + 1;
    }
    assert(d.take(n - start) =~= d);
    value
}

/// What a probe of one stream came to, as seen by the code that issued it.
#[derive(Debug, Clone)]
pub enum ProbeEvent {
    /// A response arrived after `elapsed_ms`, with the bandwidth header's text
    /// where it had one.
    Responded { bandwidth_header: Option<String>, elapsed_ms: u64 },
    /// No response arrived within the bound.
    TimedOut,
    /// The request failed, with the transport's message.
    TransportFailed { message: String },
}

/// The event came after the bound had run out.
pub open spec fn exceeds_bound(e: ProbeEvent) -> bool {
    match e {
        ProbeEvent::TimedOut => true,
        ProbeEvent::Responded { elapsed_ms, .. } => elapsed_ms > PROBE_TIMEOUT_MS,
        ProbeEvent::TransportFailed { .. } => false,
    }
}

/// The outcome of a probe of `url` that met `e`.
pub open spec fn probe_outcome(url: Seq<char>, e: ProbeEvent) -> Result<SampleView, AppError> {
    match e {
        ProbeEvent::TimedOut => Err(AppError::TimeoutError),
        ProbeEvent::TransportFailed { message } => Err(AppError::ReqwestError(message)),
        ProbeEvent::Responded { bandwidth_header, elapsed_ms } => if elapsed_ms > PROBE_TIMEOUT_MS {
            Err(AppError::TimeoutError)
        } else {
            Ok(
                SampleView {
                    url,
                    bandwidth: advertised_bandwidth(
                        match bandwidth_header {
                            Some(h) => Some(h@),
                            None => None,
                        },
                    ),
                    response_ms: elapsed_ms,
                },
            )
        },
    }
}

pub open spec fn outcome_view(r: Result<QualitySample, AppError>) -> Result<SampleView, AppError> {
    match r {
        Ok(q) => Ok(q@),
        Err(e) => Err(e),
    }
}

/// Turns what a probe of `stream_url` met into a quality sample or an error.
pub fn check_stream_quality(stream_url: &String, event: &ProbeEvent) -> (r: Result<QualitySample, AppError>)
    ensures
        outcome_view(r) == probe_outcome(stream_url@, *event),
{
    match event {
        ProbeEvent::TimedOut => Err(AppError::TimeoutError),
        ProbeEvent::TransportFailed { message } => Err(AppError::ReqwestError(message.clone())),
        ProbeEvent::Responded { bandwidth_header, elapsed_ms } => {
            if *elapsed_ms > PROBE_TIMEOUT_MS {
                return Err(AppError::TimeoutError);
            }
            let bandwidth = match bandwidth_header {
                Some(h) => parse_bandwidth(Some(h.as_str())),
                None => parse_bandwidth(None),
            };
            Ok(QualitySample { url: stream_url.clone(), bandwidth, response_ms: *elapsed_ms })
        },
    }
}

/// The samples of the successful outcomes, in order.
pub open spec fn successes(o: Seq<Result<SampleView, AppError>>) -> Seq<SampleView>
    decreases o.len(),
{
    if o.len() == 0 {
        seq![]
    } else {
        match o.last() {
            Ok(q) => successes(o.drop_last()).push(q),
            Err(_) => successes(o.drop_last()),
        }
    }
}

pub open spec fn outcome_views(o: Seq<Result<QualitySample, AppError>>) -> Seq<Result<SampleView, AppError>> {
    o.map_values(|r: Result<QualitySample, AppError>| outcome_view(r))
}

/// Keeps the samples of the probes that succeeded, in order, and drops the
/// failures.
pub fn collect_samples(outcomes: Vec<Result<QualitySample, AppError>>) -> (r: Vec<QualitySample>)
    ensures
        views(r@) == successes(outcome_views(outcomes@)),
{
    let mut r: Vec<QualitySample> = Vec::new();
    let mut i: usize = 0;
    while i < outcomes.len()
        invariant
            i <= outcomes.len(),
            views(r@) == successes(outcome_views(outcomes@.take(i as int))),
        decreases outcomes.len() - i,
    {
        assert(outcome_views(outcomes@.take(i + 1)).drop_last() =~= outcome_views(outcomes@.take(i as int)));
        match &outcomes[i] {
            Ok(q) => {
                r.push(q.duplicate());
                assert(views(r@) =~= successes(outcome_views(outcomes@.take(i as int))).push(q@));
            },
            Err(_) => {},
        }
        i = i + 1;
    }
    assert(outcomes@.take(i as int) =~= outcomes@);
    r
}

} // verus!
