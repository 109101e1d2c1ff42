//! The fallback sequence over the candidate endpoints.
//!
//! The endpoints are tried one after another. The library decides; its caller
//! sends the requests. `begin_fetch` names the first endpoint, the caller
//! requests it and reports what came back, and `PendingFetch::resolve` either
//! names the next endpoint or ends the fetch with its result.

use crate::errors::{
    empty_input_error, http_error, map_decode_error, map_http_status_error, map_request_error,
    no_candidate_error, transport_error, undecodable_error, ErrorKind, ErrorView, FetchError,
    TransportFailure,
};
use crate::json::{decode_json, decoded_json, Json};
use crate::models::{
    collect_models, is_model_list, lemma_listed_models_are_a_model_list, listed_models,
    map_payload_fault, payload_entries, payload_error, read_payload, Entry, ModelView,
    OpenAiModelDescriptor, OpenAiModelItem, PayloadFault,
};
use crate::text::{
    chars_of, decimal, push_decimal, str_view, string_of, text_view, trim, trim_chars,
};
use crate::urls::{build_models_urls, candidate_urls, normalize_base_url, normalized_base_url};
use vstd::prelude::*;

verus! {

/// A model list as fetched, with the endpoint that gave it.
#[derive(Debug, Clone)]
pub struct FetchOpenAiModelsResponse {
    /// The models, in ascending order of id, each id once.
    pub models: Vec<OpenAiModelDescriptor>,
    /// The endpoint that answered.
    pub resolved_url: String,
    /// Time taken by the whole fetch, in milliseconds.
    pub elapsed_ms: u64,
    /// One warning for each endpoint given up before this one, in order.
    pub warnings: Vec<String>,
}

/// The mathematical value of a `FetchOpenAiModelsResponse`.
pub ghost struct ResponseView {
    pub models: Seq<ModelView>,
    pub resolved_url: Seq<char>,
    pub elapsed_ms: u64,
    pub warnings: Seq<Seq<char>>,
}

impl View for FetchOpenAiModelsResponse {
    type V = ResponseView;

    open spec fn view(&self) -> ResponseView {
        ResponseView {
            models: self.models.deep_view(),
            resolved_url: self.resolved_url@,
            elapsed_ms: self.elapsed_ms,
            warnings: self.warnings.deep_view(),
        }
    }
}

/// The timeout of one request where none is asked for, in seconds.
pub const DEFAULT_TIMEOUT_SECS: u64 = 15;

/// The shortest timeout of one request, in seconds.
pub const MIN_TIMEOUT_SECS: u64 = 5;

/// The longest timeout of one request, in seconds.
pub const MAX_TIMEOUT_SECS: u64 = 120;

/// The timeout of one request in seconds: the one asked for, or the
/// default, held within the bounds.
pub open spec fn effective_timeout(timeout_secs: Option<u64>) -> u64 {
    let asked = match timeout_secs {
        Some(secs) => secs,
        None => DEFAULT_TIMEOUT_SECS,
    };
    if asked < MIN_TIMEOUT_SECS {
        MIN_TIMEOUT_SECS
    } else if asked > MAX_TIMEOUT_SECS {
        MAX_TIMEOUT_SECS
    } else {
        asked
    }
}

/// Settles the timeout of one request.
pub fn clamp_timeout(timeout_secs: Option<u64>) -> (secs: u64)
    ensures
        secs == effective_timeout(timeout_secs),
        MIN_TIMEOUT_SECS <= secs <= MAX_TIMEOUT_SECS,
{
    let asked = match timeout_secs {
        Some(secs) => secs,
        None => DEFAULT_TIMEOUT_SECS,
    };
    if asked < MIN_TIMEOUT_SECS {
        MIN_TIMEOUT_SECS
    } else if asked > MAX_TIMEOUT_SECS {
        MAX_TIMEOUT_SECS
    } else {
        asked
    }
}

/// Whether a status is one of success, 200 to 299.
pub open spec fn is_success(status: u16) -> bool {
    200 <= status < 300
}

/// Whether an answer with this status carries a model list.
pub fn status_is_success(status: u16) -> (r: bool)
    ensures
        r == is_success(status),
{
    200 <= status && status < 300
}

/// A fetch that may begin: the endpoints to try and how to ask them.
#[derive(Debug)]
pub struct FetchRequest {
    /// The endpoints to try, in order; at least one.
    pub urls: Vec<String>,
    /// The value of the `Authorization` header.
    pub authorization: String,
    /// The value of the `Accept` header.
    pub accept: String,
    /// The timeout of each single request, in seconds.
    pub timeout_secs: u64,
}

/// The mathematical value of a `FetchRequest`.
pub ghost struct RequestView {
    pub urls: Seq<Seq<char>>,
    pub authorization: Seq<char>,
    pub accept: Seq<char>,
    pub timeout_secs: u64,
}

impl View for FetchRequest {
    type V = RequestView;

    open spec fn view(&self) -> RequestView {
        RequestView {
            urls: self.urls.deep_view(),
            authorization: self.authorization@,
            accept: self.accept@,
            timeout_secs: self.timeout_secs,
        }
    }
}

/// What the caller's input comes to: the request to make, or the error for
/// a base URL or an API key that is empty.
pub open spec fn planned_request(
    base_url: Seq<char>,
    api_key: Seq<char>,
    timeout_secs: Option<u64>,
) -> Result<RequestView, ErrorView> {
    if normalized_base_url(base_url).len() == 0 {
        Err(empty_input_error("Base URL"@))
    } else if trim(api_key).len() == 0 {
        Err(empty_input_error("API Key"@))
    } else {
        Ok(
            RequestView {
                urls: candidate_urls(base_url),
                authorization: "Bearer "@ + trim(api_key),
                accept: "application/json"@,
                timeout_secs: effective_timeout(timeout_secs),
            },
        )
    }
}

fn empty_input(what: &str) -> (error: FetchError)
    ensures
        error@ == empty_input_error(what@),
{
    let mut message = String::new();
    message.append(what);
    message.append(" 不能为空");
    FetchError { kind: ErrorKind::InvalidInput, message }
}

/// Checks the caller's input and lays out the fetch: the base URL and the
/// API key must not be empty once trimmed; the timeout is held within its
/// bounds.
pub fn prepare_fetch(base_url: &str, api_key: &str, timeout_secs: Option<u64>) -> (prepared:
    Result<FetchRequest, FetchError>)
    ensures
        match prepared {
            Ok(request) => planned_request(base_url@, api_key@, timeout_secs) == Ok::<
                _,
                ErrorView,
            >(request@),
            Err(error) => planned_request(base_url@, api_key@, timeout_secs) == Err::<
                RequestView,
                _,
            >(error@),
        },
        prepared is Ok ==> prepared->Ok_0.urls.len() > 0,
{
    let root = normalize_base_url(base_url);
    if root.len() == 0 {
        return Err(empty_input("Base URL"));
    }
    let key = trim_chars(&chars_of(api_key));
    if key.len() == 0 {
        return Err(empty_input("API Key"));
    }
    let mut authorization = String::new();
    authorization.append("Bearer ");
    authorization.append(string_of(&key).as_str());
    let urls = build_models_urls(base_url);
    assert(urls.deep_view().len() == urls.len());
    let accept = "application/json".to_owned();
    Ok(FetchRequest { urls, authorization, accept, timeout_secs: clamp_timeout(timeout_secs) })
}

/// The id of the provider whose settings the fetch is to use: the one
/// given, trimmed, or none where none is given or it is blank.
pub open spec fn effective_provider_id(provider_id: Option<Seq<char>>) -> Option<Seq<char>> {
    match provider_id {
        Some(id) => if trim(id).len() > 0 {
            Some(trim(id))
        } else {
            None
        },
        None => None,
    }
}

/// Trims a provider id; a blank one counts as none.
pub fn normalize_provider_id(provider_id: Option<&str>) -> (id: Option<String>)
    ensures
        text_view(id) == effective_provider_id(str_view(provider_id)),
{
    match provider_id {
        Some(given) => {
            let id = trim_chars(&chars_of(given));
            if id.len() > 0 {
                Some(string_of(&id))
            } else {
                None
            }
        },
        None => None,
    }
}

/// What came back from one request, as the caller reports it.
#[derive(Debug)]
pub enum FetchEvent {
    /// The request failed below HTTP.
    TransportFailed(TransportFailure),
    /// A 2xx answer with its body, and the time since the fetch began.
    Success { body: Vec<u8>, elapsed_ms: u64 },
    /// A 2xx answer whose body could not be read; `detail` says why.
    Unreadable { detail: String },
    /// An answer outside 2xx with its body as text, empty where the body
    /// could not be read.
    Failure { status: u16, text: String },
}

/// The mathematical value of a `FetchEvent`.
pub ghost enum EventView {
    TransportFailed { timed_out: bool, detail: Seq<char> },
    Success { body: Seq<u8>, elapsed_ms: u64 },
    Unreadable { detail: Seq<char> },
    Failure { status: u16, text: Seq<char> },
}

impl View for FetchEvent {
    type V = EventView;

    open spec fn view(&self) -> EventView {
        match self {
            FetchEvent::TransportFailed(failure) => EventView::TransportFailed {
                timed_out: failure.timed_out,
                detail: failure.detail@,
            },
            FetchEvent::Success { body, elapsed_ms } => EventView::Success {
                body: body@,
                elapsed_ms: *elapsed_ms,
            },
            FetchEvent::Unreadable { detail } => EventView::Unreadable { detail: detail@ },
            FetchEvent::Failure { status, text } => EventView::Failure {
                status: *status,
                text: text@,
            },
        }
    }
}

/// What came back from one request, with the body of a 2xx answer read.
#[derive(Debug)]
pub enum FetchOutcome {
    /// The request failed below HTTP.
    TransportFailed(TransportFailure),
    /// A 2xx answer with the entries of its payload, and the time since the
    /// fetch began.
    Success { entries: Vec<OpenAiModelItem>, elapsed_ms: u64 },
    /// A 2xx answer whose body is not JSON; `detail` says why.
    Undecodable { detail: String },
    /// A 2xx answer whose body is JSON, yet no model list.
    Malformed { fault: PayloadFault },
    /// An answer outside 2xx with its body as text.
    Failure { status: u16, text: String },
}

/// The mathematical value of a `FetchOutcome`.
pub ghost enum OutcomeView {
    TransportFailed { timed_out: bool, detail: Seq<char> },
    Success { entries: Seq<Entry>, elapsed_ms: u64 },
    Undecodable { detail: Seq<char> },
    Malformed { fault: PayloadFault },
    Failure { status: u16, text: Seq<char> },
}

impl View for FetchOutcome {
    type V = OutcomeView;

    open spec fn view(&self) -> OutcomeView {
        match self {
            FetchOutcome::TransportFailed(failure) => OutcomeView::TransportFailed {
                timed_out: failure.timed_out,
                detail: failure.detail@,
            },
            FetchOutcome::Success { entries, elapsed_ms } => OutcomeView::Success {
                entries: entries.deep_view(),
                elapsed_ms: *elapsed_ms,
            },
            FetchOutcome::Undecodable { detail } => OutcomeView::Undecodable { detail: detail@ },
            FetchOutcome::Malformed { fault } => OutcomeView::Malformed { fault: *fault },
            FetchOutcome::Failure { status, text } => OutcomeView::Failure {
                status: *status,
                text: text@,
            },
        }
    }
}

/// The outcome that an event stands for, given what its body decodes to.
pub open spec fn outcome_of(event: EventView, decoded: Result<Json, Seq<char>>) -> OutcomeView {
    match event {
        EventView::TransportFailed { timed_out, detail } => OutcomeView::TransportFailed {
            timed_out,
            detail,
        },
        EventView::Success { body, elapsed_ms } => match decoded {
            Ok(payload) => match payload_entries(payload) {
                Ok(entries) => OutcomeView::Success { entries, elapsed_ms },
                Err(fault) => OutcomeView::Malformed { fault },
            },
            Err(why) => OutcomeView::Undecodable { detail: why },
        },
        EventView::Unreadable { detail } => OutcomeView::Undecodable { detail },
        EventView::Failure { status, text } => OutcomeView::Failure { status, text },
    }
}

/// The body that an event carries for decoding; empty for an event that
/// carries none.
pub open spec fn event_body(event: EventView) -> Seq<u8> {
    match event {
        EventView::Success { body, elapsed_ms } => body,
        _ => Seq::empty(),
    }
}

/// The outcome that an event stands for.
pub open spec fn decoded_event(event: EventView) -> OutcomeView {
    outcome_of(event, decoded_json(event_body(event)))
}

/// Decodes the body of a 2xx answer and reads the entries out of it; any
/// other event is passed on as it is.
pub fn decode_event(event: FetchEvent) -> (outcome: FetchOutcome)
    ensures
        outcome@ == decoded_event(event@),
{
    match event {
        FetchEvent::TransportFailed(failure) => FetchOutcome::TransportFailed(failure),
        FetchEvent::Success { body, elapsed_ms } => match decode_json(body.as_slice()) {
            Ok(payload) => match read_payload(&payload) {
                Ok(entries) => FetchOutcome::Success { entries, elapsed_ms },
                Err(fault) => FetchOutcome::Malformed { fault },
            },
            Err(why) => FetchOutcome::Undecodable { detail: why },
        },
        FetchEvent::Unreadable { detail } => FetchOutcome::Undecodable { detail },
        FetchEvent::Failure { status, text } => FetchOutcome::Failure { status, text },
    }
}

/// A fetch with a request under way: the endpoints, which of them is being
/// asked, and the warnings gathered so far.
#[derive(Debug)]
pub struct PendingFetch {
    urls: Vec<String>,
    index: usize,
    warnings: Vec<String>,
}

/// The mathematical value of a `PendingFetch`.
pub ghost struct PendingView {
    /// The endpoints, in the order in which they are tried.
    pub urls: Seq<Seq<char>>,
    /// The place in `urls` of the endpoint being asked.
    pub index: int,
    /// One warning for each endpoint given up so far, in order.
    pub warnings: Seq<Seq<char>>,
}

impl PendingView {
    /// Whether an endpoint is being asked.
    pub open spec fn in_range(self) -> bool {
        0 <= self.index < self.urls.len()
    }

    /// The endpoint being asked.
    pub open spec fn url(self) -> Seq<char> {
        self.urls[self.index]
    }

    /// Whether the endpoint being asked is the last one.
    pub open spec fn is_last(self) -> bool {
        self.index + 1 == self.urls.len()
    }
}

impl View for PendingFetch {
    type V = PendingView;

    closed spec fn view(&self) -> PendingView {
        PendingView {
            urls: self.urls.deep_view(),
            index: self.index as int,
            warnings: self.warnings.deep_view(),
        }
    }
}

/// Where a fetch stands after a decision.
#[derive(Debug)]
pub enum FetchStep {
    /// The endpoint `PendingFetch::url` is to be asked next.
    Request(PendingFetch),
    /// The fetch is over, with this result.
    Finished(Result<FetchOpenAiModelsResponse, FetchError>),
}

/// The mathematical value of a `FetchStep`.
pub ghost enum StepView {
    Request(PendingView),
    Finished(Result<ResponseView, ErrorView>),
}

impl View for FetchStep {
    type V = StepView;

    open spec fn view(&self) -> StepView {
        match self {
            FetchStep::Request(pending) => StepView::Request(pending@),
            FetchStep::Finished(Ok(response)) => StepView::Finished(Ok(response@)),
            FetchStep::Finished(Err(error)) => StepView::Finished(Err(error@)),
        }
    }
}

/// Whether an outcome is one after which the next endpoint is worth asking:
/// a failure below HTTP, or the answer that there is no such endpoint or
/// method, 404 or 405.
pub open spec fn permits_fallback(outcome: OutcomeView) -> bool {
    match outcome {
        OutcomeView::TransportFailed { .. } => true,
        OutcomeView::Failure { status, .. } => status == 404 || status == 405,
        _ => false,
    }
}

/// The warning left behind when `url` is given up for the next endpoint.
pub open spec fn fallback_warning(url: Seq<char>, outcome: OutcomeView) -> Seq<char> {
    match outcome {
        OutcomeView::Failure { status, .. } => "地址 "@ + url + " 返回 HTTP "@ + decimal(
            status as nat,
        ) + "，已尝试备用地址"@,
        _ => "地址 "@ + url + " 请求失败，已尝试备用地址"@,
    }
}

/// The result of a fetch that ends on `outcome`, which came from `url`
/// after `warnings`.
pub open spec fn final_result(
    url: Seq<char>,
    warnings: Seq<Seq<char>>,
    outcome: OutcomeView,
) -> Result<ResponseView, ErrorView> {
    match outcome {
        OutcomeView::TransportFailed { timed_out, detail } => Err(
            transport_error(timed_out, detail),
        ),
        OutcomeView::Success { entries, elapsed_ms } => Ok(
            ResponseView { models: listed_models(entries), resolved_url: url, elapsed_ms, warnings },
        ),
        OutcomeView::Undecodable { detail } => Err(undecodable_error(detail)),
        OutcomeView::Malformed { fault } => Err(payload_error(fault)),
        OutcomeView::Failure { status, text } => Err(http_error(status, text)),
    }
}

/// The decision taken on an outcome: on one that permits fallback, unless
/// the endpoint was the last, the next endpoint is asked and a warning
/// recorded; on any other the fetch ends.
pub open spec fn next_step(pending: PendingView, outcome: OutcomeView) -> StepView {
    if !pending.is_last() && permits_fallback(outcome) {
        StepView::Request(
            PendingView {
                urls: pending.urls,
                index: pending.index + 1,
                warnings: pending.warnings.push(fallback_warning(pending.url(), outcome)),
            },
        )
    } else {
        StepView::Finished(final_result(pending.url(), pending.warnings, outcome))
    }
}

/// The first step of a fetch over `urls`: the first endpoint is asked, or,
/// where there is none, the fetch ends at once in an error.
pub open spec fn first_step(urls: Seq<Seq<char>>) -> StepView {
    if urls.len() == 0 {
        StepView::Finished(Err(no_candidate_error()))
    } else {
        StepView::Request(PendingView { urls, index: 0, warnings: Seq::empty() })
    }
}

/// Whether the next endpoint is worth asking after `outcome`.
pub fn should_fallback(outcome: &FetchOutcome) -> (r: bool)
    ensures
        r == permits_fallback(outcome@),
{
    match outcome {
        FetchOutcome::TransportFailed(_) => true,
        FetchOutcome::Failure { status, .. } => *status == 404 || *status == 405,
        _ => false,
    }
}

fn warning_for(url: &str, outcome: &FetchOutcome) -> (warning: String)
    ensures
        warning@ == fallback_warning(url@, outcome@),
{
    let mut warning = String::new();
    warning.append("地址 ");
    warning.append(url);
    match outcome {
        FetchOutcome::Failure { status, .. } => {
            warning.append(" 返回 HTTP ");
            push_decimal(&mut warning, *status as u64);
            warning.append("，已尝试备用地址");
        },
        _ => {
            warning.append(" 请求失败，已尝试备用地址");
        },
    }
    warning
}

/// Ends a fetch on `outcome`, which came from `url` after `warnings`.
pub fn finish_fetch(url: String, warnings: Vec<String>, outcome: FetchOutcome) -> (result: Result<
    FetchOpenAiModelsResponse,
    FetchError,
>)
    ensures
        result_view(result) == final_result(url@, warnings.deep_view(), outcome@),
        result is Ok ==> is_model_list(result->Ok_0.models.deep_view()),
{
    match outcome {
        FetchOutcome::TransportFailed(failure) => Err(map_request_error(&failure)),
        FetchOutcome::Success { entries, elapsed_ms } => Ok(
            FetchOpenAiModelsResponse {
                models: collect_models(entries),
                resolved_url: url,
                elapsed_ms,
                warnings,
            },
        ),
        FetchOutcome::Undecodable { detail } => Err(map_decode_error(detail.as_str())),
        FetchOutcome::Malformed { fault } => Err(map_payload_fault(fault)),
        FetchOutcome::Failure { status, text } => Err(map_http_status_error(status, text.as_str())),
    }
}

/// The view of the result of a fetch.
pub open spec fn result_view(result: Result<FetchOpenAiModelsResponse, FetchError>) -> Result<
    ResponseView,
    ErrorView,
> {
    match result {
        Ok(response) => Ok(response@),
        Err(error) => Err(error@),
    }
}

/// Begins a fetch over the given endpoints.
pub fn begin_fetch(urls: Vec<String>) -> (step: FetchStep)
    ensures
        step@ == first_step(urls.deep_view()),
{
    if urls.len() == 0 {
        let mut message = String::new();
        message.append("获取模型失败");
        assert(message@ =~= "获取模型失败"@);
        FetchStep::Finished(Err(FetchError { kind: ErrorKind::FetchFailed, message }))
    } else {
        let pending = PendingFetch { urls, index: 0, warnings: Vec::new() };
        assert(pending.warnings.deep_view() =~= Seq::<Seq<char>>::empty());
        FetchStep::Request(pending)
    }
}

impl PendingFetch {
    #[verifier::type_invariant]
    spec fn well_formed(self) -> bool {
        self.index < self.urls.len()
    }

    /// The endpoint to ask.
    pub fn url(&self) -> (url: &str)
        ensures
            self@.in_range(),
            url@ == self@.url(),
    {
        proof {
            use_type_invariant(self);
        }
        self.urls[self.index].as_str()
    }

    /// Whether the endpoint to ask is the last one.
    pub fn is_last(&self) -> (r: bool)
        ensures
            self@.in_range(),
            r == self@.is_last(),
    {
        proof {
            use_type_invariant(self);
        }
        self.index + 1 == self.urls.len()
    }

    /// The warnings gathered so far.
    pub fn warnings(&self) -> (warnings: &Vec<String>)
        ensures
            warnings.deep_view() == self@.warnings,
    {
        &self.warnings
    }

    /// Decides what follows the outcome of the request under way.
    pub fn resolve_decoded(self, outcome: FetchOutcome) -> (step: FetchStep)
        ensures
            self@.in_range(),
            step@ == next_step(self@, outcome@),
    {
        proof {
            use_type_invariant(&self);
        }
        let is_last = self.index + 1 == self.urls.len();
        if !is_last && should_fallback(&outcome) {
            let mut warnings = self.warnings;
            let ghost before = warnings.deep_view();
            let warning = warning_for(self.urls[self.index].as_str(), &outcome);
            warnings.push(warning);
            assert(warnings.deep_view() =~= before.push(warning@));
            FetchStep::Request(PendingFetch { urls: self.urls, index: self.index + 1, warnings })
        } else {
            let url = self.urls[self.index].clone();
            FetchStep::Finished(finish_fetch(url, self.warnings, outcome))
        }
    }

    /// Decides what follows the event that the request under way ended in:
    /// the body of a 2xx answer is decoded, then the outcome is decided on.
    pub fn resolve(self, event: FetchEvent) -> (step: FetchStep)
        ensures
            self@.in_range(),
            step@ == next_step(self@, decoded_event(event@)),
    {
        self.resolve_decoded(decode_event(event))
    }
}

/// Where a fetch stands once the given outcomes have come in, one for each
/// request made; outcomes that come after the fetch has ended count for
/// nothing.
pub open spec fn run(urls: Seq<Seq<char>>, outcomes: Seq<OutcomeView>) -> StepView
    decreases outcomes.len(),
{
    if outcomes.len() == 0 {
        first_step(urls)
    } else {
        match run(urls, outcomes.drop_last()) {
            StepView::Request(pending) => next_step(pending, outcomes.last()),
            StepView::Finished(result) => StepView::Finished(result),
        }
    }
}

/// The warnings left behind by the first `count` endpoints, each given up
/// on the outcome at its place.
pub open spec fn fallback_warnings(
    urls: Seq<Seq<char>>,
    outcomes: Seq<OutcomeView>,
    count: int,
) -> Seq<Seq<char>> {
    Seq::new(count as nat, |i: int| fallback_warning(urls[i], outcomes[i]))
}

/// An answer 404 or 405 from an endpoint that is not the last has the next
/// endpoint asked, with one more warning; from the last endpoint it ends
/// the fetch in an `EndpointMismatch`.
pub proof fn lemma_missing_endpoint_falls_back(pending: PendingView, status: u16, text: Seq<char>)
    requires
        pending.in_range(),
        status == 404 || status == 405,
    ensures
        !pending.is_last() ==> next_step(pending, OutcomeView::Failure { status, text })
            == StepView::Request(
            PendingView {
                urls: pending.urls,
                index: pending.index + 1,
                warnings: pending.warnings.push(
                    fallback_warning(pending.url(), OutcomeView::Failure { status, text }),
                ),
            },
        ),
        pending.is_last() ==> next_step(pending, OutcomeView::Failure { status, text })
            == StepView::Finished(Err(http_error(status, text))),
        http_error(status, text).kind == ErrorKind::EndpointMismatch,
{
}

/// An answer outside 2xx other than 404 and 405 ends the fetch at once,
/// whichever endpoint gave it; 401 and 403 end it in an `AuthFailure`.
pub proof fn lemma_other_status_ends_fetch(pending: PendingView, status: u16, text: Seq<char>)
    requires
        status != 404,
        status != 405,
    ensures
        next_step(pending, OutcomeView::Failure { status, text }) == StepView::Finished(
            Err(http_error(status, text)),
        ),
        status == 401 || status == 403 ==> http_error(status, text).kind == ErrorKind::AuthFailure,
        status == 429 ==> http_error(status, text).kind == ErrorKind::RateLimited,
{
}

/// A 2xx answer ends the fetch at once, whichever endpoint gave it and
/// whether or not its body is a model list: no endpoint is asked after it.
/// Where the body is a model list, the fetch succeeds with the models that
/// its entries list, the endpoint that answered and the warnings so far.
pub proof fn lemma_success_ends_fetch(pending: PendingView, outcome: OutcomeView)
    requires
        outcome is Success || outcome is Undecodable || outcome is Malformed,
    ensures
        next_step(pending, outcome) is Finished,
        outcome is Success ==> next_step(pending, outcome) == StepView::Finished(
            Ok(
                ResponseView {
                    models: listed_models(outcome->entries),
                    resolved_url: pending.url(),
                    elapsed_ms: outcome->elapsed_ms,
                    warnings: pending.warnings,
                },
            ),
        ),
        !(outcome is Success) ==> next_step(pending, outcome)->Finished_0 is Err,
{
}

/// The models of a fetch that succeeds are a model list: in ascending order
/// of id, each id once, none empty.
pub proof fn lemma_fetched_models_are_a_model_list(
    url: Seq<char>,
    warnings: Seq<Seq<char>>,
    outcome: OutcomeView,
)
    requires
        final_result(url, warnings, outcome) is Ok,
    ensures
        is_model_list(final_result(url, warnings, outcome)->Ok_0.models),
{
    lemma_listed_models_are_a_model_list(outcome->entries);
}

/// While every outcome permits fallback and endpoints are left, the fetch
/// moves on by one endpoint for each outcome and gathers one warning for
/// each endpoint given up, in order.
pub proof fn lemma_run_of_fallbacks(urls: Seq<Seq<char>>, outcomes: Seq<OutcomeView>, count: int)
    requires
        0 <= count <= outcomes.len(),
        count < urls.len(),
        forall|i: int| 0 <= i < count ==> permits_fallback(#[trigger] outcomes[i]),
    ensures
        run(urls, outcomes.take(count)) == StepView::Request(
            PendingView {
                urls,
                index: count,
                warnings: fallback_warnings(urls, outcomes, count),
            },
        ),
    decreases count,
{
    if count == 0 {
        assert(outcomes.take(0).len() == 0);
        assert(fallback_warnings(urls, outcomes, 0) =~= Seq::empty());
    } else {
        lemma_run_of_fallbacks(urls, outcomes, count - 1);
        assert(outcomes.take(count).drop_last() =~= outcomes.take(count - 1));
        assert(outcomes.take(count).last() == outcomes[count - 1]);
        assert(fallback_warnings(urls, outcomes, count - 1).push(
            fallback_warning(urls[count - 1], outcomes[count - 1]),
        ) =~= fallback_warnings(urls, outcomes, count));
    }
}

/// A fetch ends on the first outcome that does not permit fallback, or on
/// the outcome of the last endpoint: its result is that of this outcome,
/// from the endpoint at its place, after one warning for each endpoint
/// before it.
pub proof fn lemma_fetch_ends_at(urls: Seq<Seq<char>>, outcomes: Seq<OutcomeView>, last: int)
    requires
        0 <= last < outcomes.len(),
        last < urls.len(),
        forall|i: int| 0 <= i < last ==> permits_fallback(#[trigger] outcomes[i]),
        last + 1 == urls.len() || !permits_fallback(outcomes[last]),
    ensures
        run(urls, outcomes) == StepView::Finished(
            final_result(urls[last], fallback_warnings(urls, outcomes, last), outcomes[last]),
        ),
{
    lemma_run_of_fallbacks(urls, outcomes, last);
    assert(outcomes.take(last + 1).drop_last() =~= outcomes.take(last));
    assert(outcomes.take(last + 1).last() == outcomes[last]);
    lemma_run_stays_finished(urls, outcomes, last + 1);
}

/// Once a fetch has ended, further outcomes change nothing.
pub proof fn lemma_run_stays_finished(
    urls: Seq<Seq<char>>,
    outcomes: Seq<OutcomeView>,
    count: int,
)
    requires
        0 <= count <= outcomes.len(),
        run(urls, outcomes.take(count)) is Finished,
    ensures
        run(urls, outcomes) == run(urls, outcomes.take(count)),
    decreases outcomes.len() - count,
{
    if count == outcomes.len() {
        assert(outcomes.take(count) =~= outcomes);
    } else {
        assert(outcomes.take(count + 1).drop_last() =~= outcomes.take(count));
        lemma_run_stays_finished(urls, outcomes, count + 1);
    }
}

/// A fetch makes no more requests than there are endpoints: after as many
/// outcomes it has ended.
pub proof fn lemma_fetch_ends_within_candidates(urls: Seq<Seq<char>>, outcomes: Seq<OutcomeView>)
    requires
        outcomes.len() >= urls.len(),
    ensures
        run(urls, outcomes) is Finished,
    decreases urls.len(),
{
    if urls.len() == 0 {
        lemma_run_stays_finished(urls, outcomes, 0);
    } else {
        let last = first_final(urls, outcomes, 0);
        lemma_first_final(urls, outcomes, 0);
        lemma_fetch_ends_at(urls, outcomes, last);
    }
}

/// The place, from `from` on, of the first outcome on which the fetch ends.
pub open spec fn first_final(urls: Seq<Seq<char>>, outcomes: Seq<OutcomeView>, from: int) -> int
    decreases urls.len() - from,
{
    if from + 1 < urls.len() && 0 <= from < outcomes.len() && permits_fallback(outcomes[from]) {
        first_final(urls, outcomes, from + 1)
    } else {
        from
    }
}

proof fn lemma_first_final(urls: Seq<Seq<char>>, outcomes: Seq<OutcomeView>, from: int)
    requires
        0 <= from < urls.len(),
        urls.len() <= outcomes.len(),
    ensures
        from <= first_final(urls, outcomes, from) < urls.len(),
        forall|i: int|
            from <= i < first_final(urls, outcomes, from) ==> permits_fallback(
                #[trigger] outcomes[i],
            ),
        first_final(urls, outcomes, from) + 1 == urls.len() || !permits_fallback(
            outcomes[first_final(urls, outcomes, from)],
        ),
    decreases urls.len() - from,
{
    if from + 1 < urls.len() && permits_fallback(outcomes[from]) {
        lemma_first_final(urls, outcomes, from + 1);
    }
}

/// Where every request runs into its timeout, the fetch asks every
/// endpoint, leaves one warning for each but the last, and ends in a
/// `TransportTimeout`.
pub proof fn lemma_timeouts_end_in_timeout(urls: Seq<Seq<char>>, outcomes: Seq<OutcomeView>)
    requires
        urls.len() > 0,
        outcomes.len() == urls.len(),
        forall|i: int|
            0 <= i < outcomes.len() ==> (#[trigger] outcomes[i]) is TransportFailed
                && outcomes[i]->timed_out,
    ensures
        run(urls, outcomes.drop_last()) == StepView::Request(
            PendingView {
                urls,
                index: urls.len() - 1,
                warnings: fallback_warnings(urls, outcomes, urls.len() - 1),
            },
        ),
        fallback_warnings(urls, outcomes, urls.len() - 1).len() == urls.len() - 1,
        run(urls, outcomes) == StepView::Finished(
            Err(transport_error(true, outcomes.last()->TransportFailed_detail)),
        ),
        transport_error(true, outcomes.last()->TransportFailed_detail).kind
            == ErrorKind::TransportTimeout,
{
    let last = urls.len() - 1;
    assert forall|i: int| 0 <= i < last implies permits_fallback(#[trigger] outcomes[i]) by {
        assert(outcomes[i] is TransportFailed);
    }
    lemma_run_of_fallbacks(urls, outcomes, last);
    assert(outcomes.take(last) =~= outcomes.drop_last());
    lemma_fetch_ends_at(urls, outcomes, last);
    assert(outcomes[last] is TransportFailed && outcomes[last]->timed_out);
}

} // verus!
