//! The errors a model listing can end in, and the messages they carry.

use crate::text::{chars_of, decimal, push_decimal, trim, trim_chars};
use vstd::prelude::*;

verus! {

/// Why a model listing failed.
#[derive(Clone, Copy, PartialEq, Eq, Debug, Structural)]
pub enum ErrorKind {
    /// The base URL or the API key is empty.
    InvalidInput,
    /// No provider is stored under the given id.
    NotFound,
    /// The server answered 401 or 403.
    AuthFailure,
    /// The server answered 404 or 405 on the last endpoint tried.
    EndpointMismatch,
    /// The server answered 429.
    RateLimited,
    /// The server answered with another status outside 2xx.
    HttpFailure,
    /// The request ran into its timeout.
    TransportTimeout,
    /// The request failed below HTTP for another reason.
    TransportOther,
    /// A 2xx answer whose body is not JSON, or not a model list.
    ParseFailure,
    /// There was no endpoint to try.
    FetchFailed,
}

/// A failed model listing: its kind and the message shown to the user.
#[derive(Debug)]
pub struct FetchError {
    pub kind: ErrorKind,
    pub message: String,
}

/// The mathematical value of a `FetchError`.
pub ghost struct ErrorView {
    pub kind: ErrorKind,
    pub message: Seq<char>,
}

impl View for FetchError {
    type V = ErrorView;

    open spec fn view(&self) -> ErrorView {
        ErrorView { kind: self.kind, message: self.message@ }
    }
}

/// How much of a response body an error message quotes, in characters.
pub const EXCERPT_CHARS: usize = 180;

/// `s` with every line feed replaced by a space.
pub open spec fn single_line(s: Seq<char>) -> Seq<char> {
    s.map_values(
        |c: char|
            if c == '\n' {
                ' '
            } else {
                c
            },
    )
}

/// The first `EXCERPT_CHARS` characters of `s`, followed by `...` where
/// `s` is longer than that.
pub open spec fn excerpt(s: Seq<char>) -> Seq<char> {
    if s.len() > EXCERPT_CHARS {
        s.take(EXCERPT_CHARS as int) + "..."@
    } else {
        s
    }
}

/// What an error message quotes of a response body: nothing for a blank
/// body, else `: ` and the trimmed body on one line, cut to the excerpt.
pub open spec fn error_tail(body: Seq<char>) -> Seq<char> {
    let text = trim(body);
    if text.len() == 0 {
        Seq::empty()
    } else {
        ": "@ + excerpt(single_line(text))
    }
}

/// Compacts a response body into the tail of an error message.
pub fn compact_error_tail(body: &str) -> (tail: String)
    ensures
        tail@ == error_tail(body@),
{
    let chars = chars_of(body);
    let text = trim_chars(&chars);
    if text.len() == 0 {
        return String::new();
    }
    let mut tail = String::new();
    tail.append(": ");
    let ghost line = single_line(text@);
    let mut i: usize = 0;
    while i < text.len() && i < EXCERPT_CHARS
        invariant
            i <= text.len(),
            i <= EXCERPT_CHARS,
            line == single_line(text@),
            tail@ == ": "@ + line.take(i as int),
        decreases text.len() - i,
    {
        let c = text[i];
        tail.push(
            if c == '\n' {
                ' '
            } else {
                c
            },
        );
        proof {
            assert(line.take(i + 1) =~= line.take(i as int).push(line[i as int]));
            assert((": "@ + line.take(i as int)).push(line[i as int]) =~= ": "@ + line.take(i + 1));
        }
        i += 1;
    }
    if text.len() > EXCERPT_CHARS {
        tail.append("...");
        assert(tail@ =~= ": "@ + (line.take(EXCERPT_CHARS as int) + "..."@));
    } else {
        assert(line.take(i as int) =~= line);
    }
    tail
}

/// The kind of error that a status outside 2xx stands for.
pub open spec fn http_error_kind(status: u16) -> ErrorKind {
    if status == 401 || status == 403 {
        ErrorKind::AuthFailure
    } else if status == 404 || status == 405 {
        ErrorKind::EndpointMismatch
    } else if status == 429 {
        ErrorKind::RateLimited
    } else {
        ErrorKind::HttpFailure
    }
}

/// The sentence that opens the message for an HTTP error of the given kind.
pub open spec fn http_error_headline(kind: ErrorKind) -> Seq<char> {
    match kind {
        ErrorKind::AuthFailure => "鉴权失败，请检查 API Key"@,
        ErrorKind::EndpointMismatch => "模型接口不存在，请确认端点是否 OpenAI 兼容"@,
        ErrorKind::RateLimited => "请求过于频繁，请稍后重试"@,
        _ => "获取模型失败"@,
    }
}

/// The message for a status outside 2xx: the headline of its kind, the
/// status in brackets, and the tail quoted from the body.
pub open spec fn http_error_message(status: u16, body: Seq<char>) -> Seq<char> {
    http_error_headline(http_error_kind(status)) + "（HTTP "@ + decimal(status as nat) + "）"@
        + error_tail(body)
}

/// The error that a status outside 2xx, with the body that came with it,
/// stands for.
pub open spec fn http_error(status: u16, body: Seq<char>) -> ErrorView {
    ErrorView { kind: http_error_kind(status), message: http_error_message(status, body) }
}

/// Classifies a status outside 2xx and words the error for it.
pub fn map_http_status_error(status: u16, body: &str) -> (error: FetchError)
    ensures
        error@ == http_error(status, body@),
{
    let tail = compact_error_tail(body);
    let kind = if status == 401 || status == 403 {
        ErrorKind::AuthFailure
    } else if status == 404 || status == 405 {
        ErrorKind::EndpointMismatch
    } else if status == 429 {
        ErrorKind::RateLimited
    } else {
        ErrorKind::HttpFailure
    };
    let mut message = String::new();
    match kind {
        ErrorKind::AuthFailure => message.append("鉴权失败，请检查 API Key"),
        ErrorKind::EndpointMismatch => message.append("模型接口不存在，请确认端点是否 OpenAI 兼容"),
        ErrorKind::RateLimited => message.append("请求过于频繁，请稍后重试"),
        _ => message.append("获取模型失败"),
    }
    assert(message@ =~= http_error_headline(kind));
    message.append("（HTTP ");
    push_decimal(&mut message, status as u64);
    message.append("）");
    message.append(tail.as_str());
    FetchError { kind, message }
}

/// A request that failed below HTTP, as the transport reports it.
#[derive(Debug)]
pub struct TransportFailure {
    /// Whether the request ran into its timeout.
    pub timed_out: bool,
    /// The transport's own description of the failure.
    pub detail: String,
}

pub open spec fn transport_error_kind(timed_out: bool) -> ErrorKind {
    if timed_out {
        ErrorKind::TransportTimeout
    } else {
        ErrorKind::TransportOther
    }
}

pub open spec fn transport_error_message(timed_out: bool, detail: Seq<char>) -> Seq<char> {
    if timed_out {
        "请求超时，请检查网络或代理配置"@
    } else {
        "请求失败: "@ + detail
    }
}

/// The error that a request that failed below HTTP stands for.
pub open spec fn transport_error(timed_out: bool, detail: Seq<char>) -> ErrorView {
    ErrorView {
        kind: transport_error_kind(timed_out),
        message: transport_error_message(timed_out, detail),
    }
}

/// Words the error for a request that failed below HTTP: a timeout gets a
/// message of its own, anything else is quoted.
pub fn map_request_error(failure: &TransportFailure) -> (error: FetchError)
    ensures
        error@ == transport_error(failure.timed_out, failure.detail@),
{
    let mut message = String::new();
    if failure.timed_out {
        message.append("请求超时，请检查网络或代理配置");
        assert(message@ =~= "请求超时，请检查网络或代理配置"@);
        FetchError { kind: ErrorKind::TransportTimeout, message }
    } else {
        message.append("请求失败: ");
        message.append(failure.detail.as_str());
        FetchError { kind: ErrorKind::TransportOther, message }
    }
}

/// The error for a 2xx answer whose body cannot be read as JSON.
pub open spec fn undecodable_error(why: Seq<char>) -> ErrorView {
    ErrorView { kind: ErrorKind::ParseFailure, message: "模型接口返回非 JSON: "@ + why }
}

/// Words the error for a 2xx answer whose body cannot be read as JSON,
/// quoting the decoder.
pub fn map_decode_error(why: &str) -> (error: FetchError)
    ensures
        error@ == undecodable_error(why@),
{
    let mut message = String::new();
    message.append("模型接口返回非 JSON: ");
    message.append(why);
    FetchError { kind: ErrorKind::ParseFailure, message }
}

/// The error for a fetch that had no endpoint to try.
pub open spec fn no_candidate_error() -> ErrorView {
    ErrorView { kind: ErrorKind::FetchFailed, message: "获取模型失败"@ }
}

/// The error for an input that is empty once trimmed; `what` names it.
pub open spec fn empty_input_error(what: Seq<char>) -> ErrorView {
    ErrorView { kind: ErrorKind::InvalidInput, message: what + " 不能为空"@ }
}

/// The error for a provider id under which nothing is stored.
pub open spec fn provider_not_found_error(provider_id: Seq<char>) -> ErrorView {
    ErrorView { kind: ErrorKind::NotFound, message: "供应商 "@ + provider_id + " 不存在"@ }
}

/// Words the error for a provider id under which nothing is stored.
pub fn provider_not_found(provider_id: &str) -> (error: FetchError)
    ensures
        error@ == provider_not_found_error(provider_id@),
{
    let mut message = String::new();
    message.append("供应商 ");
    message.append(provider_id);
    message.append(" 不存在");
    FetchError { kind: ErrorKind::NotFound, message }
}

/// A body longer than the excerpt is quoted as `: `, its first
/// `EXCERPT_CHARS` characters on one line, and `...`; the message for a
/// status ends with that quotation.
pub proof fn lemma_long_body_is_cut(status: u16, body: Seq<char>)
    requires
        trim(body).len() > EXCERPT_CHARS,
    ensures
        error_tail(body) == ": "@ + single_line(trim(body)).take(EXCERPT_CHARS as int) + "..."@,
        error_tail(body).len() == 2 + EXCERPT_CHARS + 3,
        single_line(trim(body)).take(EXCERPT_CHARS as int).len() == EXCERPT_CHARS,
        http_error(status, body).message == http_error_headline(http_error_kind(status))
            + "（HTTP "@ + decimal(status as nat) + "）"@ + ": "@ + single_line(trim(body)).take(
            EXCERPT_CHARS as int,
        ) + "..."@,
{
    reveal_strlit(": ");
    reveal_strlit("...");
    let line = single_line(trim(body));
    let quoted = ": "@ + line.take(EXCERPT_CHARS as int) + "..."@;
    assert(error_tail(body) =~= quoted);
    let opening = http_error_headline(http_error_kind(status)) + "（HTTP "@ + decimal(
        status as nat,
    ) + "）"@;
    assert(opening + quoted =~= opening + ": "@ + line.take(EXCERPT_CHARS as int) + "..."@);
}

/// A body that fits the excerpt is quoted whole, on one line, and a blank
/// one not at all.
pub proof fn lemma_short_body_is_quoted_whole(body: Seq<char>)
    requires
        trim(body).len() <= EXCERPT_CHARS,
    ensures
        trim(body).len() == 0 ==> error_tail(body).len() == 0,
        trim(body).len() > 0 ==> error_tail(body) == ": "@ + single_line(trim(body)),
{
}

} // verus!
