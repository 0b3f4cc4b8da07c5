//! The HTTP dispatcher: how a method and a payload become a request, and
//! how what the transport reports becomes the result of the call. The
//! library sends nothing; `Dispatch` says what is to be done next.

use crate::error::BridgeError;
use crate::error::ConversionFault;
use crate::error::ErrorKind;
use crate::error::Failure;
use crate::host::to_dynamic;
use crate::host::tree;
use crate::host::HostHeap;
use crate::json::compact_text;
use crate::json::serialize_compact;
use crate::value::DynamicValue;
use crate::value::Json;
use crate::value::Member;
use vstd::prelude::*;

verus! {

/// What `str::to_uppercase` makes of a text.
pub uninterp spec fn uppercase_of(text: Seq<char>) -> Seq<char>;

/// `str::to_uppercase`: the text with each character replaced by its
/// upper-case form, as Unicode defines it.
#[verifier::external_body]
fn to_uppercase(text: &str) -> (r: String)
    ensures
        r@ == uppercase_of(text@),
{
    text.to_uppercase()
}

/// The supported HTTP methods.
#[derive(Clone, Copy, Debug, PartialEq, Eq, Structural)]
pub enum Method {
    Get,
    Post,
    Put,
    Delete,
}

impl Method {
    /// The method that an upper-case name stands for.
    pub open spec fn named(upper: Seq<char>) -> Option<Method> {
        if upper == "GET"@ {
            Some(Method::Get)
        } else if upper == "POST"@ {
            Some(Method::Post)
        } else if upper == "PUT"@ {
            Some(Method::Put)
        } else if upper == "DELETE"@ {
            Some(Method::Delete)
        } else {
            None
        }
    }

    /// The method that an upper-case name stands for.
    pub fn from_upper(upper: &str) -> (r: Option<Method>)
        ensures
            r == Method::named(upper@),
    {
        let name = upper.to_owned();
        if name == "GET".to_owned() {
            Some(Method::Get)
        } else if name == "POST".to_owned() {
            Some(Method::Post)
        } else if name == "PUT".to_owned() {
            Some(Method::Put)
        } else if name == "DELETE".to_owned() {
            Some(Method::Delete)
        } else {
            None
        }
    }

    /// The method's name.
    pub fn name(self) -> (r: &'static str)
        ensures
            Method::named(r@) == Some(self),
    {
        proof {
            reveal_strlit("GET");
            reveal_strlit("POST");
            reveal_strlit("PUT");
            reveal_strlit("DELETE");
            assert("GET"@.len() == 3 && "POST"@.len() == 4 && "DELETE"@.len() == 6);
            assert("GET"@[0] == 'G' && "PUT"@[0] == 'P');
        }
        match self {
            Method::Get => "GET",
            Method::Post => "POST",
            Method::Put => "PUT",
            Method::Delete => "DELETE",
        }
    }

    /// A write-style method sends its payload as the body; the read-style
    /// method sends it as query parameters.
    pub open spec fn is_write_style(self) -> bool {
        self != Method::Get
    }

    /// Tells whether the method sends its payload as the body.
    pub fn sends_body(self) -> (r: bool)
        ensures
            r == self.is_write_style(),
    {
        match self {
            Method::Get => false,
            _ => true,
        }
    }
}

/// The method that a name stands for, in any case of its letters. Another
/// name is an unsupported method.
pub fn parse_method(method: &str) -> (r: Result<Method, BridgeError>)
    ensures
        match Method::named(uppercase_of(method@)) {
            Some(m) => r matches Ok(got) && got == m,
            None => r matches Err(e) && e@ == unsupported(method@),
        },
{
    let upper = to_uppercase(method);
    match Method::from_upper(upper.as_str()) {
        Some(m) => Ok(m),
        None => Err(BridgeError::new(ErrorKind::UnsupportedMethod, "不支持的方法: ", method)),
    }
}

/// The failure for a method outside the supported set.
pub open spec fn unsupported(method: Seq<char>) -> Failure {
    Failure { kind: ErrorKind::UnsupportedMethod, message: "不支持的方法: "@ + method }
}

/// The failure for a request that cannot be built.
pub open spec fn unbuildable(cause: Seq<char>) -> Failure {
    Failure { kind: ErrorKind::Network, message: "网络请求失败: builder error: "@ + cause }
}

/// The failure for a payload that is no tree of mappings.
pub open spec fn bad_payload() -> Failure {
    Failure {
        kind: ErrorKind::Conversion,
        message: "Payload 转换失败: "@ + ConversionFault::DuplicateKey.text(),
    }
}

/// The failure for a transport that could not be set up.
pub open spec fn no_client(cause: Seq<char>) -> Failure {
    Failure { kind: ErrorKind::Network, message: "构建 Client 失败: "@ + cause }
}

/// The failure for a request that the transport could not complete.
pub open spec fn no_response(cause: Seq<char>) -> Failure {
    Failure { kind: ErrorKind::Network, message: "网络请求失败: "@ + cause }
}

/// One query parameter.
pub struct Param {
    pub name: Seq<char>,
    pub value: Seq<char>,
}

/// The parameters that a list of pairs stands for.
pub open spec fn params(pairs: Seq<(String, String)>) -> Seq<Param> {
    Seq::new(pairs.len(), |i: int| Param { name: pairs[i].0@, value: pairs[i].1@ })
}

/// The text of a query parameter's value: a string as it is, a boolean as
/// `true` or `false`, a number as JSON writes it. Null, arrays and objects
/// have none.
pub open spec fn scalar_text(value: Json) -> Result<Seq<char>, Seq<char>> {
    match value {
        Json::Bool(b) => Ok(
            if b {
                "true"@
            } else {
                "false"@
            },
        ),
        Json::String(s) => Ok(s),
        Json::Number(_) => compact_text(value),
        _ => Err("unsupported value"@),
    }
}

/// The parameters of an object's members, in their order, or the cause for
/// which the first member that has none is refused.
pub open spec fn params_of(members: Seq<Member>) -> Result<Seq<Param>, Seq<char>>
    decreases members.len(),
{
    if members.len() == 0 {
        Ok(Seq::empty())
    } else {
        match params_of(members.drop_last()) {
            Err(cause) => Err(cause),
            Ok(front) => match scalar_text(members.last().value) {
                Err(cause) => Err(cause),
                Ok(text) => Ok(front.push(Param { name: members.last().key, value: text })),
            },
        }
    }
}

/// The query parameters of a payload. An object gives one parameter for
/// each member; null and the empty array give none. Nothing else can be
/// sent as a query: a member that is null or nested, an array with items,
/// a scalar payload.
pub open spec fn query_of(payload: Json) -> Result<Seq<Param>, Seq<char>> {
    match payload {
        Json::Null => Ok(Seq::empty()),
        Json::Object(members) => params_of(members),
        Json::Array(items) => if items.len() == 0 {
            Ok(Seq::empty())
        } else {
            Err("unsupported pair"@)
        },
        _ => Err("top-level serializer supports only maps and structs"@),
    }
}

/// A member that is refused is refused whatever follows it.
proof fn lemma_refusal_stays(members: Seq<Member>, n: int)
    requires
        0 <= n <= members.len(),
        params_of(members.take(n)) is Err,
    ensures
        params_of(members) == params_of(members.take(n)),
    decreases members.len() - n,
{
    if n == members.len() {
        assert(members.take(n) =~= members);
    } else {
        assert(members.take(n + 1).drop_last() =~= members.take(n));
        lemma_refusal_stays(members, n + 1);
    }
}

/// The text of a query parameter's value.
pub fn scalar_string(value: &DynamicValue) -> (r: Result<String, String>)
    ensures
        match scalar_text(value@) {
            Ok(text) => r matches Ok(s) && s@ == text,
            Err(cause) => r matches Err(s) && s@ == cause,
        },
{
    match value {
        DynamicValue::Bool(b) => Ok(
            if *b {
                "true".to_owned()
            } else {
                "false".to_owned()
            },
        ),
        DynamicValue::String(s) => Ok(s.clone()),
        DynamicValue::Number(_) => match serialize_compact(value) {
            Ok(text) => Ok(text),
            Err(e) => Err(e.message),
        },
        _ => Err("unsupported value".to_owned()),
    }
}

/// The query parameters of a payload.
pub fn query_pairs(payload: &DynamicValue) -> (r: Result<Vec<(String, String)>, String>)
    ensures
        match query_of(payload@) {
            Ok(query) => r matches Ok(pairs) && params(pairs@) == query,
            Err(cause) => r matches Err(s) && s@ == cause,
        },
{
    let mut out: Vec<(String, String)> = Vec::new();
    match payload {
        DynamicValue::Null => {
            Ok(out)
        },
        DynamicValue::Array(items) => {
            if items.len() == 0 {
                assert(params(out@) =~= Seq::<Param>::empty());
                Ok(out)
            } else {
                Err("unsupported pair".to_owned())
            }
        },
        DynamicValue::Object(members) => {
            let mut i: usize = 0;
            while i < members.len()
                invariant
                    i <= members.len(),
                    *payload == DynamicValue::Object(*members),
                    params_of(payload@->Object_0.take(i as int)) == Ok::<Seq<Param>, Seq<char>>(
                        params(out@),
                    ),
                decreases members.len() - i,
            {
                let ghost all = payload@->Object_0;
                proof {
                    assert(all.take(i as int + 1).drop_last() =~= all.take(i as int));
                }
                match scalar_string(&members[i].1) {
                    Ok(text) => {
                        let ghost before = params(out@);
                        out.push((members[i].0.clone(), text));
                        assert(params(out@) =~= before.push(
                            Param { name: all[i as int].key, value: text@ },
                        ));
                    },
                    Err(cause) => {
                        proof {
                            lemma_refusal_stays(all, i as int + 1);
                        }
                        return Err(cause);
                    },
                }
                i += 1;
            }
            assert(payload@->Object_0.take(i as int) =~= payload@->Object_0);
            Ok(out)
        },
        _ => Err("top-level serializer supports only maps and structs".to_owned()),
    }
}

/// One request, ready to be sent.
#[derive(Debug)]
pub struct RequestPlan {
    pub method: Method,
    pub url: String,
    /// The parameters to append to the URL's query, in order.
    pub query: Vec<(String, String)>,
    /// The body, JSON text to be sent with a JSON content type, if any.
    pub body: Option<String>,
    /// The limit for the whole exchange, in seconds.
    pub timeout_secs: u64,
}

/// The model of a request plan.
pub struct Plan {
    pub method: Method,
    pub url: Seq<char>,
    pub query: Seq<Param>,
    pub body: Option<Seq<char>>,
    pub timeout_secs: u64,
}

/// The text of an optional text.
pub open spec fn text_of(text: Option<String>) -> Option<Seq<char>> {
    match text {
        Some(s) => Some(s@),
        None => None,
    }
}

impl View for RequestPlan {
    type V = Plan;

    open spec fn view(&self) -> Plan {
        Plan {
            method: self.method,
            url: self.url@,
            query: params(self.query@),
            body: text_of(self.body),
            timeout_secs: self.timeout_secs,
        }
    }
}

impl RequestPlan {
    /// The content type of the body, where there is one.
    pub fn content_type(&self) -> (r: Option<&'static str>)
        ensures
            r is Some <==> self.body is Some,
            r matches Some(t) ==> t@ == "application/json"@,
    {
        match self.body {
            Some(_) => Some("application/json"),
            None => None,
        }
    }
}

/// The request that a call asks for, or the failure with which it ends
/// before anything is sent. A payload that is no tree of mappings is
/// refused first, then an unsupported method. The read-style method takes
/// the payload as query parameters and sends no body; the write-style
/// methods send it as compact JSON and add no parameters.
pub open spec fn planned(method: Seq<char>, url: Seq<char>, payload: Json, timeout_secs: u64)
    -> Result<Plan, Failure> {
    if !payload.wf() {
        Err(bad_payload())
    } else {
        match Method::named(uppercase_of(method)) {
            None => Err(unsupported(method)),
            Some(Method::Get) => match query_of(payload) {
                Ok(query) => Ok(
                    Plan { method: Method::Get, url, query, body: None, timeout_secs },
                ),
                Err(cause) => Err(unbuildable(cause)),
            },
            Some(m) => match compact_text(payload) {
                Ok(text) => Ok(
                    Plan { method: m, url, query: Seq::empty(), body: Some(text), timeout_secs },
                ),
                Err(cause) => Err(unbuildable(cause)),
            },
        }
    }
}

/// Shapes one request from a method, a URL, a payload and a timeout.
pub fn build_request(method: &str, url: &str, payload: &DynamicValue, timeout_secs: u64) -> (r:
    Result<RequestPlan, BridgeError>)
    ensures
        match planned(method@, url@, payload@, timeout_secs) {
            Ok(plan) => r matches Ok(p) && p@ == plan,
            Err(failure) => r matches Err(e) && e@ == failure,
        },
{
    if !payload.is_well_formed() {
        return Err(
            BridgeError::new(
                ErrorKind::Conversion,
                "Payload 转换失败: ",
                ConversionFault::DuplicateKey.describe().as_str(),
            ),
        );
    }
    let m = match parse_method(method) {
        Ok(m) => m,
        Err(e) => {
            return Err(e);
        },
    };
    if m.sends_body() {
        match serialize_compact(payload) {
            Ok(text) => {
                let query: Vec<(String, String)> = Vec::new();
                assert(params(query@) =~= Seq::<Param>::empty());
                Ok(
                    RequestPlan {
                        method: m,
                        url: url.to_owned(),
                        query,
                        body: Some(text),
                        timeout_secs,
                    },
                )
            },
            Err(e) => Err(
                BridgeError::new(
                    ErrorKind::Network,
                    "网络请求失败: builder error: ",
                    e.message.as_str(),
                ),
            ),
        }
    } else {
        match query_pairs(payload) {
            Ok(query) => Ok(
                RequestPlan { method: m, url: url.to_owned(), query, body: None, timeout_secs },
            ),
            Err(cause) => Err(
                BridgeError::new(
                    ErrorKind::Network,
                    "网络请求失败: builder error: ",
                    cause.as_str(),
                ),
            ),
        }
    }
}

/// The status code and the body text of one HTTP exchange. The body is
/// kept as text: a response that is no JSON does not fail the call.
#[derive(Debug)]
pub struct HttpResult {
    pub status: u16,
    pub body: String,
}

/// The body text that was read, or the empty text where the body could not
/// be decoded.
pub open spec fn body_text(body: Option<Seq<char>>) -> Seq<char> {
    match body {
        Some(text) => text,
        None => Seq::empty(),
    }
}

/// The result of an exchange that got a response, whatever its status. A
/// body that could not be decoded as text, `None`, counts as empty: it
/// does not hide the status.
pub fn decode_response(status: u16, body: Option<String>) -> (r: HttpResult)
    ensures
        r.status == status,
        r.body@ == body_text(text_of(body)),
{
    match body {
        Some(text) => HttpResult { status, body: text },
        None => HttpResult { status, body: String::new() },
    }
}

/// The failure of a transport that could not be set up.
pub fn client_failure(cause: &str) -> (r: BridgeError)
    ensures
        r@ == no_client(cause@),
{
    BridgeError::new(ErrorKind::Network, "构建 Client 失败: ", cause)
}

/// The failure of a request that the transport could not complete: no
/// connection, a timeout, any fault below HTTP.
pub fn transport_failure(cause: &str) -> (r: BridgeError)
    ensures
        r@ == no_response(cause@),
{
    BridgeError::new(ErrorKind::Network, "网络请求失败: ", cause)
}

/// What one call asks for. A payload that is absent counts as the empty
/// object.
#[derive(Debug)]
pub struct HttpRequestSpec {
    pub method: String,
    pub url: String,
    pub payload: Option<DynamicValue>,
    pub timeout_secs: u64,
}

/// The model of what one call asks for.
pub struct Request {
    pub method: Seq<char>,
    pub url: Seq<char>,
    pub payload: Json,
    pub timeout_secs: u64,
}

impl View for HttpRequestSpec {
    type V = Request;

    open spec fn view(&self) -> Request {
        Request {
            method: self.method@,
            url: self.url@,
            payload: match self.payload {
                Some(value) => value@,
                None => Json::Object(Seq::empty()),
            },
            timeout_secs: self.timeout_secs,
        }
    }
}

/// Where one call stands. A call starts in `Build` and ends in `Done` or in
/// `Failed`; nothing is kept from one call to the next.
#[derive(Debug)]
pub enum Dispatch {
    /// The request is to be shaped: report `Proceed`.
    Build(HttpRequestSpec),
    /// The plan is to be handed to the transport, with its timeout.
    Send(RequestPlan),
    /// The request is out; the response, or the fault, is to be reported.
    AwaitResponse,
    /// A response came: report `Proceed`.
    Decode { status: u16, body: Option<String> },
    /// The call has its result.
    Done(HttpResult),
    /// The call has failed.
    Failed(BridgeError),
}

/// The model of where one call stands.
pub enum Stage {
    Build(Request),
    Send(Plan),
    AwaitResponse,
    Decode { status: u16, read: Option<Seq<char>> },
    Done { status: u16, body: Seq<char> },
    Failed(Failure),
}

impl View for Dispatch {
    type V = Stage;

    open spec fn view(&self) -> Stage {
        match self {
            Dispatch::Build(request) => Stage::Build(request@),
            Dispatch::Send(plan) => Stage::Send(plan@),
            Dispatch::AwaitResponse => Stage::AwaitResponse,
            Dispatch::Decode { status, body } => Stage::Decode {
                status: *status,
                read: text_of(*body),
            },
            Dispatch::Done(result) => Stage::Done { status: result.status, body: result.body@ },
            Dispatch::Failed(error) => Stage::Failed(error@),
        }
    }
}

/// What is reported to a call.
#[derive(Debug)]
pub enum Event {
    /// Nothing happened outside: the library is to do its next step.
    Proceed,
    /// The transport took the request.
    Sent,
    /// The transport could not be set up.
    ClientFailed(String),
    /// The transport failed, or the timeout passed.
    TransportFailed(String),
    /// A response came, with this status. The body is `None` where it could
    /// not be decoded as text.
    Responded { status: u16, body: Option<String> },
}

/// The model of what is reported to a call.
pub enum Signal {
    Proceed,
    Sent,
    ClientFailed(Seq<char>),
    TransportFailed(Seq<char>),
    Responded { status: u16, body: Option<Seq<char>> },
}

impl View for Event {
    type V = Signal;

    open spec fn view(&self) -> Signal {
        match self {
            Event::Proceed => Signal::Proceed,
            Event::Sent => Signal::Sent,
            Event::ClientFailed(cause) => Signal::ClientFailed(cause@),
            Event::TransportFailed(cause) => Signal::TransportFailed(cause@),
            Event::Responded { status, body } => Signal::Responded {
                status: *status,
                body: text_of(*body),
            },
        }
    }
}

impl Stage {
    /// The call is over.
    pub open spec fn is_final(self) -> bool {
        self is Done || self is Failed
    }

    /// Something has been, or is about to be, handed to the transport.
    pub open spec fn touches_network(self) -> bool {
        self is Send || self is AwaitResponse || self is Decode || self is Done
    }
}

/// Where a call stands after a report. A report that the stage does not
/// wait for changes nothing.
pub open spec fn next(stage: Stage, signal: Signal) -> Stage {
    match (stage, signal) {
        (Stage::Build(request), Signal::Proceed) => match planned(
            request.method,
            request.url,
            request.payload,
            request.timeout_secs,
        ) {
            Ok(plan) => Stage::Send(plan),
            Err(failure) => Stage::Failed(failure),
        },
        (Stage::Send(_), Signal::Sent) => Stage::AwaitResponse,
        (Stage::Send(_), Signal::ClientFailed(cause)) => Stage::Failed(no_client(cause)),
        (Stage::Send(_), Signal::TransportFailed(cause)) => Stage::Failed(no_response(cause)),
        (Stage::AwaitResponse, Signal::TransportFailed(cause)) => Stage::Failed(
            no_response(cause),
        ),
        (Stage::AwaitResponse, Signal::Responded { status, body }) => Stage::Decode {
            status,
            read: body,
        },
        (Stage::Decode { status, read }, Signal::Proceed) => Stage::Done {
            status,
            body: body_text(read),
        },
        _ => stage,
    }
}

/// Where a call stands after a series of reports.
pub open spec fn run(stage: Stage, signals: Seq<Signal>) -> Stage
    decreases signals.len(),
{
    if signals.len() == 0 {
        stage
    } else {
        next(run(stage, signals.drop_last()), signals.last())
    }
}

impl Dispatch {
    /// A call that has not begun.
    pub fn new(request: HttpRequestSpec) -> (r: Dispatch)
        ensures
            r@ == Stage::Build(request@),
    {
        Dispatch::Build(request)
    }

    /// Takes one report and moves the call on.
    pub fn step(self, event: Event) -> (r: Dispatch)
        ensures
            r@ == next(self@, event@),
    {
        match self {
            Dispatch::Build(request) => match event {
                Event::Proceed => {
                    let HttpRequestSpec { method, url, payload, timeout_secs } = request;
                    let payload = match payload {
                        Some(value) => value,
                        None => {
                            let empty = DynamicValue::Object(Vec::new());
                            assert(empty@->Object_0 =~= Seq::<Member>::empty());
                            empty
                        },
                    };
                    match build_request(method.as_str(), url.as_str(), &payload, timeout_secs) {
                        Ok(plan) => Dispatch::Send(plan),
                        Err(e) => Dispatch::Failed(e),
                    }
                },
                _ => Dispatch::Build(request),
            },
            Dispatch::Send(plan) => match event {
                Event::Sent => Dispatch::AwaitResponse,
                Event::ClientFailed(cause) => Dispatch::Failed(client_failure(cause.as_str())),
                Event::TransportFailed(cause) => Dispatch::Failed(
                    transport_failure(cause.as_str()),
                ),
                _ => Dispatch::Send(plan),
            },
            Dispatch::AwaitResponse => match event {
                Event::TransportFailed(cause) => Dispatch::Failed(
                    transport_failure(cause.as_str()),
                ),
                Event::Responded { status, body } => Dispatch::Decode { status, body },
                _ => Dispatch::AwaitResponse,
            },
            Dispatch::Decode { status, body } => match event {
                Event::Proceed => Dispatch::Done(decode_response(status, body)),
                _ => Dispatch::Decode { status, body },
            },
            Dispatch::Done(result) => Dispatch::Done(result),
            Dispatch::Failed(error) => Dispatch::Failed(error),
        }
    }

    /// Tells whether the call is over.
    pub fn is_over(&self) -> (r: bool)
        ensures
            r == self@.is_final(),
    {
        match self {
            Dispatch::Done(_) => true,
            Dispatch::Failed(_) => true,
            _ => false,
        }
    }
}

/// A call that is over stays as it is, whatever is reported.
pub proof fn lemma_final_stays(stage: Stage, signals: Seq<Signal>)
    requires
        stage.is_final(),
    ensures
        run(stage, signals) == stage,
    decreases signals.len(),
{
    if signals.len() > 0 {
        lemma_final_stays(stage, signals.drop_last());
    }
}

/// A fault of the transport, a timeout among them, ends the call as a
/// network failure with the transport's message, whether the request was
/// still to be handed over or already out.
pub proof fn lemma_transport_fault_fails(stage: Stage, cause: Seq<char>)
    requires
        stage is Send || stage is AwaitResponse,
    ensures
        next(stage, Signal::TransportFailed(cause)) == Stage::Failed(no_response(cause)),
        no_response(cause).kind == ErrorKind::Network,
{
}

/// A call whose method is not supported never reaches the network: after
/// any series of reports it either has not begun or has failed, and once
/// begun it has failed as an unsupported method.
pub proof fn lemma_unsupported_never_sends(request: Request, signals: Seq<Signal>)
    requires
        request.payload.wf(),
        Method::named(uppercase_of(request.method)) is None,
    ensures
        !run(Stage::Build(request), signals).touches_network(),
        run(Stage::Build(request), signals) == Stage::Build(request) || run(
            Stage::Build(request),
            signals,
        ) == Stage::Failed(unsupported(request.method)),
    decreases signals.len(),
{
    if signals.len() > 0 {
        lemma_unsupported_never_sends(request, signals.drop_last());
    }
}

/// The shape of a request: the read-style method carries the payload in
/// the query and has no body; a write-style method carries it in the body,
/// as compact JSON, and has no query parameters. Method, URL and timeout
/// are those asked for.
pub proof fn lemma_plan_shape(method: Seq<char>, url: Seq<char>, payload: Json, timeout_secs: u64)
    requires
        planned(method, url, payload, timeout_secs) is Ok,
    ensures
        ({
            let plan = planned(method, url, payload, timeout_secs)->Ok_0;
            &&& Method::named(uppercase_of(method)) == Some(plan.method)
            &&& plan.url == url
            &&& plan.timeout_secs == timeout_secs
            &&& !plan.method.is_write_style() ==> plan.body is None && query_of(payload) == Ok::<
                Seq<Param>,
                Seq<char>,
            >(plan.query)
            &&& plan.method.is_write_style() ==> plan.query.len() == 0 && compact_text(payload)
                == Ok::<Seq<char>, Seq<char>>(plan.body->Some_0) && plan.body is Some
        }),
{
}

/// What one call asks for, where the payload is what a host object holds.
/// A payload without a JSON form is a conversion failure: the call ends
/// before anything else is looked at.
pub fn request_from_host(
    method: String,
    url: String,
    heap: &HostHeap,
    root: usize,
    timeout_secs: u64,
) -> (r: Result<HttpRequestSpec, BridgeError>)
    ensures
        match tree(heap.objects@, root as int, Set::empty()) {
            Ok(payload) => r matches Ok(request) && request@ == (Request {
                method: method@,
                url: url@,
                payload,
                timeout_secs,
            }),
            Err(fault) => r matches Err(e) && e@ == (Failure {
                kind: ErrorKind::Conversion,
                message: "Payload 转换失败: "@ + fault.text(),
            }),
        },
{
    match to_dynamic(heap, root) {
        Ok(payload) => Ok(HttpRequestSpec { method, url, payload: Some(payload), timeout_secs }),
        Err(fault) => Err(
            BridgeError::new(
                ErrorKind::Conversion,
                "Payload 转换失败: ",
                fault.describe().as_str(),
            ),
        ),
    }
}

} // verus!
