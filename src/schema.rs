//! The wire-message model: envelopes, and the closed set of method-specific
//! parameter and result shapes.
//!
//! Free-form JSON objects (metadata, extension members, capability bodies) are
//! held as [`JsonMap`]; a field that carries a floating-point number holds the
//! [`Number`] as it came off the wire.
use vstd::prelude::*;
use crate::json::{Json, JsonMap, Number};

verus! {

/// The literal version string of the protocol that this server speaks.
pub const PROTOCOL_VERSION_TEXT: &'static str = "2024-11-05";

/// The JSON-RPC version that every envelope carries.
pub const JSONRPC_VERSION: &'static str = "2.0";

pub const PARSE_ERROR: i64 = -32700;
pub const INVALID_REQUEST: i64 = -32600;
pub const METHOD_NOT_FOUND: i64 = -32601;
pub const INVALID_PARAMS: i64 = -32602;
pub const INTERNAL_ERROR: i64 = -32603;

/// Any wire message.
#[derive(Debug, PartialEq, Eq)]
pub enum JSONRPCMessage {
    Request(JSONRPCRequest),
    Notification(JSONRPCNotification),
    Response(JSONRPCResponse),
}

/// The protocol versions that can be negotiated.
#[derive(Debug, Clone, Copy, PartialEq, Eq, Structural)]
pub enum ProtocolVersion {
    Mcp2024_11_05,
}

/// The protocol version this server answers with.
pub const LATEST_PROTOCOL_VERSION: ProtocolVersion = ProtocolVersion::Mcp2024_11_05;

#[derive(Debug, PartialEq, Eq)]
pub enum ProgressToken {
    String(String),
    Number(i64),
}

pub type Cursor = String;

#[derive(Debug, PartialEq, Eq)]
pub struct RequestBaseMeta {
    pub progress_token: Option<ProgressToken>,
}

/// Members common to request parameters; `extra` keeps every member that no
/// field names.
#[derive(Debug, PartialEq, Eq)]
pub struct RequestBaseParams {
    pub meta: Option<RequestBaseMeta>,
    pub extra: JsonMap,
}

/// Members common to notification parameters.
#[derive(Debug, PartialEq, Eq)]
pub struct NotificationBaseParams {
    pub meta: Option<JsonMap>,
    pub extra: JsonMap,
}

/// Members common to results.
#[derive(Debug, PartialEq, Eq)]
pub struct ResultBase {
    pub meta: Option<JsonMap>,
    pub extra: JsonMap,
}

/// A result: the common members together with the method-specific ones.
#[derive(Debug, PartialEq, Eq)]
pub struct Result {
    pub base: ResultBase,
    pub defined_fields: ResultEnum,
}

/// The correlation token of a request, echoed by its response.
#[derive(Debug, PartialEq, Eq)]
pub enum RequestId {
    String(String),
    Number(i64),
}

#[derive(Debug, PartialEq, Eq)]
pub struct JSONRPCRequest {
    pub params: RequestParams,
    pub json_rpc: String,
    pub id: RequestId,
}

#[derive(Debug, PartialEq, Eq)]
pub struct JSONRPCNotification {
    pub params: NotificationParams,
    pub json_rpc: String,
}

#[derive(Debug, PartialEq, Eq)]
pub struct JSONRPCResult {
    pub json_rpc: String,
    pub id: RequestId,
    pub result: Result,
}

#[derive(Debug, PartialEq, Eq)]
pub struct JSONRPCError {
    pub json_rpc: String,
    pub id: RequestId,
    pub error: ErrorParams,
}

#[derive(Debug, PartialEq, Eq)]
pub struct ErrorParams {
    pub code: i64,
    pub message: String,
    pub data: Option<Json>,
}

#[derive(Debug, PartialEq, Eq)]
pub enum JSONRPCResponse {
    Result(JSONRPCResult),
    Error(JSONRPCError),
}

pub type EmptyResult = ResultBase;

#[derive(Debug, PartialEq, Eq)]
pub struct CancelledNotificationParams {
    pub request_id: RequestId,
    pub reason: Option<String>,
}

#[derive(Debug, PartialEq, Eq)]
pub struct InitializeRequestParams {
    pub protocol_version: ProtocolVersion,
    pub capabilities: ClientCapabilities,
    pub client_info: Implementation,
}

#[derive(Debug, PartialEq, Eq)]
pub struct InitializeResult {
    pub protocol_version: ProtocolVersion,
    pub capabilities: ServerCapabilities,
    pub server_info: Implementation,
    pub instructions: Option<String>,
}

#[derive(Debug, PartialEq, Eq)]
pub struct InitializedNotificationParams {
    pub notification_base: NotificationBaseParams,
}

/// What a client declares it supports; an absent member is not supported.
#[derive(Debug, PartialEq, Eq)]
pub struct ClientCapabilities {
    pub experimental: Option<JsonMap>,
    pub roots: Option<RootCapabilities>,
    pub sampling: Option<JsonMap>,
}

#[derive(Debug, Clone, Copy, PartialEq, Eq, Structural)]
pub struct RootCapabilities {
    pub list_changed: Option<bool>,
}

/// What the server declares it supports; an absent member is not supported.
#[derive(Debug, PartialEq, Eq)]
pub struct ServerCapabilities {
    pub experimental: Option<JsonMap>,
    pub logging: Option<JsonMap>,
    pub prompts: Option<JsonMap>,
    pub resources: Option<JsonMap>,
    pub tools: Option<JsonMap>,
}

#[derive(Debug, Clone, Copy, PartialEq, Eq, Structural)]
pub struct PromptCapabilities {
    pub list_changed: Option<bool>,
}

#[derive(Debug, Clone, Copy, PartialEq, Eq, Structural)]
pub struct ResourceCapabilities {
    pub subscribe: Option<bool>,
    pub list_changed: Option<bool>,
}

#[derive(Debug, Clone, Copy, PartialEq, Eq, Structural)]
pub struct ToolCapabilities {
    pub list_changed: Option<bool>,
}

/// The name and version of a client or server implementation.
#[derive(Debug, PartialEq, Eq)]
pub struct Implementation {
    pub name: String,
    pub version: String,
}

#[derive(Debug, PartialEq, Eq)]
pub struct PingRequestParams {
    pub request_base: RequestBaseParams,
}

#[derive(Debug, PartialEq, Eq)]
pub struct ProgressNotificationParams {
    pub progress_token: ProgressToken,
    pub progress: i64,
    pub total: Option<i64>,
}

#[derive(Debug, PartialEq, Eq)]
pub struct PaginatedRequestParams {
    pub request_base: RequestBaseParams,
    pub cursor: Option<Cursor>,
}

#[derive(Debug, PartialEq, Eq)]
pub struct PaginatedResult {
    pub next_cursor: Option<Cursor>,
}

#[derive(Debug, PartialEq, Eq)]
pub struct ListResourcesRequestParams {
    pub paginated_base: PaginatedRequestParams,
}

#[derive(Debug, PartialEq, Eq)]
pub struct ListResourcesResult {
    pub paginated_base: PaginatedResult,
    pub resources: Vec<Resource>,
}

#[derive(Debug, PartialEq, Eq)]
pub struct ListResourceTemplatesRequestParams {
    pub paginated_base: PaginatedRequestParams,
}

#[derive(Debug, PartialEq, Eq)]
pub struct ListResourcesTemplateResult {
    pub paginated_base: PaginatedResult,
    pub resources_templates: Vec<ResourceTemplate>,
}

#[derive(Debug, PartialEq, Eq)]
pub struct ReadResourceRequestParams {
    pub uri: String,
}

#[derive(Debug, PartialEq, Eq)]
pub struct ReadResourceResult {
    pub contents: Vec<ContentsResource>,
}

#[derive(Debug, PartialEq, Eq)]
pub enum ContentsResource {
    Text(TextResourceContents),
    Blob(BlobResourceContents),
}

#[derive(Debug, PartialEq, Eq)]
pub struct ResourceListChangedNotificationParams {
    pub notification_base: NotificationBaseParams,
}

#[derive(Debug, PartialEq, Eq)]
pub struct SubscribeRequestParams {
    pub uri: String,
}

#[derive(Debug, PartialEq, Eq)]
pub struct UnsubscribeRequestParams {
    pub uri: String,
}

#[derive(Debug, PartialEq, Eq)]
pub struct ResourceUpdatedNotificationParams {
    pub uri: String,
}

#[derive(Debug, PartialEq, Eq)]
pub struct Resource {
    pub annotated_base: AnnotatedBase,
    pub uri: String,
    pub name: String,
    pub description: Option<String>,
    pub mime_type: Option<String>,
}

#[derive(Debug, PartialEq, Eq)]
pub struct ResourceTemplate {
    pub annotated_base: AnnotatedBase,
    pub uri_template: String,
    pub name: String,
    pub description: Option<String>,
    pub mime_type: Option<String>,
}

#[derive(Debug, PartialEq, Eq)]
pub struct ResourceContents {
    pub uri: String,
    pub mime_type: Option<String>,
}

#[derive(Debug, PartialEq, Eq)]
pub struct TextResourceContents {
    pub resource_contents_base: ResourceContents,
    pub text: String,
}

#[derive(Debug, PartialEq, Eq)]
pub struct BlobResourceContents {
    pub resource_contents_base: ResourceContents,
    pub blob: String,
}

#[derive(Debug, PartialEq, Eq)]
pub struct ListPromptsRequestParams {
    pub paginated_base: PaginatedRequestParams,
}

#[derive(Debug, PartialEq, Eq)]
pub struct ListPromptsResult {
    pub paginated_base: PaginatedResult,
    pub prompts: Vec<Prompt>,
}

#[derive(Debug, PartialEq, Eq)]
pub struct GetPromptRequestParams {
    pub name: String,
    pub arguments: Option<Vec<(String, String)>>,
}

#[derive(Debug, PartialEq, Eq)]
pub struct GetPromptResult {
    pub description: Option<String>,
    pub messages: Vec<PromptMessage>,
}

#[derive(Debug, PartialEq, Eq)]
pub struct Prompt {
    pub name: String,
    pub description: Option<String>,
    pub arguments: Option<Vec<PromptArgument>>,
}

#[derive(Debug, PartialEq, Eq)]
pub struct PromptArgument {
    pub name: String,
    pub description: Option<String>,
    pub required: Option<bool>,
}

#[derive(Debug, Clone, Copy, PartialEq, Eq, Structural)]
pub enum Role {
    User,
    Assistant,
}

#[derive(Debug, PartialEq, Eq)]
pub struct PromptMessage {
    pub role: Role,
    pub content: PromptMessageContent,
}

#[derive(Debug, PartialEq, Eq)]
pub enum PromptMessageContent {
    Text(TextContent),
    Image(ImageContent),
    Embedded(EmbeddedResource),
}

#[derive(Debug, PartialEq, Eq)]
pub struct EmbeddedResource {
    pub annotated_base: AnnotatedBase,
    pub resource: EmbeddedResourceEnum,
}

#[derive(Debug, PartialEq, Eq)]
pub enum EmbeddedResourceEnum {
    Text(TextResourceContents),
    Blob(BlobResourceContents),
}

#[derive(Debug, PartialEq, Eq)]
pub struct PromptListChangedNotificationParams {
    pub notification_base: NotificationBaseParams,
}

#[derive(Debug, PartialEq, Eq)]
pub struct ListToolsRequestParams {
    pub paginated_base: PaginatedRequestParams,
}

#[derive(Debug, PartialEq, Eq)]
pub struct ListToolsResult {
    pub paginated_base: PaginatedResult,
    pub tools: Vec<Tool>,
}

#[derive(Debug, PartialEq, Eq)]
pub struct CallToolResult {
    pub content: Vec<CallToolContent>,
    pub is_error: Option<bool>,
}

#[derive(Debug, PartialEq, Eq)]
pub enum CallToolContent {
    Text(TextContent),
    Image(ImageContent),
    Embedded(EmbeddedResource),
}

#[derive(Debug, PartialEq, Eq)]
pub struct CallToolRequestParams {
    pub name: String,
    pub arguments: Option<JsonMap>,
}

#[derive(Debug, PartialEq, Eq)]
pub struct ToolListChangedNotificationParams {
    pub notifications_base: NotificationBaseParams,
}

#[derive(Debug, PartialEq, Eq)]
pub struct Tool {
    pub name: String,
    pub description: Option<String>,
    pub input_schema: ToolInputSchemaType,
}

#[derive(Debug, PartialEq, Eq)]
pub struct ToolInputSchema {
    pub properties: Option<JsonMap>,
    pub required: Vec<String>,
}

#[derive(Debug, PartialEq, Eq)]
pub enum ToolInputSchemaType {
    Object(ToolInputSchema),
}

#[derive(Debug, PartialEq, Eq)]
pub struct SetLevelRequestParams {
    pub level: LoggingLevel,
}

#[derive(Debug, PartialEq, Eq)]
pub struct LoggingMessageNotificationParams {
    pub level: LoggingLevel,
    pub logger: Option<String>,
    pub data: Json,
}

/// Log severity; a level that names none of the known ones is kept as text.
#[derive(Debug, PartialEq, Eq)]
pub enum LoggingLevel {
    Debug,
    Info,
    Notice,
    Warning,
    Error,
    Critical,
    Alert,
    Emergency,
    Other(String),
}

#[derive(Debug, PartialEq, Eq)]
pub struct CreateMessageRequestParams {
    pub messages: Vec<SamplingMessage>,
    pub model_preferences: Option<ModelPreferences>,
    pub system_prompt: Option<String>,
    pub temperature: Option<Number>,
    pub max_tokens: Option<u64>,
    pub stop_sequences: Option<Vec<String>>,
    pub metadata: Option<JsonMap>,
}

#[derive(Debug, PartialEq, Eq)]
pub struct CreateMessageResult {
    pub sampling_message: SamplingMessage,
    pub model: String,
    pub stop_reason: Option<StopReason>,
}

/// Why sampling stopped; a reason that names none of the known ones is kept
/// as text.
#[derive(Debug, PartialEq, Eq)]
pub enum StopReason {
    EndTurn,
    StopSequence,
    MaxTokens,
    String(String),
}

#[derive(Debug, PartialEq, Eq)]
pub struct SamplingMessage {
    pub role: Role,
    pub content: SamplingMessageContent,
}

#[derive(Debug, PartialEq, Eq)]
pub enum SamplingMessageContent {
    Text(TextContent),
    Image(ImageContent),
}

#[derive(Debug, PartialEq, Eq)]
pub struct AnnotatedBase {
    pub annotations: Option<Annotations>,
}

#[derive(Debug, PartialEq, Eq)]
pub struct Annotations {
    pub audience: Option<Vec<Role>>,
    pub priority: Option<i64>,
}

#[derive(Debug, PartialEq, Eq)]
pub struct TextContent {
    pub annotated_base: AnnotatedBase,
    pub text: String,
}

#[derive(Debug, PartialEq, Eq)]
pub struct ImageContent {
    pub annotated_base: AnnotatedBase,
    pub data: String,
    pub mime_type: String,
}

#[derive(Debug, PartialEq, Eq)]
pub struct ModelPreferences {
    pub hints: Option<Vec<ModelHint>>,
    pub cost_priority: Number,
    pub speed_priority: Number,
    pub intelligence_priority: Number,
}

#[derive(Debug, PartialEq, Eq)]
pub struct ModelHint {
    pub name: Option<String>,
}

#[derive(Debug, PartialEq, Eq)]
pub struct CompleteRequestParams {
    pub reference: CompleteRequestRef,
    pub argument: CompleteRequestArgument,
}

#[derive(Debug, PartialEq, Eq)]
pub enum CompleteRequestRef {
    Resource { uri: String },
    Prompt { name: String },
}

#[derive(Debug, PartialEq, Eq)]
pub struct CompleteRequestArgument {
    pub name: String,
    pub value: String,
}

#[derive(Debug, PartialEq, Eq)]
pub struct CompleteResult {
    pub values: Vec<String>,
    pub total: Option<i64>,
    pub has_more: Option<bool>,
}

#[derive(Debug, PartialEq, Eq)]
pub struct ListRootsRequestParams {
    pub request_base: RequestBaseParams,
}

#[derive(Debug, PartialEq, Eq)]
pub struct ListRootResult {
    pub roots: Vec<Root>,
}

#[derive(Debug, PartialEq, Eq)]
pub struct Root {
    pub uri: String,
    pub name: Option<String>,
}

#[derive(Debug, PartialEq, Eq)]
pub struct RootsListChangedNotificationParams {
    pub notification_base: NotificationBaseParams,
}

/// The parameters of a request, one variant per method.
#[derive(Debug, PartialEq, Eq)]
pub enum RequestParams {
    Initialize(InitializeRequestParams),
    Ping(PingRequestParams),
    Paginated(Option<PaginatedRequestParams>),
    ListResources(ListResourcesRequestParams),
    ListResourceTemplate(ListResourceTemplatesRequestParams),
    ReadResource(ReadResourceRequestParams),
    Subscribe(SubscribeRequestParams),
    Unsubscribe(UnsubscribeRequestParams),
    ListPrompts(ListPromptsRequestParams),
    GetPrompt(GetPromptRequestParams),
    ListTools(ListToolsRequestParams),
    CallTool(CallToolRequestParams),
    SetLevel(SetLevelRequestParams),
    CreateMessage(CreateMessageRequestParams),
    CompleteRequest(CompleteRequestParams),
    ListRoots(ListRootsRequestParams),
}

/// The parameters of a notification, one variant per method.
#[derive(Debug, PartialEq, Eq)]
pub enum NotificationParams {
    Cancelled(CancelledNotificationParams),
    Initialized(InitializedNotificationParams),
    Progress(ProgressNotificationParams),
    ResourceListChanged(ResourceListChangedNotificationParams),
    ResourceUpdated(ResourceUpdatedNotificationParams),
    PromptListChanged(PromptListChangedNotificationParams),
    ToolListChanged(ToolListChangedNotificationParams),
    LoggingMessage(LoggingMessageNotificationParams),
    RootsListChanged(RootsListChangedNotificationParams),
}

/// The method-specific members of a result.
#[derive(Debug, PartialEq, Eq)]
pub enum ResultEnum {
    Empty(EmptyResult),
    Initialize(InitializeResult),
    Paginated(PaginatedResult),
    ListResources(ListResourcesResult),
    ListResourcesTemplate(ListResourcesTemplateResult),
    ReadResource(ReadResourceResult),
    ListPrompts(ListPromptsResult),
    GetPrompt(GetPromptResult),
    ListTools(ListToolsResult),
    CallTool(CallToolResult),
    CreateMessage(CreateMessageResult),
    Complete(CompleteResult),
    ListRoot(ListRootResult),
}

} // verus!

verus! {

impl RequestId {
    /// An identical copy of the identifier.
    pub fn clone_id(&self) -> (r: RequestId)
        ensures
            r == *self,
    {
        match self {
            RequestId::String(s) => RequestId::String(s.clone()),
            RequestId::Number(n) => RequestId::Number(*n),
        }
    }
}

/// The model of an optional object.
pub open spec fn opt_map_model(m: Option<JsonMap>) -> Option<Seq<(Seq<char>, crate::json::JsonV)>> {
    match m {
        Some(v) => Some(crate::json::map_model(v@)),
        None => None,
    }
}

pub fn clone_opt_map(m: &Option<JsonMap>) -> (r: Option<JsonMap>)
    ensures
        opt_map_model(r) == opt_map_model(*m),
{
    match m {
        Some(v) => Some(crate::json::clone_map(v)),
        None => None,
    }
}

impl ServerCapabilities {
    /// `self` and `other` declare the same capabilities with the same bodies.
    pub open spec fn same_as(self, other: ServerCapabilities) -> bool {
        &&& opt_map_model(self.experimental) == opt_map_model(other.experimental)
        &&& opt_map_model(self.logging) == opt_map_model(other.logging)
        &&& opt_map_model(self.prompts) == opt_map_model(other.prompts)
        &&& opt_map_model(self.resources) == opt_map_model(other.resources)
        &&& opt_map_model(self.tools) == opt_map_model(other.tools)
    }

    pub fn clone_capabilities(&self) -> (r: ServerCapabilities)
        ensures
            r.same_as(*self),
    {
        ServerCapabilities {
            experimental: clone_opt_map(&self.experimental),
            logging: clone_opt_map(&self.logging),
            prompts: clone_opt_map(&self.prompts),
            resources: clone_opt_map(&self.resources),
            tools: clone_opt_map(&self.tools),
        }
    }
}

} // verus!
verus! {

/// Messages that only clients send.
#[derive(Debug, PartialEq, Eq)]
pub enum ClientRequestParams {
    Ping(PingRequestParams),
    Initialize(InitializeRequestParams),
    CompleteRequest(CompleteRequestParams),
    SetLevel(SetLevelRequestParams),
    GetPrompt(GetPromptRequestParams),
    ListPrompts(ListPromptsRequestParams),
    ListResources(ListResourcesRequestParams),
    ListResourceTemplate(ListResourceTemplatesRequestParams),
    ReadResource(ReadResourceRequestParams),
    Subscribe(SubscribeRequestParams),
    Unsubscribe(UnsubscribeRequestParams),
    CallTool(CallToolRequestParams),
    ListTools(ListToolsRequestParams),
}

/// The `RequestParams` value as a `ClientRequestParams`, when it is one.
pub open spec fn client_request_params_of(value: RequestParams) -> Option<ClientRequestParams> {
    match value {
        RequestParams::Ping(x) => Some(ClientRequestParams::Ping(x)),
        RequestParams::Initialize(x) => Some(ClientRequestParams::Initialize(x)),
        RequestParams::CompleteRequest(x) => Some(ClientRequestParams::CompleteRequest(x)),
        RequestParams::SetLevel(x) => Some(ClientRequestParams::SetLevel(x)),
        RequestParams::GetPrompt(x) => Some(ClientRequestParams::GetPrompt(x)),
        RequestParams::ListPrompts(x) => Some(ClientRequestParams::ListPrompts(x)),
        RequestParams::ListResources(x) => Some(ClientRequestParams::ListResources(x)),
        RequestParams::ListResourceTemplate(x) => Some(ClientRequestParams::ListResourceTemplate(x)),
        RequestParams::ReadResource(x) => Some(ClientRequestParams::ReadResource(x)),
        RequestParams::Subscribe(x) => Some(ClientRequestParams::Subscribe(x)),
        RequestParams::Unsubscribe(x) => Some(ClientRequestParams::Unsubscribe(x)),
        RequestParams::CallTool(x) => Some(ClientRequestParams::CallTool(x)),
        RequestParams::ListTools(x) => Some(ClientRequestParams::ListTools(x)),
        _ => None,
    }
}

impl From<RequestParams> for Option<ClientRequestParams> {
    fn from(value: RequestParams) -> Self {
        match value {
            RequestParams::Ping(x) => Some(ClientRequestParams::Ping(x)),
            RequestParams::Initialize(x) => Some(ClientRequestParams::Initialize(x)),
            RequestParams::CompleteRequest(x) => Some(ClientRequestParams::CompleteRequest(x)),
            RequestParams::SetLevel(x) => Some(ClientRequestParams::SetLevel(x)),
            RequestParams::GetPrompt(x) => Some(ClientRequestParams::GetPrompt(x)),
            RequestParams::ListPrompts(x) => Some(ClientRequestParams::ListPrompts(x)),
            RequestParams::ListResources(x) => Some(ClientRequestParams::ListResources(x)),
            RequestParams::ListResourceTemplate(x) => Some(ClientRequestParams::ListResourceTemplate(x)),
            RequestParams::ReadResource(x) => Some(ClientRequestParams::ReadResource(x)),
            RequestParams::Subscribe(x) => Some(ClientRequestParams::Subscribe(x)),
            RequestParams::Unsubscribe(x) => Some(ClientRequestParams::Unsubscribe(x)),
            RequestParams::CallTool(x) => Some(ClientRequestParams::CallTool(x)),
            RequestParams::ListTools(x) => Some(ClientRequestParams::ListTools(x)),
            _ => None,
        }
    }
}

impl vstd::std_specs::convert::FromSpecImpl<RequestParams> for Option<ClientRequestParams> {
    open spec fn obeys_from_spec() -> bool {
        true
    }

    open spec fn from_spec(value: RequestParams) -> Self {
        client_request_params_of(value)
    }
}

/// Notifications that clients send.
#[derive(Debug, PartialEq, Eq)]
pub enum ClientNotificationParams {
    Cancelled(CancelledNotificationParams),
    Progress(ProgressNotificationParams),
    Initialized(InitializedNotificationParams),
    RootsListChanged(RootsListChangedNotificationParams),
}

/// The `NotificationParams` value as a `ClientNotificationParams`, when it is one.
pub open spec fn client_notification_params_of(value: NotificationParams) -> Option<ClientNotificationParams> {
    match value {
        NotificationParams::Cancelled(x) => Some(ClientNotificationParams::Cancelled(x)),
        NotificationParams::Progress(x) => Some(ClientNotificationParams::Progress(x)),
        NotificationParams::Initialized(x) => Some(ClientNotificationParams::Initialized(x)),
        NotificationParams::RootsListChanged(x) => Some(ClientNotificationParams::RootsListChanged(x)),
        _ => None,
    }
}

impl From<NotificationParams> for Option<ClientNotificationParams> {
    fn from(value: NotificationParams) -> Self {
        match value {
            NotificationParams::Cancelled(x) => Some(ClientNotificationParams::Cancelled(x)),
            NotificationParams::Progress(x) => Some(ClientNotificationParams::Progress(x)),
            NotificationParams::Initialized(x) => Some(ClientNotificationParams::Initialized(x)),
            NotificationParams::RootsListChanged(x) => Some(ClientNotificationParams::RootsListChanged(x)),
            _ => None,
        }
    }
}

impl vstd::std_specs::convert::FromSpecImpl<NotificationParams> for Option<ClientNotificationParams> {
    open spec fn obeys_from_spec() -> bool {
        true
    }

    open spec fn from_spec(value: NotificationParams) -> Self {
        client_notification_params_of(value)
    }
}

/// Results that clients send.
#[derive(Debug, PartialEq, Eq)]
pub enum ClientResult {
    Empty(EmptyResult),
    CreateMessage(CreateMessageResult),
    ListRoot(ListRootResult),
}

/// The `ResultEnum` value as a `ClientResult`, when it is one.
pub open spec fn client_result_of(value: ResultEnum) -> Option<ClientResult> {
    match value {
        ResultEnum::Empty(x) => Some(ClientResult::Empty(x)),
        ResultEnum::CreateMessage(x) => Some(ClientResult::CreateMessage(x)),
        ResultEnum::ListRoot(x) => Some(ClientResult::ListRoot(x)),
        _ => None,
    }
}

impl From<ResultEnum> for Option<ClientResult> {
    fn from(value: ResultEnum) -> Self {
        match value {
            ResultEnum::Empty(x) => Some(ClientResult::Empty(x)),
            ResultEnum::CreateMessage(x) => Some(ClientResult::CreateMessage(x)),
            ResultEnum::ListRoot(x) => Some(ClientResult::ListRoot(x)),
            _ => None,
        }
    }
}

impl vstd::std_specs::convert::FromSpecImpl<ResultEnum> for Option<ClientResult> {
    open spec fn obeys_from_spec() -> bool {
        true
    }

    open spec fn from_spec(value: ResultEnum) -> Self {
        client_result_of(value)
    }
}

/// Requests that servers send.
#[derive(Debug, PartialEq, Eq)]
pub enum ServerRequestParams {
    Ping(PingRequestParams),
    CreateMessage(CreateMessageRequestParams),
    ListRoots(ListRootsRequestParams),
}

/// The `RequestParams` value as a `ServerRequestParams`, when it is one.
pub open spec fn server_request_params_of(value: RequestParams) -> Option<ServerRequestParams> {
    match value {
        RequestParams::Ping(x) => Some(ServerRequestParams::Ping(x)),
        RequestParams::CreateMessage(x) => Some(ServerRequestParams::CreateMessage(x)),
        RequestParams::ListRoots(x) => Some(ServerRequestParams::ListRoots(x)),
        _ => None,
    }
}

impl From<RequestParams> for Option<ServerRequestParams> {
    fn from(value: RequestParams) -> Self {
        match value {
            RequestParams::Ping(x) => Some(ServerRequestParams::Ping(x)),
            RequestParams::CreateMessage(x) => Some(ServerRequestParams::CreateMessage(x)),
            RequestParams::ListRoots(x) => Some(ServerRequestParams::ListRoots(x)),
            _ => None,
        }
    }
}

impl vstd::std_specs::convert::FromSpecImpl<RequestParams> for Option<ServerRequestParams> {
    open spec fn obeys_from_spec() -> bool {
        true
    }

    open spec fn from_spec(value: RequestParams) -> Self {
        server_request_params_of(value)
    }
}

/// Notifications that servers send.
#[derive(Debug, PartialEq, Eq)]
pub enum ServerNotificationParams {
    Cancelled(CancelledNotificationParams),
    Progress(ProgressNotificationParams),
    LoggingMessage(LoggingMessageNotificationParams),
    ResourceUpdated(ResourceUpdatedNotificationParams),
    ResourceListChanged(ResourceListChangedNotificationParams),
    ToolListChanged(ToolListChangedNotificationParams),
    PromptListChanged(PromptListChangedNotificationParams),
}

/// The `NotificationParams` value as a `ServerNotificationParams`, when it is one.
pub open spec fn server_notification_params_of(value: NotificationParams) -> Option<ServerNotificationParams> {
    match value {
        NotificationParams::Cancelled(x) => Some(ServerNotificationParams::Cancelled(x)),
        NotificationParams::Progress(x) => Some(ServerNotificationParams::Progress(x)),
        NotificationParams::LoggingMessage(x) => Some(ServerNotificationParams::LoggingMessage(x)),
        NotificationParams::ResourceUpdated(x) => Some(ServerNotificationParams::ResourceUpdated(x)),
        NotificationParams::ResourceListChanged(x) => Some(ServerNotificationParams::ResourceListChanged(x)),
        NotificationParams::ToolListChanged(x) => Some(ServerNotificationParams::ToolListChanged(x)),
        NotificationParams::PromptListChanged(x) => Some(ServerNotificationParams::PromptListChanged(x)),
        _ => None,
    }
}

impl From<NotificationParams> for Option<ServerNotificationParams> {
    fn from(value: NotificationParams) -> Self {
        match value {
            NotificationParams::Cancelled(x) => Some(ServerNotificationParams::Cancelled(x)),
            NotificationParams::Progress(x) => Some(ServerNotificationParams::Progress(x)),
            NotificationParams::LoggingMessage(x) => Some(ServerNotificationParams::LoggingMessage(x)),
            NotificationParams::ResourceUpdated(x) => Some(ServerNotificationParams::ResourceUpdated(x)),
            NotificationParams::ResourceListChanged(x) => Some(ServerNotificationParams::ResourceListChanged(x)),
            NotificationParams::ToolListChanged(x) => Some(ServerNotificationParams::ToolListChanged(x)),
            NotificationParams::PromptListChanged(x) => Some(ServerNotificationParams::PromptListChanged(x)),
            _ => None,
        }
    }
}

impl vstd::std_specs::convert::FromSpecImpl<NotificationParams> for Option<ServerNotificationParams> {
    open spec fn obeys_from_spec() -> bool {
        true
    }

    open spec fn from_spec(value: NotificationParams) -> Self {
        server_notification_params_of(value)
    }
}

/// Results that servers send.
#[derive(Debug, PartialEq, Eq)]
pub enum ServerResult {
    Empty(EmptyResult),
    Initialize(InitializeResult),
    Complete(CompleteResult),
    GetPrompt(GetPromptResult),
    ListPrompts(ListPromptsResult),
    ListResources(ListResourcesResult),
    ListResourcesTemplate(ListResourcesTemplateResult),
    ReadResource(ReadResourceResult),
    CallTool(CallToolResult),
    ListTools(ListToolsResult),
}

/// The `ResultEnum` value as a `ServerResult`, when it is one.
pub open spec fn server_result_of(value: ResultEnum) -> Option<ServerResult> {
    match value {
        ResultEnum::Empty(x) => Some(ServerResult::Empty(x)),
        ResultEnum::Initialize(x) => Some(ServerResult::Initialize(x)),
        ResultEnum::Complete(x) => Some(ServerResult::Complete(x)),
        ResultEnum::GetPrompt(x) => Some(ServerResult::GetPrompt(x)),
        ResultEnum::ListPrompts(x) => Some(ServerResult::ListPrompts(x)),
        ResultEnum::ListResources(x) => Some(ServerResult::ListResources(x)),
        ResultEnum::ListResourcesTemplate(x) => Some(ServerResult::ListResourcesTemplate(x)),
        ResultEnum::ReadResource(x) => Some(ServerResult::ReadResource(x)),
        ResultEnum::CallTool(x) => Some(ServerResult::CallTool(x)),
        ResultEnum::ListTools(x) => Some(ServerResult::ListTools(x)),
        _ => None,
    }
}

impl From<ResultEnum> for Option<ServerResult> {
    fn from(value: ResultEnum) -> Self {
        match value {
            ResultEnum::Empty(x) => Some(ServerResult::Empty(x)),
            ResultEnum::Initialize(x) => Some(ServerResult::Initialize(x)),
            ResultEnum::Complete(x) => Some(ServerResult::Complete(x)),
            ResultEnum::GetPrompt(x) => Some(ServerResult::GetPrompt(x)),
            ResultEnum::ListPrompts(x) => Some(ServerResult::ListPrompts(x)),
            ResultEnum::ListResources(x) => Some(ServerResult::ListResources(x)),
            ResultEnum::ListResourcesTemplate(x) => Some(ServerResult::ListResourcesTemplate(x)),
            ResultEnum::ReadResource(x) => Some(ServerResult::ReadResource(x)),
            ResultEnum::CallTool(x) => Some(ServerResult::CallTool(x)),
            ResultEnum::ListTools(x) => Some(ServerResult::ListTools(x)),
            _ => None,
        }
    }
}

impl vstd::std_specs::convert::FromSpecImpl<ResultEnum> for Option<ServerResult> {
    open spec fn obeys_from_spec() -> bool {
        true
    }

    open spec fn from_spec(value: ResultEnum) -> Self {
        server_result_of(value)
    }
}

} // verus!

verus! {

impl Default for ErrorParams {
    /// An internal error with a generic message.
    fn default() -> (r: ErrorParams)
        ensures
            r.code == INTERNAL_ERROR,
            r.message@ == "Unknown error ocurred"@,
            r.data is None,
    {
        ErrorParams { code: INTERNAL_ERROR, message: "Unknown error ocurred".to_owned(), data: None }
    }
}

} // verus!
