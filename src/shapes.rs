//! The canonical encoding of each parameter, content and result shape, and
//! reading it back.
use vstd::prelude::*;
use crate::json::{Json, JsonMap, JsonV, Number, map_model};
use crate::record::{
    Fields, Pairs, build, field_keys, fields_model, find, fresh, key_model, lemma_record_get,
    lemma_record_rest, present, record, rest, separable,
};
use crate::schema::{
    AnnotatedBase, Annotations, BlobResourceContents, CallToolContent, CallToolRequestParams,
    CallToolResult, CancelledNotificationParams, ClientCapabilities, CompleteRequestArgument,
    CompleteRequestParams, CompleteResult, ContentsResource, CreateMessageRequestParams,
    CreateMessageResult, EmbeddedResource, EmbeddedResourceEnum, ErrorParams,
    GetPromptRequestParams, GetPromptResult, ImageContent, Implementation,
    InitializeRequestParams, InitializeResult, ListPromptsResult, ListResourcesResult,
    ListResourcesTemplateResult, ListRootResult, ListRootsRequestParams, ListToolsResult,
    LoggingMessageNotificationParams, ModelHint, ModelPreferences, NotificationBaseParams,
    PaginatedRequestParams, PaginatedResult, PingRequestParams, ProgressNotificationParams,
    Prompt, PromptArgument, PromptMessage, PromptMessageContent, ReadResourceRequestParams,
    ReadResourceResult, RequestBaseMeta, RequestBaseParams, Resource, ResourceContents,
    ResourceTemplate, ResourceUpdatedNotificationParams, Root, RootCapabilities,
    SamplingMessage, SamplingMessageContent, ServerCapabilities, SetLevelRequestParams,
    SubscribeRequestParams, TextContent, TextResourceContents, Tool, ToolInputSchema,
    ToolInputSchemaType, UnsubscribeRequestParams,
};

use crate::wire::{
    WireShape, as_object, decode_complete_request_ref, decode_logging_level,
    decode_progress_token, decode_protocol_version, decode_request_id, decode_role,
    decode_stop_reason, decode_vec, enc_opt_bool, enc_opt_int, enc_opt_json, enc_opt_number,
    enc_opt_obj, enc_opt_str, enc_opt_strmap, enc_opt_u64, enc_str, encode_complete_request_ref,
    encode_logging_level, encode_progress_token, encode_protocol_version, encode_request_id,
    encode_role, encode_stop_reason, encode_vec, int_v, opt_bool, opt_bool_v, opt_int,
    opt_int_v, opt_json_v, opt_number, opt_number_v, opt_obj, opt_obj_v, opt_seq_enc,
    opt_seq_wf, opt_str, opt_str_v, opt_strmap, opt_strmap_v, opt_u64, opt_u64_v, req_int,
    req_number, req_str, seq_enc, seq_wf, str_v,
};
use crate::codec::DecodeError;

verus! {

impl Implementation {
    /// The fields of the canonical encoding, in order.
    pub open spec fn fields(self) -> Fields {
        seq![("name"@, Some(str_v(self.name))), ("version"@, Some(str_v(self.version)))]
    }

    /// The canonical encoding.
    pub open spec fn enc(self) -> JsonV {
        record(self.fields(), Seq::empty())
    }

    /// The value can be told apart from its neighbours on the wire.
    pub open spec fn wf(self) -> bool {
        true
    }
}

/// The member names that Implementation's fields take.
pub open spec fn implementation_reserved() -> Seq<Seq<char>> {
    seq!["name"@, "version"@]
}

pub(crate) proof fn lemma_implementation_separable(t: Implementation)
    requires
        t.wf(),
    ensures
        separable(t.fields(), Seq::empty(), implementation_reserved()),
{
    reveal_strlit("name");
    reveal_strlit("version");
    assert("name"@.len() == 4);
    assert("version"@.len() == 7);
    assert(field_keys(t.fields()) =~= seq!["name"@, "version"@]);
    assert(implementation_reserved()[0] == t.fields()[0].0);
    assert(implementation_reserved()[1] == t.fields()[1].0);
    assert(fresh(Seq::empty(), implementation_reserved()));
}

pub fn encode_implementation(x: &Implementation) -> (r: Json)
    ensures
        r.model() == x.enc(),
{
    let fs = vec![("name", enc_str(&x.name)), ("version", enc_str(&x.version))];
    proof {
        assert(fields_model(fs@) =~= x.fields());
    }
    build(fs, Vec::new())
}

pub fn decode_implementation(j: &Json) -> (r: Result<Implementation, DecodeError>)
    ensures
        !(j.model() is Object) ==> r == Err::<Implementation, DecodeError>(DecodeError::InvalidParams),
        (exists|t: Implementation| t.wf() && t.enc() == j.model()) ==> (r matches Ok(t) && t.wf() && t.enc() == j.model()),
{
    let ghost canon = exists|t: Implementation| t.wf() && t.enc() == j.model();
    let ghost t = choose|t: Implementation| t.wf() && t.enc() == j.model();
    let o = as_object(j)?;
    proof {
        if canon {
            lemma_implementation_separable(t);
            lemma_record_get(t.fields(), Seq::<(Seq<char>, JsonV)>::empty(), implementation_reserved(), 0);
            lemma_record_get(t.fields(), Seq::<(Seq<char>, JsonV)>::empty(), implementation_reserved(), 1);
            assert(present(t.fields()) + Seq::<(Seq<char>, JsonV)>::empty() =~= present(t.fields()));
        }
    }
    let f_name = req_str(o, "name")?;
    let f_version = req_str(o, "version")?;
    let r = Implementation { name: f_name, version: f_version };
    proof {
        if canon {
            assert(r.fields() =~= t.fields());
        }
    }
    Ok(r)
}

impl RootCapabilities {
    /// The fields of the canonical encoding, in order.
    pub open spec fn fields(self) -> Fields {
        seq![("listChanged"@, opt_bool_v(self.list_changed))]
    }

    /// The canonical encoding.
    pub open spec fn enc(self) -> JsonV {
        record(self.fields(), Seq::empty())
    }

    /// The value can be told apart from its neighbours on the wire.
    pub open spec fn wf(self) -> bool {
        true
    }
}

/// The member names that RootCapabilities's fields take.
pub open spec fn root_capabilities_reserved() -> Seq<Seq<char>> {
    seq!["listChanged"@]
}

pub(crate) proof fn lemma_root_capabilities_separable(t: RootCapabilities)
    requires
        t.wf(),
    ensures
        separable(t.fields(), Seq::empty(), root_capabilities_reserved()),
{
    reveal_strlit("listChanged");
    assert("listChanged"@.len() == 11);
    assert(field_keys(t.fields()) =~= seq!["listChanged"@]);
    assert(root_capabilities_reserved()[0] == t.fields()[0].0);
    assert(fresh(Seq::empty(), root_capabilities_reserved()));
}

pub fn encode_root_capabilities(x: &RootCapabilities) -> (r: Json)
    ensures
        r.model() == x.enc(),
{
    let fs = vec![("listChanged", enc_opt_bool(&x.list_changed))];
    proof {
        assert(fields_model(fs@) =~= x.fields());
    }
    build(fs, Vec::new())
}

pub fn decode_root_capabilities(j: &Json) -> (r: Result<RootCapabilities, DecodeError>)
    ensures
        !(j.model() is Object) ==> r == Err::<RootCapabilities, DecodeError>(DecodeError::InvalidParams),
        (exists|t: RootCapabilities| t.wf() && t.enc() == j.model()) ==> (r matches Ok(t) && t.wf() && t.enc() == j.model()),
{
    let ghost canon = exists|t: RootCapabilities| t.wf() && t.enc() == j.model();
    let ghost t = choose|t: RootCapabilities| t.wf() && t.enc() == j.model();
    let o = as_object(j)?;
    proof {
        if canon {
            lemma_root_capabilities_separable(t);
            lemma_record_get(t.fields(), Seq::<(Seq<char>, JsonV)>::empty(), root_capabilities_reserved(), 0);
            assert(present(t.fields()) + Seq::<(Seq<char>, JsonV)>::empty() =~= present(t.fields()));
        }
    }
    let f_list_changed = opt_bool(o, "listChanged")?;
    let r = RootCapabilities { list_changed: f_list_changed };
    proof {
        if canon {
            assert(r.fields() =~= t.fields());
        }
    }
    Ok(r)
}

impl ClientCapabilities {
    /// The fields of the canonical encoding, in order.
    pub open spec fn fields(self) -> Fields {
        seq![("experimental"@, opt_obj_v(self.experimental)), ("roots"@, (match self.roots { Some(x) => Some(x.enc()), None => None })), ("sampling"@, opt_obj_v(self.sampling))]
    }

    /// The canonical encoding.
    pub open spec fn enc(self) -> JsonV {
        record(self.fields(), Seq::empty())
    }

    /// The value can be told apart from its neighbours on the wire.
    pub open spec fn wf(self) -> bool {
        (self.roots matches Some(x) ==> x.wf())
    }
}

/// The member names that ClientCapabilities's fields take.
pub open spec fn client_capabilities_reserved() -> Seq<Seq<char>> {
    seq!["experimental"@, "roots"@, "sampling"@]
}

pub(crate) proof fn lemma_client_capabilities_separable(t: ClientCapabilities)
    requires
        t.wf(),
    ensures
        separable(t.fields(), Seq::empty(), client_capabilities_reserved()),
{
    reveal_strlit("experimental");
    reveal_strlit("roots");
    reveal_strlit("sampling");
    assert("experimental"@.len() == 12);
    assert("roots"@.len() == 5);
    assert("sampling"@.len() == 8);
    assert(field_keys(t.fields()) =~= seq!["experimental"@, "roots"@, "sampling"@]);
    assert(client_capabilities_reserved()[0] == t.fields()[0].0);
    assert(client_capabilities_reserved()[1] == t.fields()[1].0);
    assert(client_capabilities_reserved()[2] == t.fields()[2].0);
    assert(fresh(Seq::empty(), client_capabilities_reserved()));
}

pub fn encode_client_capabilities(x: &ClientCapabilities) -> (r: Json)
    ensures
        r.model() == x.enc(),
{
    let fs = vec![("experimental", enc_opt_obj(&x.experimental)), ("roots", match &x.roots { Some(y) => Some(encode_root_capabilities(y)), None => None }), ("sampling", enc_opt_obj(&x.sampling))];
    proof {
        assert(fields_model(fs@) =~= x.fields());
    }
    build(fs, Vec::new())
}

pub fn decode_client_capabilities(j: &Json) -> (r: Result<ClientCapabilities, DecodeError>)
    ensures
        !(j.model() is Object) ==> r == Err::<ClientCapabilities, DecodeError>(DecodeError::InvalidParams),
        (exists|t: ClientCapabilities| t.wf() && t.enc() == j.model()) ==> (r matches Ok(t) && t.wf() && t.enc() == j.model()),
{
    let ghost canon = exists|t: ClientCapabilities| t.wf() && t.enc() == j.model();
    let ghost t = choose|t: ClientCapabilities| t.wf() && t.enc() == j.model();
    let o = as_object(j)?;
    proof {
        if canon {
            lemma_client_capabilities_separable(t);
            lemma_record_get(t.fields(), Seq::<(Seq<char>, JsonV)>::empty(), client_capabilities_reserved(), 0);
            lemma_record_get(t.fields(), Seq::<(Seq<char>, JsonV)>::empty(), client_capabilities_reserved(), 1);
            lemma_record_get(t.fields(), Seq::<(Seq<char>, JsonV)>::empty(), client_capabilities_reserved(), 2);
            assert(present(t.fields()) + Seq::<(Seq<char>, JsonV)>::empty() =~= present(t.fields()));
            if let Some(x) = t.roots { assert(x.wf() && x.enc() == t.fields()[1].1->Some_0); }
        }
    }
    let f_experimental = opt_obj(o, "experimental")?;
    let f_roots = match find(o, "roots") { Some(v) => Some(decode_root_capabilities(v)?), None => None };
    let f_sampling = opt_obj(o, "sampling")?;
    let r = ClientCapabilities { experimental: f_experimental, roots: f_roots, sampling: f_sampling };
    proof {
        if canon {
            assert(r.fields() =~= t.fields());
        }
    }
    Ok(r)
}

impl ServerCapabilities {
    /// The fields of the canonical encoding, in order.
    pub open spec fn fields(self) -> Fields {
        seq![("experimental"@, opt_obj_v(self.experimental)), ("logging"@, opt_obj_v(self.logging)), ("prompts"@, opt_obj_v(self.prompts)), ("resources"@, opt_obj_v(self.resources)), ("tools"@, opt_obj_v(self.tools))]
    }

    /// The canonical encoding.
    pub open spec fn enc(self) -> JsonV {
        record(self.fields(), Seq::empty())
    }

    /// The value can be told apart from its neighbours on the wire.
    pub open spec fn wf(self) -> bool {
        true
    }
}

/// The member names that ServerCapabilities's fields take.
pub open spec fn server_capabilities_reserved() -> Seq<Seq<char>> {
    seq!["experimental"@, "logging"@, "prompts"@, "resources"@, "tools"@]
}

pub(crate) proof fn lemma_server_capabilities_separable(t: ServerCapabilities)
    requires
        t.wf(),
    ensures
        separable(t.fields(), Seq::empty(), server_capabilities_reserved()),
{
    reveal_strlit("experimental");
    reveal_strlit("logging");
    reveal_strlit("prompts");
    reveal_strlit("resources");
    reveal_strlit("tools");
    assert("experimental"@.len() == 12);
    assert("logging"@.len() == 7);
    assert("prompts"@.len() == 7);
    assert("resources"@.len() == 9);
    assert("tools"@.len() == 5);
    assert("logging"@[0] == 'l' && "prompts"@[0] == 'p');
    assert(field_keys(t.fields()) =~= seq!["experimental"@, "logging"@, "prompts"@, "resources"@, "tools"@]);
    assert(server_capabilities_reserved()[0] == t.fields()[0].0);
    assert(server_capabilities_reserved()[1] == t.fields()[1].0);
    assert(server_capabilities_reserved()[2] == t.fields()[2].0);
    assert(server_capabilities_reserved()[3] == t.fields()[3].0);
    assert(server_capabilities_reserved()[4] == t.fields()[4].0);
    assert(fresh(Seq::empty(), server_capabilities_reserved()));
}

pub fn encode_server_capabilities(x: &ServerCapabilities) -> (r: Json)
    ensures
        r.model() == x.enc(),
{
    let fs = vec![("experimental", enc_opt_obj(&x.experimental)), ("logging", enc_opt_obj(&x.logging)), ("prompts", enc_opt_obj(&x.prompts)), ("resources", enc_opt_obj(&x.resources)), ("tools", enc_opt_obj(&x.tools))];
    proof {
        assert(fields_model(fs@) =~= x.fields());
    }
    build(fs, Vec::new())
}

pub fn decode_server_capabilities(j: &Json) -> (r: Result<ServerCapabilities, DecodeError>)
    ensures
        !(j.model() is Object) ==> r == Err::<ServerCapabilities, DecodeError>(DecodeError::InvalidParams),
        (exists|t: ServerCapabilities| t.wf() && t.enc() == j.model()) ==> (r matches Ok(t) && t.wf() && t.enc() == j.model()),
{
    let ghost canon = exists|t: ServerCapabilities| t.wf() && t.enc() == j.model();
    let ghost t = choose|t: ServerCapabilities| t.wf() && t.enc() == j.model();
    let o = as_object(j)?;
    proof {
        if canon {
            lemma_server_capabilities_separable(t);
            lemma_record_get(t.fields(), Seq::<(Seq<char>, JsonV)>::empty(), server_capabilities_reserved(), 0);
            lemma_record_get(t.fields(), Seq::<(Seq<char>, JsonV)>::empty(), server_capabilities_reserved(), 1);
            lemma_record_get(t.fields(), Seq::<(Seq<char>, JsonV)>::empty(), server_capabilities_reserved(), 2);
            lemma_record_get(t.fields(), Seq::<(Seq<char>, JsonV)>::empty(), server_capabilities_reserved(), 3);
            lemma_record_get(t.fields(), Seq::<(Seq<char>, JsonV)>::empty(), server_capabilities_reserved(), 4);
            assert(present(t.fields()) + Seq::<(Seq<char>, JsonV)>::empty() =~= present(t.fields()));
        }
    }
    let f_experimental = opt_obj(o, "experimental")?;
    let f_logging = opt_obj(o, "logging")?;
    let f_prompts = opt_obj(o, "prompts")?;
    let f_resources = opt_obj(o, "resources")?;
    let f_tools = opt_obj(o, "tools")?;
    let r = ServerCapabilities { experimental: f_experimental, logging: f_logging, prompts: f_prompts, resources: f_resources, tools: f_tools };
    proof {
        if canon {
            assert(r.fields() =~= t.fields());
        }
    }
    Ok(r)
}

impl InitializeRequestParams {
    /// The fields of the canonical encoding, in order.
    pub open spec fn fields(self) -> Fields {
        seq![("protocolVersion"@, Some(self.protocol_version.enc())), ("capabilities"@, Some(self.capabilities.enc())), ("clientInfo"@, Some(self.client_info.enc()))]
    }

    /// The canonical encoding.
    pub open spec fn enc(self) -> JsonV {
        record(self.fields(), Seq::empty())
    }

    /// The value can be told apart from its neighbours on the wire.
    pub open spec fn wf(self) -> bool {
        self.protocol_version.wf() && self.capabilities.wf() && self.client_info.wf()
    }
}

/// The member names that InitializeRequestParams's fields take.
pub open spec fn initialize_request_params_reserved() -> Seq<Seq<char>> {
    seq!["protocolVersion"@, "capabilities"@, "clientInfo"@]
}

pub(crate) proof fn lemma_initialize_request_params_separable(t: InitializeRequestParams)
    requires
        t.wf(),
    ensures
        separable(t.fields(), Seq::empty(), initialize_request_params_reserved()),
{
    reveal_strlit("protocolVersion");
    reveal_strlit("capabilities");
    reveal_strlit("clientInfo");
    assert("protocolVersion"@.len() == 15);
    assert("capabilities"@.len() == 12);
    assert("clientInfo"@.len() == 10);
    assert(field_keys(t.fields()) =~= seq!["protocolVersion"@, "capabilities"@, "clientInfo"@]);
    assert(initialize_request_params_reserved()[0] == t.fields()[0].0);
    assert(initialize_request_params_reserved()[1] == t.fields()[1].0);
    assert(initialize_request_params_reserved()[2] == t.fields()[2].0);
    assert(fresh(Seq::empty(), initialize_request_params_reserved()));
}

pub fn encode_initialize_request_params(x: &InitializeRequestParams) -> (r: Json)
    ensures
        r.model() == x.enc(),
{
    let fs = vec![("protocolVersion", Some(encode_protocol_version(&x.protocol_version))), ("capabilities", Some(encode_client_capabilities(&x.capabilities))), ("clientInfo", Some(encode_implementation(&x.client_info)))];
    proof {
        assert(fields_model(fs@) =~= x.fields());
    }
    build(fs, Vec::new())
}

pub fn decode_initialize_request_params(j: &Json) -> (r: Result<InitializeRequestParams, DecodeError>)
    ensures
        !(j.model() is Object) ==> r == Err::<InitializeRequestParams, DecodeError>(DecodeError::InvalidParams),
        (exists|t: InitializeRequestParams| t.wf() && t.enc() == j.model()) ==> (r matches Ok(t) && t.wf() && t.enc() == j.model()),
{
    let ghost canon = exists|t: InitializeRequestParams| t.wf() && t.enc() == j.model();
    let ghost t = choose|t: InitializeRequestParams| t.wf() && t.enc() == j.model();
    let o = as_object(j)?;
    proof {
        if canon {
            lemma_initialize_request_params_separable(t);
            lemma_record_get(t.fields(), Seq::<(Seq<char>, JsonV)>::empty(), initialize_request_params_reserved(), 0);
            lemma_record_get(t.fields(), Seq::<(Seq<char>, JsonV)>::empty(), initialize_request_params_reserved(), 1);
            lemma_record_get(t.fields(), Seq::<(Seq<char>, JsonV)>::empty(), initialize_request_params_reserved(), 2);
            assert(present(t.fields()) + Seq::<(Seq<char>, JsonV)>::empty() =~= present(t.fields()));
            assert(t.protocol_version.wf() && t.protocol_version.enc() == t.fields()[0].1->Some_0);
            assert(t.capabilities.wf() && t.capabilities.enc() == t.fields()[1].1->Some_0);
            assert(t.client_info.wf() && t.client_info.enc() == t.fields()[2].1->Some_0);
        }
    }
    let f_protocol_version = match find(o, "protocolVersion") { Some(v) => decode_protocol_version(v)?, None => { return Err(DecodeError::InvalidParams); } };
    let f_capabilities = match find(o, "capabilities") { Some(v) => decode_client_capabilities(v)?, None => { return Err(DecodeError::InvalidParams); } };
    let f_client_info = match find(o, "clientInfo") { Some(v) => decode_implementation(v)?, None => { return Err(DecodeError::InvalidParams); } };
    let r = InitializeRequestParams { protocol_version: f_protocol_version, capabilities: f_capabilities, client_info: f_client_info };
    proof {
        if canon {
            assert(r.fields() =~= t.fields());
        }
    }
    Ok(r)
}

impl RequestBaseMeta {
    /// The fields of the canonical encoding, in order.
    pub open spec fn fields(self) -> Fields {
        seq![("progressToken"@, (match self.progress_token { Some(x) => Some(x.enc()), None => None }))]
    }

    /// The canonical encoding.
    pub open spec fn enc(self) -> JsonV {
        record(self.fields(), Seq::empty())
    }

    /// The value can be told apart from its neighbours on the wire.
    pub open spec fn wf(self) -> bool {
        (self.progress_token matches Some(x) ==> x.wf())
    }
}

/// The member names that RequestBaseMeta's fields take.
pub open spec fn request_base_meta_reserved() -> Seq<Seq<char>> {
    seq!["progressToken"@]
}

pub(crate) proof fn lemma_request_base_meta_separable(t: RequestBaseMeta)
    requires
        t.wf(),
    ensures
        separable(t.fields(), Seq::empty(), request_base_meta_reserved()),
{
    reveal_strlit("progressToken");
    assert("progressToken"@.len() == 13);
    assert(field_keys(t.fields()) =~= seq!["progressToken"@]);
    assert(request_base_meta_reserved()[0] == t.fields()[0].0);
    assert(fresh(Seq::empty(), request_base_meta_reserved()));
}

pub fn encode_request_base_meta(x: &RequestBaseMeta) -> (r: Json)
    ensures
        r.model() == x.enc(),
{
    let fs = vec![("progressToken", match &x.progress_token { Some(y) => Some(encode_progress_token(y)), None => None })];
    proof {
        assert(fields_model(fs@) =~= x.fields());
    }
    build(fs, Vec::new())
}

pub fn decode_request_base_meta(j: &Json) -> (r: Result<RequestBaseMeta, DecodeError>)
    ensures
        !(j.model() is Object) ==> r == Err::<RequestBaseMeta, DecodeError>(DecodeError::InvalidParams),
        (exists|t: RequestBaseMeta| t.wf() && t.enc() == j.model()) ==> (r matches Ok(t) && t.wf() && t.enc() == j.model()),
{
    let ghost canon = exists|t: RequestBaseMeta| t.wf() && t.enc() == j.model();
    let ghost t = choose|t: RequestBaseMeta| t.wf() && t.enc() == j.model();
    let o = as_object(j)?;
    proof {
        if canon {
            lemma_request_base_meta_separable(t);
            lemma_record_get(t.fields(), Seq::<(Seq<char>, JsonV)>::empty(), request_base_meta_reserved(), 0);
            assert(present(t.fields()) + Seq::<(Seq<char>, JsonV)>::empty() =~= present(t.fields()));
            if let Some(x) = t.progress_token { assert(x.wf() && x.enc() == t.fields()[0].1->Some_0); }
        }
    }
    let f_progress_token = match find(o, "progressToken") { Some(v) => Some(decode_progress_token(v)?), None => None };
    let r = RequestBaseMeta { progress_token: f_progress_token };
    proof {
        if canon {
            assert(r.fields() =~= t.fields());
        }
    }
    Ok(r)
}

impl PingRequestParams {
    /// The fields of the canonical encoding, in order.
    pub open spec fn fields(self) -> Fields {
        seq![("_meta"@, (match self.request_base.meta { Some(x) => Some(x.enc()), None => None }))]
    }

    /// The extension members.
    pub open spec fn extra_model(self) -> Pairs {
        map_model(self.request_base.extra@)
    }

    /// The canonical encoding.
    pub open spec fn enc(self) -> JsonV {
        record(self.fields(), self.extra_model())
    }

    /// The value can be told apart from its neighbours on the wire.
    pub open spec fn wf(self) -> bool {
        (self.request_base.meta matches Some(x) ==> x.wf()) && fresh(self.extra_model(), ping_request_params_reserved())
    }
}

/// The member names that PingRequestParams's fields take.
pub open spec fn ping_request_params_reserved() -> Seq<Seq<char>> {
    seq!["_meta"@]
}

pub(crate) proof fn lemma_ping_request_params_separable(t: PingRequestParams)
    requires
        t.wf(),
    ensures
        separable(t.fields(), t.extra_model(), ping_request_params_reserved()),
{
    reveal_strlit("_meta");
    assert("_meta"@.len() == 5);
    assert(field_keys(t.fields()) =~= seq!["_meta"@]);
    assert(ping_request_params_reserved()[0] == t.fields()[0].0);
}

pub fn encode_ping_request_params(x: &PingRequestParams) -> (r: Json)
    ensures
        r.model() == x.enc(),
{
    let fs = vec![("_meta", match &x.request_base.meta { Some(y) => Some(encode_request_base_meta(y)), None => None })];
    let extra = crate::json::clone_map(&x.request_base.extra);
    proof {
        assert(fields_model(fs@) =~= x.fields());
    }
    build(fs, extra)
}

pub fn decode_ping_request_params(j: &Json) -> (r: Result<PingRequestParams, DecodeError>)
    ensures
        !(j.model() is Object) ==> r == Err::<PingRequestParams, DecodeError>(DecodeError::InvalidParams),
        (exists|t: PingRequestParams| t.wf() && t.enc() == j.model()) ==> (r matches Ok(t) && t.wf() && t.enc() == j.model()),
{
    let ghost canon = exists|t: PingRequestParams| t.wf() && t.enc() == j.model();
    let ghost t = choose|t: PingRequestParams| t.wf() && t.enc() == j.model();
    let o = as_object(j)?;
    proof {
        if canon {
            lemma_ping_request_params_separable(t);
            lemma_record_get(t.fields(), t.extra_model(), ping_request_params_reserved(), 0);
            lemma_record_rest(t.fields(), t.extra_model(), ping_request_params_reserved());
            if let Some(x) = t.request_base.meta { assert(x.wf() && x.enc() == t.fields()[0].1->Some_0); }
        }
    }
    let f_meta = match find(o, "_meta") { Some(v) => Some(decode_request_base_meta(v)?), None => None };
    let reserved = vec!["_meta"];
    let extra = rest(o, &reserved);
    proof {
        assert(key_model(reserved@) =~= ping_request_params_reserved());
    }
    let r = PingRequestParams { request_base: RequestBaseParams { meta: f_meta, extra } };
    proof {
        if canon {
            assert(r.fields() =~= t.fields());
        }
    }
    Ok(r)
}

impl ListRootsRequestParams {
    /// The fields of the canonical encoding, in order.
    pub open spec fn fields(self) -> Fields {
        seq![("_meta"@, (match self.request_base.meta { Some(x) => Some(x.enc()), None => None }))]
    }

    /// The extension members.
    pub open spec fn extra_model(self) -> Pairs {
        map_model(self.request_base.extra@)
    }

    /// The canonical encoding.
    pub open spec fn enc(self) -> JsonV {
        record(self.fields(), self.extra_model())
    }

    /// The value can be told apart from its neighbours on the wire.
    pub open spec fn wf(self) -> bool {
        (self.request_base.meta matches Some(x) ==> x.wf()) && fresh(self.extra_model(), list_roots_request_params_reserved())
    }
}

/// The member names that ListRootsRequestParams's fields take.
pub open spec fn list_roots_request_params_reserved() -> Seq<Seq<char>> {
    seq!["_meta"@]
}

pub(crate) proof fn lemma_list_roots_request_params_separable(t: ListRootsRequestParams)
    requires
        t.wf(),
    ensures
        separable(t.fields(), t.extra_model(), list_roots_request_params_reserved()),
{
    reveal_strlit("_meta");
    assert("_meta"@.len() == 5);
    assert(field_keys(t.fields()) =~= seq!["_meta"@]);
    assert(list_roots_request_params_reserved()[0] == t.fields()[0].0);
}

pub fn encode_list_roots_request_params(x: &ListRootsRequestParams) -> (r: Json)
    ensures
        r.model() == x.enc(),
{
    let fs = vec![("_meta", match &x.request_base.meta { Some(y) => Some(encode_request_base_meta(y)), None => None })];
    let extra = crate::json::clone_map(&x.request_base.extra);
    proof {
        assert(fields_model(fs@) =~= x.fields());
    }
    build(fs, extra)
}

pub fn decode_list_roots_request_params(j: &Json) -> (r: Result<ListRootsRequestParams, DecodeError>)
    ensures
        !(j.model() is Object) ==> r == Err::<ListRootsRequestParams, DecodeError>(DecodeError::InvalidParams),
        (exists|t: ListRootsRequestParams| t.wf() && t.enc() == j.model()) ==> (r matches Ok(t) && t.wf() && t.enc() == j.model()),
{
    let ghost canon = exists|t: ListRootsRequestParams| t.wf() && t.enc() == j.model();
    let ghost t = choose|t: ListRootsRequestParams| t.wf() && t.enc() == j.model();
    let o = as_object(j)?;
    proof {
        if canon {
            lemma_list_roots_request_params_separable(t);
            lemma_record_get(t.fields(), t.extra_model(), list_roots_request_params_reserved(), 0);
            lemma_record_rest(t.fields(), t.extra_model(), list_roots_request_params_reserved());
            if let Some(x) = t.request_base.meta { assert(x.wf() && x.enc() == t.fields()[0].1->Some_0); }
        }
    }
    let f_meta = match find(o, "_meta") { Some(v) => Some(decode_request_base_meta(v)?), None => None };
    let reserved = vec!["_meta"];
    let extra = rest(o, &reserved);
    proof {
        assert(key_model(reserved@) =~= list_roots_request_params_reserved());
    }
    let r = ListRootsRequestParams { request_base: RequestBaseParams { meta: f_meta, extra } };
    proof {
        if canon {
            assert(r.fields() =~= t.fields());
        }
    }
    Ok(r)
}

impl PaginatedRequestParams {
    /// The fields of the canonical encoding, in order.
    pub open spec fn fields(self) -> Fields {
        seq![("_meta"@, (match self.request_base.meta { Some(x) => Some(x.enc()), None => None })), ("cursor"@, opt_str_v(self.cursor))]
    }

    /// The extension members.
    pub open spec fn extra_model(self) -> Pairs {
        map_model(self.request_base.extra@)
    }

    /// The canonical encoding.
    pub open spec fn enc(self) -> JsonV {
        record(self.fields(), self.extra_model())
    }

    /// The value can be told apart from its neighbours on the wire.
    pub open spec fn wf(self) -> bool {
        (self.request_base.meta matches Some(x) ==> x.wf()) && fresh(self.extra_model(), paginated_request_params_reserved())
    }
}

/// The member names that PaginatedRequestParams's fields take.
pub open spec fn paginated_request_params_reserved() -> Seq<Seq<char>> {
    seq!["_meta"@, "cursor"@]
}

pub(crate) proof fn lemma_paginated_request_params_separable(t: PaginatedRequestParams)
    requires
        t.wf(),
    ensures
        separable(t.fields(), t.extra_model(), paginated_request_params_reserved()),
{
    reveal_strlit("_meta");
    reveal_strlit("cursor");
    assert("_meta"@.len() == 5);
    assert("cursor"@.len() == 6);
    assert(field_keys(t.fields()) =~= seq!["_meta"@, "cursor"@]);
    assert(paginated_request_params_reserved()[0] == t.fields()[0].0);
    assert(paginated_request_params_reserved()[1] == t.fields()[1].0);
}

pub fn encode_paginated_request_params(x: &PaginatedRequestParams) -> (r: Json)
    ensures
        r.model() == x.enc(),
{
    let fs = vec![("_meta", match &x.request_base.meta { Some(y) => Some(encode_request_base_meta(y)), None => None }), ("cursor", enc_opt_str(&x.cursor))];
    let extra = crate::json::clone_map(&x.request_base.extra);
    proof {
        assert(fields_model(fs@) =~= x.fields());
    }
    build(fs, extra)
}

pub fn decode_paginated_request_params(j: &Json) -> (r: Result<PaginatedRequestParams, DecodeError>)
    ensures
        !(j.model() is Object) ==> r == Err::<PaginatedRequestParams, DecodeError>(DecodeError::InvalidParams),
        (exists|t: PaginatedRequestParams| t.wf() && t.enc() == j.model()) ==> (r matches Ok(t) && t.wf() && t.enc() == j.model()),
{
    let ghost canon = exists|t: PaginatedRequestParams| t.wf() && t.enc() == j.model();
    let ghost t = choose|t: PaginatedRequestParams| t.wf() && t.enc() == j.model();
    let o = as_object(j)?;
    proof {
        if canon {
            lemma_paginated_request_params_separable(t);
            lemma_record_get(t.fields(), t.extra_model(), paginated_request_params_reserved(), 0);
            lemma_record_get(t.fields(), t.extra_model(), paginated_request_params_reserved(), 1);
            lemma_record_rest(t.fields(), t.extra_model(), paginated_request_params_reserved());
            if let Some(x) = t.request_base.meta { assert(x.wf() && x.enc() == t.fields()[0].1->Some_0); }
        }
    }
    let f_meta = match find(o, "_meta") { Some(v) => Some(decode_request_base_meta(v)?), None => None };
    let f_cursor = opt_str(o, "cursor")?;
    let reserved = vec!["_meta", "cursor"];
    let extra = rest(o, &reserved);
    proof {
        assert(key_model(reserved@) =~= paginated_request_params_reserved());
    }
    let r = PaginatedRequestParams { request_base: RequestBaseParams { meta: f_meta, extra }, cursor: f_cursor };
    proof {
        if canon {
            assert(r.fields() =~= t.fields());
        }
    }
    Ok(r)
}

impl ReadResourceRequestParams {
    /// The fields of the canonical encoding, in order.
    pub open spec fn fields(self) -> Fields {
        seq![("uri"@, Some(str_v(self.uri)))]
    }

    /// The canonical encoding.
    pub open spec fn enc(self) -> JsonV {
        record(self.fields(), Seq::empty())
    }

    /// The value can be told apart from its neighbours on the wire.
    pub open spec fn wf(self) -> bool {
        true
    }
}

/// The member names that ReadResourceRequestParams's fields take.
pub open spec fn read_resource_request_params_reserved() -> Seq<Seq<char>> {
    seq!["uri"@]
}

pub(crate) proof fn lemma_read_resource_request_params_separable(t: ReadResourceRequestParams)
    requires
        t.wf(),
    ensures
        separable(t.fields(), Seq::empty(), read_resource_request_params_reserved()),
{
    reveal_strlit("uri");
    assert("uri"@.len() == 3);
    assert(field_keys(t.fields()) =~= seq!["uri"@]);
    assert(read_resource_request_params_reserved()[0] == t.fields()[0].0);
    assert(fresh(Seq::empty(), read_resource_request_params_reserved()));
}

pub fn encode_read_resource_request_params(x: &ReadResourceRequestParams) -> (r: Json)
    ensures
        r.model() == x.enc(),
{
    let fs = vec![("uri", enc_str(&x.uri))];
    proof {
        assert(fields_model(fs@) =~= x.fields());
    }
    build(fs, Vec::new())
}

pub fn decode_read_resource_request_params(j: &Json) -> (r: Result<ReadResourceRequestParams, DecodeError>)
    ensures
        !(j.model() is Object) ==> r == Err::<ReadResourceRequestParams, DecodeError>(DecodeError::InvalidParams),
        (exists|t: ReadResourceRequestParams| t.wf() && t.enc() == j.model()) ==> (r matches Ok(t) && t.wf() && t.enc() == j.model()),
{
    let ghost canon = exists|t: ReadResourceRequestParams| t.wf() && t.enc() == j.model();
    let ghost t = choose|t: ReadResourceRequestParams| t.wf() && t.enc() == j.model();
    let o = as_object(j)?;
    proof {
        if canon {
            lemma_read_resource_request_params_separable(t);
            lemma_record_get(t.fields(), Seq::<(Seq<char>, JsonV)>::empty(), read_resource_request_params_reserved(), 0);
            assert(present(t.fields()) + Seq::<(Seq<char>, JsonV)>::empty() =~= present(t.fields()));
        }
    }
    let f_uri = req_str(o, "uri")?;
    let r = ReadResourceRequestParams { uri: f_uri };
    proof {
        if canon {
            assert(r.fields() =~= t.fields());
        }
    }
    Ok(r)
}

impl SubscribeRequestParams {
    /// The fields of the canonical encoding, in order.
    pub open spec fn fields(self) -> Fields {
        seq![("uri"@, Some(str_v(self.uri)))]
    }

    /// The canonical encoding.
    pub open spec fn enc(self) -> JsonV {
        record(self.fields(), Seq::empty())
    }

    /// The value can be told apart from its neighbours on the wire.
    pub open spec fn wf(self) -> bool {
        true
    }
}

/// The member names that SubscribeRequestParams's fields take.
pub open spec fn subscribe_request_params_reserved() -> Seq<Seq<char>> {
    seq!["uri"@]
}

pub(crate) proof fn lemma_subscribe_request_params_separable(t: SubscribeRequestParams)
    requires
        t.wf(),
    ensures
        separable(t.fields(), Seq::empty(), subscribe_request_params_reserved()),
{
    reveal_strlit("uri");
    assert("uri"@.len() == 3);
    assert(field_keys(t.fields()) =~= seq!["uri"@]);
    assert(subscribe_request_params_reserved()[0] == t.fields()[0].0);
    assert(fresh(Seq::empty(), subscribe_request_params_reserved()));
}

pub fn encode_subscribe_request_params(x: &SubscribeRequestParams) -> (r: Json)
    ensures
        r.model() == x.enc(),
{
    let fs = vec![("uri", enc_str(&x.uri))];
    proof {
        assert(fields_model(fs@) =~= x.fields());
    }
    build(fs, Vec::new())
}

pub fn decode_subscribe_request_params(j: &Json) -> (r: Result<SubscribeRequestParams, DecodeError>)
    ensures
        !(j.model() is Object) ==> r == Err::<SubscribeRequestParams, DecodeError>(DecodeError::InvalidParams),
        (exists|t: SubscribeRequestParams| t.wf() && t.enc() == j.model()) ==> (r matches Ok(t) && t.wf() && t.enc() == j.model()),
{
    let ghost canon = exists|t: SubscribeRequestParams| t.wf() && t.enc() == j.model();
    let ghost t = choose|t: SubscribeRequestParams| t.wf() && t.enc() == j.model();
    let o = as_object(j)?;
    proof {
        if canon {
            lemma_subscribe_request_params_separable(t);
            lemma_record_get(t.fields(), Seq::<(Seq<char>, JsonV)>::empty(), subscribe_request_params_reserved(), 0);
            assert(present(t.fields()) + Seq::<(Seq<char>, JsonV)>::empty() =~= present(t.fields()));
        }
    }
    let f_uri = req_str(o, "uri")?;
    let r = SubscribeRequestParams { uri: f_uri };
    proof {
        if canon {
            assert(r.fields() =~= t.fields());
        }
    }
    Ok(r)
}

impl UnsubscribeRequestParams {
    /// The fields of the canonical encoding, in order.
    pub open spec fn fields(self) -> Fields {
        seq![("uri"@, Some(str_v(self.uri)))]
    }

    /// The canonical encoding.
    pub open spec fn enc(self) -> JsonV {
        record(self.fields(), Seq::empty())
    }

    /// The value can be told apart from its neighbours on the wire.
    pub open spec fn wf(self) -> bool {
        true
    }
}

/// The member names that UnsubscribeRequestParams's fields take.
pub open spec fn unsubscribe_request_params_reserved() -> Seq<Seq<char>> {
    seq!["uri"@]
}

pub(crate) proof fn lemma_unsubscribe_request_params_separable(t: UnsubscribeRequestParams)
    requires
        t.wf(),
    ensures
        separable(t.fields(), Seq::empty(), unsubscribe_request_params_reserved()),
{
    reveal_strlit("uri");
    assert("uri"@.len() == 3);
    assert(field_keys(t.fields()) =~= seq!["uri"@]);
    assert(unsubscribe_request_params_reserved()[0] == t.fields()[0].0);
    assert(fresh(Seq::empty(), unsubscribe_request_params_reserved()));
}

pub fn encode_unsubscribe_request_params(x: &UnsubscribeRequestParams) -> (r: Json)
    ensures
        r.model() == x.enc(),
{
    let fs = vec![("uri", enc_str(&x.uri))];
    proof {
        assert(fields_model(fs@) =~= x.fields());
    }
    build(fs, Vec::new())
}

pub fn decode_unsubscribe_request_params(j: &Json) -> (r: Result<UnsubscribeRequestParams, DecodeError>)
    ensures
        !(j.model() is Object) ==> r == Err::<UnsubscribeRequestParams, DecodeError>(DecodeError::InvalidParams),
        (exists|t: UnsubscribeRequestParams| t.wf() && t.enc() == j.model()) ==> (r matches Ok(t) && t.wf() && t.enc() == j.model()),
{
    let ghost canon = exists|t: UnsubscribeRequestParams| t.wf() && t.enc() == j.model();
    let ghost t = choose|t: UnsubscribeRequestParams| t.wf() && t.enc() == j.model();
    let o = as_object(j)?;
    proof {
        if canon {
            lemma_unsubscribe_request_params_separable(t);
            lemma_record_get(t.fields(), Seq::<(Seq<char>, JsonV)>::empty(), unsubscribe_request_params_reserved(), 0);
            assert(present(t.fields()) + Seq::<(Seq<char>, JsonV)>::empty() =~= present(t.fields()));
        }
    }
    let f_uri = req_str(o, "uri")?;
    let r = UnsubscribeRequestParams { uri: f_uri };
    proof {
        if canon {
            assert(r.fields() =~= t.fields());
        }
    }
    Ok(r)
}

impl ResourceUpdatedNotificationParams {
    /// The fields of the canonical encoding, in order.
    pub open spec fn fields(self) -> Fields {
        seq![("uri"@, Some(str_v(self.uri)))]
    }

    /// The canonical encoding.
    pub open spec fn enc(self) -> JsonV {
        record(self.fields(), Seq::empty())
    }

    /// The value can be told apart from its neighbours on the wire.
    pub open spec fn wf(self) -> bool {
        true
    }
}

/// The member names that ResourceUpdatedNotificationParams's fields take.
pub open spec fn resource_updated_notification_params_reserved() -> Seq<Seq<char>> {
    seq!["uri"@]
}

pub(crate) proof fn lemma_resource_updated_notification_params_separable(t: ResourceUpdatedNotificationParams)
    requires
        t.wf(),
    ensures
        separable(t.fields(), Seq::empty(), resource_updated_notification_params_reserved()),
{
    reveal_strlit("uri");
    assert("uri"@.len() == 3);
    assert(field_keys(t.fields()) =~= seq!["uri"@]);
    assert(resource_updated_notification_params_reserved()[0] == t.fields()[0].0);
    assert(fresh(Seq::empty(), resource_updated_notification_params_reserved()));
}

pub fn encode_resource_updated_notification_params(x: &ResourceUpdatedNotificationParams) -> (r: Json)
    ensures
        r.model() == x.enc(),
{
    let fs = vec![("uri", enc_str(&x.uri))];
    proof {
        assert(fields_model(fs@) =~= x.fields());
    }
    build(fs, Vec::new())
}

pub fn decode_resource_updated_notification_params(j: &Json) -> (r: Result<ResourceUpdatedNotificationParams, DecodeError>)
    ensures
        !(j.model() is Object) ==> r == Err::<ResourceUpdatedNotificationParams, DecodeError>(DecodeError::InvalidParams),
        (exists|t: ResourceUpdatedNotificationParams| t.wf() && t.enc() == j.model()) ==> (r matches Ok(t) && t.wf() && t.enc() == j.model()),
{
    let ghost canon = exists|t: ResourceUpdatedNotificationParams| t.wf() && t.enc() == j.model();
    let ghost t = choose|t: ResourceUpdatedNotificationParams| t.wf() && t.enc() == j.model();
    let o = as_object(j)?;
    proof {
        if canon {
            lemma_resource_updated_notification_params_separable(t);
            lemma_record_get(t.fields(), Seq::<(Seq<char>, JsonV)>::empty(), resource_updated_notification_params_reserved(), 0);
            assert(present(t.fields()) + Seq::<(Seq<char>, JsonV)>::empty() =~= present(t.fields()));
        }
    }
    let f_uri = req_str(o, "uri")?;
    let r = ResourceUpdatedNotificationParams { uri: f_uri };
    proof {
        if canon {
            assert(r.fields() =~= t.fields());
        }
    }
    Ok(r)
}

impl CallToolRequestParams {
    /// The fields of the canonical encoding, in order.
    pub open spec fn fields(self) -> Fields {
        seq![("name"@, Some(str_v(self.name))), ("arguments"@, opt_obj_v(self.arguments))]
    }

    /// The canonical encoding.
    pub open spec fn enc(self) -> JsonV {
        record(self.fields(), Seq::empty())
    }

    /// The value can be told apart from its neighbours on the wire.
    pub open spec fn wf(self) -> bool {
        true
    }
}

/// The member names that CallToolRequestParams's fields take.
pub open spec fn call_tool_request_params_reserved() -> Seq<Seq<char>> {
    seq!["name"@, "arguments"@]
}

pub(crate) proof fn lemma_call_tool_request_params_separable(t: CallToolRequestParams)
    requires
        t.wf(),
    ensures
        separable(t.fields(), Seq::empty(), call_tool_request_params_reserved()),
{
    reveal_strlit("name");
    reveal_strlit("arguments");
    assert("name"@.len() == 4);
    assert("arguments"@.len() == 9);
    assert(field_keys(t.fields()) =~= seq!["name"@, "arguments"@]);
    assert(call_tool_request_params_reserved()[0] == t.fields()[0].0);
    assert(call_tool_request_params_reserved()[1] == t.fields()[1].0);
    assert(fresh(Seq::empty(), call_tool_request_params_reserved()));
}

pub fn encode_call_tool_request_params(x: &CallToolRequestParams) -> (r: Json)
    ensures
        r.model() == x.enc(),
{
    let fs = vec![("name", enc_str(&x.name)), ("arguments", enc_opt_obj(&x.arguments))];
    proof {
        assert(fields_model(fs@) =~= x.fields());
    }
    build(fs, Vec::new())
}

pub fn decode_call_tool_request_params(j: &Json) -> (r: Result<CallToolRequestParams, DecodeError>)
    ensures
        !(j.model() is Object) ==> r == Err::<CallToolRequestParams, DecodeError>(DecodeError::InvalidParams),
        (exists|t: CallToolRequestParams| t.wf() && t.enc() == j.model()) ==> (r matches Ok(t) && t.wf() && t.enc() == j.model()),
{
    let ghost canon = exists|t: CallToolRequestParams| t.wf() && t.enc() == j.model();
    let ghost t = choose|t: CallToolRequestParams| t.wf() && t.enc() == j.model();
    let o = as_object(j)?;
    proof {
        if canon {
            lemma_call_tool_request_params_separable(t);
            lemma_record_get(t.fields(), Seq::<(Seq<char>, JsonV)>::empty(), call_tool_request_params_reserved(), 0);
            lemma_record_get(t.fields(), Seq::<(Seq<char>, JsonV)>::empty(), call_tool_request_params_reserved(), 1);
            assert(present(t.fields()) + Seq::<(Seq<char>, JsonV)>::empty() =~= present(t.fields()));
        }
    }
    let f_name = req_str(o, "name")?;
    let f_arguments = opt_obj(o, "arguments")?;
    let r = CallToolRequestParams { name: f_name, arguments: f_arguments };
    proof {
        if canon {
            assert(r.fields() =~= t.fields());
        }
    }
    Ok(r)
}

impl GetPromptRequestParams {
    /// The fields of the canonical encoding, in order.
    pub open spec fn fields(self) -> Fields {
        seq![("name"@, Some(str_v(self.name))), ("arguments"@, opt_strmap_v(self.arguments))]
    }

    /// The canonical encoding.
    pub open spec fn enc(self) -> JsonV {
        record(self.fields(), Seq::empty())
    }

    /// The value can be told apart from its neighbours on the wire.
    pub open spec fn wf(self) -> bool {
        true
    }
}

/// The member names that GetPromptRequestParams's fields take.
pub open spec fn get_prompt_request_params_reserved() -> Seq<Seq<char>> {
    seq!["name"@, "arguments"@]
}

pub(crate) proof fn lemma_get_prompt_request_params_separable(t: GetPromptRequestParams)
    requires
        t.wf(),
    ensures
        separable(t.fields(), Seq::empty(), get_prompt_request_params_reserved()),
{
    reveal_strlit("name");
    reveal_strlit("arguments");
    assert("name"@.len() == 4);
    assert("arguments"@.len() == 9);
    assert(field_keys(t.fields()) =~= seq!["name"@, "arguments"@]);
    assert(get_prompt_request_params_reserved()[0] == t.fields()[0].0);
    assert(get_prompt_request_params_reserved()[1] == t.fields()[1].0);
    assert(fresh(Seq::empty(), get_prompt_request_params_reserved()));
}

pub fn encode_get_prompt_request_params(x: &GetPromptRequestParams) -> (r: Json)
    ensures
        r.model() == x.enc(),
{
    let fs = vec![("name", enc_str(&x.name)), ("arguments", enc_opt_strmap(&x.arguments))];
    proof {
        assert(fields_model(fs@) =~= x.fields());
    }
    build(fs, Vec::new())
}

pub fn decode_get_prompt_request_params(j: &Json) -> (r: Result<GetPromptRequestParams, DecodeError>)
    ensures
        !(j.model() is Object) ==> r == Err::<GetPromptRequestParams, DecodeError>(DecodeError::InvalidParams),
        (exists|t: GetPromptRequestParams| t.wf() && t.enc() == j.model()) ==> (r matches Ok(t) && t.wf() && t.enc() == j.model()),
{
    let ghost canon = exists|t: GetPromptRequestParams| t.wf() && t.enc() == j.model();
    let ghost t = choose|t: GetPromptRequestParams| t.wf() && t.enc() == j.model();
    let o = as_object(j)?;
    proof {
        if canon {
            lemma_get_prompt_request_params_separable(t);
            lemma_record_get(t.fields(), Seq::<(Seq<char>, JsonV)>::empty(), get_prompt_request_params_reserved(), 0);
            lemma_record_get(t.fields(), Seq::<(Seq<char>, JsonV)>::empty(), get_prompt_request_params_reserved(), 1);
            assert(present(t.fields()) + Seq::<(Seq<char>, JsonV)>::empty() =~= present(t.fields()));
        }
    }
    let f_name = req_str(o, "name")?;
    let f_arguments = opt_strmap(o, "arguments")?;
    let r = GetPromptRequestParams { name: f_name, arguments: f_arguments };
    proof {
        if canon {
            assert(r.fields() =~= t.fields());
        }
    }
    Ok(r)
}

impl SetLevelRequestParams {
    /// The fields of the canonical encoding, in order.
    pub open spec fn fields(self) -> Fields {
        seq![("level"@, Some(self.level.enc()))]
    }

    /// The canonical encoding.
    pub open spec fn enc(self) -> JsonV {
        record(self.fields(), Seq::empty())
    }

    /// The value can be told apart from its neighbours on the wire.
    pub open spec fn wf(self) -> bool {
        self.level.wf()
    }
}

/// The member names that SetLevelRequestParams's fields take.
pub open spec fn set_level_request_params_reserved() -> Seq<Seq<char>> {
    seq!["level"@]
}

pub(crate) proof fn lemma_set_level_request_params_separable(t: SetLevelRequestParams)
    requires
        t.wf(),
    ensures
        separable(t.fields(), Seq::empty(), set_level_request_params_reserved()),
{
    reveal_strlit("level");
    assert("level"@.len() == 5);
    assert(field_keys(t.fields()) =~= seq!["level"@]);
    assert(set_level_request_params_reserved()[0] == t.fields()[0].0);
    assert(fresh(Seq::empty(), set_level_request_params_reserved()));
}

pub fn encode_set_level_request_params(x: &SetLevelRequestParams) -> (r: Json)
    ensures
        r.model() == x.enc(),
{
    let fs = vec![("level", Some(encode_logging_level(&x.level)))];
    proof {
        assert(fields_model(fs@) =~= x.fields());
    }
    build(fs, Vec::new())
}

pub fn decode_set_level_request_params(j: &Json) -> (r: Result<SetLevelRequestParams, DecodeError>)
    ensures
        !(j.model() is Object) ==> r == Err::<SetLevelRequestParams, DecodeError>(DecodeError::InvalidParams),
        (exists|t: SetLevelRequestParams| t.wf() && t.enc() == j.model()) ==> (r matches Ok(t) && t.wf() && t.enc() == j.model()),
{
    let ghost canon = exists|t: SetLevelRequestParams| t.wf() && t.enc() == j.model();
    let ghost t = choose|t: SetLevelRequestParams| t.wf() && t.enc() == j.model();
    let o = as_object(j)?;
    proof {
        if canon {
            lemma_set_level_request_params_separable(t);
            lemma_record_get(t.fields(), Seq::<(Seq<char>, JsonV)>::empty(), set_level_request_params_reserved(), 0);
            assert(present(t.fields()) + Seq::<(Seq<char>, JsonV)>::empty() =~= present(t.fields()));
            assert(t.level.wf() && t.level.enc() == t.fields()[0].1->Some_0);
        }
    }
    let f_level = match find(o, "level") { Some(v) => decode_logging_level(v)?, None => { return Err(DecodeError::InvalidParams); } };
    let r = SetLevelRequestParams { level: f_level };
    proof {
        if canon {
            assert(r.fields() =~= t.fields());
        }
    }
    Ok(r)
}

impl CompleteRequestArgument {
    /// The fields of the canonical encoding, in order.
    pub open spec fn fields(self) -> Fields {
        seq![("name"@, Some(str_v(self.name))), ("value"@, Some(str_v(self.value)))]
    }

    /// The canonical encoding.
    pub open spec fn enc(self) -> JsonV {
        record(self.fields(), Seq::empty())
    }

    /// The value can be told apart from its neighbours on the wire.
    pub open spec fn wf(self) -> bool {
        true
    }
}

/// The member names that CompleteRequestArgument's fields take.
pub open spec fn complete_request_argument_reserved() -> Seq<Seq<char>> {
    seq!["name"@, "value"@]
}

pub(crate) proof fn lemma_complete_request_argument_separable(t: CompleteRequestArgument)
    requires
        t.wf(),
    ensures
        separable(t.fields(), Seq::empty(), complete_request_argument_reserved()),
{
    reveal_strlit("name");
    reveal_strlit("value");
    assert("name"@.len() == 4);
    assert("value"@.len() == 5);
    assert(field_keys(t.fields()) =~= seq!["name"@, "value"@]);
    assert(complete_request_argument_reserved()[0] == t.fields()[0].0);
    assert(complete_request_argument_reserved()[1] == t.fields()[1].0);
    assert(fresh(Seq::empty(), complete_request_argument_reserved()));
}

pub fn encode_complete_request_argument(x: &CompleteRequestArgument) -> (r: Json)
    ensures
        r.model() == x.enc(),
{
    let fs = vec![("name", enc_str(&x.name)), ("value", enc_str(&x.value))];
    proof {
        assert(fields_model(fs@) =~= x.fields());
    }
    build(fs, Vec::new())
}

pub fn decode_complete_request_argument(j: &Json) -> (r: Result<CompleteRequestArgument, DecodeError>)
    ensures
        !(j.model() is Object) ==> r == Err::<CompleteRequestArgument, DecodeError>(DecodeError::InvalidParams),
        (exists|t: CompleteRequestArgument| t.wf() && t.enc() == j.model()) ==> (r matches Ok(t) && t.wf() && t.enc() == j.model()),
{
    let ghost canon = exists|t: CompleteRequestArgument| t.wf() && t.enc() == j.model();
    let ghost t = choose|t: CompleteRequestArgument| t.wf() && t.enc() == j.model();
    let o = as_object(j)?;
    proof {
        if canon {
            lemma_complete_request_argument_separable(t);
            lemma_record_get(t.fields(), Seq::<(Seq<char>, JsonV)>::empty(), complete_request_argument_reserved(), 0);
            lemma_record_get(t.fields(), Seq::<(Seq<char>, JsonV)>::empty(), complete_request_argument_reserved(), 1);
            assert(present(t.fields()) + Seq::<(Seq<char>, JsonV)>::empty() =~= present(t.fields()));
        }
    }
    let f_name = req_str(o, "name")?;
    let f_value = req_str(o, "value")?;
    let r = CompleteRequestArgument { name: f_name, value: f_value };
    proof {
        if canon {
            assert(r.fields() =~= t.fields());
        }
    }
    Ok(r)
}

impl CompleteRequestParams {
    /// The fields of the canonical encoding, in order.
    pub open spec fn fields(self) -> Fields {
        seq![("ref"@, Some(self.reference.enc())), ("argument"@, Some(self.argument.enc()))]
    }

    /// The canonical encoding.
    pub open spec fn enc(self) -> JsonV {
        record(self.fields(), Seq::empty())
    }

    /// The value can be told apart from its neighbours on the wire.
    pub open spec fn wf(self) -> bool {
        self.reference.wf() && self.argument.wf()
    }
}

/// The member names that CompleteRequestParams's fields take.
pub open spec fn complete_request_params_reserved() -> Seq<Seq<char>> {
    seq!["ref"@, "argument"@]
}

pub(crate) proof fn lemma_complete_request_params_separable(t: CompleteRequestParams)
    requires
        t.wf(),
    ensures
        separable(t.fields(), Seq::empty(), complete_request_params_reserved()),
{
    reveal_strlit("ref");
    reveal_strlit("argument");
    assert("ref"@.len() == 3);
    assert("argument"@.len() == 8);
    assert(field_keys(t.fields()) =~= seq!["ref"@, "argument"@]);
    assert(complete_request_params_reserved()[0] == t.fields()[0].0);
    assert(complete_request_params_reserved()[1] == t.fields()[1].0);
    assert(fresh(Seq::empty(), complete_request_params_reserved()));
}

pub fn encode_complete_request_params(x: &CompleteRequestParams) -> (r: Json)
    ensures
        r.model() == x.enc(),
{
    let fs = vec![("ref", Some(encode_complete_request_ref(&x.reference))), ("argument", Some(encode_complete_request_argument(&x.argument)))];
    proof {
        assert(fields_model(fs@) =~= x.fields());
    }
    build(fs, Vec::new())
}

pub fn decode_complete_request_params(j: &Json) -> (r: Result<CompleteRequestParams, DecodeError>)
    ensures
        !(j.model() is Object) ==> r == Err::<CompleteRequestParams, DecodeError>(DecodeError::InvalidParams),
        (exists|t: CompleteRequestParams| t.wf() && t.enc() == j.model()) ==> (r matches Ok(t) && t.wf() && t.enc() == j.model()),
{
    let ghost canon = exists|t: CompleteRequestParams| t.wf() && t.enc() == j.model();
    let ghost t = choose|t: CompleteRequestParams| t.wf() && t.enc() == j.model();
    let o = as_object(j)?;
    proof {
        if canon {
            lemma_complete_request_params_separable(t);
            lemma_record_get(t.fields(), Seq::<(Seq<char>, JsonV)>::empty(), complete_request_params_reserved(), 0);
            lemma_record_get(t.fields(), Seq::<(Seq<char>, JsonV)>::empty(), complete_request_params_reserved(), 1);
            assert(present(t.fields()) + Seq::<(Seq<char>, JsonV)>::empty() =~= present(t.fields()));
            assert(t.reference.wf() && t.reference.enc() == t.fields()[0].1->Some_0);
            assert(t.argument.wf() && t.argument.enc() == t.fields()[1].1->Some_0);
        }
    }
    let f_ref = match find(o, "ref") { Some(v) => decode_complete_request_ref(v)?, None => { return Err(DecodeError::InvalidParams); } };
    let f_argument = match find(o, "argument") { Some(v) => decode_complete_request_argument(v)?, None => { return Err(DecodeError::InvalidParams); } };
    let r = CompleteRequestParams { reference: f_ref, argument: f_argument };
    proof {
        if canon {
            assert(r.fields() =~= t.fields());
        }
    }
    Ok(r)
}

impl CancelledNotificationParams {
    /// The fields of the canonical encoding, in order.
    pub open spec fn fields(self) -> Fields {
        seq![("requestId"@, Some(self.request_id.enc())), ("reason"@, opt_str_v(self.reason))]
    }

    /// The canonical encoding.
    pub open spec fn enc(self) -> JsonV {
        record(self.fields(), Seq::empty())
    }

    /// The value can be told apart from its neighbours on the wire.
    pub open spec fn wf(self) -> bool {
        self.request_id.wf()
    }
}

/// The member names that CancelledNotificationParams's fields take.
pub open spec fn cancelled_notification_params_reserved() -> Seq<Seq<char>> {
    seq!["requestId"@, "reason"@]
}

pub(crate) proof fn lemma_cancelled_notification_params_separable(t: CancelledNotificationParams)
    requires
        t.wf(),
    ensures
        separable(t.fields(), Seq::empty(), cancelled_notification_params_reserved()),
{
    reveal_strlit("requestId");
    reveal_strlit("reason");
    assert("requestId"@.len() == 9);
    assert("reason"@.len() == 6);
    assert(field_keys(t.fields()) =~= seq!["requestId"@, "reason"@]);
    assert(cancelled_notification_params_reserved()[0] == t.fields()[0].0);
    assert(cancelled_notification_params_reserved()[1] == t.fields()[1].0);
    assert(fresh(Seq::empty(), cancelled_notification_params_reserved()));
}

pub fn encode_cancelled_notification_params(x: &CancelledNotificationParams) -> (r: Json)
    ensures
        r.model() == x.enc(),
{
    let fs = vec![("requestId", Some(encode_request_id(&x.request_id))), ("reason", enc_opt_str(&x.reason))];
    proof {
        assert(fields_model(fs@) =~= x.fields());
    }
    build(fs, Vec::new())
}

pub fn decode_cancelled_notification_params(j: &Json) -> (r: Result<CancelledNotificationParams, DecodeError>)
    ensures
        !(j.model() is Object) ==> r == Err::<CancelledNotificationParams, DecodeError>(DecodeError::InvalidParams),
        (exists|t: CancelledNotificationParams| t.wf() && t.enc() == j.model()) ==> (r matches Ok(t) && t.wf() && t.enc() == j.model()),
{
    let ghost canon = exists|t: CancelledNotificationParams| t.wf() && t.enc() == j.model();
    let ghost t = choose|t: CancelledNotificationParams| t.wf() && t.enc() == j.model();
    let o = as_object(j)?;
    proof {
        if canon {
            lemma_cancelled_notification_params_separable(t);
            lemma_record_get(t.fields(), Seq::<(Seq<char>, JsonV)>::empty(), cancelled_notification_params_reserved(), 0);
            lemma_record_get(t.fields(), Seq::<(Seq<char>, JsonV)>::empty(), cancelled_notification_params_reserved(), 1);
            assert(present(t.fields()) + Seq::<(Seq<char>, JsonV)>::empty() =~= present(t.fields()));
            assert(t.request_id.wf() && t.request_id.enc() == t.fields()[0].1->Some_0);
        }
    }
    let f_request_id = match find(o, "requestId") { Some(v) => decode_request_id(v)?, None => { return Err(DecodeError::InvalidParams); } };
    let f_reason = opt_str(o, "reason")?;
    let r = CancelledNotificationParams { request_id: f_request_id, reason: f_reason };
    proof {
        if canon {
            assert(r.fields() =~= t.fields());
        }
    }
    Ok(r)
}

impl ProgressNotificationParams {
    /// The fields of the canonical encoding, in order.
    pub open spec fn fields(self) -> Fields {
        seq![("progressToken"@, Some(self.progress_token.enc())), ("progress"@, Some(int_v(self.progress))), ("total"@, opt_int_v(self.total))]
    }

    /// The canonical encoding.
    pub open spec fn enc(self) -> JsonV {
        record(self.fields(), Seq::empty())
    }

    /// The value can be told apart from its neighbours on the wire.
    pub open spec fn wf(self) -> bool {
        self.progress_token.wf()
    }
}

/// The member names that ProgressNotificationParams's fields take.
pub open spec fn progress_notification_params_reserved() -> Seq<Seq<char>> {
    seq!["progressToken"@, "progress"@, "total"@]
}

pub(crate) proof fn lemma_progress_notification_params_separable(t: ProgressNotificationParams)
    requires
        t.wf(),
    ensures
        separable(t.fields(), Seq::empty(), progress_notification_params_reserved()),
{
    reveal_strlit("progressToken");
    reveal_strlit("progress");
    reveal_strlit("total");
    assert("progressToken"@.len() == 13);
    assert("progress"@.len() == 8);
    assert("total"@.len() == 5);
    assert(field_keys(t.fields()) =~= seq!["progressToken"@, "progress"@, "total"@]);
    assert(progress_notification_params_reserved()[0] == t.fields()[0].0);
    assert(progress_notification_params_reserved()[1] == t.fields()[1].0);
    assert(progress_notification_params_reserved()[2] == t.fields()[2].0);
    assert(fresh(Seq::empty(), progress_notification_params_reserved()));
}

pub fn encode_progress_notification_params(x: &ProgressNotificationParams) -> (r: Json)
    ensures
        r.model() == x.enc(),
{
    let fs = vec![("progressToken", Some(encode_progress_token(&x.progress_token))), ("progress", Some(Json::Number(Number::Int(x.progress)))), ("total", enc_opt_int(&x.total))];
    proof {
        assert(fields_model(fs@) =~= x.fields());
    }
    build(fs, Vec::new())
}

pub fn decode_progress_notification_params(j: &Json) -> (r: Result<ProgressNotificationParams, DecodeError>)
    ensures
        !(j.model() is Object) ==> r == Err::<ProgressNotificationParams, DecodeError>(DecodeError::InvalidParams),
        (exists|t: ProgressNotificationParams| t.wf() && t.enc() == j.model()) ==> (r matches Ok(t) && t.wf() && t.enc() == j.model()),
{
    let ghost canon = exists|t: ProgressNotificationParams| t.wf() && t.enc() == j.model();
    let ghost t = choose|t: ProgressNotificationParams| t.wf() && t.enc() == j.model();
    let o = as_object(j)?;
    proof {
        if canon {
            lemma_progress_notification_params_separable(t);
            lemma_record_get(t.fields(), Seq::<(Seq<char>, JsonV)>::empty(), progress_notification_params_reserved(), 0);
            lemma_record_get(t.fields(), Seq::<(Seq<char>, JsonV)>::empty(), progress_notification_params_reserved(), 1);
            lemma_record_get(t.fields(), Seq::<(Seq<char>, JsonV)>::empty(), progress_notification_params_reserved(), 2);
            assert(present(t.fields()) + Seq::<(Seq<char>, JsonV)>::empty() =~= present(t.fields()));
            assert(t.progress_token.wf() && t.progress_token.enc() == t.fields()[0].1->Some_0);
        }
    }
    let f_progress_token = match find(o, "progressToken") { Some(v) => decode_progress_token(v)?, None => { return Err(DecodeError::InvalidParams); } };
    let f_progress = req_int(o, "progress")?;
    let f_total = opt_int(o, "total")?;
    let r = ProgressNotificationParams { progress_token: f_progress_token, progress: f_progress, total: f_total };
    proof {
        if canon {
            assert(r.fields() =~= t.fields());
        }
    }
    Ok(r)
}

impl LoggingMessageNotificationParams {
    /// The fields of the canonical encoding, in order.
    pub open spec fn fields(self) -> Fields {
        seq![("level"@, Some(self.level.enc())), ("logger"@, opt_str_v(self.logger)), ("data"@, Some(self.data.model()))]
    }

    /// The canonical encoding.
    pub open spec fn enc(self) -> JsonV {
        record(self.fields(), Seq::empty())
    }

    /// The value can be told apart from its neighbours on the wire.
    pub open spec fn wf(self) -> bool {
        self.level.wf()
    }
}

/// The member names that LoggingMessageNotificationParams's fields take.
pub open spec fn logging_message_notification_params_reserved() -> Seq<Seq<char>> {
    seq!["level"@, "logger"@, "data"@]
}

pub(crate) proof fn lemma_logging_message_notification_params_separable(t: LoggingMessageNotificationParams)
    requires
        t.wf(),
    ensures
        separable(t.fields(), Seq::empty(), logging_message_notification_params_reserved()),
{
    reveal_strlit("level");
    reveal_strlit("logger");
    reveal_strlit("data");
    assert("level"@.len() == 5);
    assert("logger"@.len() == 6);
    assert("data"@.len() == 4);
    assert(field_keys(t.fields()) =~= seq!["level"@, "logger"@, "data"@]);
    assert(logging_message_notification_params_reserved()[0] == t.fields()[0].0);
    assert(logging_message_notification_params_reserved()[1] == t.fields()[1].0);
    assert(logging_message_notification_params_reserved()[2] == t.fields()[2].0);
    assert(fresh(Seq::empty(), logging_message_notification_params_reserved()));
}

pub fn encode_logging_message_notification_params(x: &LoggingMessageNotificationParams) -> (r: Json)
    ensures
        r.model() == x.enc(),
{
    let fs = vec![("level", Some(encode_logging_level(&x.level))), ("logger", enc_opt_str(&x.logger)), ("data", Some(x.data.clone_json()))];
    proof {
        assert(fields_model(fs@) =~= x.fields());
    }
    build(fs, Vec::new())
}

pub fn decode_logging_message_notification_params(j: &Json) -> (r: Result<LoggingMessageNotificationParams, DecodeError>)
    ensures
        !(j.model() is Object) ==> r == Err::<LoggingMessageNotificationParams, DecodeError>(DecodeError::InvalidParams),
        (exists|t: LoggingMessageNotificationParams| t.wf() && t.enc() == j.model()) ==> (r matches Ok(t) && t.wf() && t.enc() == j.model()),
{
    let ghost canon = exists|t: LoggingMessageNotificationParams| t.wf() && t.enc() == j.model();
    let ghost t = choose|t: LoggingMessageNotificationParams| t.wf() && t.enc() == j.model();
    let o = as_object(j)?;
    proof {
        if canon {
            lemma_logging_message_notification_params_separable(t);
            lemma_record_get(t.fields(), Seq::<(Seq<char>, JsonV)>::empty(), logging_message_notification_params_reserved(), 0);
            lemma_record_get(t.fields(), Seq::<(Seq<char>, JsonV)>::empty(), logging_message_notification_params_reserved(), 1);
            lemma_record_get(t.fields(), Seq::<(Seq<char>, JsonV)>::empty(), logging_message_notification_params_reserved(), 2);
            assert(present(t.fields()) + Seq::<(Seq<char>, JsonV)>::empty() =~= present(t.fields()));
            assert(t.level.wf() && t.level.enc() == t.fields()[0].1->Some_0);
        }
    }
    let f_level = match find(o, "level") { Some(v) => decode_logging_level(v)?, None => { return Err(DecodeError::InvalidParams); } };
    let f_logger = opt_str(o, "logger")?;
    let f_data = match find(o, "data") { Some(v) => v.clone_json(), None => { return Err(DecodeError::InvalidParams); } };
    let r = LoggingMessageNotificationParams { level: f_level, logger: f_logger, data: f_data };
    proof {
        if canon {
            assert(r.fields() =~= t.fields());
        }
    }
    Ok(r)
}

impl NotificationBaseParams {
    /// The fields of the canonical encoding, in order.
    pub open spec fn fields(self) -> Fields {
        seq![("_meta"@, opt_obj_v(self.meta))]
    }

    /// The extension members.
    pub open spec fn extra_model(self) -> Pairs {
        map_model(self.extra@)
    }

    /// The canonical encoding.
    pub open spec fn enc(self) -> JsonV {
        record(self.fields(), self.extra_model())
    }

    /// The value can be told apart from its neighbours on the wire.
    pub open spec fn wf(self) -> bool {
        fresh(self.extra_model(), notification_base_params_reserved())
    }
}

/// The member names that NotificationBaseParams's fields take.
pub open spec fn notification_base_params_reserved() -> Seq<Seq<char>> {
    seq!["_meta"@, "jsonrpc"@, "method"@, "id"@]
}

pub(crate) proof fn lemma_notification_base_params_separable(t: NotificationBaseParams)
    requires
        t.wf(),
    ensures
        separable(t.fields(), t.extra_model(), notification_base_params_reserved()),
{
    reveal_strlit("_meta");
    reveal_strlit("jsonrpc");
    reveal_strlit("method");
    reveal_strlit("id");
    assert("_meta"@.len() == 5);
    assert("jsonrpc"@.len() == 7);
    assert("method"@.len() == 6);
    assert("id"@.len() == 2);
    assert(field_keys(t.fields()) =~= seq!["_meta"@]);
    assert(notification_base_params_reserved()[0] == t.fields()[0].0);
}

pub fn encode_notification_base_params(x: &NotificationBaseParams) -> (r: Json)
    ensures
        r.model() == x.enc(),
{
    let fs = vec![("_meta", enc_opt_obj(&x.meta))];
    let extra = crate::json::clone_map(&x.extra);
    proof {
        assert(fields_model(fs@) =~= x.fields());
    }
    build(fs, extra)
}

pub fn decode_notification_base_params(j: &Json) -> (r: Result<NotificationBaseParams, DecodeError>)
    ensures
        !(j.model() is Object) ==> r == Err::<NotificationBaseParams, DecodeError>(DecodeError::InvalidParams),
        (exists|t: NotificationBaseParams| t.wf() && t.enc() == j.model()) ==> (r matches Ok(t) && t.wf() && t.enc() == j.model()),
{
    let ghost canon = exists|t: NotificationBaseParams| t.wf() && t.enc() == j.model();
    let ghost t = choose|t: NotificationBaseParams| t.wf() && t.enc() == j.model();
    let o = as_object(j)?;
    proof {
        if canon {
            lemma_notification_base_params_separable(t);
            lemma_record_get(t.fields(), t.extra_model(), notification_base_params_reserved(), 0);
            lemma_record_rest(t.fields(), t.extra_model(), notification_base_params_reserved());
        }
    }
    let f_meta = opt_obj(o, "_meta")?;
    let reserved = vec!["_meta", "jsonrpc", "method", "id"];
    let extra = rest(o, &reserved);
    proof {
        assert(key_model(reserved@) =~= notification_base_params_reserved());
    }
    let r = NotificationBaseParams { meta: f_meta, extra };
    proof {
        if canon {
            assert(r.fields() =~= t.fields());
        }
    }
    Ok(r)
}

impl InitializeResult {
    /// The fields of the canonical encoding, in order.
    pub open spec fn fields(self) -> Fields {
        seq![("protocolVersion"@, Some(self.protocol_version.enc())), ("capabilities"@, Some(self.capabilities.enc())), ("serverInfo"@, Some(self.server_info.enc())), ("instructions"@, opt_str_v(self.instructions))]
    }

    /// The canonical encoding.
    pub open spec fn enc(self) -> JsonV {
        record(self.fields(), Seq::empty())
    }

    /// The value can be told apart from its neighbours on the wire.
    pub open spec fn wf(self) -> bool {
        self.protocol_version.wf() && self.capabilities.wf() && self.server_info.wf()
    }
}

/// The member names that InitializeResult's fields take.
pub open spec fn initialize_result_reserved() -> Seq<Seq<char>> {
    seq!["protocolVersion"@, "capabilities"@, "serverInfo"@, "instructions"@]
}

pub(crate) proof fn lemma_initialize_result_separable(t: InitializeResult)
    requires
        t.wf(),
    ensures
        separable(t.fields(), Seq::empty(), initialize_result_reserved()),
{
    reveal_strlit("protocolVersion");
    reveal_strlit("capabilities");
    reveal_strlit("serverInfo");
    reveal_strlit("instructions");
    assert("protocolVersion"@.len() == 15);
    assert("capabilities"@.len() == 12);
    assert("serverInfo"@.len() == 10);
    assert("instructions"@.len() == 12);
    assert("capabilities"@[0] == 'c' && "instructions"@[0] == 'i');
    assert(field_keys(t.fields()) =~= seq!["protocolVersion"@, "capabilities"@, "serverInfo"@, "instructions"@]);
    assert(initialize_result_reserved()[0] == t.fields()[0].0);
    assert(initialize_result_reserved()[1] == t.fields()[1].0);
    assert(initialize_result_reserved()[2] == t.fields()[2].0);
    assert(initialize_result_reserved()[3] == t.fields()[3].0);
    assert(fresh(Seq::empty(), initialize_result_reserved()));
}

pub fn encode_initialize_result(x: &InitializeResult) -> (r: Json)
    ensures
        r.model() == x.enc(),
{
    let fs = vec![("protocolVersion", Some(encode_protocol_version(&x.protocol_version))), ("capabilities", Some(encode_server_capabilities(&x.capabilities))), ("serverInfo", Some(encode_implementation(&x.server_info))), ("instructions", enc_opt_str(&x.instructions))];
    proof {
        assert(fields_model(fs@) =~= x.fields());
    }
    build(fs, Vec::new())
}

pub fn decode_initialize_result(j: &Json) -> (r: Result<InitializeResult, DecodeError>)
    ensures
        !(j.model() is Object) ==> r == Err::<InitializeResult, DecodeError>(DecodeError::InvalidParams),
        (exists|t: InitializeResult| t.wf() && t.enc() == j.model()) ==> (r matches Ok(t) && t.wf() && t.enc() == j.model()),
{
    let ghost canon = exists|t: InitializeResult| t.wf() && t.enc() == j.model();
    let ghost t = choose|t: InitializeResult| t.wf() && t.enc() == j.model();
    let o = as_object(j)?;
    proof {
        if canon {
            lemma_initialize_result_separable(t);
            lemma_record_get(t.fields(), Seq::<(Seq<char>, JsonV)>::empty(), initialize_result_reserved(), 0);
            lemma_record_get(t.fields(), Seq::<(Seq<char>, JsonV)>::empty(), initialize_result_reserved(), 1);
            lemma_record_get(t.fields(), Seq::<(Seq<char>, JsonV)>::empty(), initialize_result_reserved(), 2);
            lemma_record_get(t.fields(), Seq::<(Seq<char>, JsonV)>::empty(), initialize_result_reserved(), 3);
            assert(present(t.fields()) + Seq::<(Seq<char>, JsonV)>::empty() =~= present(t.fields()));
            assert(t.protocol_version.wf() && t.protocol_version.enc() == t.fields()[0].1->Some_0);
            assert(t.capabilities.wf() && t.capabilities.enc() == t.fields()[1].1->Some_0);
            assert(t.server_info.wf() && t.server_info.enc() == t.fields()[2].1->Some_0);
        }
    }
    let f_protocol_version = match find(o, "protocolVersion") { Some(v) => decode_protocol_version(v)?, None => { return Err(DecodeError::InvalidParams); } };
    let f_capabilities = match find(o, "capabilities") { Some(v) => decode_server_capabilities(v)?, None => { return Err(DecodeError::InvalidParams); } };
    let f_server_info = match find(o, "serverInfo") { Some(v) => decode_implementation(v)?, None => { return Err(DecodeError::InvalidParams); } };
    let f_instructions = opt_str(o, "instructions")?;
    let r = InitializeResult { protocol_version: f_protocol_version, capabilities: f_capabilities, server_info: f_server_info, instructions: f_instructions };
    proof {
        if canon {
            assert(r.fields() =~= t.fields());
        }
    }
    Ok(r)
}

impl ErrorParams {
    /// The fields of the canonical encoding, in order.
    pub open spec fn fields(self) -> Fields {
        seq![("code"@, Some(int_v(self.code))), ("message"@, Some(str_v(self.message))), ("data"@, opt_json_v(self.data))]
    }

    /// The canonical encoding.
    pub open spec fn enc(self) -> JsonV {
        record(self.fields(), Seq::empty())
    }

    /// The value can be told apart from its neighbours on the wire.
    pub open spec fn wf(self) -> bool {
        true
    }
}

/// The member names that ErrorParams's fields take.
pub open spec fn error_params_reserved() -> Seq<Seq<char>> {
    seq!["code"@, "message"@, "data"@]
}

pub(crate) proof fn lemma_error_params_separable(t: ErrorParams)
    requires
        t.wf(),
    ensures
        separable(t.fields(), Seq::empty(), error_params_reserved()),
{
    reveal_strlit("code");
    reveal_strlit("message");
    reveal_strlit("data");
    assert("code"@.len() == 4);
    assert("message"@.len() == 7);
    assert("data"@.len() == 4);
    assert("code"@[0] == 'c' && "data"@[0] == 'd');
    assert(field_keys(t.fields()) =~= seq!["code"@, "message"@, "data"@]);
    assert(error_params_reserved()[0] == t.fields()[0].0);
    assert(error_params_reserved()[1] == t.fields()[1].0);
    assert(error_params_reserved()[2] == t.fields()[2].0);
    assert(fresh(Seq::empty(), error_params_reserved()));
}

pub fn encode_error_params(x: &ErrorParams) -> (r: Json)
    ensures
        r.model() == x.enc(),
{
    let fs = vec![("code", Some(Json::Number(Number::Int(x.code)))), ("message", enc_str(&x.message)), ("data", enc_opt_json(&x.data))];
    proof {
        assert(fields_model(fs@) =~= x.fields());
    }
    build(fs, Vec::new())
}

pub fn decode_error_params(j: &Json) -> (r: Result<ErrorParams, DecodeError>)
    ensures
        !(j.model() is Object) ==> r == Err::<ErrorParams, DecodeError>(DecodeError::InvalidParams),
        (exists|t: ErrorParams| t.wf() && t.enc() == j.model()) ==> (r matches Ok(t) && t.wf() && t.enc() == j.model()),
{
    let ghost canon = exists|t: ErrorParams| t.wf() && t.enc() == j.model();
    let ghost t = choose|t: ErrorParams| t.wf() && t.enc() == j.model();
    let o = as_object(j)?;
    proof {
        if canon {
            lemma_error_params_separable(t);
            lemma_record_get(t.fields(), Seq::<(Seq<char>, JsonV)>::empty(), error_params_reserved(), 0);
            lemma_record_get(t.fields(), Seq::<(Seq<char>, JsonV)>::empty(), error_params_reserved(), 1);
            lemma_record_get(t.fields(), Seq::<(Seq<char>, JsonV)>::empty(), error_params_reserved(), 2);
            assert(present(t.fields()) + Seq::<(Seq<char>, JsonV)>::empty() =~= present(t.fields()));
        }
    }
    let f_code = req_int(o, "code")?;
    let f_message = req_str(o, "message")?;
    let f_data = match find(o, "data") { Some(v) => Some(v.clone_json()), None => None };
    let r = ErrorParams { code: f_code, message: f_message, data: f_data };
    proof {
        if canon {
            assert(r.fields() =~= t.fields());
        }
    }
    Ok(r)
}



// ---- tagged and untagged unions ----

/// The object of a record whose fields `fs` follow a `type` member naming
/// `tag`.
pub open spec fn tagged_fields(tag: Seq<char>, fs: Fields) -> Fields {
    seq![("type"@, Some(JsonV::Str(tag)))] + fs
}

pub(crate) proof fn lemma_tagged_layout(tag: Seq<char>, fs: Fields)
    ensures
        present(tagged_fields(tag, fs)) == seq![("type"@, JsonV::Str(tag))] + present(fs),
{
    let head = seq![("type"@, Some(JsonV::Str(tag)))];
    crate::record::lemma_present_concat(head, fs);
    reveal_with_fuel(present, 2);
    assert(head.drop_first() =~= Seq::<(Seq<char>, Option<JsonV>)>::empty());
    assert(present(head) =~= seq![("type"@, JsonV::Str(tag))]);
}

/// `inner`'s members after a leading `type` member naming `tag`.
pub(crate) fn tagged(tag: &str, inner: Json) -> (r: Json)
    ensures
        inner.model() is Object ==> r.model() == JsonV::Object(seq![("type"@, JsonV::Str(tag@))] + inner.model()->Object_0),
{
    let ghost whole = inner;
    let members = match inner {
        Json::Object(m) => {
            proof { crate::json::lemma_object_model(m); }
            m
        },
        _ => Vec::new(),
    };
    proof {
        if whole.model() is Object {
            assert(whole is Object);
        }
    }
    let ghost m0 = members@;
    let mut out: JsonMap = Vec::new();
    out.push(("type".to_owned(), Json::Str(tag.to_owned())));
    let ghost head = out@;
    let mut members = members;
    let ghost mut k: int = 0;
    assert(head + m0.subrange(0, 0) =~= head);
    while members.len() > 0
        invariant
            0 <= k <= m0.len(),
            members@ == m0.subrange(k, m0.len() as int),
            out@ == head + m0.subrange(0, k),
        decreases members@.len(),
    {
        let e = members.remove(0);
        out.push(e);
        proof {
            assert(m0.subrange(0, k + 1) =~= m0.subrange(0, k).push(e));
            k = k + 1;
            assert(members@ =~= m0.subrange(k, m0.len() as int));
        }
    }
    proof {
        assert(m0.subrange(0, k) =~= m0);
        assert(map_model(out@) =~= seq![("type"@, JsonV::Str(tag@))] + map_model(m0));
        crate::json::lemma_object_model(out);
    }
    Json::Object(out)
}

impl PromptMessageContent {
    pub open spec fn fields(self) -> Fields {
        match self {
            PromptMessageContent::Text(x) => tagged_fields("text"@, x.fields()),
            PromptMessageContent::Image(x) => tagged_fields("image"@, x.fields()),
            PromptMessageContent::Embedded(x) => tagged_fields("resource"@, x.fields()),
        }
    }

    pub open spec fn enc(self) -> JsonV {
        record(self.fields(), Seq::empty())
    }

    pub open spec fn wf(self) -> bool {
        match self {
            PromptMessageContent::Text(x) => x.wf(),
            PromptMessageContent::Image(x) => x.wf(),
            PromptMessageContent::Embedded(x) => x.wf(),
        }
    }
}

pub(crate) proof fn lemma_prompt_message_content_layout(t: PromptMessageContent)
    ensures
        t matches PromptMessageContent::Text(x) ==> t.enc() == JsonV::Object(seq![("type"@, JsonV::Str("text"@))] + present(x.fields()))
            && x.enc() == JsonV::Object(present(x.fields()))
            && forall|i: int| 0 <= i < x.fields().len() ==> !seq!["type"@].contains(#[trigger] x.fields()[i].0),
        t matches PromptMessageContent::Image(x) ==> t.enc() == JsonV::Object(seq![("type"@, JsonV::Str("image"@))] + present(x.fields()))
            && x.enc() == JsonV::Object(present(x.fields()))
            && forall|i: int| 0 <= i < x.fields().len() ==> !seq!["type"@].contains(#[trigger] x.fields()[i].0),
        t matches PromptMessageContent::Embedded(x) ==> t.enc() == JsonV::Object(seq![("type"@, JsonV::Str("resource"@))] + present(x.fields()))
            && x.enc() == JsonV::Object(present(x.fields()))
            && forall|i: int| 0 <= i < x.fields().len() ==> !seq!["type"@].contains(#[trigger] x.fields()[i].0),
{
    reveal_strlit("annotations");
    reveal_strlit("data");
    reveal_strlit("image");
    reveal_strlit("mimeType");
    reveal_strlit("resource");
    reveal_strlit("text");
    reveal_strlit("type");
    assert("annotations"@.len() == 11);
    assert("data"@.len() == 4);
    assert("image"@.len() == 5);
    assert("mimeType"@.len() == 8);
    assert("resource"@.len() == 8);
    assert("text"@.len() == 4);
    assert("type"@.len() == 4);
    assert("data"@[0] == 'd' && "text"@[0] == 't');
    assert("data"@[0] == 'd' && "type"@[0] == 't');
    assert("mimeType"@[0] == 'm' && "resource"@[0] == 'r');
    assert("text"@[1] == 'e' && "type"@[1] == 'y');
    match t {
        PromptMessageContent::Text(x) => {
            lemma_tagged_layout("text"@, x.fields());
            assert(present(x.fields()) + Seq::<(Seq<char>, JsonV)>::empty() =~= present(x.fields()));
            assert(present(tagged_fields("text"@, x.fields())) + Seq::<(Seq<char>, JsonV)>::empty() =~= present(tagged_fields("text"@, x.fields())));
            assert forall|i: int| 0 <= i < x.fields().len() implies !seq!["type"@].contains(#[trigger] x.fields()[i].0) by {
                if seq!["type"@].contains(x.fields()[i].0) {
                    assert(seq!["type"@][0] == "type"@);
                    let j = choose|j: int| 0 <= j < 1 && seq!["type"@][j] == x.fields()[i].0;
                }
            }
        },
        PromptMessageContent::Image(x) => {
            lemma_tagged_layout("image"@, x.fields());
            assert(present(x.fields()) + Seq::<(Seq<char>, JsonV)>::empty() =~= present(x.fields()));
            assert(present(tagged_fields("image"@, x.fields())) + Seq::<(Seq<char>, JsonV)>::empty() =~= present(tagged_fields("image"@, x.fields())));
            assert forall|i: int| 0 <= i < x.fields().len() implies !seq!["type"@].contains(#[trigger] x.fields()[i].0) by {
                if seq!["type"@].contains(x.fields()[i].0) {
                    assert(seq!["type"@][0] == "type"@);
                    let j = choose|j: int| 0 <= j < 1 && seq!["type"@][j] == x.fields()[i].0;
                }
            }
        },
        PromptMessageContent::Embedded(x) => {
            lemma_tagged_layout("resource"@, x.fields());
            assert(present(x.fields()) + Seq::<(Seq<char>, JsonV)>::empty() =~= present(x.fields()));
            assert(present(tagged_fields("resource"@, x.fields())) + Seq::<(Seq<char>, JsonV)>::empty() =~= present(tagged_fields("resource"@, x.fields())));
            assert forall|i: int| 0 <= i < x.fields().len() implies !seq!["type"@].contains(#[trigger] x.fields()[i].0) by {
                if seq!["type"@].contains(x.fields()[i].0) {
                    assert(seq!["type"@][0] == "type"@);
                    let j = choose|j: int| 0 <= j < 1 && seq!["type"@][j] == x.fields()[i].0;
                }
            }
        },
    }
}

pub fn encode_prompt_message_content(x: &PromptMessageContent) -> (r: Json)
    ensures
        r.model() == x.enc(),
{
    proof {
        lemma_prompt_message_content_layout(*x);
    }
    match x {
        PromptMessageContent::Text(y) => tagged("text", encode_text_content(y)),
        PromptMessageContent::Image(y) => tagged("image", encode_image_content(y)),
        PromptMessageContent::Embedded(y) => tagged("resource", encode_embedded_resource(y)),
    }
}

pub fn decode_prompt_message_content(j: &Json) -> (r: Result<PromptMessageContent, DecodeError>)
    ensures
        !(j.model() is Object) ==> r == Err::<PromptMessageContent, DecodeError>(DecodeError::InvalidParams),
        (exists|t: PromptMessageContent| t.wf() && t.enc() == j.model()) ==> (r matches Ok(t) && t.wf() && t.enc() == j.model()),
{
    let ghost canon = exists|t: PromptMessageContent| t.wf() && t.enc() == j.model();
    let ghost t = choose|t: PromptMessageContent| t.wf() && t.enc() == j.model();
    let o = as_object(j)?;
    proof {
        reveal_strlit("type");
        reveal_strlit("text");
        reveal_strlit("image");
        reveal_strlit("resource");
        reveal_strlit("object");
        assert("text"@.len() == 4);
        assert("image"@.len() == 5);
        assert("resource"@.len() == 8);
        assert("object"@.len() == 6);
        if canon {
            lemma_prompt_message_content_layout(t);
            match t {
                PromptMessageContent::Text(x) => {
                    crate::record::lemma_get_append(seq![("type"@, JsonV::Str("text"@))], present(x.fields()), "type"@);
                },
                PromptMessageContent::Image(x) => {
                    crate::record::lemma_get_append(seq![("type"@, JsonV::Str("image"@))], present(x.fields()), "type"@);
                },
                PromptMessageContent::Embedded(x) => {
                    crate::record::lemma_get_append(seq![("type"@, JsonV::Str("resource"@))], present(x.fields()), "type"@);
                },
            }
        }
    }
    let tag = req_str(o, "type")?;
    let keys = vec!["type"];
    let members = rest(o, &keys);
    proof {
        assert(key_model(keys@) =~= seq!["type"@]);
        crate::json::lemma_object_model(members);
        if canon {
            match t {
                PromptMessageContent::Text(x) => {
                    let pre = seq![("type"@, Some(JsonV::Str("text"@)))];
                    assert(pre[0].0 == seq!["type"@][0]);
                    assert(forall|i: int| 0 <= i < pre.len() ==> seq!["type"@].contains(#[trigger] pre[i].0));
                    assert(crate::record::fresh(Seq::empty(), seq!["type"@]));
                    crate::record::lemma_record_strip(pre, x.fields(), Seq::empty(), seq!["type"@]);
                    assert(present(x.fields()) + Seq::<(Seq<char>, JsonV)>::empty() =~= present(x.fields()));
                    assert(x.wf() && x.enc() == JsonV::Object(map_model(members@)));
                },
                PromptMessageContent::Image(x) => {
                    let pre = seq![("type"@, Some(JsonV::Str("image"@)))];
                    assert(pre[0].0 == seq!["type"@][0]);
                    assert(forall|i: int| 0 <= i < pre.len() ==> seq!["type"@].contains(#[trigger] pre[i].0));
                    assert(crate::record::fresh(Seq::empty(), seq!["type"@]));
                    crate::record::lemma_record_strip(pre, x.fields(), Seq::empty(), seq!["type"@]);
                    assert(present(x.fields()) + Seq::<(Seq<char>, JsonV)>::empty() =~= present(x.fields()));
                    assert(x.wf() && x.enc() == JsonV::Object(map_model(members@)));
                },
                PromptMessageContent::Embedded(x) => {
                    let pre = seq![("type"@, Some(JsonV::Str("resource"@)))];
                    assert(pre[0].0 == seq!["type"@][0]);
                    assert(forall|i: int| 0 <= i < pre.len() ==> seq!["type"@].contains(#[trigger] pre[i].0));
                    assert(crate::record::fresh(Seq::empty(), seq!["type"@]));
                    crate::record::lemma_record_strip(pre, x.fields(), Seq::empty(), seq!["type"@]);
                    assert(present(x.fields()) + Seq::<(Seq<char>, JsonV)>::empty() =~= present(x.fields()));
                    assert(x.wf() && x.enc() == JsonV::Object(map_model(members@)));
                },
            }
        }
    }
    let inner = Json::Object(members);
    if crate::record::same_text(&tag, "text") {
        let x = decode_text_content(&inner)?;
        let r = PromptMessageContent::Text(x);
        proof { lemma_prompt_message_content_layout(r); if canon { lemma_prompt_message_content_layout(t); } }
        Ok(r)
    } else if crate::record::same_text(&tag, "image") {
        let x = decode_image_content(&inner)?;
        let r = PromptMessageContent::Image(x);
        proof { lemma_prompt_message_content_layout(r); if canon { lemma_prompt_message_content_layout(t); } }
        Ok(r)
    } else if crate::record::same_text(&tag, "resource") {
        let x = decode_embedded_resource(&inner)?;
        let r = PromptMessageContent::Embedded(x);
        proof { lemma_prompt_message_content_layout(r); if canon { lemma_prompt_message_content_layout(t); } }
        Ok(r)
    } else {
        Err(DecodeError::InvalidParams)
    }
}

impl CallToolContent {
    pub open spec fn fields(self) -> Fields {
        match self {
            CallToolContent::Text(x) => tagged_fields("text"@, x.fields()),
            CallToolContent::Image(x) => tagged_fields("image"@, x.fields()),
            CallToolContent::Embedded(x) => tagged_fields("resource"@, x.fields()),
        }
    }

    pub open spec fn enc(self) -> JsonV {
        record(self.fields(), Seq::empty())
    }

    pub open spec fn wf(self) -> bool {
        match self {
            CallToolContent::Text(x) => x.wf(),
            CallToolContent::Image(x) => x.wf(),
            CallToolContent::Embedded(x) => x.wf(),
        }
    }
}

pub(crate) proof fn lemma_call_tool_content_layout(t: CallToolContent)
    ensures
        t matches CallToolContent::Text(x) ==> t.enc() == JsonV::Object(seq![("type"@, JsonV::Str("text"@))] + present(x.fields()))
            && x.enc() == JsonV::Object(present(x.fields()))
            && forall|i: int| 0 <= i < x.fields().len() ==> !seq!["type"@].contains(#[trigger] x.fields()[i].0),
        t matches CallToolContent::Image(x) ==> t.enc() == JsonV::Object(seq![("type"@, JsonV::Str("image"@))] + present(x.fields()))
            && x.enc() == JsonV::Object(present(x.fields()))
            && forall|i: int| 0 <= i < x.fields().len() ==> !seq!["type"@].contains(#[trigger] x.fields()[i].0),
        t matches CallToolContent::Embedded(x) ==> t.enc() == JsonV::Object(seq![("type"@, JsonV::Str("resource"@))] + present(x.fields()))
            && x.enc() == JsonV::Object(present(x.fields()))
            && forall|i: int| 0 <= i < x.fields().len() ==> !seq!["type"@].contains(#[trigger] x.fields()[i].0),
{
    reveal_strlit("annotations");
    reveal_strlit("data");
    reveal_strlit("image");
    reveal_strlit("mimeType");
    reveal_strlit("resource");
    reveal_strlit("text");
    reveal_strlit("type");
    assert("annotations"@.len() == 11);
    assert("data"@.len() == 4);
    assert("image"@.len() == 5);
    assert("mimeType"@.len() == 8);
    assert("resource"@.len() == 8);
    assert("text"@.len() == 4);
    assert("type"@.len() == 4);
    assert("data"@[0] == 'd' && "text"@[0] == 't');
    assert("data"@[0] == 'd' && "type"@[0] == 't');
    assert("mimeType"@[0] == 'm' && "resource"@[0] == 'r');
    assert("text"@[1] == 'e' && "type"@[1] == 'y');
    match t {
        CallToolContent::Text(x) => {
            lemma_tagged_layout("text"@, x.fields());
            assert(present(x.fields()) + Seq::<(Seq<char>, JsonV)>::empty() =~= present(x.fields()));
            assert(present(tagged_fields("text"@, x.fields())) + Seq::<(Seq<char>, JsonV)>::empty() =~= present(tagged_fields("text"@, x.fields())));
            assert forall|i: int| 0 <= i < x.fields().len() implies !seq!["type"@].contains(#[trigger] x.fields()[i].0) by {
                if seq!["type"@].contains(x.fields()[i].0) {
                    assert(seq!["type"@][0] == "type"@);
                    let j = choose|j: int| 0 <= j < 1 && seq!["type"@][j] == x.fields()[i].0;
                }
            }
        },
        CallToolContent::Image(x) => {
            lemma_tagged_layout("image"@, x.fields());
            assert(present(x.fields()) + Seq::<(Seq<char>, JsonV)>::empty() =~= present(x.fields()));
            assert(present(tagged_fields("image"@, x.fields())) + Seq::<(Seq<char>, JsonV)>::empty() =~= present(tagged_fields("image"@, x.fields())));
            assert forall|i: int| 0 <= i < x.fields().len() implies !seq!["type"@].contains(#[trigger] x.fields()[i].0) by {
                if seq!["type"@].contains(x.fields()[i].0) {
                    assert(seq!["type"@][0] == "type"@);
                    let j = choose|j: int| 0 <= j < 1 && seq!["type"@][j] == x.fields()[i].0;
                }
            }
        },
        CallToolContent::Embedded(x) => {
            lemma_tagged_layout("resource"@, x.fields());
            assert(present(x.fields()) + Seq::<(Seq<char>, JsonV)>::empty() =~= present(x.fields()));
            assert(present(tagged_fields("resource"@, x.fields())) + Seq::<(Seq<char>, JsonV)>::empty() =~= present(tagged_fields("resource"@, x.fields())));
            assert forall|i: int| 0 <= i < x.fields().len() implies !seq!["type"@].contains(#[trigger] x.fields()[i].0) by {
                if seq!["type"@].contains(x.fields()[i].0) {
                    assert(seq!["type"@][0] == "type"@);
                    let j = choose|j: int| 0 <= j < 1 && seq!["type"@][j] == x.fields()[i].0;
                }
            }
        },
    }
}

pub fn encode_call_tool_content(x: &CallToolContent) -> (r: Json)
    ensures
        r.model() == x.enc(),
{
    proof {
        lemma_call_tool_content_layout(*x);
    }
    match x {
        CallToolContent::Text(y) => tagged("text", encode_text_content(y)),
        CallToolContent::Image(y) => tagged("image", encode_image_content(y)),
        CallToolContent::Embedded(y) => tagged("resource", encode_embedded_resource(y)),
    }
}

pub fn decode_call_tool_content(j: &Json) -> (r: Result<CallToolContent, DecodeError>)
    ensures
        !(j.model() is Object) ==> r == Err::<CallToolContent, DecodeError>(DecodeError::InvalidParams),
        (exists|t: CallToolContent| t.wf() && t.enc() == j.model()) ==> (r matches Ok(t) && t.wf() && t.enc() == j.model()),
{
    let ghost canon = exists|t: CallToolContent| t.wf() && t.enc() == j.model();
    let ghost t = choose|t: CallToolContent| t.wf() && t.enc() == j.model();
    let o = as_object(j)?;
    proof {
        reveal_strlit("type");
        reveal_strlit("text");
        reveal_strlit("image");
        reveal_strlit("resource");
        reveal_strlit("object");
        assert("text"@.len() == 4);
        assert("image"@.len() == 5);
        assert("resource"@.len() == 8);
        assert("object"@.len() == 6);
        if canon {
            lemma_call_tool_content_layout(t);
            match t {
                CallToolContent::Text(x) => {
                    crate::record::lemma_get_append(seq![("type"@, JsonV::Str("text"@))], present(x.fields()), "type"@);
                },
                CallToolContent::Image(x) => {
                    crate::record::lemma_get_append(seq![("type"@, JsonV::Str("image"@))], present(x.fields()), "type"@);
                },
                CallToolContent::Embedded(x) => {
                    crate::record::lemma_get_append(seq![("type"@, JsonV::Str("resource"@))], present(x.fields()), "type"@);
                },
            }
        }
    }
    let tag = req_str(o, "type")?;
    let keys = vec!["type"];
    let members = rest(o, &keys);
    proof {
        assert(key_model(keys@) =~= seq!["type"@]);
        crate::json::lemma_object_model(members);
        if canon {
            match t {
                CallToolContent::Text(x) => {
                    let pre = seq![("type"@, Some(JsonV::Str("text"@)))];
                    assert(pre[0].0 == seq!["type"@][0]);
                    assert(forall|i: int| 0 <= i < pre.len() ==> seq!["type"@].contains(#[trigger] pre[i].0));
                    assert(crate::record::fresh(Seq::empty(), seq!["type"@]));
                    crate::record::lemma_record_strip(pre, x.fields(), Seq::empty(), seq!["type"@]);
                    assert(present(x.fields()) + Seq::<(Seq<char>, JsonV)>::empty() =~= present(x.fields()));
                    assert(x.wf() && x.enc() == JsonV::Object(map_model(members@)));
                },
                CallToolContent::Image(x) => {
                    let pre = seq![("type"@, Some(JsonV::Str("image"@)))];
                    assert(pre[0].0 == seq!["type"@][0]);
                    assert(forall|i: int| 0 <= i < pre.len() ==> seq!["type"@].contains(#[trigger] pre[i].0));
                    assert(crate::record::fresh(Seq::empty(), seq!["type"@]));
                    crate::record::lemma_record_strip(pre, x.fields(), Seq::empty(), seq!["type"@]);
                    assert(present(x.fields()) + Seq::<(Seq<char>, JsonV)>::empty() =~= present(x.fields()));
                    assert(x.wf() && x.enc() == JsonV::Object(map_model(members@)));
                },
                CallToolContent::Embedded(x) => {
                    let pre = seq![("type"@, Some(JsonV::Str("resource"@)))];
                    assert(pre[0].0 == seq!["type"@][0]);
                    assert(forall|i: int| 0 <= i < pre.len() ==> seq!["type"@].contains(#[trigger] pre[i].0));
                    assert(crate::record::fresh(Seq::empty(), seq!["type"@]));
                    crate::record::lemma_record_strip(pre, x.fields(), Seq::empty(), seq!["type"@]);
                    assert(present(x.fields()) + Seq::<(Seq<char>, JsonV)>::empty() =~= present(x.fields()));
                    assert(x.wf() && x.enc() == JsonV::Object(map_model(members@)));
                },
            }
        }
    }
    let inner = Json::Object(members);
    if crate::record::same_text(&tag, "text") {
        let x = decode_text_content(&inner)?;
        let r = CallToolContent::Text(x);
        proof { lemma_call_tool_content_layout(r); if canon { lemma_call_tool_content_layout(t); } }
        Ok(r)
    } else if crate::record::same_text(&tag, "image") {
        let x = decode_image_content(&inner)?;
        let r = CallToolContent::Image(x);
        proof { lemma_call_tool_content_layout(r); if canon { lemma_call_tool_content_layout(t); } }
        Ok(r)
    } else if crate::record::same_text(&tag, "resource") {
        let x = decode_embedded_resource(&inner)?;
        let r = CallToolContent::Embedded(x);
        proof { lemma_call_tool_content_layout(r); if canon { lemma_call_tool_content_layout(t); } }
        Ok(r)
    } else {
        Err(DecodeError::InvalidParams)
    }
}

impl SamplingMessageContent {
    pub open spec fn fields(self) -> Fields {
        match self {
            SamplingMessageContent::Text(x) => tagged_fields("text"@, x.fields()),
            SamplingMessageContent::Image(x) => tagged_fields("image"@, x.fields()),
        }
    }

    pub open spec fn enc(self) -> JsonV {
        record(self.fields(), Seq::empty())
    }

    pub open spec fn wf(self) -> bool {
        match self {
            SamplingMessageContent::Text(x) => x.wf(),
            SamplingMessageContent::Image(x) => x.wf(),
        }
    }
}

pub(crate) proof fn lemma_sampling_message_content_layout(t: SamplingMessageContent)
    ensures
        t matches SamplingMessageContent::Text(x) ==> t.enc() == JsonV::Object(seq![("type"@, JsonV::Str("text"@))] + present(x.fields()))
            && x.enc() == JsonV::Object(present(x.fields()))
            && forall|i: int| 0 <= i < x.fields().len() ==> !seq!["type"@].contains(#[trigger] x.fields()[i].0),
        t matches SamplingMessageContent::Image(x) ==> t.enc() == JsonV::Object(seq![("type"@, JsonV::Str("image"@))] + present(x.fields()))
            && x.enc() == JsonV::Object(present(x.fields()))
            && forall|i: int| 0 <= i < x.fields().len() ==> !seq!["type"@].contains(#[trigger] x.fields()[i].0),
{
    reveal_strlit("annotations");
    reveal_strlit("data");
    reveal_strlit("image");
    reveal_strlit("mimeType");
    reveal_strlit("text");
    reveal_strlit("type");
    assert("annotations"@.len() == 11);
    assert("data"@.len() == 4);
    assert("image"@.len() == 5);
    assert("mimeType"@.len() == 8);
    assert("text"@.len() == 4);
    assert("type"@.len() == 4);
    assert("data"@[0] == 'd' && "text"@[0] == 't');
    assert("data"@[0] == 'd' && "type"@[0] == 't');
    assert("text"@[1] == 'e' && "type"@[1] == 'y');
    match t {
        SamplingMessageContent::Text(x) => {
            lemma_tagged_layout("text"@, x.fields());
            assert(present(x.fields()) + Seq::<(Seq<char>, JsonV)>::empty() =~= present(x.fields()));
            assert(present(tagged_fields("text"@, x.fields())) + Seq::<(Seq<char>, JsonV)>::empty() =~= present(tagged_fields("text"@, x.fields())));
            assert forall|i: int| 0 <= i < x.fields().len() implies !seq!["type"@].contains(#[trigger] x.fields()[i].0) by {
                if seq!["type"@].contains(x.fields()[i].0) {
                    assert(seq!["type"@][0] == "type"@);
                    let j = choose|j: int| 0 <= j < 1 && seq!["type"@][j] == x.fields()[i].0;
                }
            }
        },
        SamplingMessageContent::Image(x) => {
            lemma_tagged_layout("image"@, x.fields());
            assert(present(x.fields()) + Seq::<(Seq<char>, JsonV)>::empty() =~= present(x.fields()));
            assert(present(tagged_fields("image"@, x.fields())) + Seq::<(Seq<char>, JsonV)>::empty() =~= present(tagged_fields("image"@, x.fields())));
            assert forall|i: int| 0 <= i < x.fields().len() implies !seq!["type"@].contains(#[trigger] x.fields()[i].0) by {
                if seq!["type"@].contains(x.fields()[i].0) {
                    assert(seq!["type"@][0] == "type"@);
                    let j = choose|j: int| 0 <= j < 1 && seq!["type"@][j] == x.fields()[i].0;
                }
            }
        },
    }
}

pub fn encode_sampling_message_content(x: &SamplingMessageContent) -> (r: Json)
    ensures
        r.model() == x.enc(),
{
    proof {
        lemma_sampling_message_content_layout(*x);
    }
    match x {
        SamplingMessageContent::Text(y) => tagged("text", encode_text_content(y)),
        SamplingMessageContent::Image(y) => tagged("image", encode_image_content(y)),
    }
}

pub fn decode_sampling_message_content(j: &Json) -> (r: Result<SamplingMessageContent, DecodeError>)
    ensures
        !(j.model() is Object) ==> r == Err::<SamplingMessageContent, DecodeError>(DecodeError::InvalidParams),
        (exists|t: SamplingMessageContent| t.wf() && t.enc() == j.model()) ==> (r matches Ok(t) && t.wf() && t.enc() == j.model()),
{
    let ghost canon = exists|t: SamplingMessageContent| t.wf() && t.enc() == j.model();
    let ghost t = choose|t: SamplingMessageContent| t.wf() && t.enc() == j.model();
    let o = as_object(j)?;
    proof {
        reveal_strlit("type");
        reveal_strlit("text");
        reveal_strlit("image");
        reveal_strlit("resource");
        reveal_strlit("object");
        assert("text"@.len() == 4);
        assert("image"@.len() == 5);
        assert("resource"@.len() == 8);
        assert("object"@.len() == 6);
        if canon {
            lemma_sampling_message_content_layout(t);
            match t {
                SamplingMessageContent::Text(x) => {
                    crate::record::lemma_get_append(seq![("type"@, JsonV::Str("text"@))], present(x.fields()), "type"@);
                },
                SamplingMessageContent::Image(x) => {
                    crate::record::lemma_get_append(seq![("type"@, JsonV::Str("image"@))], present(x.fields()), "type"@);
                },
            }
        }
    }
    let tag = req_str(o, "type")?;
    let keys = vec!["type"];
    let members = rest(o, &keys);
    proof {
        assert(key_model(keys@) =~= seq!["type"@]);
        crate::json::lemma_object_model(members);
        if canon {
            match t {
                SamplingMessageContent::Text(x) => {
                    let pre = seq![("type"@, Some(JsonV::Str("text"@)))];
                    assert(pre[0].0 == seq!["type"@][0]);
                    assert(forall|i: int| 0 <= i < pre.len() ==> seq!["type"@].contains(#[trigger] pre[i].0));
                    assert(crate::record::fresh(Seq::empty(), seq!["type"@]));
                    crate::record::lemma_record_strip(pre, x.fields(), Seq::empty(), seq!["type"@]);
                    assert(present(x.fields()) + Seq::<(Seq<char>, JsonV)>::empty() =~= present(x.fields()));
                    assert(x.wf() && x.enc() == JsonV::Object(map_model(members@)));
                },
                SamplingMessageContent::Image(x) => {
                    let pre = seq![("type"@, Some(JsonV::Str("image"@)))];
                    assert(pre[0].0 == seq!["type"@][0]);
                    assert(forall|i: int| 0 <= i < pre.len() ==> seq!["type"@].contains(#[trigger] pre[i].0));
                    assert(crate::record::fresh(Seq::empty(), seq!["type"@]));
                    crate::record::lemma_record_strip(pre, x.fields(), Seq::empty(), seq!["type"@]);
                    assert(present(x.fields()) + Seq::<(Seq<char>, JsonV)>::empty() =~= present(x.fields()));
                    assert(x.wf() && x.enc() == JsonV::Object(map_model(members@)));
                },
            }
        }
    }
    let inner = Json::Object(members);
    if crate::record::same_text(&tag, "text") {
        let x = decode_text_content(&inner)?;
        let r = SamplingMessageContent::Text(x);
        proof { lemma_sampling_message_content_layout(r); if canon { lemma_sampling_message_content_layout(t); } }
        Ok(r)
    } else if crate::record::same_text(&tag, "image") {
        let x = decode_image_content(&inner)?;
        let r = SamplingMessageContent::Image(x);
        proof { lemma_sampling_message_content_layout(r); if canon { lemma_sampling_message_content_layout(t); } }
        Ok(r)
    } else {
        Err(DecodeError::InvalidParams)
    }
}

impl ToolInputSchemaType {
    pub open spec fn fields(self) -> Fields {
        match self {
            ToolInputSchemaType::Object(x) => tagged_fields("object"@, x.fields()),
        }
    }

    pub open spec fn enc(self) -> JsonV {
        record(self.fields(), Seq::empty())
    }

    pub open spec fn wf(self) -> bool {
        match self {
            ToolInputSchemaType::Object(x) => x.wf(),
        }
    }
}

pub(crate) proof fn lemma_tool_input_schema_type_layout(t: ToolInputSchemaType)
    ensures
        t matches ToolInputSchemaType::Object(x) ==> t.enc() == JsonV::Object(seq![("type"@, JsonV::Str("object"@))] + present(x.fields()))
            && x.enc() == JsonV::Object(present(x.fields()))
            && forall|i: int| 0 <= i < x.fields().len() ==> !seq!["type"@].contains(#[trigger] x.fields()[i].0),
{
    reveal_strlit("object");
    reveal_strlit("properties");
    reveal_strlit("required");
    reveal_strlit("type");
    assert("object"@.len() == 6);
    assert("properties"@.len() == 10);
    assert("required"@.len() == 8);
    assert("type"@.len() == 4);
    match t {
        ToolInputSchemaType::Object(x) => {
            lemma_tagged_layout("object"@, x.fields());
            assert(present(x.fields()) + Seq::<(Seq<char>, JsonV)>::empty() =~= present(x.fields()));
            assert(present(tagged_fields("object"@, x.fields())) + Seq::<(Seq<char>, JsonV)>::empty() =~= present(tagged_fields("object"@, x.fields())));
            assert forall|i: int| 0 <= i < x.fields().len() implies !seq!["type"@].contains(#[trigger] x.fields()[i].0) by {
                if seq!["type"@].contains(x.fields()[i].0) {
                    assert(seq!["type"@][0] == "type"@);
                    let j = choose|j: int| 0 <= j < 1 && seq!["type"@][j] == x.fields()[i].0;
                }
            }
        },
    }
}

pub fn encode_tool_input_schema_type(x: &ToolInputSchemaType) -> (r: Json)
    ensures
        r.model() == x.enc(),
{
    proof {
        lemma_tool_input_schema_type_layout(*x);
    }
    match x {
        ToolInputSchemaType::Object(y) => tagged("object", encode_tool_input_schema(y)),
    }
}

pub fn decode_tool_input_schema_type(j: &Json) -> (r: Result<ToolInputSchemaType, DecodeError>)
    ensures
        !(j.model() is Object) ==> r == Err::<ToolInputSchemaType, DecodeError>(DecodeError::InvalidParams),
        (exists|t: ToolInputSchemaType| t.wf() && t.enc() == j.model()) ==> (r matches Ok(t) && t.wf() && t.enc() == j.model()),
{
    let ghost canon = exists|t: ToolInputSchemaType| t.wf() && t.enc() == j.model();
    let ghost t = choose|t: ToolInputSchemaType| t.wf() && t.enc() == j.model();
    let o = as_object(j)?;
    proof {
        reveal_strlit("type");
        reveal_strlit("text");
        reveal_strlit("image");
        reveal_strlit("resource");
        reveal_strlit("object");
        assert("text"@.len() == 4);
        assert("image"@.len() == 5);
        assert("resource"@.len() == 8);
        assert("object"@.len() == 6);
        if canon {
            lemma_tool_input_schema_type_layout(t);
            match t {
                ToolInputSchemaType::Object(x) => {
                    crate::record::lemma_get_append(seq![("type"@, JsonV::Str("object"@))], present(x.fields()), "type"@);
                },
            }
        }
    }
    let tag = req_str(o, "type")?;
    let keys = vec!["type"];
    let members = rest(o, &keys);
    proof {
        assert(key_model(keys@) =~= seq!["type"@]);
        crate::json::lemma_object_model(members);
        if canon {
            match t {
                ToolInputSchemaType::Object(x) => {
                    let pre = seq![("type"@, Some(JsonV::Str("object"@)))];
                    assert(pre[0].0 == seq!["type"@][0]);
                    assert(forall|i: int| 0 <= i < pre.len() ==> seq!["type"@].contains(#[trigger] pre[i].0));
                    assert(crate::record::fresh(Seq::empty(), seq!["type"@]));
                    crate::record::lemma_record_strip(pre, x.fields(), Seq::empty(), seq!["type"@]);
                    assert(present(x.fields()) + Seq::<(Seq<char>, JsonV)>::empty() =~= present(x.fields()));
                    assert(x.wf() && x.enc() == JsonV::Object(map_model(members@)));
                },
            }
        }
    }
    let inner = Json::Object(members);
    if crate::record::same_text(&tag, "object") {
        let x = decode_tool_input_schema(&inner)?;
        let r = ToolInputSchemaType::Object(x);
        proof { lemma_tool_input_schema_type_layout(r); if canon { lemma_tool_input_schema_type_layout(t); } }
        Ok(r)
    } else {
        Err(DecodeError::InvalidParams)
    }
}

impl ContentsResource {
    pub open spec fn enc(self) -> JsonV {
        match self {
            ContentsResource::Text(x) => x.enc(),
            ContentsResource::Blob(x) => x.enc(),
        }
    }

    pub open spec fn wf(self) -> bool {
        match self {
            ContentsResource::Text(x) => x.wf(),
            ContentsResource::Blob(x) => x.wf(),
        }
    }
}

pub fn encode_contents_resource(x: &ContentsResource) -> (r: Json)
    ensures
        r.model() == x.enc(),
{
    match x {
        ContentsResource::Text(y) => encode_text_resource_contents(y),
        ContentsResource::Blob(y) => encode_blob_resource_contents(y),
    }
}

/// Reads text contents when there is a `text` member, blob contents otherwise.
pub fn decode_contents_resource(j: &Json) -> (r: Result<ContentsResource, DecodeError>)
    ensures
        !(j.model() is Object) ==> r == Err::<ContentsResource, DecodeError>(DecodeError::InvalidParams),
        (exists|t: ContentsResource| t.wf() && t.enc() == j.model()) ==> (r matches Ok(t) && t.wf() && t.enc() == j.model()),
{
    let ghost canon = exists|t: ContentsResource| t.wf() && t.enc() == j.model();
    let ghost t = choose|t: ContentsResource| t.wf() && t.enc() == j.model();
    let o = as_object(j)?;
    proof {
        if canon {
            match t {
                ContentsResource::Text(x) => {
                    lemma_text_resource_contents_separable(x);
                    lemma_record_get(x.fields(), Seq::empty(), text_resource_contents_reserved(), 2);
                    assert(present(x.fields()) + Seq::<(Seq<char>, JsonV)>::empty() =~= present(x.fields()));
                },
                ContentsResource::Blob(x) => {
                    reveal_strlit("uri");
                    reveal_strlit("mimeType");
                    reveal_strlit("blob");
                    reveal_strlit("text");
                    assert("uri"@.len() == 3);
                    assert("mimeType"@.len() == 8);
                    assert("blob"@.len() == 4);
                    assert("text"@.len() == 4);
                    assert("blob"@[0] == 'b' && "text"@[0] == 't');
                    assert forall|i: int| 0 <= i < x.fields().len() implies #[trigger] x.fields()[i].0 != "text"@ by {}
                    crate::record::lemma_record_absent(x.fields(), Seq::empty(), "text"@);
                    assert(present(x.fields()) + Seq::<(Seq<char>, JsonV)>::empty() =~= present(x.fields()));
                },
            }
        }
    }
    if find(o, "text").is_some() {
        Ok(ContentsResource::Text(decode_text_resource_contents(j)?))
    } else {
        Ok(ContentsResource::Blob(decode_blob_resource_contents(j)?))
    }
}

impl EmbeddedResourceEnum {
    pub open spec fn enc(self) -> JsonV {
        match self {
            EmbeddedResourceEnum::Text(x) => x.enc(),
            EmbeddedResourceEnum::Blob(x) => x.enc(),
        }
    }

    pub open spec fn wf(self) -> bool {
        match self {
            EmbeddedResourceEnum::Text(x) => x.wf(),
            EmbeddedResourceEnum::Blob(x) => x.wf(),
        }
    }
}

pub fn encode_embedded_resource_enum(x: &EmbeddedResourceEnum) -> (r: Json)
    ensures
        r.model() == x.enc(),
{
    match x {
        EmbeddedResourceEnum::Text(y) => encode_text_resource_contents(y),
        EmbeddedResourceEnum::Blob(y) => encode_blob_resource_contents(y),
    }
}

/// Reads text contents when there is a `text` member, blob contents otherwise.
pub fn decode_embedded_resource_enum(j: &Json) -> (r: Result<EmbeddedResourceEnum, DecodeError>)
    ensures
        !(j.model() is Object) ==> r == Err::<EmbeddedResourceEnum, DecodeError>(DecodeError::InvalidParams),
        (exists|t: EmbeddedResourceEnum| t.wf() && t.enc() == j.model()) ==> (r matches Ok(t) && t.wf() && t.enc() == j.model()),
{
    let ghost canon = exists|t: EmbeddedResourceEnum| t.wf() && t.enc() == j.model();
    let ghost t = choose|t: EmbeddedResourceEnum| t.wf() && t.enc() == j.model();
    let o = as_object(j)?;
    proof {
        if canon {
            match t {
                EmbeddedResourceEnum::Text(x) => {
                    lemma_text_resource_contents_separable(x);
                    lemma_record_get(x.fields(), Seq::empty(), text_resource_contents_reserved(), 2);
                    assert(present(x.fields()) + Seq::<(Seq<char>, JsonV)>::empty() =~= present(x.fields()));
                },
                EmbeddedResourceEnum::Blob(x) => {
                    reveal_strlit("uri");
                    reveal_strlit("mimeType");
                    reveal_strlit("blob");
                    reveal_strlit("text");
                    assert("uri"@.len() == 3);
                    assert("mimeType"@.len() == 8);
                    assert("blob"@.len() == 4);
                    assert("text"@.len() == 4);
                    assert("blob"@[0] == 'b' && "text"@[0] == 't');
                    assert forall|i: int| 0 <= i < x.fields().len() implies #[trigger] x.fields()[i].0 != "text"@ by {}
                    crate::record::lemma_record_absent(x.fields(), Seq::empty(), "text"@);
                    assert(present(x.fields()) + Seq::<(Seq<char>, JsonV)>::empty() =~= present(x.fields()));
                },
            }
        }
    }
    if find(o, "text").is_some() {
        Ok(EmbeddedResourceEnum::Text(decode_text_resource_contents(j)?))
    } else {
        Ok(EmbeddedResourceEnum::Blob(decode_blob_resource_contents(j)?))
    }
}


impl Annotations {
    /// The fields of the canonical encoding, in order.
    pub open spec fn fields(self) -> Fields {
        seq![("audience"@, opt_seq_enc(self.audience)), ("priority"@, opt_int_v(self.priority))]
    }

    /// The canonical encoding.
    pub open spec fn enc(self) -> JsonV {
        record(self.fields(), Seq::empty())
    }

    /// The value can be told apart from its neighbours on the wire.
    pub open spec fn wf(self) -> bool {
        opt_seq_wf(self.audience)
    }
}

/// The member names that Annotations's fields take.
pub open spec fn annotations_reserved() -> Seq<Seq<char>> {
    seq!["audience"@, "priority"@]
}

pub(crate) proof fn lemma_annotations_separable(t: Annotations)
    requires
        t.wf(),
    ensures
        separable(t.fields(), Seq::empty(), annotations_reserved()),
{
    reveal_strlit("audience");
    reveal_strlit("priority");
    assert("audience"@.len() == 8);
    assert("priority"@.len() == 8);
    assert("audience"@[0] == 'a' && "priority"@[0] == 'p');
    assert(field_keys(t.fields()) =~= seq!["audience"@, "priority"@]);
    assert(annotations_reserved()[0] == t.fields()[0].0);
    assert(annotations_reserved()[1] == t.fields()[1].0);
    assert(fresh(Seq::empty(), annotations_reserved()));
}

pub fn encode_annotations(x: &Annotations) -> (r: Json)
    ensures
        r.model() == x.enc(),
{
    let fs = vec![("audience", match &x.audience { Some(y) => Some(encode_vec(y)), None => None }), ("priority", enc_opt_int(&x.priority))];
    proof {
        assert(fields_model(fs@) =~= x.fields());
    }
    build(fs, Vec::new())
}

pub fn decode_annotations(j: &Json) -> (r: Result<Annotations, DecodeError>)
    ensures
        !(j.model() is Object) ==> r == Err::<Annotations, DecodeError>(DecodeError::InvalidParams),
        (exists|t: Annotations| t.wf() && t.enc() == j.model()) ==> (r matches Ok(t) && t.wf() && t.enc() == j.model()),
{
    let ghost canon = exists|t: Annotations| t.wf() && t.enc() == j.model();
    let ghost t = choose|t: Annotations| t.wf() && t.enc() == j.model();
    let o = as_object(j)?;
    proof {
        if canon {
            lemma_annotations_separable(t);
            lemma_record_get(t.fields(), Seq::<(Seq<char>, JsonV)>::empty(), annotations_reserved(), 0);
            lemma_record_get(t.fields(), Seq::<(Seq<char>, JsonV)>::empty(), annotations_reserved(), 1);
            assert(present(t.fields()) + Seq::<(Seq<char>, JsonV)>::empty() =~= present(t.fields()));
            if let Some(x) = t.audience { assert(seq_wf(x@) && seq_enc(x@) == t.fields()[0].1->Some_0); }
        }
    }
    let f_audience = match find(o, "audience") { Some(v) => Some(decode_vec(v)?), None => None };
    let f_priority = opt_int(o, "priority")?;
    let r = Annotations { audience: f_audience, priority: f_priority };
    proof {
        if canon {
            assert(r.fields() =~= t.fields());
        }
    }
    Ok(r)
}

impl Resource {
    /// The fields of the canonical encoding, in order.
    pub open spec fn fields(self) -> Fields {
        seq![("annotations"@, (match self.annotated_base.annotations { Some(x) => Some(x.enc()), None => None })), ("uri"@, Some(str_v(self.uri))), ("name"@, Some(str_v(self.name))), ("description"@, opt_str_v(self.description)), ("mimeType"@, opt_str_v(self.mime_type))]
    }

    /// The canonical encoding.
    pub open spec fn enc(self) -> JsonV {
        record(self.fields(), Seq::empty())
    }

    /// The value can be told apart from its neighbours on the wire.
    pub open spec fn wf(self) -> bool {
        (self.annotated_base.annotations matches Some(x) ==> x.wf())
    }
}

/// The member names that Resource's fields take.
pub open spec fn resource_reserved() -> Seq<Seq<char>> {
    seq!["annotations"@, "uri"@, "name"@, "description"@, "mimeType"@]
}

pub(crate) proof fn lemma_resource_separable(t: Resource)
    requires
        t.wf(),
    ensures
        separable(t.fields(), Seq::empty(), resource_reserved()),
{
    reveal_strlit("annotations");
    reveal_strlit("uri");
    reveal_strlit("name");
    reveal_strlit("description");
    reveal_strlit("mimeType");
    assert("annotations"@.len() == 11);
    assert("uri"@.len() == 3);
    assert("name"@.len() == 4);
    assert("description"@.len() == 11);
    assert("mimeType"@.len() == 8);
    assert("annotations"@[0] == 'a' && "description"@[0] == 'd');
    assert(field_keys(t.fields()) =~= seq!["annotations"@, "uri"@, "name"@, "description"@, "mimeType"@]);
    assert(resource_reserved()[0] == t.fields()[0].0);
    assert(resource_reserved()[1] == t.fields()[1].0);
    assert(resource_reserved()[2] == t.fields()[2].0);
    assert(resource_reserved()[3] == t.fields()[3].0);
    assert(resource_reserved()[4] == t.fields()[4].0);
    assert(fresh(Seq::empty(), resource_reserved()));
}

pub fn encode_resource(x: &Resource) -> (r: Json)
    ensures
        r.model() == x.enc(),
{
    let fs = vec![("annotations", match &x.annotated_base.annotations { Some(y) => Some(encode_annotations(y)), None => None }), ("uri", enc_str(&x.uri)), ("name", enc_str(&x.name)), ("description", enc_opt_str(&x.description)), ("mimeType", enc_opt_str(&x.mime_type))];
    proof {
        assert(fields_model(fs@) =~= x.fields());
    }
    build(fs, Vec::new())
}

pub fn decode_resource(j: &Json) -> (r: Result<Resource, DecodeError>)
    ensures
        !(j.model() is Object) ==> r == Err::<Resource, DecodeError>(DecodeError::InvalidParams),
        (exists|t: Resource| t.wf() && t.enc() == j.model()) ==> (r matches Ok(t) && t.wf() && t.enc() == j.model()),
{
    let ghost canon = exists|t: Resource| t.wf() && t.enc() == j.model();
    let ghost t = choose|t: Resource| t.wf() && t.enc() == j.model();
    let o = as_object(j)?;
    proof {
        if canon {
            lemma_resource_separable(t);
            lemma_record_get(t.fields(), Seq::<(Seq<char>, JsonV)>::empty(), resource_reserved(), 0);
            lemma_record_get(t.fields(), Seq::<(Seq<char>, JsonV)>::empty(), resource_reserved(), 1);
            lemma_record_get(t.fields(), Seq::<(Seq<char>, JsonV)>::empty(), resource_reserved(), 2);
            lemma_record_get(t.fields(), Seq::<(Seq<char>, JsonV)>::empty(), resource_reserved(), 3);
            lemma_record_get(t.fields(), Seq::<(Seq<char>, JsonV)>::empty(), resource_reserved(), 4);
            assert(present(t.fields()) + Seq::<(Seq<char>, JsonV)>::empty() =~= present(t.fields()));
            if let Some(x) = t.annotated_base.annotations { assert(x.wf() && x.enc() == t.fields()[0].1->Some_0); }
        }
    }
    let f_annotations = match find(o, "annotations") { Some(v) => Some(decode_annotations(v)?), None => None };
    let f_uri = req_str(o, "uri")?;
    let f_name = req_str(o, "name")?;
    let f_description = opt_str(o, "description")?;
    let f_mime_type = opt_str(o, "mimeType")?;
    let r = Resource { annotated_base: AnnotatedBase { annotations: f_annotations }, uri: f_uri, name: f_name, description: f_description, mime_type: f_mime_type };
    proof {
        if canon {
            assert(r.fields() =~= t.fields());
        }
    }
    Ok(r)
}

impl ResourceTemplate {
    /// The fields of the canonical encoding, in order.
    pub open spec fn fields(self) -> Fields {
        seq![("annotations"@, (match self.annotated_base.annotations { Some(x) => Some(x.enc()), None => None })), ("uriTemplate"@, Some(str_v(self.uri_template))), ("name"@, Some(str_v(self.name))), ("description"@, opt_str_v(self.description)), ("mimeType"@, opt_str_v(self.mime_type))]
    }

    /// The canonical encoding.
    pub open spec fn enc(self) -> JsonV {
        record(self.fields(), Seq::empty())
    }

    /// The value can be told apart from its neighbours on the wire.
    pub open spec fn wf(self) -> bool {
        (self.annotated_base.annotations matches Some(x) ==> x.wf())
    }
}

/// The member names that ResourceTemplate's fields take.
pub open spec fn resource_template_reserved() -> Seq<Seq<char>> {
    seq!["annotations"@, "uriTemplate"@, "name"@, "description"@, "mimeType"@]
}

pub(crate) proof fn lemma_resource_template_separable(t: ResourceTemplate)
    requires
        t.wf(),
    ensures
        separable(t.fields(), Seq::empty(), resource_template_reserved()),
{
    reveal_strlit("annotations");
    reveal_strlit("uriTemplate");
    reveal_strlit("name");
    reveal_strlit("description");
    reveal_strlit("mimeType");
    assert("annotations"@.len() == 11);
    assert("uriTemplate"@.len() == 11);
    assert("name"@.len() == 4);
    assert("description"@.len() == 11);
    assert("mimeType"@.len() == 8);
    assert("annotations"@[0] == 'a' && "uriTemplate"@[0] == 'u');
    assert("annotations"@[0] == 'a' && "description"@[0] == 'd');
    assert("uriTemplate"@[0] == 'u' && "description"@[0] == 'd');
    assert(field_keys(t.fields()) =~= seq!["annotations"@, "uriTemplate"@, "name"@, "description"@, "mimeType"@]);
    assert(resource_template_reserved()[0] == t.fields()[0].0);
    assert(resource_template_reserved()[1] == t.fields()[1].0);
    assert(resource_template_reserved()[2] == t.fields()[2].0);
    assert(resource_template_reserved()[3] == t.fields()[3].0);
    assert(resource_template_reserved()[4] == t.fields()[4].0);
    assert(fresh(Seq::empty(), resource_template_reserved()));
}

pub fn encode_resource_template(x: &ResourceTemplate) -> (r: Json)
    ensures
        r.model() == x.enc(),
{
    let fs = vec![("annotations", match &x.annotated_base.annotations { Some(y) => Some(encode_annotations(y)), None => None }), ("uriTemplate", enc_str(&x.uri_template)), ("name", enc_str(&x.name)), ("description", enc_opt_str(&x.description)), ("mimeType", enc_opt_str(&x.mime_type))];
    proof {
        assert(fields_model(fs@) =~= x.fields());
    }
    build(fs, Vec::new())
}

pub fn decode_resource_template(j: &Json) -> (r: Result<ResourceTemplate, DecodeError>)
    ensures
        !(j.model() is Object) ==> r == Err::<ResourceTemplate, DecodeError>(DecodeError::InvalidParams),
        (exists|t: ResourceTemplate| t.wf() && t.enc() == j.model()) ==> (r matches Ok(t) && t.wf() && t.enc() == j.model()),
{
    let ghost canon = exists|t: ResourceTemplate| t.wf() && t.enc() == j.model();
    let ghost t = choose|t: ResourceTemplate| t.wf() && t.enc() == j.model();
    let o = as_object(j)?;
    proof {
        if canon {
            lemma_resource_template_separable(t);
            lemma_record_get(t.fields(), Seq::<(Seq<char>, JsonV)>::empty(), resource_template_reserved(), 0);
            lemma_record_get(t.fields(), Seq::<(Seq<char>, JsonV)>::empty(), resource_template_reserved(), 1);
            lemma_record_get(t.fields(), Seq::<(Seq<char>, JsonV)>::empty(), resource_template_reserved(), 2);
            lemma_record_get(t.fields(), Seq::<(Seq<char>, JsonV)>::empty(), resource_template_reserved(), 3);
            lemma_record_get(t.fields(), Seq::<(Seq<char>, JsonV)>::empty(), resource_template_reserved(), 4);
            assert(present(t.fields()) + Seq::<(Seq<char>, JsonV)>::empty() =~= present(t.fields()));
            if let Some(x) = t.annotated_base.annotations { assert(x.wf() && x.enc() == t.fields()[0].1->Some_0); }
        }
    }
    let f_annotations = match find(o, "annotations") { Some(v) => Some(decode_annotations(v)?), None => None };
    let f_uri_template = req_str(o, "uriTemplate")?;
    let f_name = req_str(o, "name")?;
    let f_description = opt_str(o, "description")?;
    let f_mime_type = opt_str(o, "mimeType")?;
    let r = ResourceTemplate { annotated_base: AnnotatedBase { annotations: f_annotations }, uri_template: f_uri_template, name: f_name, description: f_description, mime_type: f_mime_type };
    proof {
        if canon {
            assert(r.fields() =~= t.fields());
        }
    }
    Ok(r)
}

impl TextResourceContents {
    /// The fields of the canonical encoding, in order.
    pub open spec fn fields(self) -> Fields {
        seq![("uri"@, Some(str_v(self.resource_contents_base.uri))), ("mimeType"@, opt_str_v(self.resource_contents_base.mime_type)), ("text"@, Some(str_v(self.text)))]
    }

    /// The canonical encoding.
    pub open spec fn enc(self) -> JsonV {
        record(self.fields(), Seq::empty())
    }

    /// The value can be told apart from its neighbours on the wire.
    pub open spec fn wf(self) -> bool {
        true
    }
}

/// The member names that TextResourceContents's fields take.
pub open spec fn text_resource_contents_reserved() -> Seq<Seq<char>> {
    seq!["uri"@, "mimeType"@, "text"@]
}

pub(crate) proof fn lemma_text_resource_contents_separable(t: TextResourceContents)
    requires
        t.wf(),
    ensures
        separable(t.fields(), Seq::empty(), text_resource_contents_reserved()),
{
    reveal_strlit("uri");
    reveal_strlit("mimeType");
    reveal_strlit("text");
    assert("uri"@.len() == 3);
    assert("mimeType"@.len() == 8);
    assert("text"@.len() == 4);
    assert(field_keys(t.fields()) =~= seq!["uri"@, "mimeType"@, "text"@]);
    assert(text_resource_contents_reserved()[0] == t.fields()[0].0);
    assert(text_resource_contents_reserved()[1] == t.fields()[1].0);
    assert(text_resource_contents_reserved()[2] == t.fields()[2].0);
    assert(fresh(Seq::empty(), text_resource_contents_reserved()));
}

pub fn encode_text_resource_contents(x: &TextResourceContents) -> (r: Json)
    ensures
        r.model() == x.enc(),
{
    let fs = vec![("uri", enc_str(&x.resource_contents_base.uri)), ("mimeType", enc_opt_str(&x.resource_contents_base.mime_type)), ("text", enc_str(&x.text))];
    proof {
        assert(fields_model(fs@) =~= x.fields());
    }
    build(fs, Vec::new())
}

pub fn decode_text_resource_contents(j: &Json) -> (r: Result<TextResourceContents, DecodeError>)
    ensures
        !(j.model() is Object) ==> r == Err::<TextResourceContents, DecodeError>(DecodeError::InvalidParams),
        (exists|t: TextResourceContents| t.wf() && t.enc() == j.model()) ==> (r matches Ok(t) && t.wf() && t.enc() == j.model()),
{
    let ghost canon = exists|t: TextResourceContents| t.wf() && t.enc() == j.model();
    let ghost t = choose|t: TextResourceContents| t.wf() && t.enc() == j.model();
    let o = as_object(j)?;
    proof {
        if canon {
            lemma_text_resource_contents_separable(t);
            lemma_record_get(t.fields(), Seq::<(Seq<char>, JsonV)>::empty(), text_resource_contents_reserved(), 0);
            lemma_record_get(t.fields(), Seq::<(Seq<char>, JsonV)>::empty(), text_resource_contents_reserved(), 1);
            lemma_record_get(t.fields(), Seq::<(Seq<char>, JsonV)>::empty(), text_resource_contents_reserved(), 2);
            assert(present(t.fields()) + Seq::<(Seq<char>, JsonV)>::empty() =~= present(t.fields()));
        }
    }
    let f_uri = req_str(o, "uri")?;
    let f_mime_type = opt_str(o, "mimeType")?;
    let f_text = req_str(o, "text")?;
    let r = TextResourceContents { resource_contents_base: ResourceContents { uri: f_uri, mime_type: f_mime_type }, text: f_text };
    proof {
        if canon {
            assert(r.fields() =~= t.fields());
        }
    }
    Ok(r)
}

impl BlobResourceContents {
    /// The fields of the canonical encoding, in order.
    pub open spec fn fields(self) -> Fields {
        seq![("uri"@, Some(str_v(self.resource_contents_base.uri))), ("mimeType"@, opt_str_v(self.resource_contents_base.mime_type)), ("blob"@, Some(str_v(self.blob)))]
    }

    /// The canonical encoding.
    pub open spec fn enc(self) -> JsonV {
        record(self.fields(), Seq::empty())
    }

    /// The value can be told apart from its neighbours on the wire.
    pub open spec fn wf(self) -> bool {
        true
    }
}

/// The member names that BlobResourceContents's fields take.
pub open spec fn blob_resource_contents_reserved() -> Seq<Seq<char>> {
    seq!["uri"@, "mimeType"@, "blob"@]
}

pub(crate) proof fn lemma_blob_resource_contents_separable(t: BlobResourceContents)
    requires
        t.wf(),
    ensures
        separable(t.fields(), Seq::empty(), blob_resource_contents_reserved()),
{
    reveal_strlit("uri");
    reveal_strlit("mimeType");
    reveal_strlit("blob");
    assert("uri"@.len() == 3);
    assert("mimeType"@.len() == 8);
    assert("blob"@.len() == 4);
    assert(field_keys(t.fields()) =~= seq!["uri"@, "mimeType"@, "blob"@]);
    assert(blob_resource_contents_reserved()[0] == t.fields()[0].0);
    assert(blob_resource_contents_reserved()[1] == t.fields()[1].0);
    assert(blob_resource_contents_reserved()[2] == t.fields()[2].0);
    assert(fresh(Seq::empty(), blob_resource_contents_reserved()));
}

pub fn encode_blob_resource_contents(x: &BlobResourceContents) -> (r: Json)
    ensures
        r.model() == x.enc(),
{
    let fs = vec![("uri", enc_str(&x.resource_contents_base.uri)), ("mimeType", enc_opt_str(&x.resource_contents_base.mime_type)), ("blob", enc_str(&x.blob))];
    proof {
        assert(fields_model(fs@) =~= x.fields());
    }
    build(fs, Vec::new())
}

pub fn decode_blob_resource_contents(j: &Json) -> (r: Result<BlobResourceContents, DecodeError>)
    ensures
        !(j.model() is Object) ==> r == Err::<BlobResourceContents, DecodeError>(DecodeError::InvalidParams),
        (exists|t: BlobResourceContents| t.wf() && t.enc() == j.model()) ==> (r matches Ok(t) && t.wf() && t.enc() == j.model()),
{
    let ghost canon = exists|t: BlobResourceContents| t.wf() && t.enc() == j.model();
    let ghost t = choose|t: BlobResourceContents| t.wf() && t.enc() == j.model();
    let o = as_object(j)?;
    proof {
        if canon {
            lemma_blob_resource_contents_separable(t);
            lemma_record_get(t.fields(), Seq::<(Seq<char>, JsonV)>::empty(), blob_resource_contents_reserved(), 0);
            lemma_record_get(t.fields(), Seq::<(Seq<char>, JsonV)>::empty(), blob_resource_contents_reserved(), 1);
            lemma_record_get(t.fields(), Seq::<(Seq<char>, JsonV)>::empty(), blob_resource_contents_reserved(), 2);
            assert(present(t.fields()) + Seq::<(Seq<char>, JsonV)>::empty() =~= present(t.fields()));
        }
    }
    let f_uri = req_str(o, "uri")?;
    let f_mime_type = opt_str(o, "mimeType")?;
    let f_blob = req_str(o, "blob")?;
    let r = BlobResourceContents { resource_contents_base: ResourceContents { uri: f_uri, mime_type: f_mime_type }, blob: f_blob };
    proof {
        if canon {
            assert(r.fields() =~= t.fields());
        }
    }
    Ok(r)
}

impl TextContent {
    /// The fields of the canonical encoding, in order.
    pub open spec fn fields(self) -> Fields {
        seq![("annotations"@, (match self.annotated_base.annotations { Some(x) => Some(x.enc()), None => None })), ("text"@, Some(str_v(self.text)))]
    }

    /// The canonical encoding.
    pub open spec fn enc(self) -> JsonV {
        record(self.fields(), Seq::empty())
    }

    /// The value can be told apart from its neighbours on the wire.
    pub open spec fn wf(self) -> bool {
        (self.annotated_base.annotations matches Some(x) ==> x.wf())
    }
}

/// The member names that TextContent's fields take.
pub open spec fn text_content_reserved() -> Seq<Seq<char>> {
    seq!["annotations"@, "text"@]
}

pub(crate) proof fn lemma_text_content_separable(t: TextContent)
    requires
        t.wf(),
    ensures
        separable(t.fields(), Seq::empty(), text_content_reserved()),
{
    reveal_strlit("annotations");
    reveal_strlit("text");
    assert("annotations"@.len() == 11);
    assert("text"@.len() == 4);
    assert(field_keys(t.fields()) =~= seq!["annotations"@, "text"@]);
    assert(text_content_reserved()[0] == t.fields()[0].0);
    assert(text_content_reserved()[1] == t.fields()[1].0);
    assert(fresh(Seq::empty(), text_content_reserved()));
}

pub fn encode_text_content(x: &TextContent) -> (r: Json)
    ensures
        r.model() == x.enc(),
{
    let fs = vec![("annotations", match &x.annotated_base.annotations { Some(y) => Some(encode_annotations(y)), None => None }), ("text", enc_str(&x.text))];
    proof {
        assert(fields_model(fs@) =~= x.fields());
    }
    build(fs, Vec::new())
}

pub fn decode_text_content(j: &Json) -> (r: Result<TextContent, DecodeError>)
    ensures
        !(j.model() is Object) ==> r == Err::<TextContent, DecodeError>(DecodeError::InvalidParams),
        (exists|t: TextContent| t.wf() && t.enc() == j.model()) ==> (r matches Ok(t) && t.wf() && t.enc() == j.model()),
{
    let ghost canon = exists|t: TextContent| t.wf() && t.enc() == j.model();
    let ghost t = choose|t: TextContent| t.wf() && t.enc() == j.model();
    let o = as_object(j)?;
    proof {
        if canon {
            lemma_text_content_separable(t);
            lemma_record_get(t.fields(), Seq::<(Seq<char>, JsonV)>::empty(), text_content_reserved(), 0);
            lemma_record_get(t.fields(), Seq::<(Seq<char>, JsonV)>::empty(), text_content_reserved(), 1);
            assert(present(t.fields()) + Seq::<(Seq<char>, JsonV)>::empty() =~= present(t.fields()));
            if let Some(x) = t.annotated_base.annotations { assert(x.wf() && x.enc() == t.fields()[0].1->Some_0); }
        }
    }
    let f_annotations = match find(o, "annotations") { Some(v) => Some(decode_annotations(v)?), None => None };
    let f_text = req_str(o, "text")?;
    let r = TextContent { annotated_base: AnnotatedBase { annotations: f_annotations }, text: f_text };
    proof {
        if canon {
            assert(r.fields() =~= t.fields());
        }
    }
    Ok(r)
}

impl ImageContent {
    /// The fields of the canonical encoding, in order.
    pub open spec fn fields(self) -> Fields {
        seq![("annotations"@, (match self.annotated_base.annotations { Some(x) => Some(x.enc()), None => None })), ("data"@, Some(str_v(self.data))), ("mimeType"@, Some(str_v(self.mime_type)))]
    }

    /// The canonical encoding.
    pub open spec fn enc(self) -> JsonV {
        record(self.fields(), Seq::empty())
    }

    /// The value can be told apart from its neighbours on the wire.
    pub open spec fn wf(self) -> bool {
        (self.annotated_base.annotations matches Some(x) ==> x.wf())
    }
}

/// The member names that ImageContent's fields take.
pub open spec fn image_content_reserved() -> Seq<Seq<char>> {
    seq!["annotations"@, "data"@, "mimeType"@]
}

pub(crate) proof fn lemma_image_content_separable(t: ImageContent)
    requires
        t.wf(),
    ensures
        separable(t.fields(), Seq::empty(), image_content_reserved()),
{
    reveal_strlit("annotations");
    reveal_strlit("data");
    reveal_strlit("mimeType");
    assert("annotations"@.len() == 11);
    assert("data"@.len() == 4);
    assert("mimeType"@.len() == 8);
    assert(field_keys(t.fields()) =~= seq!["annotations"@, "data"@, "mimeType"@]);
    assert(image_content_reserved()[0] == t.fields()[0].0);
    assert(image_content_reserved()[1] == t.fields()[1].0);
    assert(image_content_reserved()[2] == t.fields()[2].0);
    assert(fresh(Seq::empty(), image_content_reserved()));
}

pub fn encode_image_content(x: &ImageContent) -> (r: Json)
    ensures
        r.model() == x.enc(),
{
    let fs = vec![("annotations", match &x.annotated_base.annotations { Some(y) => Some(encode_annotations(y)), None => None }), ("data", enc_str(&x.data)), ("mimeType", enc_str(&x.mime_type))];
    proof {
        assert(fields_model(fs@) =~= x.fields());
    }
    build(fs, Vec::new())
}

pub fn decode_image_content(j: &Json) -> (r: Result<ImageContent, DecodeError>)
    ensures
        !(j.model() is Object) ==> r == Err::<ImageContent, DecodeError>(DecodeError::InvalidParams),
        (exists|t: ImageContent| t.wf() && t.enc() == j.model()) ==> (r matches Ok(t) && t.wf() && t.enc() == j.model()),
{
    let ghost canon = exists|t: ImageContent| t.wf() && t.enc() == j.model();
    let ghost t = choose|t: ImageContent| t.wf() && t.enc() == j.model();
    let o = as_object(j)?;
    proof {
        if canon {
            lemma_image_content_separable(t);
            lemma_record_get(t.fields(), Seq::<(Seq<char>, JsonV)>::empty(), image_content_reserved(), 0);
            lemma_record_get(t.fields(), Seq::<(Seq<char>, JsonV)>::empty(), image_content_reserved(), 1);
            lemma_record_get(t.fields(), Seq::<(Seq<char>, JsonV)>::empty(), image_content_reserved(), 2);
            assert(present(t.fields()) + Seq::<(Seq<char>, JsonV)>::empty() =~= present(t.fields()));
            if let Some(x) = t.annotated_base.annotations { assert(x.wf() && x.enc() == t.fields()[0].1->Some_0); }
        }
    }
    let f_annotations = match find(o, "annotations") { Some(v) => Some(decode_annotations(v)?), None => None };
    let f_data = req_str(o, "data")?;
    let f_mime_type = req_str(o, "mimeType")?;
    let r = ImageContent { annotated_base: AnnotatedBase { annotations: f_annotations }, data: f_data, mime_type: f_mime_type };
    proof {
        if canon {
            assert(r.fields() =~= t.fields());
        }
    }
    Ok(r)
}

impl EmbeddedResource {
    /// The fields of the canonical encoding, in order.
    pub open spec fn fields(self) -> Fields {
        seq![("annotations"@, (match self.annotated_base.annotations { Some(x) => Some(x.enc()), None => None })), ("resource"@, Some(self.resource.enc()))]
    }

    /// The canonical encoding.
    pub open spec fn enc(self) -> JsonV {
        record(self.fields(), Seq::empty())
    }

    /// The value can be told apart from its neighbours on the wire.
    pub open spec fn wf(self) -> bool {
        (self.annotated_base.annotations matches Some(x) ==> x.wf()) && self.resource.wf()
    }
}

/// The member names that EmbeddedResource's fields take.
pub open spec fn embedded_resource_reserved() -> Seq<Seq<char>> {
    seq!["annotations"@, "resource"@]
}

pub(crate) proof fn lemma_embedded_resource_separable(t: EmbeddedResource)
    requires
        t.wf(),
    ensures
        separable(t.fields(), Seq::empty(), embedded_resource_reserved()),
{
    reveal_strlit("annotations");
    reveal_strlit("resource");
    assert("annotations"@.len() == 11);
    assert("resource"@.len() == 8);
    assert(field_keys(t.fields()) =~= seq!["annotations"@, "resource"@]);
    assert(embedded_resource_reserved()[0] == t.fields()[0].0);
    assert(embedded_resource_reserved()[1] == t.fields()[1].0);
    assert(fresh(Seq::empty(), embedded_resource_reserved()));
}

pub fn encode_embedded_resource(x: &EmbeddedResource) -> (r: Json)
    ensures
        r.model() == x.enc(),
{
    let fs = vec![("annotations", match &x.annotated_base.annotations { Some(y) => Some(encode_annotations(y)), None => None }), ("resource", Some(encode_embedded_resource_enum(&x.resource)))];
    proof {
        assert(fields_model(fs@) =~= x.fields());
    }
    build(fs, Vec::new())
}

pub fn decode_embedded_resource(j: &Json) -> (r: Result<EmbeddedResource, DecodeError>)
    ensures
        !(j.model() is Object) ==> r == Err::<EmbeddedResource, DecodeError>(DecodeError::InvalidParams),
        (exists|t: EmbeddedResource| t.wf() && t.enc() == j.model()) ==> (r matches Ok(t) && t.wf() && t.enc() == j.model()),
{
    let ghost canon = exists|t: EmbeddedResource| t.wf() && t.enc() == j.model();
    let ghost t = choose|t: EmbeddedResource| t.wf() && t.enc() == j.model();
    let o = as_object(j)?;
    proof {
        if canon {
            lemma_embedded_resource_separable(t);
            lemma_record_get(t.fields(), Seq::<(Seq<char>, JsonV)>::empty(), embedded_resource_reserved(), 0);
            lemma_record_get(t.fields(), Seq::<(Seq<char>, JsonV)>::empty(), embedded_resource_reserved(), 1);
            assert(present(t.fields()) + Seq::<(Seq<char>, JsonV)>::empty() =~= present(t.fields()));
            if let Some(x) = t.annotated_base.annotations { assert(x.wf() && x.enc() == t.fields()[0].1->Some_0); }
            assert(t.resource.wf() && t.resource.enc() == t.fields()[1].1->Some_0);
        }
    }
    let f_annotations = match find(o, "annotations") { Some(v) => Some(decode_annotations(v)?), None => None };
    let f_resource = match find(o, "resource") { Some(v) => decode_embedded_resource_enum(v)?, None => { return Err(DecodeError::InvalidParams); } };
    let r = EmbeddedResource { annotated_base: AnnotatedBase { annotations: f_annotations }, resource: f_resource };
    proof {
        if canon {
            assert(r.fields() =~= t.fields());
        }
    }
    Ok(r)
}

impl PromptArgument {
    /// The fields of the canonical encoding, in order.
    pub open spec fn fields(self) -> Fields {
        seq![("name"@, Some(str_v(self.name))), ("description"@, opt_str_v(self.description)), ("required"@, opt_bool_v(self.required))]
    }

    /// The canonical encoding.
    pub open spec fn enc(self) -> JsonV {
        record(self.fields(), Seq::empty())
    }

    /// The value can be told apart from its neighbours on the wire.
    pub open spec fn wf(self) -> bool {
        true
    }
}

/// The member names that PromptArgument's fields take.
pub open spec fn prompt_argument_reserved() -> Seq<Seq<char>> {
    seq!["name"@, "description"@, "required"@]
}

pub(crate) proof fn lemma_prompt_argument_separable(t: PromptArgument)
    requires
        t.wf(),
    ensures
        separable(t.fields(), Seq::empty(), prompt_argument_reserved()),
{
    reveal_strlit("name");
    reveal_strlit("description");
    reveal_strlit("required");
    assert("name"@.len() == 4);
    assert("description"@.len() == 11);
    assert("required"@.len() == 8);
    assert(field_keys(t.fields()) =~= seq!["name"@, "description"@, "required"@]);
    assert(prompt_argument_reserved()[0] == t.fields()[0].0);
    assert(prompt_argument_reserved()[1] == t.fields()[1].0);
    assert(prompt_argument_reserved()[2] == t.fields()[2].0);
    assert(fresh(Seq::empty(), prompt_argument_reserved()));
}

pub fn encode_prompt_argument(x: &PromptArgument) -> (r: Json)
    ensures
        r.model() == x.enc(),
{
    let fs = vec![("name", enc_str(&x.name)), ("description", enc_opt_str(&x.description)), ("required", enc_opt_bool(&x.required))];
    proof {
        assert(fields_model(fs@) =~= x.fields());
    }
    build(fs, Vec::new())
}

pub fn decode_prompt_argument(j: &Json) -> (r: Result<PromptArgument, DecodeError>)
    ensures
        !(j.model() is Object) ==> r == Err::<PromptArgument, DecodeError>(DecodeError::InvalidParams),
        (exists|t: PromptArgument| t.wf() && t.enc() == j.model()) ==> (r matches Ok(t) && t.wf() && t.enc() == j.model()),
{
    let ghost canon = exists|t: PromptArgument| t.wf() && t.enc() == j.model();
    let ghost t = choose|t: PromptArgument| t.wf() && t.enc() == j.model();
    let o = as_object(j)?;
    proof {
        if canon {
            lemma_prompt_argument_separable(t);
            lemma_record_get(t.fields(), Seq::<(Seq<char>, JsonV)>::empty(), prompt_argument_reserved(), 0);
            lemma_record_get(t.fields(), Seq::<(Seq<char>, JsonV)>::empty(), prompt_argument_reserved(), 1);
            lemma_record_get(t.fields(), Seq::<(Seq<char>, JsonV)>::empty(), prompt_argument_reserved(), 2);
            assert(present(t.fields()) + Seq::<(Seq<char>, JsonV)>::empty() =~= present(t.fields()));
        }
    }
    let f_name = req_str(o, "name")?;
    let f_description = opt_str(o, "description")?;
    let f_required = opt_bool(o, "required")?;
    let r = PromptArgument { name: f_name, description: f_description, required: f_required };
    proof {
        if canon {
            assert(r.fields() =~= t.fields());
        }
    }
    Ok(r)
}

impl Prompt {
    /// The fields of the canonical encoding, in order.
    pub open spec fn fields(self) -> Fields {
        seq![("name"@, Some(str_v(self.name))), ("description"@, opt_str_v(self.description)), ("arguments"@, opt_seq_enc(self.arguments))]
    }

    /// The canonical encoding.
    pub open spec fn enc(self) -> JsonV {
        record(self.fields(), Seq::empty())
    }

    /// The value can be told apart from its neighbours on the wire.
    pub open spec fn wf(self) -> bool {
        opt_seq_wf(self.arguments)
    }
}

/// The member names that Prompt's fields take.
pub open spec fn prompt_reserved() -> Seq<Seq<char>> {
    seq!["name"@, "description"@, "arguments"@]
}

pub(crate) proof fn lemma_prompt_separable(t: Prompt)
    requires
        t.wf(),
    ensures
        separable(t.fields(), Seq::empty(), prompt_reserved()),
{
    reveal_strlit("name");
    reveal_strlit("description");
    reveal_strlit("arguments");
    assert("name"@.len() == 4);
    assert("description"@.len() == 11);
    assert("arguments"@.len() == 9);
    assert(field_keys(t.fields()) =~= seq!["name"@, "description"@, "arguments"@]);
    assert(prompt_reserved()[0] == t.fields()[0].0);
    assert(prompt_reserved()[1] == t.fields()[1].0);
    assert(prompt_reserved()[2] == t.fields()[2].0);
    assert(fresh(Seq::empty(), prompt_reserved()));
}

pub fn encode_prompt(x: &Prompt) -> (r: Json)
    ensures
        r.model() == x.enc(),
{
    let fs = vec![("name", enc_str(&x.name)), ("description", enc_opt_str(&x.description)), ("arguments", match &x.arguments { Some(y) => Some(encode_vec(y)), None => None })];
    proof {
        assert(fields_model(fs@) =~= x.fields());
    }
    build(fs, Vec::new())
}

pub fn decode_prompt(j: &Json) -> (r: Result<Prompt, DecodeError>)
    ensures
        !(j.model() is Object) ==> r == Err::<Prompt, DecodeError>(DecodeError::InvalidParams),
        (exists|t: Prompt| t.wf() && t.enc() == j.model()) ==> (r matches Ok(t) && t.wf() && t.enc() == j.model()),
{
    let ghost canon = exists|t: Prompt| t.wf() && t.enc() == j.model();
    let ghost t = choose|t: Prompt| t.wf() && t.enc() == j.model();
    let o = as_object(j)?;
    proof {
        if canon {
            lemma_prompt_separable(t);
            lemma_record_get(t.fields(), Seq::<(Seq<char>, JsonV)>::empty(), prompt_reserved(), 0);
            lemma_record_get(t.fields(), Seq::<(Seq<char>, JsonV)>::empty(), prompt_reserved(), 1);
            lemma_record_get(t.fields(), Seq::<(Seq<char>, JsonV)>::empty(), prompt_reserved(), 2);
            assert(present(t.fields()) + Seq::<(Seq<char>, JsonV)>::empty() =~= present(t.fields()));
            if let Some(x) = t.arguments { assert(seq_wf(x@) && seq_enc(x@) == t.fields()[2].1->Some_0); }
        }
    }
    let f_name = req_str(o, "name")?;
    let f_description = opt_str(o, "description")?;
    let f_arguments = match find(o, "arguments") { Some(v) => Some(decode_vec(v)?), None => None };
    let r = Prompt { name: f_name, description: f_description, arguments: f_arguments };
    proof {
        if canon {
            assert(r.fields() =~= t.fields());
        }
    }
    Ok(r)
}

impl PromptMessage {
    /// The fields of the canonical encoding, in order.
    pub open spec fn fields(self) -> Fields {
        seq![("role"@, Some(self.role.enc())), ("content"@, Some(self.content.enc()))]
    }

    /// The canonical encoding.
    pub open spec fn enc(self) -> JsonV {
        record(self.fields(), Seq::empty())
    }

    /// The value can be told apart from its neighbours on the wire.
    pub open spec fn wf(self) -> bool {
        self.role.wf() && self.content.wf()
    }
}

/// The member names that PromptMessage's fields take.
pub open spec fn prompt_message_reserved() -> Seq<Seq<char>> {
    seq!["role"@, "content"@]
}

pub(crate) proof fn lemma_prompt_message_separable(t: PromptMessage)
    requires
        t.wf(),
    ensures
        separable(t.fields(), Seq::empty(), prompt_message_reserved()),
{
    reveal_strlit("role");
    reveal_strlit("content");
    assert("role"@.len() == 4);
    assert("content"@.len() == 7);
    assert(field_keys(t.fields()) =~= seq!["role"@, "content"@]);
    assert(prompt_message_reserved()[0] == t.fields()[0].0);
    assert(prompt_message_reserved()[1] == t.fields()[1].0);
    assert(fresh(Seq::empty(), prompt_message_reserved()));
}

pub fn encode_prompt_message(x: &PromptMessage) -> (r: Json)
    ensures
        r.model() == x.enc(),
{
    let fs = vec![("role", Some(encode_role(&x.role))), ("content", Some(encode_prompt_message_content(&x.content)))];
    proof {
        assert(fields_model(fs@) =~= x.fields());
    }
    build(fs, Vec::new())
}

pub fn decode_prompt_message(j: &Json) -> (r: Result<PromptMessage, DecodeError>)
    ensures
        !(j.model() is Object) ==> r == Err::<PromptMessage, DecodeError>(DecodeError::InvalidParams),
        (exists|t: PromptMessage| t.wf() && t.enc() == j.model()) ==> (r matches Ok(t) && t.wf() && t.enc() == j.model()),
{
    let ghost canon = exists|t: PromptMessage| t.wf() && t.enc() == j.model();
    let ghost t = choose|t: PromptMessage| t.wf() && t.enc() == j.model();
    let o = as_object(j)?;
    proof {
        if canon {
            lemma_prompt_message_separable(t);
            lemma_record_get(t.fields(), Seq::<(Seq<char>, JsonV)>::empty(), prompt_message_reserved(), 0);
            lemma_record_get(t.fields(), Seq::<(Seq<char>, JsonV)>::empty(), prompt_message_reserved(), 1);
            assert(present(t.fields()) + Seq::<(Seq<char>, JsonV)>::empty() =~= present(t.fields()));
            assert(t.role.wf() && t.role.enc() == t.fields()[0].1->Some_0);
            assert(t.content.wf() && t.content.enc() == t.fields()[1].1->Some_0);
        }
    }
    let f_role = match find(o, "role") { Some(v) => decode_role(v)?, None => { return Err(DecodeError::InvalidParams); } };
    let f_content = match find(o, "content") { Some(v) => decode_prompt_message_content(v)?, None => { return Err(DecodeError::InvalidParams); } };
    let r = PromptMessage { role: f_role, content: f_content };
    proof {
        if canon {
            assert(r.fields() =~= t.fields());
        }
    }
    Ok(r)
}

impl SamplingMessage {
    /// The fields of the canonical encoding, in order.
    pub open spec fn fields(self) -> Fields {
        seq![("role"@, Some(self.role.enc())), ("content"@, Some(self.content.enc()))]
    }

    /// The canonical encoding.
    pub open spec fn enc(self) -> JsonV {
        record(self.fields(), Seq::empty())
    }

    /// The value can be told apart from its neighbours on the wire.
    pub open spec fn wf(self) -> bool {
        self.role.wf() && self.content.wf()
    }
}

/// The member names that SamplingMessage's fields take.
pub open spec fn sampling_message_reserved() -> Seq<Seq<char>> {
    seq!["role"@, "content"@]
}

pub(crate) proof fn lemma_sampling_message_separable(t: SamplingMessage)
    requires
        t.wf(),
    ensures
        separable(t.fields(), Seq::empty(), sampling_message_reserved()),
{
    reveal_strlit("role");
    reveal_strlit("content");
    assert("role"@.len() == 4);
    assert("content"@.len() == 7);
    assert(field_keys(t.fields()) =~= seq!["role"@, "content"@]);
    assert(sampling_message_reserved()[0] == t.fields()[0].0);
    assert(sampling_message_reserved()[1] == t.fields()[1].0);
    assert(fresh(Seq::empty(), sampling_message_reserved()));
}

pub fn encode_sampling_message(x: &SamplingMessage) -> (r: Json)
    ensures
        r.model() == x.enc(),
{
    let fs = vec![("role", Some(encode_role(&x.role))), ("content", Some(encode_sampling_message_content(&x.content)))];
    proof {
        assert(fields_model(fs@) =~= x.fields());
    }
    build(fs, Vec::new())
}

pub fn decode_sampling_message(j: &Json) -> (r: Result<SamplingMessage, DecodeError>)
    ensures
        !(j.model() is Object) ==> r == Err::<SamplingMessage, DecodeError>(DecodeError::InvalidParams),
        (exists|t: SamplingMessage| t.wf() && t.enc() == j.model()) ==> (r matches Ok(t) && t.wf() && t.enc() == j.model()),
{
    let ghost canon = exists|t: SamplingMessage| t.wf() && t.enc() == j.model();
    let ghost t = choose|t: SamplingMessage| t.wf() && t.enc() == j.model();
    let o = as_object(j)?;
    proof {
        if canon {
            lemma_sampling_message_separable(t);
            lemma_record_get(t.fields(), Seq::<(Seq<char>, JsonV)>::empty(), sampling_message_reserved(), 0);
            lemma_record_get(t.fields(), Seq::<(Seq<char>, JsonV)>::empty(), sampling_message_reserved(), 1);
            assert(present(t.fields()) + Seq::<(Seq<char>, JsonV)>::empty() =~= present(t.fields()));
            assert(t.role.wf() && t.role.enc() == t.fields()[0].1->Some_0);
            assert(t.content.wf() && t.content.enc() == t.fields()[1].1->Some_0);
        }
    }
    let f_role = match find(o, "role") { Some(v) => decode_role(v)?, None => { return Err(DecodeError::InvalidParams); } };
    let f_content = match find(o, "content") { Some(v) => decode_sampling_message_content(v)?, None => { return Err(DecodeError::InvalidParams); } };
    let r = SamplingMessage { role: f_role, content: f_content };
    proof {
        if canon {
            assert(r.fields() =~= t.fields());
        }
    }
    Ok(r)
}

impl ToolInputSchema {
    /// The fields of the canonical encoding, in order.
    pub open spec fn fields(self) -> Fields {
        seq![("properties"@, opt_obj_v(self.properties)), ("required"@, Some(seq_enc(self.required@)))]
    }

    /// The canonical encoding.
    pub open spec fn enc(self) -> JsonV {
        record(self.fields(), Seq::empty())
    }

    /// The value can be told apart from its neighbours on the wire.
    pub open spec fn wf(self) -> bool {
        seq_wf(self.required@)
    }
}

/// The member names that ToolInputSchema's fields take.
pub open spec fn tool_input_schema_reserved() -> Seq<Seq<char>> {
    seq!["properties"@, "required"@]
}

pub(crate) proof fn lemma_tool_input_schema_separable(t: ToolInputSchema)
    requires
        t.wf(),
    ensures
        separable(t.fields(), Seq::empty(), tool_input_schema_reserved()),
{
    reveal_strlit("properties");
    reveal_strlit("required");
    assert("properties"@.len() == 10);
    assert("required"@.len() == 8);
    assert(field_keys(t.fields()) =~= seq!["properties"@, "required"@]);
    assert(tool_input_schema_reserved()[0] == t.fields()[0].0);
    assert(tool_input_schema_reserved()[1] == t.fields()[1].0);
    assert(fresh(Seq::empty(), tool_input_schema_reserved()));
}

pub fn encode_tool_input_schema(x: &ToolInputSchema) -> (r: Json)
    ensures
        r.model() == x.enc(),
{
    let fs = vec![("properties", enc_opt_obj(&x.properties)), ("required", Some(encode_vec(&x.required)))];
    proof {
        assert(fields_model(fs@) =~= x.fields());
    }
    build(fs, Vec::new())
}

pub fn decode_tool_input_schema(j: &Json) -> (r: Result<ToolInputSchema, DecodeError>)
    ensures
        !(j.model() is Object) ==> r == Err::<ToolInputSchema, DecodeError>(DecodeError::InvalidParams),
        (exists|t: ToolInputSchema| t.wf() && t.enc() == j.model()) ==> (r matches Ok(t) && t.wf() && t.enc() == j.model()),
{
    let ghost canon = exists|t: ToolInputSchema| t.wf() && t.enc() == j.model();
    let ghost t = choose|t: ToolInputSchema| t.wf() && t.enc() == j.model();
    let o = as_object(j)?;
    proof {
        if canon {
            lemma_tool_input_schema_separable(t);
            lemma_record_get(t.fields(), Seq::<(Seq<char>, JsonV)>::empty(), tool_input_schema_reserved(), 0);
            lemma_record_get(t.fields(), Seq::<(Seq<char>, JsonV)>::empty(), tool_input_schema_reserved(), 1);
            assert(present(t.fields()) + Seq::<(Seq<char>, JsonV)>::empty() =~= present(t.fields()));
            assert(seq_wf(t.required@) && seq_enc(t.required@) == t.fields()[1].1->Some_0);
        }
    }
    let f_properties = opt_obj(o, "properties")?;
    let f_required = match find(o, "required") { Some(v) => decode_vec(v)?, None => { return Err(DecodeError::InvalidParams); } };
    let r = ToolInputSchema { properties: f_properties, required: f_required };
    proof {
        if canon {
            assert(r.fields() =~= t.fields());
        }
    }
    Ok(r)
}

impl Tool {
    /// The fields of the canonical encoding, in order.
    pub open spec fn fields(self) -> Fields {
        seq![("name"@, Some(str_v(self.name))), ("description"@, opt_str_v(self.description)), ("inputSchema"@, Some(self.input_schema.enc()))]
    }

    /// The canonical encoding.
    pub open spec fn enc(self) -> JsonV {
        record(self.fields(), Seq::empty())
    }

    /// The value can be told apart from its neighbours on the wire.
    pub open spec fn wf(self) -> bool {
        self.input_schema.wf()
    }
}

/// The member names that Tool's fields take.
pub open spec fn tool_reserved() -> Seq<Seq<char>> {
    seq!["name"@, "description"@, "inputSchema"@]
}

pub(crate) proof fn lemma_tool_separable(t: Tool)
    requires
        t.wf(),
    ensures
        separable(t.fields(), Seq::empty(), tool_reserved()),
{
    reveal_strlit("name");
    reveal_strlit("description");
    reveal_strlit("inputSchema");
    assert("name"@.len() == 4);
    assert("description"@.len() == 11);
    assert("inputSchema"@.len() == 11);
    assert("description"@[0] == 'd' && "inputSchema"@[0] == 'i');
    assert(field_keys(t.fields()) =~= seq!["name"@, "description"@, "inputSchema"@]);
    assert(tool_reserved()[0] == t.fields()[0].0);
    assert(tool_reserved()[1] == t.fields()[1].0);
    assert(tool_reserved()[2] == t.fields()[2].0);
    assert(fresh(Seq::empty(), tool_reserved()));
}

pub fn encode_tool(x: &Tool) -> (r: Json)
    ensures
        r.model() == x.enc(),
{
    let fs = vec![("name", enc_str(&x.name)), ("description", enc_opt_str(&x.description)), ("inputSchema", Some(encode_tool_input_schema_type(&x.input_schema)))];
    proof {
        assert(fields_model(fs@) =~= x.fields());
    }
    build(fs, Vec::new())
}

pub fn decode_tool(j: &Json) -> (r: Result<Tool, DecodeError>)
    ensures
        !(j.model() is Object) ==> r == Err::<Tool, DecodeError>(DecodeError::InvalidParams),
        (exists|t: Tool| t.wf() && t.enc() == j.model()) ==> (r matches Ok(t) && t.wf() && t.enc() == j.model()),
{
    let ghost canon = exists|t: Tool| t.wf() && t.enc() == j.model();
    let ghost t = choose|t: Tool| t.wf() && t.enc() == j.model();
    let o = as_object(j)?;
    proof {
        if canon {
            lemma_tool_separable(t);
            lemma_record_get(t.fields(), Seq::<(Seq<char>, JsonV)>::empty(), tool_reserved(), 0);
            lemma_record_get(t.fields(), Seq::<(Seq<char>, JsonV)>::empty(), tool_reserved(), 1);
            lemma_record_get(t.fields(), Seq::<(Seq<char>, JsonV)>::empty(), tool_reserved(), 2);
            assert(present(t.fields()) + Seq::<(Seq<char>, JsonV)>::empty() =~= present(t.fields()));
            assert(t.input_schema.wf() && t.input_schema.enc() == t.fields()[2].1->Some_0);
        }
    }
    let f_name = req_str(o, "name")?;
    let f_description = opt_str(o, "description")?;
    let f_input_schema = match find(o, "inputSchema") { Some(v) => decode_tool_input_schema_type(v)?, None => { return Err(DecodeError::InvalidParams); } };
    let r = Tool { name: f_name, description: f_description, input_schema: f_input_schema };
    proof {
        if canon {
            assert(r.fields() =~= t.fields());
        }
    }
    Ok(r)
}

impl Root {
    /// The fields of the canonical encoding, in order.
    pub open spec fn fields(self) -> Fields {
        seq![("uri"@, Some(str_v(self.uri))), ("name"@, opt_str_v(self.name))]
    }

    /// The canonical encoding.
    pub open spec fn enc(self) -> JsonV {
        record(self.fields(), Seq::empty())
    }

    /// The value can be told apart from its neighbours on the wire.
    pub open spec fn wf(self) -> bool {
        true
    }
}

/// The member names that Root's fields take.
pub open spec fn root_reserved() -> Seq<Seq<char>> {
    seq!["uri"@, "name"@]
}

pub(crate) proof fn lemma_root_separable(t: Root)
    requires
        t.wf(),
    ensures
        separable(t.fields(), Seq::empty(), root_reserved()),
{
    reveal_strlit("uri");
    reveal_strlit("name");
    assert("uri"@.len() == 3);
    assert("name"@.len() == 4);
    assert(field_keys(t.fields()) =~= seq!["uri"@, "name"@]);
    assert(root_reserved()[0] == t.fields()[0].0);
    assert(root_reserved()[1] == t.fields()[1].0);
    assert(fresh(Seq::empty(), root_reserved()));
}

pub fn encode_root(x: &Root) -> (r: Json)
    ensures
        r.model() == x.enc(),
{
    let fs = vec![("uri", enc_str(&x.uri)), ("name", enc_opt_str(&x.name))];
    proof {
        assert(fields_model(fs@) =~= x.fields());
    }
    build(fs, Vec::new())
}

pub fn decode_root(j: &Json) -> (r: Result<Root, DecodeError>)
    ensures
        !(j.model() is Object) ==> r == Err::<Root, DecodeError>(DecodeError::InvalidParams),
        (exists|t: Root| t.wf() && t.enc() == j.model()) ==> (r matches Ok(t) && t.wf() && t.enc() == j.model()),
{
    let ghost canon = exists|t: Root| t.wf() && t.enc() == j.model();
    let ghost t = choose|t: Root| t.wf() && t.enc() == j.model();
    let o = as_object(j)?;
    proof {
        if canon {
            lemma_root_separable(t);
            lemma_record_get(t.fields(), Seq::<(Seq<char>, JsonV)>::empty(), root_reserved(), 0);
            lemma_record_get(t.fields(), Seq::<(Seq<char>, JsonV)>::empty(), root_reserved(), 1);
            assert(present(t.fields()) + Seq::<(Seq<char>, JsonV)>::empty() =~= present(t.fields()));
        }
    }
    let f_uri = req_str(o, "uri")?;
    let f_name = opt_str(o, "name")?;
    let r = Root { uri: f_uri, name: f_name };
    proof {
        if canon {
            assert(r.fields() =~= t.fields());
        }
    }
    Ok(r)
}

impl ModelHint {
    /// The fields of the canonical encoding, in order.
    pub open spec fn fields(self) -> Fields {
        seq![("name"@, opt_str_v(self.name))]
    }

    /// The canonical encoding.
    pub open spec fn enc(self) -> JsonV {
        record(self.fields(), Seq::empty())
    }

    /// The value can be told apart from its neighbours on the wire.
    pub open spec fn wf(self) -> bool {
        true
    }
}

/// The member names that ModelHint's fields take.
pub open spec fn model_hint_reserved() -> Seq<Seq<char>> {
    seq!["name"@]
}

pub(crate) proof fn lemma_model_hint_separable(t: ModelHint)
    requires
        t.wf(),
    ensures
        separable(t.fields(), Seq::empty(), model_hint_reserved()),
{
    reveal_strlit("name");
    assert("name"@.len() == 4);
    assert(field_keys(t.fields()) =~= seq!["name"@]);
    assert(model_hint_reserved()[0] == t.fields()[0].0);
    assert(fresh(Seq::empty(), model_hint_reserved()));
}

pub fn encode_model_hint(x: &ModelHint) -> (r: Json)
    ensures
        r.model() == x.enc(),
{
    let fs = vec![("name", enc_opt_str(&x.name))];
    proof {
        assert(fields_model(fs@) =~= x.fields());
    }
    build(fs, Vec::new())
}

pub fn decode_model_hint(j: &Json) -> (r: Result<ModelHint, DecodeError>)
    ensures
        !(j.model() is Object) ==> r == Err::<ModelHint, DecodeError>(DecodeError::InvalidParams),
        (exists|t: ModelHint| t.wf() && t.enc() == j.model()) ==> (r matches Ok(t) && t.wf() && t.enc() == j.model()),
{
    let ghost canon = exists|t: ModelHint| t.wf() && t.enc() == j.model();
    let ghost t = choose|t: ModelHint| t.wf() && t.enc() == j.model();
    let o = as_object(j)?;
    proof {
        if canon {
            lemma_model_hint_separable(t);
            lemma_record_get(t.fields(), Seq::<(Seq<char>, JsonV)>::empty(), model_hint_reserved(), 0);
            assert(present(t.fields()) + Seq::<(Seq<char>, JsonV)>::empty() =~= present(t.fields()));
        }
    }
    let f_name = opt_str(o, "name")?;
    let r = ModelHint { name: f_name };
    proof {
        if canon {
            assert(r.fields() =~= t.fields());
        }
    }
    Ok(r)
}

impl ModelPreferences {
    /// The fields of the canonical encoding, in order.
    pub open spec fn fields(self) -> Fields {
        seq![("hints"@, opt_seq_enc(self.hints)), ("costPriority"@, Some(JsonV::Number(self.cost_priority))), ("speedPriority"@, Some(JsonV::Number(self.speed_priority))), ("intelligencePriority"@, Some(JsonV::Number(self.intelligence_priority)))]
    }

    /// The canonical encoding.
    pub open spec fn enc(self) -> JsonV {
        record(self.fields(), Seq::empty())
    }

    /// The value can be told apart from its neighbours on the wire.
    pub open spec fn wf(self) -> bool {
        opt_seq_wf(self.hints)
    }
}

/// The member names that ModelPreferences's fields take.
pub open spec fn model_preferences_reserved() -> Seq<Seq<char>> {
    seq!["hints"@, "costPriority"@, "speedPriority"@, "intelligencePriority"@]
}

pub(crate) proof fn lemma_model_preferences_separable(t: ModelPreferences)
    requires
        t.wf(),
    ensures
        separable(t.fields(), Seq::empty(), model_preferences_reserved()),
{
    reveal_strlit("hints");
    reveal_strlit("costPriority");
    reveal_strlit("speedPriority");
    reveal_strlit("intelligencePriority");
    assert("hints"@.len() == 5);
    assert("costPriority"@.len() == 12);
    assert("speedPriority"@.len() == 13);
    assert("intelligencePriority"@.len() == 20);
    assert(field_keys(t.fields()) =~= seq!["hints"@, "costPriority"@, "speedPriority"@, "intelligencePriority"@]);
    assert(model_preferences_reserved()[0] == t.fields()[0].0);
    assert(model_preferences_reserved()[1] == t.fields()[1].0);
    assert(model_preferences_reserved()[2] == t.fields()[2].0);
    assert(model_preferences_reserved()[3] == t.fields()[3].0);
    assert(fresh(Seq::empty(), model_preferences_reserved()));
}

pub fn encode_model_preferences(x: &ModelPreferences) -> (r: Json)
    ensures
        r.model() == x.enc(),
{
    let fs = vec![("hints", match &x.hints { Some(y) => Some(encode_vec(y)), None => None }), ("costPriority", Some(Json::Number(x.cost_priority))), ("speedPriority", Some(Json::Number(x.speed_priority))), ("intelligencePriority", Some(Json::Number(x.intelligence_priority)))];
    proof {
        assert(fields_model(fs@) =~= x.fields());
    }
    build(fs, Vec::new())
}

pub fn decode_model_preferences(j: &Json) -> (r: Result<ModelPreferences, DecodeError>)
    ensures
        !(j.model() is Object) ==> r == Err::<ModelPreferences, DecodeError>(DecodeError::InvalidParams),
        (exists|t: ModelPreferences| t.wf() && t.enc() == j.model()) ==> (r matches Ok(t) && t.wf() && t.enc() == j.model()),
{
    let ghost canon = exists|t: ModelPreferences| t.wf() && t.enc() == j.model();
    let ghost t = choose|t: ModelPreferences| t.wf() && t.enc() == j.model();
    let o = as_object(j)?;
    proof {
        if canon {
            lemma_model_preferences_separable(t);
            lemma_record_get(t.fields(), Seq::<(Seq<char>, JsonV)>::empty(), model_preferences_reserved(), 0);
            lemma_record_get(t.fields(), Seq::<(Seq<char>, JsonV)>::empty(), model_preferences_reserved(), 1);
            lemma_record_get(t.fields(), Seq::<(Seq<char>, JsonV)>::empty(), model_preferences_reserved(), 2);
            lemma_record_get(t.fields(), Seq::<(Seq<char>, JsonV)>::empty(), model_preferences_reserved(), 3);
            assert(present(t.fields()) + Seq::<(Seq<char>, JsonV)>::empty() =~= present(t.fields()));
            if let Some(x) = t.hints { assert(seq_wf(x@) && seq_enc(x@) == t.fields()[0].1->Some_0); }
        }
    }
    let f_hints = match find(o, "hints") { Some(v) => Some(decode_vec(v)?), None => None };
    let f_cost_priority = req_number(o, "costPriority")?;
    let f_speed_priority = req_number(o, "speedPriority")?;
    let f_intelligence_priority = req_number(o, "intelligencePriority")?;
    let r = ModelPreferences { hints: f_hints, cost_priority: f_cost_priority, speed_priority: f_speed_priority, intelligence_priority: f_intelligence_priority };
    proof {
        if canon {
            assert(r.fields() =~= t.fields());
        }
    }
    Ok(r)
}

impl CreateMessageRequestParams {
    /// The fields of the canonical encoding, in order.
    pub open spec fn fields(self) -> Fields {
        seq![("messages"@, Some(seq_enc(self.messages@))), ("modelPreferences"@, (match self.model_preferences { Some(x) => Some(x.enc()), None => None })), ("systemPrompt"@, opt_str_v(self.system_prompt)), ("temperature"@, opt_number_v(self.temperature)), ("maxTokens"@, opt_u64_v(self.max_tokens)), ("stopSequences"@, opt_seq_enc(self.stop_sequences)), ("metadata"@, opt_obj_v(self.metadata))]
    }

    /// The canonical encoding.
    pub open spec fn enc(self) -> JsonV {
        record(self.fields(), Seq::empty())
    }

    /// The value can be told apart from its neighbours on the wire.
    pub open spec fn wf(self) -> bool {
        seq_wf(self.messages@) && (self.model_preferences matches Some(x) ==> x.wf()) && opt_seq_wf(self.stop_sequences)
    }
}

/// The member names that CreateMessageRequestParams's fields take.
pub open spec fn create_message_request_params_reserved() -> Seq<Seq<char>> {
    seq!["messages"@, "modelPreferences"@, "systemPrompt"@, "temperature"@, "maxTokens"@, "stopSequences"@, "metadata"@]
}

pub(crate) proof fn lemma_create_message_request_params_separable(t: CreateMessageRequestParams)
    requires
        t.wf(),
    ensures
        separable(t.fields(), Seq::empty(), create_message_request_params_reserved()),
{
    reveal_strlit("messages");
    reveal_strlit("modelPreferences");
    reveal_strlit("systemPrompt");
    reveal_strlit("temperature");
    reveal_strlit("maxTokens");
    reveal_strlit("stopSequences");
    reveal_strlit("metadata");
    assert("messages"@.len() == 8);
    assert("modelPreferences"@.len() == 16);
    assert("systemPrompt"@.len() == 12);
    assert("temperature"@.len() == 11);
    assert("maxTokens"@.len() == 9);
    assert("stopSequences"@.len() == 13);
    assert("metadata"@.len() == 8);
    assert("messages"@[2] == 's' && "metadata"@[2] == 't');
    assert(field_keys(t.fields()) =~= seq!["messages"@, "modelPreferences"@, "systemPrompt"@, "temperature"@, "maxTokens"@, "stopSequences"@, "metadata"@]);
    assert(create_message_request_params_reserved()[0] == t.fields()[0].0);
    assert(create_message_request_params_reserved()[1] == t.fields()[1].0);
    assert(create_message_request_params_reserved()[2] == t.fields()[2].0);
    assert(create_message_request_params_reserved()[3] == t.fields()[3].0);
    assert(create_message_request_params_reserved()[4] == t.fields()[4].0);
    assert(create_message_request_params_reserved()[5] == t.fields()[5].0);
    assert(create_message_request_params_reserved()[6] == t.fields()[6].0);
    assert(fresh(Seq::empty(), create_message_request_params_reserved()));
}

pub fn encode_create_message_request_params(x: &CreateMessageRequestParams) -> (r: Json)
    ensures
        r.model() == x.enc(),
{
    let fs = vec![("messages", Some(encode_vec(&x.messages))), ("modelPreferences", match &x.model_preferences { Some(y) => Some(encode_model_preferences(y)), None => None }), ("systemPrompt", enc_opt_str(&x.system_prompt)), ("temperature", enc_opt_number(&x.temperature)), ("maxTokens", enc_opt_u64(&x.max_tokens)), ("stopSequences", match &x.stop_sequences { Some(y) => Some(encode_vec(y)), None => None }), ("metadata", enc_opt_obj(&x.metadata))];
    proof {
        assert(fields_model(fs@) =~= x.fields());
    }
    build(fs, Vec::new())
}

pub fn decode_create_message_request_params(j: &Json) -> (r: Result<CreateMessageRequestParams, DecodeError>)
    ensures
        !(j.model() is Object) ==> r == Err::<CreateMessageRequestParams, DecodeError>(DecodeError::InvalidParams),
        (exists|t: CreateMessageRequestParams| t.wf() && t.enc() == j.model()) ==> (r matches Ok(t) && t.wf() && t.enc() == j.model()),
{
    let ghost canon = exists|t: CreateMessageRequestParams| t.wf() && t.enc() == j.model();
    let ghost t = choose|t: CreateMessageRequestParams| t.wf() && t.enc() == j.model();
    let o = as_object(j)?;
    proof {
        if canon {
            lemma_create_message_request_params_separable(t);
            lemma_record_get(t.fields(), Seq::<(Seq<char>, JsonV)>::empty(), create_message_request_params_reserved(), 0);
            lemma_record_get(t.fields(), Seq::<(Seq<char>, JsonV)>::empty(), create_message_request_params_reserved(), 1);
            lemma_record_get(t.fields(), Seq::<(Seq<char>, JsonV)>::empty(), create_message_request_params_reserved(), 2);
            lemma_record_get(t.fields(), Seq::<(Seq<char>, JsonV)>::empty(), create_message_request_params_reserved(), 3);
            lemma_record_get(t.fields(), Seq::<(Seq<char>, JsonV)>::empty(), create_message_request_params_reserved(), 4);
            lemma_record_get(t.fields(), Seq::<(Seq<char>, JsonV)>::empty(), create_message_request_params_reserved(), 5);
            lemma_record_get(t.fields(), Seq::<(Seq<char>, JsonV)>::empty(), create_message_request_params_reserved(), 6);
            assert(present(t.fields()) + Seq::<(Seq<char>, JsonV)>::empty() =~= present(t.fields()));
            assert(seq_wf(t.messages@) && seq_enc(t.messages@) == t.fields()[0].1->Some_0);
            if let Some(x) = t.model_preferences { assert(x.wf() && x.enc() == t.fields()[1].1->Some_0); }
            if let Some(x) = t.stop_sequences { assert(seq_wf(x@) && seq_enc(x@) == t.fields()[5].1->Some_0); }
        }
    }
    let f_messages = match find(o, "messages") { Some(v) => decode_vec(v)?, None => { return Err(DecodeError::InvalidParams); } };
    let f_model_preferences = match find(o, "modelPreferences") { Some(v) => Some(decode_model_preferences(v)?), None => None };
    let f_system_prompt = opt_str(o, "systemPrompt")?;
    let f_temperature = opt_number(o, "temperature")?;
    let f_max_tokens = opt_u64(o, "maxTokens")?;
    let f_stop_sequences = match find(o, "stopSequences") { Some(v) => Some(decode_vec(v)?), None => None };
    let f_metadata = opt_obj(o, "metadata")?;
    let r = CreateMessageRequestParams { messages: f_messages, model_preferences: f_model_preferences, system_prompt: f_system_prompt, temperature: f_temperature, max_tokens: f_max_tokens, stop_sequences: f_stop_sequences, metadata: f_metadata };
    proof {
        if canon {
            assert(r.fields() =~= t.fields());
        }
    }
    Ok(r)
}

impl PaginatedResult {
    /// The fields of the canonical encoding, in order.
    pub open spec fn fields(self) -> Fields {
        seq![("nextCursor"@, opt_str_v(self.next_cursor))]
    }

    /// The canonical encoding.
    pub open spec fn enc(self) -> JsonV {
        record(self.fields(), Seq::empty())
    }

    /// The value can be told apart from its neighbours on the wire.
    pub open spec fn wf(self) -> bool {
        true
    }
}

/// The member names that PaginatedResult's fields take.
pub open spec fn paginated_result_reserved() -> Seq<Seq<char>> {
    seq!["nextCursor"@]
}

pub(crate) proof fn lemma_paginated_result_separable(t: PaginatedResult)
    requires
        t.wf(),
    ensures
        separable(t.fields(), Seq::empty(), paginated_result_reserved()),
{
    reveal_strlit("nextCursor");
    assert("nextCursor"@.len() == 10);
    assert(field_keys(t.fields()) =~= seq!["nextCursor"@]);
    assert(paginated_result_reserved()[0] == t.fields()[0].0);
    assert(fresh(Seq::empty(), paginated_result_reserved()));
}

pub fn encode_paginated_result(x: &PaginatedResult) -> (r: Json)
    ensures
        r.model() == x.enc(),
{
    let fs = vec![("nextCursor", enc_opt_str(&x.next_cursor))];
    proof {
        assert(fields_model(fs@) =~= x.fields());
    }
    build(fs, Vec::new())
}

pub fn decode_paginated_result(j: &Json) -> (r: Result<PaginatedResult, DecodeError>)
    ensures
        !(j.model() is Object) ==> r == Err::<PaginatedResult, DecodeError>(DecodeError::InvalidParams),
        (exists|t: PaginatedResult| t.wf() && t.enc() == j.model()) ==> (r matches Ok(t) && t.wf() && t.enc() == j.model()),
{
    let ghost canon = exists|t: PaginatedResult| t.wf() && t.enc() == j.model();
    let ghost t = choose|t: PaginatedResult| t.wf() && t.enc() == j.model();
    let o = as_object(j)?;
    proof {
        if canon {
            lemma_paginated_result_separable(t);
            lemma_record_get(t.fields(), Seq::<(Seq<char>, JsonV)>::empty(), paginated_result_reserved(), 0);
            assert(present(t.fields()) + Seq::<(Seq<char>, JsonV)>::empty() =~= present(t.fields()));
        }
    }
    let f_next_cursor = opt_str(o, "nextCursor")?;
    let r = PaginatedResult { next_cursor: f_next_cursor };
    proof {
        if canon {
            assert(r.fields() =~= t.fields());
        }
    }
    Ok(r)
}

impl ListResourcesResult {
    /// The fields of the canonical encoding, in order.
    pub open spec fn fields(self) -> Fields {
        seq![("nextCursor"@, opt_str_v(self.paginated_base.next_cursor)), ("resources"@, Some(seq_enc(self.resources@)))]
    }

    /// The canonical encoding.
    pub open spec fn enc(self) -> JsonV {
        record(self.fields(), Seq::empty())
    }

    /// The value can be told apart from its neighbours on the wire.
    pub open spec fn wf(self) -> bool {
        seq_wf(self.resources@)
    }
}

/// The member names that ListResourcesResult's fields take.
pub open spec fn list_resources_result_reserved() -> Seq<Seq<char>> {
    seq!["nextCursor"@, "resources"@]
}

pub(crate) proof fn lemma_list_resources_result_separable(t: ListResourcesResult)
    requires
        t.wf(),
    ensures
        separable(t.fields(), Seq::empty(), list_resources_result_reserved()),
{
    reveal_strlit("nextCursor");
    reveal_strlit("resources");
    assert("nextCursor"@.len() == 10);
    assert("resources"@.len() == 9);
    assert(field_keys(t.fields()) =~= seq!["nextCursor"@, "resources"@]);
    assert(list_resources_result_reserved()[0] == t.fields()[0].0);
    assert(list_resources_result_reserved()[1] == t.fields()[1].0);
    assert(fresh(Seq::empty(), list_resources_result_reserved()));
}

pub fn encode_list_resources_result(x: &ListResourcesResult) -> (r: Json)
    ensures
        r.model() == x.enc(),
{
    let fs = vec![("nextCursor", enc_opt_str(&x.paginated_base.next_cursor)), ("resources", Some(encode_vec(&x.resources)))];
    proof {
        assert(fields_model(fs@) =~= x.fields());
    }
    build(fs, Vec::new())
}

pub fn decode_list_resources_result(j: &Json) -> (r: Result<ListResourcesResult, DecodeError>)
    ensures
        !(j.model() is Object) ==> r == Err::<ListResourcesResult, DecodeError>(DecodeError::InvalidParams),
        (exists|t: ListResourcesResult| t.wf() && t.enc() == j.model()) ==> (r matches Ok(t) && t.wf() && t.enc() == j.model()),
{
    let ghost canon = exists|t: ListResourcesResult| t.wf() && t.enc() == j.model();
    let ghost t = choose|t: ListResourcesResult| t.wf() && t.enc() == j.model();
    let o = as_object(j)?;
    proof {
        if canon {
            lemma_list_resources_result_separable(t);
            lemma_record_get(t.fields(), Seq::<(Seq<char>, JsonV)>::empty(), list_resources_result_reserved(), 0);
            lemma_record_get(t.fields(), Seq::<(Seq<char>, JsonV)>::empty(), list_resources_result_reserved(), 1);
            assert(present(t.fields()) + Seq::<(Seq<char>, JsonV)>::empty() =~= present(t.fields()));
            assert(seq_wf(t.resources@) && seq_enc(t.resources@) == t.fields()[1].1->Some_0);
        }
    }
    let f_next_cursor = opt_str(o, "nextCursor")?;
    let f_resources = match find(o, "resources") { Some(v) => decode_vec(v)?, None => { return Err(DecodeError::InvalidParams); } };
    let r = ListResourcesResult { paginated_base: PaginatedResult { next_cursor: f_next_cursor }, resources: f_resources };
    proof {
        if canon {
            assert(r.fields() =~= t.fields());
        }
    }
    Ok(r)
}

impl ListResourcesTemplateResult {
    /// The fields of the canonical encoding, in order.
    pub open spec fn fields(self) -> Fields {
        seq![("nextCursor"@, opt_str_v(self.paginated_base.next_cursor)), ("resourcesTemplates"@, Some(seq_enc(self.resources_templates@)))]
    }

    /// The canonical encoding.
    pub open spec fn enc(self) -> JsonV {
        record(self.fields(), Seq::empty())
    }

    /// The value can be told apart from its neighbours on the wire.
    pub open spec fn wf(self) -> bool {
        seq_wf(self.resources_templates@)
    }
}

/// The member names that ListResourcesTemplateResult's fields take.
pub open spec fn list_resources_template_result_reserved() -> Seq<Seq<char>> {
    seq!["nextCursor"@, "resourcesTemplates"@]
}

pub(crate) proof fn lemma_list_resources_template_result_separable(t: ListResourcesTemplateResult)
    requires
        t.wf(),
    ensures
        separable(t.fields(), Seq::empty(), list_resources_template_result_reserved()),
{
    reveal_strlit("nextCursor");
    reveal_strlit("resourcesTemplates");
    assert("nextCursor"@.len() == 10);
    assert("resourcesTemplates"@.len() == 18);
    assert(field_keys(t.fields()) =~= seq!["nextCursor"@, "resourcesTemplates"@]);
    assert(list_resources_template_result_reserved()[0] == t.fields()[0].0);
    assert(list_resources_template_result_reserved()[1] == t.fields()[1].0);
    assert(fresh(Seq::empty(), list_resources_template_result_reserved()));
}

pub fn encode_list_resources_template_result(x: &ListResourcesTemplateResult) -> (r: Json)
    ensures
        r.model() == x.enc(),
{
    let fs = vec![("nextCursor", enc_opt_str(&x.paginated_base.next_cursor)), ("resourcesTemplates", Some(encode_vec(&x.resources_templates)))];
    proof {
        assert(fields_model(fs@) =~= x.fields());
    }
    build(fs, Vec::new())
}

pub fn decode_list_resources_template_result(j: &Json) -> (r: Result<ListResourcesTemplateResult, DecodeError>)
    ensures
        !(j.model() is Object) ==> r == Err::<ListResourcesTemplateResult, DecodeError>(DecodeError::InvalidParams),
        (exists|t: ListResourcesTemplateResult| t.wf() && t.enc() == j.model()) ==> (r matches Ok(t) && t.wf() && t.enc() == j.model()),
{
    let ghost canon = exists|t: ListResourcesTemplateResult| t.wf() && t.enc() == j.model();
    let ghost t = choose|t: ListResourcesTemplateResult| t.wf() && t.enc() == j.model();
    let o = as_object(j)?;
    proof {
        if canon {
            lemma_list_resources_template_result_separable(t);
            lemma_record_get(t.fields(), Seq::<(Seq<char>, JsonV)>::empty(), list_resources_template_result_reserved(), 0);
            lemma_record_get(t.fields(), Seq::<(Seq<char>, JsonV)>::empty(), list_resources_template_result_reserved(), 1);
            assert(present(t.fields()) + Seq::<(Seq<char>, JsonV)>::empty() =~= present(t.fields()));
            assert(seq_wf(t.resources_templates@) && seq_enc(t.resources_templates@) == t.fields()[1].1->Some_0);
        }
    }
    let f_next_cursor = opt_str(o, "nextCursor")?;
    let f_resources_templates = match find(o, "resourcesTemplates") { Some(v) => decode_vec(v)?, None => { return Err(DecodeError::InvalidParams); } };
    let r = ListResourcesTemplateResult { paginated_base: PaginatedResult { next_cursor: f_next_cursor }, resources_templates: f_resources_templates };
    proof {
        if canon {
            assert(r.fields() =~= t.fields());
        }
    }
    Ok(r)
}

impl ReadResourceResult {
    /// The fields of the canonical encoding, in order.
    pub open spec fn fields(self) -> Fields {
        seq![("contents"@, Some(seq_enc(self.contents@)))]
    }

    /// The canonical encoding.
    pub open spec fn enc(self) -> JsonV {
        record(self.fields(), Seq::empty())
    }

    /// The value can be told apart from its neighbours on the wire.
    pub open spec fn wf(self) -> bool {
        seq_wf(self.contents@)
    }
}

/// The member names that ReadResourceResult's fields take.
pub open spec fn read_resource_result_reserved() -> Seq<Seq<char>> {
    seq!["contents"@]
}

pub(crate) proof fn lemma_read_resource_result_separable(t: ReadResourceResult)
    requires
        t.wf(),
    ensures
        separable(t.fields(), Seq::empty(), read_resource_result_reserved()),
{
    reveal_strlit("contents");
    assert("contents"@.len() == 8);
    assert(field_keys(t.fields()) =~= seq!["contents"@]);
    assert(read_resource_result_reserved()[0] == t.fields()[0].0);
    assert(fresh(Seq::empty(), read_resource_result_reserved()));
}

pub fn encode_read_resource_result(x: &ReadResourceResult) -> (r: Json)
    ensures
        r.model() == x.enc(),
{
    let fs = vec![("contents", Some(encode_vec(&x.contents)))];
    proof {
        assert(fields_model(fs@) =~= x.fields());
    }
    build(fs, Vec::new())
}

pub fn decode_read_resource_result(j: &Json) -> (r: Result<ReadResourceResult, DecodeError>)
    ensures
        !(j.model() is Object) ==> r == Err::<ReadResourceResult, DecodeError>(DecodeError::InvalidParams),
        (exists|t: ReadResourceResult| t.wf() && t.enc() == j.model()) ==> (r matches Ok(t) && t.wf() && t.enc() == j.model()),
{
    let ghost canon = exists|t: ReadResourceResult| t.wf() && t.enc() == j.model();
    let ghost t = choose|t: ReadResourceResult| t.wf() && t.enc() == j.model();
    let o = as_object(j)?;
    proof {
        if canon {
            lemma_read_resource_result_separable(t);
            lemma_record_get(t.fields(), Seq::<(Seq<char>, JsonV)>::empty(), read_resource_result_reserved(), 0);
            assert(present(t.fields()) + Seq::<(Seq<char>, JsonV)>::empty() =~= present(t.fields()));
            assert(seq_wf(t.contents@) && seq_enc(t.contents@) == t.fields()[0].1->Some_0);
        }
    }
    let f_contents = match find(o, "contents") { Some(v) => decode_vec(v)?, None => { return Err(DecodeError::InvalidParams); } };
    let r = ReadResourceResult { contents: f_contents };
    proof {
        if canon {
            assert(r.fields() =~= t.fields());
        }
    }
    Ok(r)
}

impl ListPromptsResult {
    /// The fields of the canonical encoding, in order.
    pub open spec fn fields(self) -> Fields {
        seq![("nextCursor"@, opt_str_v(self.paginated_base.next_cursor)), ("prompts"@, Some(seq_enc(self.prompts@)))]
    }

    /// The canonical encoding.
    pub open spec fn enc(self) -> JsonV {
        record(self.fields(), Seq::empty())
    }

    /// The value can be told apart from its neighbours on the wire.
    pub open spec fn wf(self) -> bool {
        seq_wf(self.prompts@)
    }
}

/// The member names that ListPromptsResult's fields take.
pub open spec fn list_prompts_result_reserved() -> Seq<Seq<char>> {
    seq!["nextCursor"@, "prompts"@]
}

pub(crate) proof fn lemma_list_prompts_result_separable(t: ListPromptsResult)
    requires
        t.wf(),
    ensures
        separable(t.fields(), Seq::empty(), list_prompts_result_reserved()),
{
    reveal_strlit("nextCursor");
    reveal_strlit("prompts");
    assert("nextCursor"@.len() == 10);
    assert("prompts"@.len() == 7);
    assert(field_keys(t.fields()) =~= seq!["nextCursor"@, "prompts"@]);
    assert(list_prompts_result_reserved()[0] == t.fields()[0].0);
    assert(list_prompts_result_reserved()[1] == t.fields()[1].0);
    assert(fresh(Seq::empty(), list_prompts_result_reserved()));
}

pub fn encode_list_prompts_result(x: &ListPromptsResult) -> (r: Json)
    ensures
        r.model() == x.enc(),
{
    let fs = vec![("nextCursor", enc_opt_str(&x.paginated_base.next_cursor)), ("prompts", Some(encode_vec(&x.prompts)))];
    proof {
        assert(fields_model(fs@) =~= x.fields());
    }
    build(fs, Vec::new())
}

pub fn decode_list_prompts_result(j: &Json) -> (r: Result<ListPromptsResult, DecodeError>)
    ensures
        !(j.model() is Object) ==> r == Err::<ListPromptsResult, DecodeError>(DecodeError::InvalidParams),
        (exists|t: ListPromptsResult| t.wf() && t.enc() == j.model()) ==> (r matches Ok(t) && t.wf() && t.enc() == j.model()),
{
    let ghost canon = exists|t: ListPromptsResult| t.wf() && t.enc() == j.model();
    let ghost t = choose|t: ListPromptsResult| t.wf() && t.enc() == j.model();
    let o = as_object(j)?;
    proof {
        if canon {
            lemma_list_prompts_result_separable(t);
            lemma_record_get(t.fields(), Seq::<(Seq<char>, JsonV)>::empty(), list_prompts_result_reserved(), 0);
            lemma_record_get(t.fields(), Seq::<(Seq<char>, JsonV)>::empty(), list_prompts_result_reserved(), 1);
            assert(present(t.fields()) + Seq::<(Seq<char>, JsonV)>::empty() =~= present(t.fields()));
            assert(seq_wf(t.prompts@) && seq_enc(t.prompts@) == t.fields()[1].1->Some_0);
        }
    }
    let f_next_cursor = opt_str(o, "nextCursor")?;
    let f_prompts = match find(o, "prompts") { Some(v) => decode_vec(v)?, None => { return Err(DecodeError::InvalidParams); } };
    let r = ListPromptsResult { paginated_base: PaginatedResult { next_cursor: f_next_cursor }, prompts: f_prompts };
    proof {
        if canon {
            assert(r.fields() =~= t.fields());
        }
    }
    Ok(r)
}

impl GetPromptResult {
    /// The fields of the canonical encoding, in order.
    pub open spec fn fields(self) -> Fields {
        seq![("description"@, opt_str_v(self.description)), ("messages"@, Some(seq_enc(self.messages@)))]
    }

    /// The canonical encoding.
    pub open spec fn enc(self) -> JsonV {
        record(self.fields(), Seq::empty())
    }

    /// The value can be told apart from its neighbours on the wire.
    pub open spec fn wf(self) -> bool {
        seq_wf(self.messages@)
    }
}

/// The member names that GetPromptResult's fields take.
pub open spec fn get_prompt_result_reserved() -> Seq<Seq<char>> {
    seq!["description"@, "messages"@]
}

pub(crate) proof fn lemma_get_prompt_result_separable(t: GetPromptResult)
    requires
        t.wf(),
    ensures
        separable(t.fields(), Seq::empty(), get_prompt_result_reserved()),
{
    reveal_strlit("description");
    reveal_strlit("messages");
    assert("description"@.len() == 11);
    assert("messages"@.len() == 8);
    assert(field_keys(t.fields()) =~= seq!["description"@, "messages"@]);
    assert(get_prompt_result_reserved()[0] == t.fields()[0].0);
    assert(get_prompt_result_reserved()[1] == t.fields()[1].0);
    assert(fresh(Seq::empty(), get_prompt_result_reserved()));
}

pub fn encode_get_prompt_result(x: &GetPromptResult) -> (r: Json)
    ensures
        r.model() == x.enc(),
{
    let fs = vec![("description", enc_opt_str(&x.description)), ("messages", Some(encode_vec(&x.messages)))];
    proof {
        assert(fields_model(fs@) =~= x.fields());
    }
    build(fs, Vec::new())
}

pub fn decode_get_prompt_result(j: &Json) -> (r: Result<GetPromptResult, DecodeError>)
    ensures
        !(j.model() is Object) ==> r == Err::<GetPromptResult, DecodeError>(DecodeError::InvalidParams),
        (exists|t: GetPromptResult| t.wf() && t.enc() == j.model()) ==> (r matches Ok(t) && t.wf() && t.enc() == j.model()),
{
    let ghost canon = exists|t: GetPromptResult| t.wf() && t.enc() == j.model();
    let ghost t = choose|t: GetPromptResult| t.wf() && t.enc() == j.model();
    let o = as_object(j)?;
    proof {
        if canon {
            lemma_get_prompt_result_separable(t);
            lemma_record_get(t.fields(), Seq::<(Seq<char>, JsonV)>::empty(), get_prompt_result_reserved(), 0);
            lemma_record_get(t.fields(), Seq::<(Seq<char>, JsonV)>::empty(), get_prompt_result_reserved(), 1);
            assert(present(t.fields()) + Seq::<(Seq<char>, JsonV)>::empty() =~= present(t.fields()));
            assert(seq_wf(t.messages@) && seq_enc(t.messages@) == t.fields()[1].1->Some_0);
        }
    }
    let f_description = opt_str(o, "description")?;
    let f_messages = match find(o, "messages") { Some(v) => decode_vec(v)?, None => { return Err(DecodeError::InvalidParams); } };
    let r = GetPromptResult { description: f_description, messages: f_messages };
    proof {
        if canon {
            assert(r.fields() =~= t.fields());
        }
    }
    Ok(r)
}

impl ListToolsResult {
    /// The fields of the canonical encoding, in order.
    pub open spec fn fields(self) -> Fields {
        seq![("nextCursor"@, opt_str_v(self.paginated_base.next_cursor)), ("tools"@, Some(seq_enc(self.tools@)))]
    }

    /// The canonical encoding.
    pub open spec fn enc(self) -> JsonV {
        record(self.fields(), Seq::empty())
    }

    /// The value can be told apart from its neighbours on the wire.
    pub open spec fn wf(self) -> bool {
        seq_wf(self.tools@)
    }
}

/// The member names that ListToolsResult's fields take.
pub open spec fn list_tools_result_reserved() -> Seq<Seq<char>> {
    seq!["nextCursor"@, "tools"@]
}

pub(crate) proof fn lemma_list_tools_result_separable(t: ListToolsResult)
    requires
        t.wf(),
    ensures
        separable(t.fields(), Seq::empty(), list_tools_result_reserved()),
{
    reveal_strlit("nextCursor");
    reveal_strlit("tools");
    assert("nextCursor"@.len() == 10);
    assert("tools"@.len() == 5);
    assert(field_keys(t.fields()) =~= seq!["nextCursor"@, "tools"@]);
    assert(list_tools_result_reserved()[0] == t.fields()[0].0);
    assert(list_tools_result_reserved()[1] == t.fields()[1].0);
    assert(fresh(Seq::empty(), list_tools_result_reserved()));
}

pub fn encode_list_tools_result(x: &ListToolsResult) -> (r: Json)
    ensures
        r.model() == x.enc(),
{
    let fs = vec![("nextCursor", enc_opt_str(&x.paginated_base.next_cursor)), ("tools", Some(encode_vec(&x.tools)))];
    proof {
        assert(fields_model(fs@) =~= x.fields());
    }
    build(fs, Vec::new())
}

pub fn decode_list_tools_result(j: &Json) -> (r: Result<ListToolsResult, DecodeError>)
    ensures
        !(j.model() is Object) ==> r == Err::<ListToolsResult, DecodeError>(DecodeError::InvalidParams),
        (exists|t: ListToolsResult| t.wf() && t.enc() == j.model()) ==> (r matches Ok(t) && t.wf() && t.enc() == j.model()),
{
    let ghost canon = exists|t: ListToolsResult| t.wf() && t.enc() == j.model();
    let ghost t = choose|t: ListToolsResult| t.wf() && t.enc() == j.model();
    let o = as_object(j)?;
    proof {
        if canon {
            lemma_list_tools_result_separable(t);
            lemma_record_get(t.fields(), Seq::<(Seq<char>, JsonV)>::empty(), list_tools_result_reserved(), 0);
            lemma_record_get(t.fields(), Seq::<(Seq<char>, JsonV)>::empty(), list_tools_result_reserved(), 1);
            assert(present(t.fields()) + Seq::<(Seq<char>, JsonV)>::empty() =~= present(t.fields()));
            assert(seq_wf(t.tools@) && seq_enc(t.tools@) == t.fields()[1].1->Some_0);
        }
    }
    let f_next_cursor = opt_str(o, "nextCursor")?;
    let f_tools = match find(o, "tools") { Some(v) => decode_vec(v)?, None => { return Err(DecodeError::InvalidParams); } };
    let r = ListToolsResult { paginated_base: PaginatedResult { next_cursor: f_next_cursor }, tools: f_tools };
    proof {
        if canon {
            assert(r.fields() =~= t.fields());
        }
    }
    Ok(r)
}

impl CallToolResult {
    /// The fields of the canonical encoding, in order.
    pub open spec fn fields(self) -> Fields {
        seq![("content"@, Some(seq_enc(self.content@))), ("isError"@, opt_bool_v(self.is_error))]
    }

    /// The canonical encoding.
    pub open spec fn enc(self) -> JsonV {
        record(self.fields(), Seq::empty())
    }

    /// The value can be told apart from its neighbours on the wire.
    pub open spec fn wf(self) -> bool {
        seq_wf(self.content@)
    }
}

/// The member names that CallToolResult's fields take.
pub open spec fn call_tool_result_reserved() -> Seq<Seq<char>> {
    seq!["content"@, "isError"@]
}

pub(crate) proof fn lemma_call_tool_result_separable(t: CallToolResult)
    requires
        t.wf(),
    ensures
        separable(t.fields(), Seq::empty(), call_tool_result_reserved()),
{
    reveal_strlit("content");
    reveal_strlit("isError");
    assert("content"@.len() == 7);
    assert("isError"@.len() == 7);
    assert("content"@[0] == 'c' && "isError"@[0] == 'i');
    assert(field_keys(t.fields()) =~= seq!["content"@, "isError"@]);
    assert(call_tool_result_reserved()[0] == t.fields()[0].0);
    assert(call_tool_result_reserved()[1] == t.fields()[1].0);
    assert(fresh(Seq::empty(), call_tool_result_reserved()));
}

pub fn encode_call_tool_result(x: &CallToolResult) -> (r: Json)
    ensures
        r.model() == x.enc(),
{
    let fs = vec![("content", Some(encode_vec(&x.content))), ("isError", enc_opt_bool(&x.is_error))];
    proof {
        assert(fields_model(fs@) =~= x.fields());
    }
    build(fs, Vec::new())
}

pub fn decode_call_tool_result(j: &Json) -> (r: Result<CallToolResult, DecodeError>)
    ensures
        !(j.model() is Object) ==> r == Err::<CallToolResult, DecodeError>(DecodeError::InvalidParams),
        (exists|t: CallToolResult| t.wf() && t.enc() == j.model()) ==> (r matches Ok(t) && t.wf() && t.enc() == j.model()),
{
    let ghost canon = exists|t: CallToolResult| t.wf() && t.enc() == j.model();
    let ghost t = choose|t: CallToolResult| t.wf() && t.enc() == j.model();
    let o = as_object(j)?;
    proof {
        if canon {
            lemma_call_tool_result_separable(t);
            lemma_record_get(t.fields(), Seq::<(Seq<char>, JsonV)>::empty(), call_tool_result_reserved(), 0);
            lemma_record_get(t.fields(), Seq::<(Seq<char>, JsonV)>::empty(), call_tool_result_reserved(), 1);
            assert(present(t.fields()) + Seq::<(Seq<char>, JsonV)>::empty() =~= present(t.fields()));
            assert(seq_wf(t.content@) && seq_enc(t.content@) == t.fields()[0].1->Some_0);
        }
    }
    let f_content = match find(o, "content") { Some(v) => decode_vec(v)?, None => { return Err(DecodeError::InvalidParams); } };
    let f_is_error = opt_bool(o, "isError")?;
    let r = CallToolResult { content: f_content, is_error: f_is_error };
    proof {
        if canon {
            assert(r.fields() =~= t.fields());
        }
    }
    Ok(r)
}

impl CreateMessageResult {
    /// The fields of the canonical encoding, in order.
    pub open spec fn fields(self) -> Fields {
        seq![("role"@, Some(self.sampling_message.role.enc())), ("content"@, Some(self.sampling_message.content.enc())), ("model"@, Some(str_v(self.model))), ("stopReason"@, (match self.stop_reason { Some(x) => Some(x.enc()), None => None }))]
    }

    /// The canonical encoding.
    pub open spec fn enc(self) -> JsonV {
        record(self.fields(), Seq::empty())
    }

    /// The value can be told apart from its neighbours on the wire.
    pub open spec fn wf(self) -> bool {
        self.sampling_message.role.wf() && self.sampling_message.content.wf() && (self.stop_reason matches Some(x) ==> x.wf())
    }
}

/// The member names that CreateMessageResult's fields take.
pub open spec fn create_message_result_reserved() -> Seq<Seq<char>> {
    seq!["role"@, "content"@, "model"@, "stopReason"@]
}

pub(crate) proof fn lemma_create_message_result_separable(t: CreateMessageResult)
    requires
        t.wf(),
    ensures
        separable(t.fields(), Seq::empty(), create_message_result_reserved()),
{
    reveal_strlit("role");
    reveal_strlit("content");
    reveal_strlit("model");
    reveal_strlit("stopReason");
    assert("role"@.len() == 4);
    assert("content"@.len() == 7);
    assert("model"@.len() == 5);
    assert("stopReason"@.len() == 10);
    assert(field_keys(t.fields()) =~= seq!["role"@, "content"@, "model"@, "stopReason"@]);
    assert(create_message_result_reserved()[0] == t.fields()[0].0);
    assert(create_message_result_reserved()[1] == t.fields()[1].0);
    assert(create_message_result_reserved()[2] == t.fields()[2].0);
    assert(create_message_result_reserved()[3] == t.fields()[3].0);
    assert(fresh(Seq::empty(), create_message_result_reserved()));
}

pub fn encode_create_message_result(x: &CreateMessageResult) -> (r: Json)
    ensures
        r.model() == x.enc(),
{
    let fs = vec![("role", Some(encode_role(&x.sampling_message.role))), ("content", Some(encode_sampling_message_content(&x.sampling_message.content))), ("model", enc_str(&x.model)), ("stopReason", match &x.stop_reason { Some(y) => Some(encode_stop_reason(y)), None => None })];
    proof {
        assert(fields_model(fs@) =~= x.fields());
    }
    build(fs, Vec::new())
}

pub fn decode_create_message_result(j: &Json) -> (r: Result<CreateMessageResult, DecodeError>)
    ensures
        !(j.model() is Object) ==> r == Err::<CreateMessageResult, DecodeError>(DecodeError::InvalidParams),
        (exists|t: CreateMessageResult| t.wf() && t.enc() == j.model()) ==> (r matches Ok(t) && t.wf() && t.enc() == j.model()),
{
    let ghost canon = exists|t: CreateMessageResult| t.wf() && t.enc() == j.model();
    let ghost t = choose|t: CreateMessageResult| t.wf() && t.enc() == j.model();
    let o = as_object(j)?;
    proof {
        if canon {
            lemma_create_message_result_separable(t);
            lemma_record_get(t.fields(), Seq::<(Seq<char>, JsonV)>::empty(), create_message_result_reserved(), 0);
            lemma_record_get(t.fields(), Seq::<(Seq<char>, JsonV)>::empty(), create_message_result_reserved(), 1);
            lemma_record_get(t.fields(), Seq::<(Seq<char>, JsonV)>::empty(), create_message_result_reserved(), 2);
            lemma_record_get(t.fields(), Seq::<(Seq<char>, JsonV)>::empty(), create_message_result_reserved(), 3);
            assert(present(t.fields()) + Seq::<(Seq<char>, JsonV)>::empty() =~= present(t.fields()));
            assert(t.sampling_message.role.wf() && t.sampling_message.role.enc() == t.fields()[0].1->Some_0);
            assert(t.sampling_message.content.wf() && t.sampling_message.content.enc() == t.fields()[1].1->Some_0);
            if let Some(x) = t.stop_reason { assert(x.wf() && x.enc() == t.fields()[3].1->Some_0); }
        }
    }
    let f_role = match find(o, "role") { Some(v) => decode_role(v)?, None => { return Err(DecodeError::InvalidParams); } };
    let f_content = match find(o, "content") { Some(v) => decode_sampling_message_content(v)?, None => { return Err(DecodeError::InvalidParams); } };
    let f_model = req_str(o, "model")?;
    let f_stop_reason = match find(o, "stopReason") { Some(v) => Some(decode_stop_reason(v)?), None => None };
    let r = CreateMessageResult { sampling_message: SamplingMessage { role: f_role, content: f_content }, model: f_model, stop_reason: f_stop_reason };
    proof {
        if canon {
            assert(r.fields() =~= t.fields());
        }
    }
    Ok(r)
}

impl CompleteResult {
    /// The fields of the canonical encoding, in order.
    pub open spec fn fields(self) -> Fields {
        seq![("values"@, Some(seq_enc(self.values@))), ("total"@, opt_int_v(self.total)), ("hasMore"@, opt_bool_v(self.has_more))]
    }

    /// The canonical encoding.
    pub open spec fn enc(self) -> JsonV {
        record(self.fields(), Seq::empty())
    }

    /// The value can be told apart from its neighbours on the wire.
    pub open spec fn wf(self) -> bool {
        seq_wf(self.values@)
    }
}

/// The member names that CompleteResult's fields take.
pub open spec fn complete_result_reserved() -> Seq<Seq<char>> {
    seq!["values"@, "total"@, "hasMore"@]
}

pub(crate) proof fn lemma_complete_result_separable(t: CompleteResult)
    requires
        t.wf(),
    ensures
        separable(t.fields(), Seq::empty(), complete_result_reserved()),
{
    reveal_strlit("values");
    reveal_strlit("total");
    reveal_strlit("hasMore");
    assert("values"@.len() == 6);
    assert("total"@.len() == 5);
    assert("hasMore"@.len() == 7);
    assert(field_keys(t.fields()) =~= seq!["values"@, "total"@, "hasMore"@]);
    assert(complete_result_reserved()[0] == t.fields()[0].0);
    assert(complete_result_reserved()[1] == t.fields()[1].0);
    assert(complete_result_reserved()[2] == t.fields()[2].0);
    assert(fresh(Seq::empty(), complete_result_reserved()));
}

pub fn encode_complete_result(x: &CompleteResult) -> (r: Json)
    ensures
        r.model() == x.enc(),
{
    let fs = vec![("values", Some(encode_vec(&x.values))), ("total", enc_opt_int(&x.total)), ("hasMore", enc_opt_bool(&x.has_more))];
    proof {
        assert(fields_model(fs@) =~= x.fields());
    }
    build(fs, Vec::new())
}

pub fn decode_complete_result(j: &Json) -> (r: Result<CompleteResult, DecodeError>)
    ensures
        !(j.model() is Object) ==> r == Err::<CompleteResult, DecodeError>(DecodeError::InvalidParams),
        (exists|t: CompleteResult| t.wf() && t.enc() == j.model()) ==> (r matches Ok(t) && t.wf() && t.enc() == j.model()),
{
    let ghost canon = exists|t: CompleteResult| t.wf() && t.enc() == j.model();
    let ghost t = choose|t: CompleteResult| t.wf() && t.enc() == j.model();
    let o = as_object(j)?;
    proof {
        if canon {
            lemma_complete_result_separable(t);
            lemma_record_get(t.fields(), Seq::<(Seq<char>, JsonV)>::empty(), complete_result_reserved(), 0);
            lemma_record_get(t.fields(), Seq::<(Seq<char>, JsonV)>::empty(), complete_result_reserved(), 1);
            lemma_record_get(t.fields(), Seq::<(Seq<char>, JsonV)>::empty(), complete_result_reserved(), 2);
            assert(present(t.fields()) + Seq::<(Seq<char>, JsonV)>::empty() =~= present(t.fields()));
            assert(seq_wf(t.values@) && seq_enc(t.values@) == t.fields()[0].1->Some_0);
        }
    }
    let f_values = match find(o, "values") { Some(v) => decode_vec(v)?, None => { return Err(DecodeError::InvalidParams); } };
    let f_total = opt_int(o, "total")?;
    let f_has_more = opt_bool(o, "hasMore")?;
    let r = CompleteResult { values: f_values, total: f_total, has_more: f_has_more };
    proof {
        if canon {
            assert(r.fields() =~= t.fields());
        }
    }
    Ok(r)
}

impl ListRootResult {
    /// The fields of the canonical encoding, in order.
    pub open spec fn fields(self) -> Fields {
        seq![("roots"@, Some(seq_enc(self.roots@)))]
    }

    /// The canonical encoding.
    pub open spec fn enc(self) -> JsonV {
        record(self.fields(), Seq::empty())
    }

    /// The value can be told apart from its neighbours on the wire.
    pub open spec fn wf(self) -> bool {
        seq_wf(self.roots@)
    }
}

/// The member names that ListRootResult's fields take.
pub open spec fn list_root_result_reserved() -> Seq<Seq<char>> {
    seq!["roots"@]
}

pub(crate) proof fn lemma_list_root_result_separable(t: ListRootResult)
    requires
        t.wf(),
    ensures
        separable(t.fields(), Seq::empty(), list_root_result_reserved()),
{
    reveal_strlit("roots");
    assert("roots"@.len() == 5);
    assert(field_keys(t.fields()) =~= seq!["roots"@]);
    assert(list_root_result_reserved()[0] == t.fields()[0].0);
    assert(fresh(Seq::empty(), list_root_result_reserved()));
}

pub fn encode_list_root_result(x: &ListRootResult) -> (r: Json)
    ensures
        r.model() == x.enc(),
{
    let fs = vec![("roots", Some(encode_vec(&x.roots)))];
    proof {
        assert(fields_model(fs@) =~= x.fields());
    }
    build(fs, Vec::new())
}

pub fn decode_list_root_result(j: &Json) -> (r: Result<ListRootResult, DecodeError>)
    ensures
        !(j.model() is Object) ==> r == Err::<ListRootResult, DecodeError>(DecodeError::InvalidParams),
        (exists|t: ListRootResult| t.wf() && t.enc() == j.model()) ==> (r matches Ok(t) && t.wf() && t.enc() == j.model()),
{
    let ghost canon = exists|t: ListRootResult| t.wf() && t.enc() == j.model();
    let ghost t = choose|t: ListRootResult| t.wf() && t.enc() == j.model();
    let o = as_object(j)?;
    proof {
        if canon {
            lemma_list_root_result_separable(t);
            lemma_record_get(t.fields(), Seq::<(Seq<char>, JsonV)>::empty(), list_root_result_reserved(), 0);
            assert(present(t.fields()) + Seq::<(Seq<char>, JsonV)>::empty() =~= present(t.fields()));
            assert(seq_wf(t.roots@) && seq_enc(t.roots@) == t.fields()[0].1->Some_0);
        }
    }
    let f_roots = match find(o, "roots") { Some(v) => decode_vec(v)?, None => { return Err(DecodeError::InvalidParams); } };
    let r = ListRootResult { roots: f_roots };
    proof {
        if canon {
            assert(r.fields() =~= t.fields());
        }
    }
    Ok(r)
}

impl WireShape for Resource {
    open spec fn shape_enc(&self) -> JsonV {
        self.enc()
    }

    open spec fn shape_wf(&self) -> bool {
        self.wf()
    }

    fn encode_shape(&self) -> (r: Json) {
        encode_resource(self)
    }

    fn decode_shape(j: &Json) -> (r: Result<Resource, DecodeError>) {
        decode_resource(j)
    }
}

impl WireShape for ResourceTemplate {
    open spec fn shape_enc(&self) -> JsonV {
        self.enc()
    }

    open spec fn shape_wf(&self) -> bool {
        self.wf()
    }

    fn encode_shape(&self) -> (r: Json) {
        encode_resource_template(self)
    }

    fn decode_shape(j: &Json) -> (r: Result<ResourceTemplate, DecodeError>) {
        decode_resource_template(j)
    }
}

impl WireShape for ContentsResource {
    open spec fn shape_enc(&self) -> JsonV {
        self.enc()
    }

    open spec fn shape_wf(&self) -> bool {
        self.wf()
    }

    fn encode_shape(&self) -> (r: Json) {
        encode_contents_resource(self)
    }

    fn decode_shape(j: &Json) -> (r: Result<ContentsResource, DecodeError>) {
        decode_contents_resource(j)
    }
}

impl WireShape for Prompt {
    open spec fn shape_enc(&self) -> JsonV {
        self.enc()
    }

    open spec fn shape_wf(&self) -> bool {
        self.wf()
    }

    fn encode_shape(&self) -> (r: Json) {
        encode_prompt(self)
    }

    fn decode_shape(j: &Json) -> (r: Result<Prompt, DecodeError>) {
        decode_prompt(j)
    }
}

impl WireShape for PromptArgument {
    open spec fn shape_enc(&self) -> JsonV {
        self.enc()
    }

    open spec fn shape_wf(&self) -> bool {
        self.wf()
    }

    fn encode_shape(&self) -> (r: Json) {
        encode_prompt_argument(self)
    }

    fn decode_shape(j: &Json) -> (r: Result<PromptArgument, DecodeError>) {
        decode_prompt_argument(j)
    }
}

impl WireShape for PromptMessage {
    open spec fn shape_enc(&self) -> JsonV {
        self.enc()
    }

    open spec fn shape_wf(&self) -> bool {
        self.wf()
    }

    fn encode_shape(&self) -> (r: Json) {
        encode_prompt_message(self)
    }

    fn decode_shape(j: &Json) -> (r: Result<PromptMessage, DecodeError>) {
        decode_prompt_message(j)
    }
}

impl WireShape for Tool {
    open spec fn shape_enc(&self) -> JsonV {
        self.enc()
    }

    open spec fn shape_wf(&self) -> bool {
        self.wf()
    }

    fn encode_shape(&self) -> (r: Json) {
        encode_tool(self)
    }

    fn decode_shape(j: &Json) -> (r: Result<Tool, DecodeError>) {
        decode_tool(j)
    }
}

impl WireShape for CallToolContent {
    open spec fn shape_enc(&self) -> JsonV {
        self.enc()
    }

    open spec fn shape_wf(&self) -> bool {
        self.wf()
    }

    fn encode_shape(&self) -> (r: Json) {
        encode_call_tool_content(self)
    }

    fn decode_shape(j: &Json) -> (r: Result<CallToolContent, DecodeError>) {
        decode_call_tool_content(j)
    }
}

impl WireShape for Root {
    open spec fn shape_enc(&self) -> JsonV {
        self.enc()
    }

    open spec fn shape_wf(&self) -> bool {
        self.wf()
    }

    fn encode_shape(&self) -> (r: Json) {
        encode_root(self)
    }

    fn decode_shape(j: &Json) -> (r: Result<Root, DecodeError>) {
        decode_root(j)
    }
}

impl WireShape for SamplingMessage {
    open spec fn shape_enc(&self) -> JsonV {
        self.enc()
    }

    open spec fn shape_wf(&self) -> bool {
        self.wf()
    }

    fn encode_shape(&self) -> (r: Json) {
        encode_sampling_message(self)
    }

    fn decode_shape(j: &Json) -> (r: Result<SamplingMessage, DecodeError>) {
        decode_sampling_message(j)
    }
}

impl WireShape for ModelHint {
    open spec fn shape_enc(&self) -> JsonV {
        self.enc()
    }

    open spec fn shape_wf(&self) -> bool {
        self.wf()
    }

    fn encode_shape(&self) -> (r: Json) {
        encode_model_hint(self)
    }

    fn decode_shape(j: &Json) -> (r: Result<ModelHint, DecodeError>) {
        decode_model_hint(j)
    }
}

} // verus!
