//! Decoding JSON documents into envelopes and encoding envelopes back.
//!
//! Each shape has a canonical encoding, `enc`. Encoding produces exactly it;
//! decoding reads members by name in any order, keeps members that no field
//! names in the shape's extension map, and on a canonical encoding gives back
//! a value with the same encoding.
use vstd::prelude::*;
use crate::json::{Json, JsonMap, JsonV, Number, map_model};
use crate::record::{
    Fields, Pairs, build, field_keys, fields_model, find, fresh, get, key_model,
    lemma_record_get, lemma_record_rest, only, present, record, rest, separable,
};
use crate::schema::{
    INVALID_PARAMS, INVALID_REQUEST, InitializedNotificationParams, JSONRPCError,
    JSONRPCMessage, JSONRPCNotification, JSONRPCRequest, JSONRPCResponse, JSONRPCResult,
    ListPromptsRequestParams, ListResourceTemplatesRequestParams, ListResourcesRequestParams,
    ListToolsRequestParams, METHOD_NOT_FOUND, NotificationParams,
    PromptListChangedNotificationParams, RequestId, RequestParams,
    ResourceListChangedNotificationParams, Result as RpcResult, ResultBase, ResultEnum,
    RootsListChangedNotificationParams, ToolListChangedNotificationParams,
};

use crate::wire::{
    as_object, decode_request_id, enc_opt_obj, enc_str, encode_request_id, opt_model, opt_obj,
    opt_obj_v, opt_ref_model, req_str, str_v,
};
use crate::shapes::{
    decode_call_tool_request_params, decode_call_tool_result,
    decode_cancelled_notification_params, decode_complete_request_params,
    decode_complete_result, decode_create_message_request_params, decode_create_message_result,
    decode_error_params, decode_get_prompt_request_params, decode_get_prompt_result,
    decode_initialize_request_params, decode_initialize_result, decode_list_prompts_result,
    decode_list_resources_result, decode_list_resources_template_result,
    decode_list_root_result, decode_list_roots_request_params, decode_list_tools_result,
    decode_logging_message_notification_params, decode_notification_base_params,
    decode_paginated_request_params, decode_paginated_result, decode_ping_request_params,
    decode_progress_notification_params, decode_read_resource_request_params,
    decode_read_resource_result, decode_resource_updated_notification_params,
    decode_set_level_request_params, decode_subscribe_request_params,
    decode_unsubscribe_request_params, encode_call_tool_request_params, encode_call_tool_result,
    encode_cancelled_notification_params, encode_complete_request_params,
    encode_complete_result, encode_create_message_request_params, encode_create_message_result,
    encode_error_params, encode_get_prompt_request_params, encode_get_prompt_result,
    encode_initialize_request_params, encode_initialize_result, encode_list_prompts_result,
    encode_list_resources_result, encode_list_resources_template_result,
    encode_list_root_result, encode_list_roots_request_params, encode_list_tools_result,
    encode_logging_message_notification_params, encode_notification_base_params,
    encode_paginated_request_params, encode_paginated_result, encode_ping_request_params,
    encode_progress_notification_params, encode_read_resource_request_params,
    encode_read_resource_result, encode_resource_updated_notification_params,
    encode_set_level_request_params, encode_subscribe_request_params,
    encode_unsubscribe_request_params, notification_base_params_reserved,
};

verus! {

/// Why a document is not a supported message.
#[derive(Debug, PartialEq, Eq)]
pub enum DecodeError {
    /// The envelope is not a well-formed JSON-RPC message.
    InvalidEnvelope,
    /// The method names no known method.
    UnknownMethod(String),
    /// The parameters or result do not have the shape the method asks for.
    InvalidParams,
}

impl DecodeError {
    /// The JSON-RPC error code that reports this error.
    pub fn code(&self) -> (r: i64)
        ensures
            r == match *self {
                DecodeError::InvalidEnvelope => INVALID_REQUEST,
                DecodeError::UnknownMethod(_) => METHOD_NOT_FOUND,
                DecodeError::InvalidParams => INVALID_PARAMS,
            },
    {
        match self {
            DecodeError::InvalidEnvelope => INVALID_REQUEST,
            DecodeError::UnknownMethod(_) => METHOD_NOT_FOUND,
            DecodeError::InvalidParams => INVALID_PARAMS,
        }
    }
}

// ---- results ----

/// The fields that a result's method-specific part adds.
pub open spec fn defined_fields(d: ResultEnum) -> Fields {
    match d {
        ResultEnum::Empty(_) => Seq::empty(),
        ResultEnum::Initialize(x) => x.fields(),
        ResultEnum::ListResources(x) => x.fields(),
        ResultEnum::ListResourcesTemplate(x) => x.fields(),
        ResultEnum::ReadResource(x) => x.fields(),
        ResultEnum::ListPrompts(x) => x.fields(),
        ResultEnum::GetPrompt(x) => x.fields(),
        ResultEnum::ListTools(x) => x.fields(),
        ResultEnum::CreateMessage(x) => x.fields(),
        ResultEnum::CallTool(x) => x.fields(),
        ResultEnum::Complete(x) => x.fields(),
        ResultEnum::ListRoot(x) => x.fields(),
        ResultEnum::Paginated(x) => x.fields(),
    }
}

/// The member names that a result's fields take, in any shape.
pub open spec fn rpc_result_reserved() -> Seq<Seq<char>> {
    seq!["_meta"@, "protocolVersion"@, "capabilities"@, "serverInfo"@, "instructions"@, "nextCursor"@, "resources"@, "resourcesTemplates"@, "contents"@, "prompts"@, "description"@, "messages"@, "tools"@, "role"@, "content"@, "model"@, "stopReason"@, "isError"@, "values"@, "total"@, "hasMore"@, "roots"@]
}

impl RpcResult {
    pub open spec fn fields(self) -> Fields {
        seq![("_meta"@, opt_obj_v(self.base.meta))] + defined_fields(self.defined_fields)
    }

    pub open spec fn extra_model(self) -> Pairs {
        map_model(self.base.extra@)
    }

    pub open spec fn enc(self) -> JsonV {
        record(self.fields(), self.extra_model())
    }

    /// The shape of the result can be told apart on the wire: an empty result
    /// keeps its common members in the base alone, a bare paginated result
    /// has a cursor, and no extension member takes a field's name.
    pub open spec fn wf(self) -> bool {
        &&& match self.defined_fields {
            ResultEnum::Empty(e) => e.meta is None && e.extra@.len() == 0,
            ResultEnum::Paginated(p) => p.next_cursor is Some,
            ResultEnum::Initialize(x) => x.wf(),
            ResultEnum::ListResources(x) => x.wf(),
            ResultEnum::ListResourcesTemplate(x) => x.wf(),
            ResultEnum::ReadResource(x) => x.wf(),
            ResultEnum::ListPrompts(x) => x.wf(),
            ResultEnum::GetPrompt(x) => x.wf(),
            ResultEnum::ListTools(x) => x.wf(),
            ResultEnum::CreateMessage(x) => x.wf(),
            ResultEnum::CallTool(x) => x.wf(),
            ResultEnum::Complete(x) => x.wf(),
            ResultEnum::ListRoot(x) => x.wf(),
        }
        &&& fresh(self.extra_model(), rpc_result_reserved())
    }
}

pub(crate) proof fn lemma_result_keys()
    ensures
        rpc_result_reserved().no_duplicates(),
{
    reveal_strlit("_meta");
    reveal_strlit("protocolVersion");
    reveal_strlit("capabilities");
    reveal_strlit("serverInfo");
    reveal_strlit("instructions");
    reveal_strlit("nextCursor");
    reveal_strlit("resources");
    reveal_strlit("resourcesTemplates");
    reveal_strlit("contents");
    reveal_strlit("prompts");
    reveal_strlit("description");
    reveal_strlit("messages");
    reveal_strlit("tools");
    reveal_strlit("role");
    reveal_strlit("content");
    reveal_strlit("model");
    reveal_strlit("stopReason");
    reveal_strlit("isError");
    reveal_strlit("values");
    reveal_strlit("total");
    reveal_strlit("hasMore");
    reveal_strlit("roots");
    assert("_meta"@.len() == 5);
    assert("protocolVersion"@.len() == 15);
    assert("capabilities"@.len() == 12);
    assert("serverInfo"@.len() == 10);
    assert("instructions"@.len() == 12);
    assert("nextCursor"@.len() == 10);
    assert("resources"@.len() == 9);
    assert("resourcesTemplates"@.len() == 18);
    assert("contents"@.len() == 8);
    assert("prompts"@.len() == 7);
    assert("description"@.len() == 11);
    assert("messages"@.len() == 8);
    assert("tools"@.len() == 5);
    assert("role"@.len() == 4);
    assert("content"@.len() == 7);
    assert("model"@.len() == 5);
    assert("stopReason"@.len() == 10);
    assert("isError"@.len() == 7);
    assert("values"@.len() == 6);
    assert("total"@.len() == 5);
    assert("hasMore"@.len() == 7);
    assert("roots"@.len() == 5);
    assert("_meta"@[0] == '_' && "tools"@[0] == 't');
    assert("_meta"@[0] == '_' && "model"@[0] == 'm');
    assert("_meta"@[0] == '_' && "total"@[0] == 't');
    assert("_meta"@[0] == '_' && "roots"@[0] == 'r');
    assert("capabilities"@[0] == 'c' && "instructions"@[0] == 'i');
    assert("serverInfo"@[0] == 's' && "nextCursor"@[0] == 'n');
    assert("serverInfo"@[1] == 'e' && "stopReason"@[1] == 't');
    assert("nextCursor"@[0] == 'n' && "stopReason"@[0] == 's');
    assert("contents"@[0] == 'c' && "messages"@[0] == 'm');
    assert("prompts"@[0] == 'p' && "content"@[0] == 'c');
    assert("prompts"@[0] == 'p' && "isError"@[0] == 'i');
    assert("prompts"@[0] == 'p' && "hasMore"@[0] == 'h');
    assert("tools"@[0] == 't' && "model"@[0] == 'm');
    assert("tools"@[2] == 'o' && "total"@[2] == 't');
    assert("tools"@[0] == 't' && "roots"@[0] == 'r');
    assert("content"@[0] == 'c' && "isError"@[0] == 'i');
    assert("content"@[0] == 'c' && "hasMore"@[0] == 'h');
    assert("model"@[0] == 'm' && "total"@[0] == 't');
    assert("model"@[0] == 'm' && "roots"@[0] == 'r');
    assert("isError"@[0] == 'i' && "hasMore"@[0] == 'h');
    assert("total"@[0] == 't' && "roots"@[0] == 'r');
}

pub(crate) proof fn lemma_result_initialize(r: RpcResult)
    requires
        r.wf(),
        r.defined_fields is Initialize,
    ensures
        separable(r.fields(), r.extra_model(), rpc_result_reserved()),
        get(present(r.fields()) + r.extra_model(), "protocolVersion"@) is Some,
        only(present(r.fields()) + r.extra_model(), seq!["protocolVersion"@, "capabilities"@, "serverInfo"@, "instructions"@]) == present(r.defined_fields->Initialize_0.fields()),
{
    lemma_result_keys();
    let x = r.defined_fields->Initialize_0;
    let fs = r.fields();
    let res = rpc_result_reserved();
    assert(field_keys(x.fields()) =~= seq!["protocolVersion"@, "capabilities"@, "serverInfo"@, "instructions"@]);
    assert(field_keys(fs) =~= seq!["_meta"@, "protocolVersion"@, "capabilities"@, "serverInfo"@, "instructions"@]);
    assert(res[0] == fs[0].0);
    assert(res[1] == fs[1].0);
    assert(res[2] == fs[2].0);
    assert(res[3] == fs[3].0);
    assert(res[4] == fs[4].0);
    assert(separable(fs, r.extra_model(), res));
    lemma_record_get(fs, r.extra_model(), res, 1);
    let picked = seq!["protocolVersion"@, "capabilities"@, "serverInfo"@, "instructions"@];
    let pre = seq![("_meta"@, opt_obj_v(r.base.meta))];
    assert(fs =~= pre + x.fields());
    assert(forall|i: int| 0 <= i < pre.len() ==> !picked.contains(#[trigger] pre[i].0)) by {
        if picked.contains(pre[0].0) {
            let j = choose|j: int| 0 <= j < picked.len() && picked[j] == pre[0].0;
        }
    }
    assert forall|i: int| 0 <= i < x.fields().len() implies picked.contains(#[trigger] x.fields()[i].0) by {
        assert(picked[i] == x.fields()[i].0);
    }
    assert(crate::record::fresh(r.extra_model(), picked)) by {
        assert forall|i: int| 0 <= i < r.extra_model().len() implies !picked.contains(#[trigger] r.extra_model()[i].0) by {
            assert(!res.contains(r.extra_model()[i].0));
            if picked.contains(r.extra_model()[i].0) {
                let j = choose|j: int| 0 <= j < picked.len() && picked[j] == r.extra_model()[i].0;
                if j == 0 { assert(res[1] == picked[0]); }
                if j == 1 { assert(res[2] == picked[1]); }
                if j == 2 { assert(res[3] == picked[2]); }
                if j == 3 { assert(res[4] == picked[3]); }
            }
        }
    }
    crate::record::lemma_record_pick(pre, x.fields(), r.extra_model(), picked);
}

pub(crate) proof fn lemma_result_list_resources(r: RpcResult)
    requires
        r.wf(),
        r.defined_fields is ListResources,
    ensures
        separable(r.fields(), r.extra_model(), rpc_result_reserved()),
        get(present(r.fields()) + r.extra_model(), "protocolVersion"@) is None,
        get(present(r.fields()) + r.extra_model(), "resources"@) is Some,
        only(present(r.fields()) + r.extra_model(), seq!["nextCursor"@, "resources"@]) == present(r.defined_fields->ListResources_0.fields()),
{
    lemma_result_keys();
    let x = r.defined_fields->ListResources_0;
    let fs = r.fields();
    let res = rpc_result_reserved();
    assert(field_keys(x.fields()) =~= seq!["nextCursor"@, "resources"@]);
    assert(field_keys(fs) =~= seq!["_meta"@, "nextCursor"@, "resources"@]);
    assert(res[0] == fs[0].0);
    assert(res[5] == fs[1].0);
    assert(res[6] == fs[2].0);
    assert(separable(fs, r.extra_model(), res));
    assert(res[1] == "protocolVersion"@);
    crate::record::lemma_record_get_other(fs, r.extra_model(), res, "protocolVersion"@);
    lemma_record_get(fs, r.extra_model(), res, 2);
    let picked = seq!["nextCursor"@, "resources"@];
    let pre = seq![("_meta"@, opt_obj_v(r.base.meta))];
    assert(fs =~= pre + x.fields());
    assert(forall|i: int| 0 <= i < pre.len() ==> !picked.contains(#[trigger] pre[i].0)) by {
        if picked.contains(pre[0].0) {
            let j = choose|j: int| 0 <= j < picked.len() && picked[j] == pre[0].0;
        }
    }
    assert forall|i: int| 0 <= i < x.fields().len() implies picked.contains(#[trigger] x.fields()[i].0) by {
        assert(picked[i] == x.fields()[i].0);
    }
    assert(crate::record::fresh(r.extra_model(), picked)) by {
        assert forall|i: int| 0 <= i < r.extra_model().len() implies !picked.contains(#[trigger] r.extra_model()[i].0) by {
            assert(!res.contains(r.extra_model()[i].0));
            if picked.contains(r.extra_model()[i].0) {
                let j = choose|j: int| 0 <= j < picked.len() && picked[j] == r.extra_model()[i].0;
                if j == 0 { assert(res[5] == picked[0]); }
                if j == 1 { assert(res[6] == picked[1]); }
            }
        }
    }
    crate::record::lemma_record_pick(pre, x.fields(), r.extra_model(), picked);
}

pub(crate) proof fn lemma_result_list_resources_template(r: RpcResult)
    requires
        r.wf(),
        r.defined_fields is ListResourcesTemplate,
    ensures
        separable(r.fields(), r.extra_model(), rpc_result_reserved()),
        get(present(r.fields()) + r.extra_model(), "protocolVersion"@) is None,
        get(present(r.fields()) + r.extra_model(), "resources"@) is None,
        get(present(r.fields()) + r.extra_model(), "resourcesTemplates"@) is Some,
        only(present(r.fields()) + r.extra_model(), seq!["nextCursor"@, "resourcesTemplates"@]) == present(r.defined_fields->ListResourcesTemplate_0.fields()),
{
    lemma_result_keys();
    let x = r.defined_fields->ListResourcesTemplate_0;
    let fs = r.fields();
    let res = rpc_result_reserved();
    assert(field_keys(x.fields()) =~= seq!["nextCursor"@, "resourcesTemplates"@]);
    assert(field_keys(fs) =~= seq!["_meta"@, "nextCursor"@, "resourcesTemplates"@]);
    assert(res[0] == fs[0].0);
    assert(res[5] == fs[1].0);
    assert(res[7] == fs[2].0);
    assert(separable(fs, r.extra_model(), res));
    assert(res[1] == "protocolVersion"@);
    crate::record::lemma_record_get_other(fs, r.extra_model(), res, "protocolVersion"@);
    assert(res[6] == "resources"@);
    crate::record::lemma_record_get_other(fs, r.extra_model(), res, "resources"@);
    lemma_record_get(fs, r.extra_model(), res, 2);
    let picked = seq!["nextCursor"@, "resourcesTemplates"@];
    let pre = seq![("_meta"@, opt_obj_v(r.base.meta))];
    assert(fs =~= pre + x.fields());
    assert(forall|i: int| 0 <= i < pre.len() ==> !picked.contains(#[trigger] pre[i].0)) by {
        if picked.contains(pre[0].0) {
            let j = choose|j: int| 0 <= j < picked.len() && picked[j] == pre[0].0;
        }
    }
    assert forall|i: int| 0 <= i < x.fields().len() implies picked.contains(#[trigger] x.fields()[i].0) by {
        assert(picked[i] == x.fields()[i].0);
    }
    assert(crate::record::fresh(r.extra_model(), picked)) by {
        assert forall|i: int| 0 <= i < r.extra_model().len() implies !picked.contains(#[trigger] r.extra_model()[i].0) by {
            assert(!res.contains(r.extra_model()[i].0));
            if picked.contains(r.extra_model()[i].0) {
                let j = choose|j: int| 0 <= j < picked.len() && picked[j] == r.extra_model()[i].0;
                if j == 0 { assert(res[5] == picked[0]); }
                if j == 1 { assert(res[7] == picked[1]); }
            }
        }
    }
    crate::record::lemma_record_pick(pre, x.fields(), r.extra_model(), picked);
}

pub(crate) proof fn lemma_result_read_resource(r: RpcResult)
    requires
        r.wf(),
        r.defined_fields is ReadResource,
    ensures
        separable(r.fields(), r.extra_model(), rpc_result_reserved()),
        get(present(r.fields()) + r.extra_model(), "protocolVersion"@) is None,
        get(present(r.fields()) + r.extra_model(), "resources"@) is None,
        get(present(r.fields()) + r.extra_model(), "resourcesTemplates"@) is None,
        get(present(r.fields()) + r.extra_model(), "contents"@) is Some,
        only(present(r.fields()) + r.extra_model(), seq!["contents"@]) == present(r.defined_fields->ReadResource_0.fields()),
{
    lemma_result_keys();
    let x = r.defined_fields->ReadResource_0;
    let fs = r.fields();
    let res = rpc_result_reserved();
    assert(field_keys(x.fields()) =~= seq!["contents"@]);
    assert(field_keys(fs) =~= seq!["_meta"@, "contents"@]);
    assert(res[0] == fs[0].0);
    assert(res[8] == fs[1].0);
    assert(separable(fs, r.extra_model(), res));
    assert(res[1] == "protocolVersion"@);
    crate::record::lemma_record_get_other(fs, r.extra_model(), res, "protocolVersion"@);
    assert(res[6] == "resources"@);
    crate::record::lemma_record_get_other(fs, r.extra_model(), res, "resources"@);
    assert(res[7] == "resourcesTemplates"@);
    crate::record::lemma_record_get_other(fs, r.extra_model(), res, "resourcesTemplates"@);
    lemma_record_get(fs, r.extra_model(), res, 1);
    let picked = seq!["contents"@];
    let pre = seq![("_meta"@, opt_obj_v(r.base.meta))];
    assert(fs =~= pre + x.fields());
    assert(forall|i: int| 0 <= i < pre.len() ==> !picked.contains(#[trigger] pre[i].0)) by {
        if picked.contains(pre[0].0) {
            let j = choose|j: int| 0 <= j < picked.len() && picked[j] == pre[0].0;
        }
    }
    assert forall|i: int| 0 <= i < x.fields().len() implies picked.contains(#[trigger] x.fields()[i].0) by {
        assert(picked[i] == x.fields()[i].0);
    }
    assert(crate::record::fresh(r.extra_model(), picked)) by {
        assert forall|i: int| 0 <= i < r.extra_model().len() implies !picked.contains(#[trigger] r.extra_model()[i].0) by {
            assert(!res.contains(r.extra_model()[i].0));
            if picked.contains(r.extra_model()[i].0) {
                let j = choose|j: int| 0 <= j < picked.len() && picked[j] == r.extra_model()[i].0;
                if j == 0 { assert(res[8] == picked[0]); }
            }
        }
    }
    crate::record::lemma_record_pick(pre, x.fields(), r.extra_model(), picked);
}

pub(crate) proof fn lemma_result_list_prompts(r: RpcResult)
    requires
        r.wf(),
        r.defined_fields is ListPrompts,
    ensures
        separable(r.fields(), r.extra_model(), rpc_result_reserved()),
        get(present(r.fields()) + r.extra_model(), "protocolVersion"@) is None,
        get(present(r.fields()) + r.extra_model(), "resources"@) is None,
        get(present(r.fields()) + r.extra_model(), "resourcesTemplates"@) is None,
        get(present(r.fields()) + r.extra_model(), "contents"@) is None,
        get(present(r.fields()) + r.extra_model(), "prompts"@) is Some,
        only(present(r.fields()) + r.extra_model(), seq!["nextCursor"@, "prompts"@]) == present(r.defined_fields->ListPrompts_0.fields()),
{
    lemma_result_keys();
    let x = r.defined_fields->ListPrompts_0;
    let fs = r.fields();
    let res = rpc_result_reserved();
    assert(field_keys(x.fields()) =~= seq!["nextCursor"@, "prompts"@]);
    assert(field_keys(fs) =~= seq!["_meta"@, "nextCursor"@, "prompts"@]);
    assert(res[0] == fs[0].0);
    assert(res[5] == fs[1].0);
    assert(res[9] == fs[2].0);
    assert(separable(fs, r.extra_model(), res));
    assert(res[1] == "protocolVersion"@);
    crate::record::lemma_record_get_other(fs, r.extra_model(), res, "protocolVersion"@);
    assert(res[6] == "resources"@);
    crate::record::lemma_record_get_other(fs, r.extra_model(), res, "resources"@);
    assert(res[7] == "resourcesTemplates"@);
    crate::record::lemma_record_get_other(fs, r.extra_model(), res, "resourcesTemplates"@);
    assert(res[8] == "contents"@);
    crate::record::lemma_record_get_other(fs, r.extra_model(), res, "contents"@);
    lemma_record_get(fs, r.extra_model(), res, 2);
    let picked = seq!["nextCursor"@, "prompts"@];
    let pre = seq![("_meta"@, opt_obj_v(r.base.meta))];
    assert(fs =~= pre + x.fields());
    assert(forall|i: int| 0 <= i < pre.len() ==> !picked.contains(#[trigger] pre[i].0)) by {
        if picked.contains(pre[0].0) {
            let j = choose|j: int| 0 <= j < picked.len() && picked[j] == pre[0].0;
        }
    }
    assert forall|i: int| 0 <= i < x.fields().len() implies picked.contains(#[trigger] x.fields()[i].0) by {
        assert(picked[i] == x.fields()[i].0);
    }
    assert(crate::record::fresh(r.extra_model(), picked)) by {
        assert forall|i: int| 0 <= i < r.extra_model().len() implies !picked.contains(#[trigger] r.extra_model()[i].0) by {
            assert(!res.contains(r.extra_model()[i].0));
            if picked.contains(r.extra_model()[i].0) {
                let j = choose|j: int| 0 <= j < picked.len() && picked[j] == r.extra_model()[i].0;
                if j == 0 { assert(res[5] == picked[0]); }
                if j == 1 { assert(res[9] == picked[1]); }
            }
        }
    }
    crate::record::lemma_record_pick(pre, x.fields(), r.extra_model(), picked);
}

pub(crate) proof fn lemma_result_get_prompt(r: RpcResult)
    requires
        r.wf(),
        r.defined_fields is GetPrompt,
    ensures
        separable(r.fields(), r.extra_model(), rpc_result_reserved()),
        get(present(r.fields()) + r.extra_model(), "protocolVersion"@) is None,
        get(present(r.fields()) + r.extra_model(), "resources"@) is None,
        get(present(r.fields()) + r.extra_model(), "resourcesTemplates"@) is None,
        get(present(r.fields()) + r.extra_model(), "contents"@) is None,
        get(present(r.fields()) + r.extra_model(), "prompts"@) is None,
        get(present(r.fields()) + r.extra_model(), "messages"@) is Some,
        only(present(r.fields()) + r.extra_model(), seq!["description"@, "messages"@]) == present(r.defined_fields->GetPrompt_0.fields()),
{
    lemma_result_keys();
    let x = r.defined_fields->GetPrompt_0;
    let fs = r.fields();
    let res = rpc_result_reserved();
    assert(field_keys(x.fields()) =~= seq!["description"@, "messages"@]);
    assert(field_keys(fs) =~= seq!["_meta"@, "description"@, "messages"@]);
    assert(res[0] == fs[0].0);
    assert(res[10] == fs[1].0);
    assert(res[11] == fs[2].0);
    assert(separable(fs, r.extra_model(), res));
    assert(res[1] == "protocolVersion"@);
    crate::record::lemma_record_get_other(fs, r.extra_model(), res, "protocolVersion"@);
    assert(res[6] == "resources"@);
    crate::record::lemma_record_get_other(fs, r.extra_model(), res, "resources"@);
    assert(res[7] == "resourcesTemplates"@);
    crate::record::lemma_record_get_other(fs, r.extra_model(), res, "resourcesTemplates"@);
    assert(res[8] == "contents"@);
    crate::record::lemma_record_get_other(fs, r.extra_model(), res, "contents"@);
    assert(res[9] == "prompts"@);
    crate::record::lemma_record_get_other(fs, r.extra_model(), res, "prompts"@);
    lemma_record_get(fs, r.extra_model(), res, 2);
    let picked = seq!["description"@, "messages"@];
    let pre = seq![("_meta"@, opt_obj_v(r.base.meta))];
    assert(fs =~= pre + x.fields());
    assert(forall|i: int| 0 <= i < pre.len() ==> !picked.contains(#[trigger] pre[i].0)) by {
        if picked.contains(pre[0].0) {
            let j = choose|j: int| 0 <= j < picked.len() && picked[j] == pre[0].0;
        }
    }
    assert forall|i: int| 0 <= i < x.fields().len() implies picked.contains(#[trigger] x.fields()[i].0) by {
        assert(picked[i] == x.fields()[i].0);
    }
    assert(crate::record::fresh(r.extra_model(), picked)) by {
        assert forall|i: int| 0 <= i < r.extra_model().len() implies !picked.contains(#[trigger] r.extra_model()[i].0) by {
            assert(!res.contains(r.extra_model()[i].0));
            if picked.contains(r.extra_model()[i].0) {
                let j = choose|j: int| 0 <= j < picked.len() && picked[j] == r.extra_model()[i].0;
                if j == 0 { assert(res[10] == picked[0]); }
                if j == 1 { assert(res[11] == picked[1]); }
            }
        }
    }
    crate::record::lemma_record_pick(pre, x.fields(), r.extra_model(), picked);
}

pub(crate) proof fn lemma_result_list_tools(r: RpcResult)
    requires
        r.wf(),
        r.defined_fields is ListTools,
    ensures
        separable(r.fields(), r.extra_model(), rpc_result_reserved()),
        get(present(r.fields()) + r.extra_model(), "protocolVersion"@) is None,
        get(present(r.fields()) + r.extra_model(), "resources"@) is None,
        get(present(r.fields()) + r.extra_model(), "resourcesTemplates"@) is None,
        get(present(r.fields()) + r.extra_model(), "contents"@) is None,
        get(present(r.fields()) + r.extra_model(), "prompts"@) is None,
        get(present(r.fields()) + r.extra_model(), "messages"@) is None,
        get(present(r.fields()) + r.extra_model(), "tools"@) is Some,
        only(present(r.fields()) + r.extra_model(), seq!["nextCursor"@, "tools"@]) == present(r.defined_fields->ListTools_0.fields()),
{
    lemma_result_keys();
    let x = r.defined_fields->ListTools_0;
    let fs = r.fields();
    let res = rpc_result_reserved();
    assert(field_keys(x.fields()) =~= seq!["nextCursor"@, "tools"@]);
    assert(field_keys(fs) =~= seq!["_meta"@, "nextCursor"@, "tools"@]);
    assert(res[0] == fs[0].0);
    assert(res[5] == fs[1].0);
    assert(res[12] == fs[2].0);
    assert(separable(fs, r.extra_model(), res));
    assert(res[1] == "protocolVersion"@);
    crate::record::lemma_record_get_other(fs, r.extra_model(), res, "protocolVersion"@);
    assert(res[6] == "resources"@);
    crate::record::lemma_record_get_other(fs, r.extra_model(), res, "resources"@);
    assert(res[7] == "resourcesTemplates"@);
    crate::record::lemma_record_get_other(fs, r.extra_model(), res, "resourcesTemplates"@);
    assert(res[8] == "contents"@);
    crate::record::lemma_record_get_other(fs, r.extra_model(), res, "contents"@);
    assert(res[9] == "prompts"@);
    crate::record::lemma_record_get_other(fs, r.extra_model(), res, "prompts"@);
    assert(res[11] == "messages"@);
    crate::record::lemma_record_get_other(fs, r.extra_model(), res, "messages"@);
    lemma_record_get(fs, r.extra_model(), res, 2);
    let picked = seq!["nextCursor"@, "tools"@];
    let pre = seq![("_meta"@, opt_obj_v(r.base.meta))];
    assert(fs =~= pre + x.fields());
    assert(forall|i: int| 0 <= i < pre.len() ==> !picked.contains(#[trigger] pre[i].0)) by {
        if picked.contains(pre[0].0) {
            let j = choose|j: int| 0 <= j < picked.len() && picked[j] == pre[0].0;
        }
    }
    assert forall|i: int| 0 <= i < x.fields().len() implies picked.contains(#[trigger] x.fields()[i].0) by {
        assert(picked[i] == x.fields()[i].0);
    }
    assert(crate::record::fresh(r.extra_model(), picked)) by {
        assert forall|i: int| 0 <= i < r.extra_model().len() implies !picked.contains(#[trigger] r.extra_model()[i].0) by {
            assert(!res.contains(r.extra_model()[i].0));
            if picked.contains(r.extra_model()[i].0) {
                let j = choose|j: int| 0 <= j < picked.len() && picked[j] == r.extra_model()[i].0;
                if j == 0 { assert(res[5] == picked[0]); }
                if j == 1 { assert(res[12] == picked[1]); }
            }
        }
    }
    crate::record::lemma_record_pick(pre, x.fields(), r.extra_model(), picked);
}

pub(crate) proof fn lemma_result_create_message(r: RpcResult)
    requires
        r.wf(),
        r.defined_fields is CreateMessage,
    ensures
        separable(r.fields(), r.extra_model(), rpc_result_reserved()),
        get(present(r.fields()) + r.extra_model(), "protocolVersion"@) is None,
        get(present(r.fields()) + r.extra_model(), "resources"@) is None,
        get(present(r.fields()) + r.extra_model(), "resourcesTemplates"@) is None,
        get(present(r.fields()) + r.extra_model(), "contents"@) is None,
        get(present(r.fields()) + r.extra_model(), "prompts"@) is None,
        get(present(r.fields()) + r.extra_model(), "messages"@) is None,
        get(present(r.fields()) + r.extra_model(), "tools"@) is None,
        get(present(r.fields()) + r.extra_model(), "model"@) is Some,
        only(present(r.fields()) + r.extra_model(), seq!["role"@, "content"@, "model"@, "stopReason"@]) == present(r.defined_fields->CreateMessage_0.fields()),
{
    lemma_result_keys();
    let x = r.defined_fields->CreateMessage_0;
    let fs = r.fields();
    let res = rpc_result_reserved();
    assert(field_keys(x.fields()) =~= seq!["role"@, "content"@, "model"@, "stopReason"@]);
    assert(field_keys(fs) =~= seq!["_meta"@, "role"@, "content"@, "model"@, "stopReason"@]);
    assert(res[0] == fs[0].0);
    assert(res[13] == fs[1].0);
    assert(res[14] == fs[2].0);
    assert(res[15] == fs[3].0);
    assert(res[16] == fs[4].0);
    assert(separable(fs, r.extra_model(), res));
    assert(res[1] == "protocolVersion"@);
    crate::record::lemma_record_get_other(fs, r.extra_model(), res, "protocolVersion"@);
    assert(res[6] == "resources"@);
    crate::record::lemma_record_get_other(fs, r.extra_model(), res, "resources"@);
    assert(res[7] == "resourcesTemplates"@);
    crate::record::lemma_record_get_other(fs, r.extra_model(), res, "resourcesTemplates"@);
    assert(res[8] == "contents"@);
    crate::record::lemma_record_get_other(fs, r.extra_model(), res, "contents"@);
    assert(res[9] == "prompts"@);
    crate::record::lemma_record_get_other(fs, r.extra_model(), res, "prompts"@);
    assert(res[11] == "messages"@);
    crate::record::lemma_record_get_other(fs, r.extra_model(), res, "messages"@);
    assert(res[12] == "tools"@);
    crate::record::lemma_record_get_other(fs, r.extra_model(), res, "tools"@);
    lemma_record_get(fs, r.extra_model(), res, 3);
    let picked = seq!["role"@, "content"@, "model"@, "stopReason"@];
    let pre = seq![("_meta"@, opt_obj_v(r.base.meta))];
    assert(fs =~= pre + x.fields());
    assert(forall|i: int| 0 <= i < pre.len() ==> !picked.contains(#[trigger] pre[i].0)) by {
        if picked.contains(pre[0].0) {
            let j = choose|j: int| 0 <= j < picked.len() && picked[j] == pre[0].0;
        }
    }
    assert forall|i: int| 0 <= i < x.fields().len() implies picked.contains(#[trigger] x.fields()[i].0) by {
        assert(picked[i] == x.fields()[i].0);
    }
    assert(crate::record::fresh(r.extra_model(), picked)) by {
        assert forall|i: int| 0 <= i < r.extra_model().len() implies !picked.contains(#[trigger] r.extra_model()[i].0) by {
            assert(!res.contains(r.extra_model()[i].0));
            if picked.contains(r.extra_model()[i].0) {
                let j = choose|j: int| 0 <= j < picked.len() && picked[j] == r.extra_model()[i].0;
                if j == 0 { assert(res[13] == picked[0]); }
                if j == 1 { assert(res[14] == picked[1]); }
                if j == 2 { assert(res[15] == picked[2]); }
                if j == 3 { assert(res[16] == picked[3]); }
            }
        }
    }
    crate::record::lemma_record_pick(pre, x.fields(), r.extra_model(), picked);
}

pub(crate) proof fn lemma_result_call_tool(r: RpcResult)
    requires
        r.wf(),
        r.defined_fields is CallTool,
    ensures
        separable(r.fields(), r.extra_model(), rpc_result_reserved()),
        get(present(r.fields()) + r.extra_model(), "protocolVersion"@) is None,
        get(present(r.fields()) + r.extra_model(), "resources"@) is None,
        get(present(r.fields()) + r.extra_model(), "resourcesTemplates"@) is None,
        get(present(r.fields()) + r.extra_model(), "contents"@) is None,
        get(present(r.fields()) + r.extra_model(), "prompts"@) is None,
        get(present(r.fields()) + r.extra_model(), "messages"@) is None,
        get(present(r.fields()) + r.extra_model(), "tools"@) is None,
        get(present(r.fields()) + r.extra_model(), "model"@) is None,
        get(present(r.fields()) + r.extra_model(), "content"@) is Some,
        only(present(r.fields()) + r.extra_model(), seq!["content"@, "isError"@]) == present(r.defined_fields->CallTool_0.fields()),
{
    lemma_result_keys();
    let x = r.defined_fields->CallTool_0;
    let fs = r.fields();
    let res = rpc_result_reserved();
    assert(field_keys(x.fields()) =~= seq!["content"@, "isError"@]);
    assert(field_keys(fs) =~= seq!["_meta"@, "content"@, "isError"@]);
    assert(res[0] == fs[0].0);
    assert(res[14] == fs[1].0);
    assert(res[17] == fs[2].0);
    assert(separable(fs, r.extra_model(), res));
    assert(res[1] == "protocolVersion"@);
    crate::record::lemma_record_get_other(fs, r.extra_model(), res, "protocolVersion"@);
    assert(res[6] == "resources"@);
    crate::record::lemma_record_get_other(fs, r.extra_model(), res, "resources"@);
    assert(res[7] == "resourcesTemplates"@);
    crate::record::lemma_record_get_other(fs, r.extra_model(), res, "resourcesTemplates"@);
    assert(res[8] == "contents"@);
    crate::record::lemma_record_get_other(fs, r.extra_model(), res, "contents"@);
    assert(res[9] == "prompts"@);
    crate::record::lemma_record_get_other(fs, r.extra_model(), res, "prompts"@);
    assert(res[11] == "messages"@);
    crate::record::lemma_record_get_other(fs, r.extra_model(), res, "messages"@);
    assert(res[12] == "tools"@);
    crate::record::lemma_record_get_other(fs, r.extra_model(), res, "tools"@);
    assert(res[15] == "model"@);
    crate::record::lemma_record_get_other(fs, r.extra_model(), res, "model"@);
    lemma_record_get(fs, r.extra_model(), res, 1);
    let picked = seq!["content"@, "isError"@];
    let pre = seq![("_meta"@, opt_obj_v(r.base.meta))];
    assert(fs =~= pre + x.fields());
    assert(forall|i: int| 0 <= i < pre.len() ==> !picked.contains(#[trigger] pre[i].0)) by {
        if picked.contains(pre[0].0) {
            let j = choose|j: int| 0 <= j < picked.len() && picked[j] == pre[0].0;
        }
    }
    assert forall|i: int| 0 <= i < x.fields().len() implies picked.contains(#[trigger] x.fields()[i].0) by {
        assert(picked[i] == x.fields()[i].0);
    }
    assert(crate::record::fresh(r.extra_model(), picked)) by {
        assert forall|i: int| 0 <= i < r.extra_model().len() implies !picked.contains(#[trigger] r.extra_model()[i].0) by {
            assert(!res.contains(r.extra_model()[i].0));
            if picked.contains(r.extra_model()[i].0) {
                let j = choose|j: int| 0 <= j < picked.len() && picked[j] == r.extra_model()[i].0;
                if j == 0 { assert(res[14] == picked[0]); }
                if j == 1 { assert(res[17] == picked[1]); }
            }
        }
    }
    crate::record::lemma_record_pick(pre, x.fields(), r.extra_model(), picked);
}

pub(crate) proof fn lemma_result_complete(r: RpcResult)
    requires
        r.wf(),
        r.defined_fields is Complete,
    ensures
        separable(r.fields(), r.extra_model(), rpc_result_reserved()),
        get(present(r.fields()) + r.extra_model(), "protocolVersion"@) is None,
        get(present(r.fields()) + r.extra_model(), "resources"@) is None,
        get(present(r.fields()) + r.extra_model(), "resourcesTemplates"@) is None,
        get(present(r.fields()) + r.extra_model(), "contents"@) is None,
        get(present(r.fields()) + r.extra_model(), "prompts"@) is None,
        get(present(r.fields()) + r.extra_model(), "messages"@) is None,
        get(present(r.fields()) + r.extra_model(), "tools"@) is None,
        get(present(r.fields()) + r.extra_model(), "model"@) is None,
        get(present(r.fields()) + r.extra_model(), "content"@) is None,
        get(present(r.fields()) + r.extra_model(), "values"@) is Some,
        only(present(r.fields()) + r.extra_model(), seq!["values"@, "total"@, "hasMore"@]) == present(r.defined_fields->Complete_0.fields()),
{
    lemma_result_keys();
    let x = r.defined_fields->Complete_0;
    let fs = r.fields();
    let res = rpc_result_reserved();
    assert(field_keys(x.fields()) =~= seq!["values"@, "total"@, "hasMore"@]);
    assert(field_keys(fs) =~= seq!["_meta"@, "values"@, "total"@, "hasMore"@]);
    assert(res[0] == fs[0].0);
    assert(res[18] == fs[1].0);
    assert(res[19] == fs[2].0);
    assert(res[20] == fs[3].0);
    assert(separable(fs, r.extra_model(), res));
    assert(res[1] == "protocolVersion"@);
    crate::record::lemma_record_get_other(fs, r.extra_model(), res, "protocolVersion"@);
    assert(res[6] == "resources"@);
    crate::record::lemma_record_get_other(fs, r.extra_model(), res, "resources"@);
    assert(res[7] == "resourcesTemplates"@);
    crate::record::lemma_record_get_other(fs, r.extra_model(), res, "resourcesTemplates"@);
    assert(res[8] == "contents"@);
    crate::record::lemma_record_get_other(fs, r.extra_model(), res, "contents"@);
    assert(res[9] == "prompts"@);
    crate::record::lemma_record_get_other(fs, r.extra_model(), res, "prompts"@);
    assert(res[11] == "messages"@);
    crate::record::lemma_record_get_other(fs, r.extra_model(), res, "messages"@);
    assert(res[12] == "tools"@);
    crate::record::lemma_record_get_other(fs, r.extra_model(), res, "tools"@);
    assert(res[15] == "model"@);
    crate::record::lemma_record_get_other(fs, r.extra_model(), res, "model"@);
    assert(res[14] == "content"@);
    crate::record::lemma_record_get_other(fs, r.extra_model(), res, "content"@);
    lemma_record_get(fs, r.extra_model(), res, 1);
    let picked = seq!["values"@, "total"@, "hasMore"@];
    let pre = seq![("_meta"@, opt_obj_v(r.base.meta))];
    assert(fs =~= pre + x.fields());
    assert(forall|i: int| 0 <= i < pre.len() ==> !picked.contains(#[trigger] pre[i].0)) by {
        if picked.contains(pre[0].0) {
            let j = choose|j: int| 0 <= j < picked.len() && picked[j] == pre[0].0;
        }
    }
    assert forall|i: int| 0 <= i < x.fields().len() implies picked.contains(#[trigger] x.fields()[i].0) by {
        assert(picked[i] == x.fields()[i].0);
    }
    assert(crate::record::fresh(r.extra_model(), picked)) by {
        assert forall|i: int| 0 <= i < r.extra_model().len() implies !picked.contains(#[trigger] r.extra_model()[i].0) by {
            assert(!res.contains(r.extra_model()[i].0));
            if picked.contains(r.extra_model()[i].0) {
                let j = choose|j: int| 0 <= j < picked.len() && picked[j] == r.extra_model()[i].0;
                if j == 0 { assert(res[18] == picked[0]); }
                if j == 1 { assert(res[19] == picked[1]); }
                if j == 2 { assert(res[20] == picked[2]); }
            }
        }
    }
    crate::record::lemma_record_pick(pre, x.fields(), r.extra_model(), picked);
}

pub(crate) proof fn lemma_result_list_root(r: RpcResult)
    requires
        r.wf(),
        r.defined_fields is ListRoot,
    ensures
        separable(r.fields(), r.extra_model(), rpc_result_reserved()),
        get(present(r.fields()) + r.extra_model(), "protocolVersion"@) is None,
        get(present(r.fields()) + r.extra_model(), "resources"@) is None,
        get(present(r.fields()) + r.extra_model(), "resourcesTemplates"@) is None,
        get(present(r.fields()) + r.extra_model(), "contents"@) is None,
        get(present(r.fields()) + r.extra_model(), "prompts"@) is None,
        get(present(r.fields()) + r.extra_model(), "messages"@) is None,
        get(present(r.fields()) + r.extra_model(), "tools"@) is None,
        get(present(r.fields()) + r.extra_model(), "model"@) is None,
        get(present(r.fields()) + r.extra_model(), "content"@) is None,
        get(present(r.fields()) + r.extra_model(), "values"@) is None,
        get(present(r.fields()) + r.extra_model(), "roots"@) is Some,
        only(present(r.fields()) + r.extra_model(), seq!["roots"@]) == present(r.defined_fields->ListRoot_0.fields()),
{
    lemma_result_keys();
    let x = r.defined_fields->ListRoot_0;
    let fs = r.fields();
    let res = rpc_result_reserved();
    assert(field_keys(x.fields()) =~= seq!["roots"@]);
    assert(field_keys(fs) =~= seq!["_meta"@, "roots"@]);
    assert(res[0] == fs[0].0);
    assert(res[21] == fs[1].0);
    assert(separable(fs, r.extra_model(), res));
    assert(res[1] == "protocolVersion"@);
    crate::record::lemma_record_get_other(fs, r.extra_model(), res, "protocolVersion"@);
    assert(res[6] == "resources"@);
    crate::record::lemma_record_get_other(fs, r.extra_model(), res, "resources"@);
    assert(res[7] == "resourcesTemplates"@);
    crate::record::lemma_record_get_other(fs, r.extra_model(), res, "resourcesTemplates"@);
    assert(res[8] == "contents"@);
    crate::record::lemma_record_get_other(fs, r.extra_model(), res, "contents"@);
    assert(res[9] == "prompts"@);
    crate::record::lemma_record_get_other(fs, r.extra_model(), res, "prompts"@);
    assert(res[11] == "messages"@);
    crate::record::lemma_record_get_other(fs, r.extra_model(), res, "messages"@);
    assert(res[12] == "tools"@);
    crate::record::lemma_record_get_other(fs, r.extra_model(), res, "tools"@);
    assert(res[15] == "model"@);
    crate::record::lemma_record_get_other(fs, r.extra_model(), res, "model"@);
    assert(res[14] == "content"@);
    crate::record::lemma_record_get_other(fs, r.extra_model(), res, "content"@);
    assert(res[18] == "values"@);
    crate::record::lemma_record_get_other(fs, r.extra_model(), res, "values"@);
    lemma_record_get(fs, r.extra_model(), res, 1);
    let picked = seq!["roots"@];
    let pre = seq![("_meta"@, opt_obj_v(r.base.meta))];
    assert(fs =~= pre + x.fields());
    assert(forall|i: int| 0 <= i < pre.len() ==> !picked.contains(#[trigger] pre[i].0)) by {
        if picked.contains(pre[0].0) {
            let j = choose|j: int| 0 <= j < picked.len() && picked[j] == pre[0].0;
        }
    }
    assert forall|i: int| 0 <= i < x.fields().len() implies picked.contains(#[trigger] x.fields()[i].0) by {
        assert(picked[i] == x.fields()[i].0);
    }
    assert(crate::record::fresh(r.extra_model(), picked)) by {
        assert forall|i: int| 0 <= i < r.extra_model().len() implies !picked.contains(#[trigger] r.extra_model()[i].0) by {
            assert(!res.contains(r.extra_model()[i].0));
            if picked.contains(r.extra_model()[i].0) {
                let j = choose|j: int| 0 <= j < picked.len() && picked[j] == r.extra_model()[i].0;
                if j == 0 { assert(res[21] == picked[0]); }
            }
        }
    }
    crate::record::lemma_record_pick(pre, x.fields(), r.extra_model(), picked);
}

pub(crate) proof fn lemma_result_paginated(r: RpcResult)
    requires
        r.wf(),
        r.defined_fields is Paginated,
    ensures
        separable(r.fields(), r.extra_model(), rpc_result_reserved()),
        get(present(r.fields()) + r.extra_model(), "protocolVersion"@) is None,
        get(present(r.fields()) + r.extra_model(), "resources"@) is None,
        get(present(r.fields()) + r.extra_model(), "resourcesTemplates"@) is None,
        get(present(r.fields()) + r.extra_model(), "contents"@) is None,
        get(present(r.fields()) + r.extra_model(), "prompts"@) is None,
        get(present(r.fields()) + r.extra_model(), "messages"@) is None,
        get(present(r.fields()) + r.extra_model(), "tools"@) is None,
        get(present(r.fields()) + r.extra_model(), "model"@) is None,
        get(present(r.fields()) + r.extra_model(), "content"@) is None,
        get(present(r.fields()) + r.extra_model(), "values"@) is None,
        get(present(r.fields()) + r.extra_model(), "roots"@) is None,
        get(present(r.fields()) + r.extra_model(), "nextCursor"@) is Some,
        only(present(r.fields()) + r.extra_model(), seq!["nextCursor"@]) == present(r.defined_fields->Paginated_0.fields()),
{
    lemma_result_keys();
    let x = r.defined_fields->Paginated_0;
    let fs = r.fields();
    let res = rpc_result_reserved();
    assert(field_keys(x.fields()) =~= seq!["nextCursor"@]);
    assert(field_keys(fs) =~= seq!["_meta"@, "nextCursor"@]);
    assert(res[0] == fs[0].0);
    assert(res[5] == fs[1].0);
    assert(separable(fs, r.extra_model(), res));
    assert(res[1] == "protocolVersion"@);
    crate::record::lemma_record_get_other(fs, r.extra_model(), res, "protocolVersion"@);
    assert(res[6] == "resources"@);
    crate::record::lemma_record_get_other(fs, r.extra_model(), res, "resources"@);
    assert(res[7] == "resourcesTemplates"@);
    crate::record::lemma_record_get_other(fs, r.extra_model(), res, "resourcesTemplates"@);
    assert(res[8] == "contents"@);
    crate::record::lemma_record_get_other(fs, r.extra_model(), res, "contents"@);
    assert(res[9] == "prompts"@);
    crate::record::lemma_record_get_other(fs, r.extra_model(), res, "prompts"@);
    assert(res[11] == "messages"@);
    crate::record::lemma_record_get_other(fs, r.extra_model(), res, "messages"@);
    assert(res[12] == "tools"@);
    crate::record::lemma_record_get_other(fs, r.extra_model(), res, "tools"@);
    assert(res[15] == "model"@);
    crate::record::lemma_record_get_other(fs, r.extra_model(), res, "model"@);
    assert(res[14] == "content"@);
    crate::record::lemma_record_get_other(fs, r.extra_model(), res, "content"@);
    assert(res[18] == "values"@);
    crate::record::lemma_record_get_other(fs, r.extra_model(), res, "values"@);
    assert(res[21] == "roots"@);
    crate::record::lemma_record_get_other(fs, r.extra_model(), res, "roots"@);
    lemma_record_get(fs, r.extra_model(), res, 1);
    let picked = seq!["nextCursor"@];
    let pre = seq![("_meta"@, opt_obj_v(r.base.meta))];
    assert(fs =~= pre + x.fields());
    assert(forall|i: int| 0 <= i < pre.len() ==> !picked.contains(#[trigger] pre[i].0)) by {
        if picked.contains(pre[0].0) {
            let j = choose|j: int| 0 <= j < picked.len() && picked[j] == pre[0].0;
        }
    }
    assert forall|i: int| 0 <= i < x.fields().len() implies picked.contains(#[trigger] x.fields()[i].0) by {
        assert(picked[i] == x.fields()[i].0);
    }
    assert(crate::record::fresh(r.extra_model(), picked)) by {
        assert forall|i: int| 0 <= i < r.extra_model().len() implies !picked.contains(#[trigger] r.extra_model()[i].0) by {
            assert(!res.contains(r.extra_model()[i].0));
            if picked.contains(r.extra_model()[i].0) {
                let j = choose|j: int| 0 <= j < picked.len() && picked[j] == r.extra_model()[i].0;
                if j == 0 { assert(res[5] == picked[0]); }
            }
        }
    }
    crate::record::lemma_record_pick(pre, x.fields(), r.extra_model(), picked);
}

pub(crate) proof fn lemma_result_empty(r: RpcResult)
    requires
        r.wf(),
        r.defined_fields is Empty,
    ensures
        separable(r.fields(), r.extra_model(), rpc_result_reserved()),
        get(present(r.fields()) + r.extra_model(), "protocolVersion"@) is None,
        get(present(r.fields()) + r.extra_model(), "resources"@) is None,
        get(present(r.fields()) + r.extra_model(), "resourcesTemplates"@) is None,
        get(present(r.fields()) + r.extra_model(), "contents"@) is None,
        get(present(r.fields()) + r.extra_model(), "prompts"@) is None,
        get(present(r.fields()) + r.extra_model(), "messages"@) is None,
        get(present(r.fields()) + r.extra_model(), "tools"@) is None,
        get(present(r.fields()) + r.extra_model(), "model"@) is None,
        get(present(r.fields()) + r.extra_model(), "content"@) is None,
        get(present(r.fields()) + r.extra_model(), "values"@) is None,
        get(present(r.fields()) + r.extra_model(), "roots"@) is None,
        get(present(r.fields()) + r.extra_model(), "nextCursor"@) is None,
{
    lemma_result_keys();
    let fs = r.fields();
    let res = rpc_result_reserved();
    assert(fs =~= seq![("_meta"@, opt_obj_v(r.base.meta))]);
    assert(field_keys(fs) =~= seq!["_meta"@]);
    assert(res[0] == fs[0].0);
    assert(separable(fs, r.extra_model(), res));
    assert(res[1] == "protocolVersion"@);
    crate::record::lemma_record_get_other(fs, r.extra_model(), res, "protocolVersion"@);
    assert(res[6] == "resources"@);
    crate::record::lemma_record_get_other(fs, r.extra_model(), res, "resources"@);
    assert(res[7] == "resourcesTemplates"@);
    crate::record::lemma_record_get_other(fs, r.extra_model(), res, "resourcesTemplates"@);
    assert(res[8] == "contents"@);
    crate::record::lemma_record_get_other(fs, r.extra_model(), res, "contents"@);
    assert(res[9] == "prompts"@);
    crate::record::lemma_record_get_other(fs, r.extra_model(), res, "prompts"@);
    assert(res[11] == "messages"@);
    crate::record::lemma_record_get_other(fs, r.extra_model(), res, "messages"@);
    assert(res[12] == "tools"@);
    crate::record::lemma_record_get_other(fs, r.extra_model(), res, "tools"@);
    assert(res[15] == "model"@);
    crate::record::lemma_record_get_other(fs, r.extra_model(), res, "model"@);
    assert(res[14] == "content"@);
    crate::record::lemma_record_get_other(fs, r.extra_model(), res, "content"@);
    assert(res[18] == "values"@);
    crate::record::lemma_record_get_other(fs, r.extra_model(), res, "values"@);
    assert(res[21] == "roots"@);
    crate::record::lemma_record_get_other(fs, r.extra_model(), res, "roots"@);
    assert(res[5] == "nextCursor"@);
    crate::record::lemma_record_get_other(fs, r.extra_model(), res, "nextCursor"@);
}

pub(crate) proof fn lemma_result_layout(r: RpcResult)
    ensures
        r.enc() == JsonV::Object(present(seq![("_meta"@, opt_obj_v(r.base.meta))]) + present(defined_fields(r.defined_fields)) + r.extra_model()),
{
    crate::record::lemma_present_concat(seq![("_meta"@, opt_obj_v(r.base.meta))], defined_fields(r.defined_fields));
}

/// A result object: the common `_meta` member, the members of `inner`, then
/// the extension members.
pub(crate) fn result_object(meta: &Option<JsonMap>, inner: Json, extra: &JsonMap) -> (r: Json)
    ensures
        inner.model() is Object ==> r.model() == JsonV::Object(present(seq![("_meta"@, opt_obj_v(*meta))]) + inner.model()->Object_0 + map_model(extra@)),
{
    let ghost whole = inner;
    let members = match inner {
        Json::Object(m) => {
            proof { crate::json::lemma_object_model(m); }
            m
        },
        _ => Vec::new(),
    };
    let head = vec![("_meta", enc_opt_obj(meta))];
    let h = build(head, Vec::new());
    let mut out = match h {
        Json::Object(m) => m,
        _ => Vec::new(),
    };
    proof {
        assert(fields_model(head@) =~= seq![("_meta"@, opt_obj_v(*meta))]);
        lemma_record_members_of(h);
    }
    let ghost start = out@;
    let mut members = members;
    let ghost m0 = members@;
    let ghost mut k: int = 0;
    assert(start + m0.subrange(0, 0) =~= start);
    while members.len() > 0
        invariant
            0 <= k <= m0.len(),
            members@ == m0.subrange(k, m0.len() as int),
            out@ == start + m0.subrange(0, k),
        decreases members@.len(),
    {
        let e = members.remove(0);
        out.push(e);
        proof {
            assert(m0.subrange(0, k + 1) =~= m0.subrange(0, k).push(e));
            k = k + 1;
            assert(members@ =~= m0.subrange(k, m0.len() as int));
        }
    }
    assert(m0.subrange(0, k) =~= m0);
    let ghost mid = out@;
    let extra_copy = crate::json::clone_map(extra);
    let mut rest_members = extra_copy;
    let ghost e0 = rest_members@;
    let ghost mut q: int = 0;
    assert(mid + e0.subrange(0, 0) =~= mid);
    while rest_members.len() > 0
        invariant
            0 <= q <= e0.len(),
            rest_members@ == e0.subrange(q, e0.len() as int),
            out@ == mid + e0.subrange(0, q),
        decreases rest_members@.len(),
    {
        let e = rest_members.remove(0);
        out.push(e);
        proof {
            assert(e0.subrange(0, q + 1) =~= e0.subrange(0, q).push(e));
            q = q + 1;
            assert(rest_members@ =~= e0.subrange(q, e0.len() as int));
        }
    }
    proof {
        assert(e0.subrange(0, q) =~= e0);
        assert(map_model(out@) =~= map_model(start) + map_model(m0) + map_model(e0));
        crate::json::lemma_object_model(out);
    }
    Json::Object(out)
}

/// The members of an object built from a record.
pub(crate) proof fn lemma_record_members_of(h: Json)
    ensures
        h.model() is Object ==> h is Object && map_model(h->Object_0@) == h.model()->Object_0,
{
    match h {
        Json::Object(m) => { crate::json::lemma_object_model(m); },
        _ => {},
    }
}

pub fn encode_rpc_result(x: &RpcResult) -> (r: Json)
    ensures
        r.model() == x.enc(),
{
    let inner = match &x.defined_fields {
        ResultEnum::Empty(_) => {
            let none: JsonMap = Vec::new();
            proof { crate::json::lemma_object_model(none); }
            Json::Object(none)
        },
        ResultEnum::Initialize(y) => encode_initialize_result(y),
        ResultEnum::ListResources(y) => encode_list_resources_result(y),
        ResultEnum::ListResourcesTemplate(y) => encode_list_resources_template_result(y),
        ResultEnum::ReadResource(y) => encode_read_resource_result(y),
        ResultEnum::ListPrompts(y) => encode_list_prompts_result(y),
        ResultEnum::GetPrompt(y) => encode_get_prompt_result(y),
        ResultEnum::ListTools(y) => encode_list_tools_result(y),
        ResultEnum::CreateMessage(y) => encode_create_message_result(y),
        ResultEnum::CallTool(y) => encode_call_tool_result(y),
        ResultEnum::Complete(y) => encode_complete_result(y),
        ResultEnum::ListRoot(y) => encode_list_root_result(y),
        ResultEnum::Paginated(y) => encode_paginated_result(y),
    };
    proof {
        lemma_result_layout(*x);
        match x.defined_fields {
            ResultEnum::Empty(_) => {
                assert(present(defined_fields(x.defined_fields)) =~= Seq::<(Seq<char>, JsonV)>::empty());
                assert(map_model(Seq::<(String, Json)>::empty()) =~= Seq::<(Seq<char>, JsonV)>::empty());
            },
            _ => {},
        }
    }
    result_object(&x.base.meta, inner, &x.base.extra)
}

/// Reads a result. Its method-specific part is told by the first of these
/// members that it has: `protocolVersion`, `resources`, `resourcesTemplates`,
/// `contents`, `prompts`, `messages`, `tools`, `model`, `content`, `values`,
/// `roots`, `nextCursor`; with none of them the result is empty. Members that
/// no field names are kept.
pub fn decode_rpc_result(j: &Json) -> (r: Result<RpcResult, DecodeError>)
    ensures
        !(j.model() is Object) ==> r == Err::<RpcResult, DecodeError>(DecodeError::InvalidParams),
        (exists|t: RpcResult| t.wf() && t.enc() == j.model()) ==> (r matches Ok(t) && t.wf() && t.enc() == j.model()),
{
    let ghost canon = exists|t: RpcResult| t.wf() && t.enc() == j.model();
    let ghost t = choose|t: RpcResult| t.wf() && t.enc() == j.model();
    let o = as_object(j)?;
    proof {
        if canon {
            lemma_result_layout(t);
            match t.defined_fields {
                ResultEnum::Empty(_) => lemma_result_empty(t),
                ResultEnum::Initialize(_) => lemma_result_initialize(t),
                ResultEnum::ListResources(_) => lemma_result_list_resources(t),
                ResultEnum::ListResourcesTemplate(_) => lemma_result_list_resources_template(t),
                ResultEnum::ReadResource(_) => lemma_result_read_resource(t),
                ResultEnum::ListPrompts(_) => lemma_result_list_prompts(t),
                ResultEnum::GetPrompt(_) => lemma_result_get_prompt(t),
                ResultEnum::ListTools(_) => lemma_result_list_tools(t),
                ResultEnum::CreateMessage(_) => lemma_result_create_message(t),
                ResultEnum::CallTool(_) => lemma_result_call_tool(t),
                ResultEnum::Complete(_) => lemma_result_complete(t),
                ResultEnum::ListRoot(_) => lemma_result_list_root(t),
                ResultEnum::Paginated(_) => lemma_result_paginated(t),
            }
            let res = rpc_result_reserved();
            lemma_record_get(t.fields(), t.extra_model(), res, 0);
            lemma_record_rest(t.fields(), t.extra_model(), res);
        }
    }
    let meta = opt_obj(o, "_meta")?;
    let defined = if find(o, "protocolVersion").is_some() {
        let keys = vec!["protocolVersion", "capabilities", "serverInfo", "instructions"];
        let members = crate::record::pick(o, &keys);
        proof {
            assert(key_model(keys@) =~= seq!["protocolVersion"@, "capabilities"@, "serverInfo"@, "instructions"@]);
            crate::json::lemma_object_model(members);
            if canon { if let ResultEnum::Initialize(y) = t.defined_fields { assert(y.wf() && y.enc() == JsonV::Object(map_model(members@))); } }
        }
        ResultEnum::Initialize(decode_initialize_result(&Json::Object(members))?)
    } else if find(o, "resources").is_some() {
        let keys = vec!["nextCursor", "resources"];
        let members = crate::record::pick(o, &keys);
        proof {
            assert(key_model(keys@) =~= seq!["nextCursor"@, "resources"@]);
            crate::json::lemma_object_model(members);
            if canon { if let ResultEnum::ListResources(y) = t.defined_fields { assert(y.wf() && y.enc() == JsonV::Object(map_model(members@))); } }
        }
        ResultEnum::ListResources(decode_list_resources_result(&Json::Object(members))?)
    } else if find(o, "resourcesTemplates").is_some() {
        let keys = vec!["nextCursor", "resourcesTemplates"];
        let members = crate::record::pick(o, &keys);
        proof {
            assert(key_model(keys@) =~= seq!["nextCursor"@, "resourcesTemplates"@]);
            crate::json::lemma_object_model(members);
            if canon { if let ResultEnum::ListResourcesTemplate(y) = t.defined_fields { assert(y.wf() && y.enc() == JsonV::Object(map_model(members@))); } }
        }
        ResultEnum::ListResourcesTemplate(decode_list_resources_template_result(&Json::Object(members))?)
    } else if find(o, "contents").is_some() {
        let keys = vec!["contents"];
        let members = crate::record::pick(o, &keys);
        proof {
            assert(key_model(keys@) =~= seq!["contents"@]);
            crate::json::lemma_object_model(members);
            if canon { if let ResultEnum::ReadResource(y) = t.defined_fields { assert(y.wf() && y.enc() == JsonV::Object(map_model(members@))); } }
        }
        ResultEnum::ReadResource(decode_read_resource_result(&Json::Object(members))?)
    } else if find(o, "prompts").is_some() {
        let keys = vec!["nextCursor", "prompts"];
        let members = crate::record::pick(o, &keys);
        proof {
            assert(key_model(keys@) =~= seq!["nextCursor"@, "prompts"@]);
            crate::json::lemma_object_model(members);
            if canon { if let ResultEnum::ListPrompts(y) = t.defined_fields { assert(y.wf() && y.enc() == JsonV::Object(map_model(members@))); } }
        }
        ResultEnum::ListPrompts(decode_list_prompts_result(&Json::Object(members))?)
    } else if find(o, "messages").is_some() {
        let keys = vec!["description", "messages"];
        let members = crate::record::pick(o, &keys);
        proof {
            assert(key_model(keys@) =~= seq!["description"@, "messages"@]);
            crate::json::lemma_object_model(members);
            if canon { if let ResultEnum::GetPrompt(y) = t.defined_fields { assert(y.wf() && y.enc() == JsonV::Object(map_model(members@))); } }
        }
        ResultEnum::GetPrompt(decode_get_prompt_result(&Json::Object(members))?)
    } else if find(o, "tools").is_some() {
        let keys = vec!["nextCursor", "tools"];
        let members = crate::record::pick(o, &keys);
        proof {
            assert(key_model(keys@) =~= seq!["nextCursor"@, "tools"@]);
            crate::json::lemma_object_model(members);
            if canon { if let ResultEnum::ListTools(y) = t.defined_fields { assert(y.wf() && y.enc() == JsonV::Object(map_model(members@))); } }
        }
        ResultEnum::ListTools(decode_list_tools_result(&Json::Object(members))?)
    } else if find(o, "model").is_some() {
        let keys = vec!["role", "content", "model", "stopReason"];
        let members = crate::record::pick(o, &keys);
        proof {
            assert(key_model(keys@) =~= seq!["role"@, "content"@, "model"@, "stopReason"@]);
            crate::json::lemma_object_model(members);
            if canon { if let ResultEnum::CreateMessage(y) = t.defined_fields { assert(y.wf() && y.enc() == JsonV::Object(map_model(members@))); } }
        }
        ResultEnum::CreateMessage(decode_create_message_result(&Json::Object(members))?)
    } else if find(o, "content").is_some() {
        let keys = vec!["content", "isError"];
        let members = crate::record::pick(o, &keys);
        proof {
            assert(key_model(keys@) =~= seq!["content"@, "isError"@]);
            crate::json::lemma_object_model(members);
            if canon { if let ResultEnum::CallTool(y) = t.defined_fields { assert(y.wf() && y.enc() == JsonV::Object(map_model(members@))); } }
        }
        ResultEnum::CallTool(decode_call_tool_result(&Json::Object(members))?)
    } else if find(o, "values").is_some() {
        let keys = vec!["values", "total", "hasMore"];
        let members = crate::record::pick(o, &keys);
        proof {
            assert(key_model(keys@) =~= seq!["values"@, "total"@, "hasMore"@]);
            crate::json::lemma_object_model(members);
            if canon { if let ResultEnum::Complete(y) = t.defined_fields { assert(y.wf() && y.enc() == JsonV::Object(map_model(members@))); } }
        }
        ResultEnum::Complete(decode_complete_result(&Json::Object(members))?)
    } else if find(o, "roots").is_some() {
        let keys = vec!["roots"];
        let members = crate::record::pick(o, &keys);
        proof {
            assert(key_model(keys@) =~= seq!["roots"@]);
            crate::json::lemma_object_model(members);
            if canon { if let ResultEnum::ListRoot(y) = t.defined_fields { assert(y.wf() && y.enc() == JsonV::Object(map_model(members@))); } }
        }
        ResultEnum::ListRoot(decode_list_root_result(&Json::Object(members))?)
    } else if find(o, "nextCursor").is_some() {
        let keys = vec!["nextCursor"];
        let members = crate::record::pick(o, &keys);
        proof {
            assert(key_model(keys@) =~= seq!["nextCursor"@]);
            crate::json::lemma_object_model(members);
            if canon { if let ResultEnum::Paginated(y) = t.defined_fields { assert(y.wf() && y.enc() == JsonV::Object(map_model(members@))); } }
        }
        let p = decode_paginated_result(&Json::Object(members))?;
        proof {
            if canon {
                if let ResultEnum::Paginated(q) = t.defined_fields {
                    reveal_with_fuel(present, 2);
                    assert(q.fields().drop_first() =~= Seq::<(Seq<char>, Option<JsonV>)>::empty());
                    assert(p.fields().drop_first() =~= Seq::<(Seq<char>, Option<JsonV>)>::empty());
                    assert(present(q.fields()).len() == 1);
                    assert(present(q.fields()) + Seq::<(Seq<char>, JsonV)>::empty() =~= present(q.fields()));
                    assert(present(p.fields()) + Seq::<(Seq<char>, JsonV)>::empty() =~= present(p.fields()));
                    assert(p.next_cursor is Some);
                }
            }
        }
        ResultEnum::Paginated(p)
    } else {
        ResultEnum::Empty(ResultBase { meta: None, extra: Vec::new() })
    };
    let reserved = vec!["_meta", "protocolVersion", "capabilities", "serverInfo", "instructions", "nextCursor", "resources", "resourcesTemplates", "contents", "prompts", "description", "messages", "tools", "role", "content", "model", "stopReason", "isError", "values", "total", "hasMore", "roots"];
    let extra = rest(o, &reserved);
    proof {
        assert(key_model(reserved@) =~= rpc_result_reserved());
    }
    let r = RpcResult { base: ResultBase { meta, extra }, defined_fields: defined };
    proof {
        if canon {
            lemma_result_layout(r);
            match r.defined_fields {
                ResultEnum::Empty(_) => {
                    assert(defined_fields(r.defined_fields) =~= defined_fields(t.defined_fields));
                },
                _ => {},
            }
        }
    }
    Ok(r)
}


impl JSONRPCResult {
    /// The fields of the canonical encoding, in order.
    pub open spec fn fields(self) -> Fields {
        seq![("jsonrpc"@, Some(str_v(self.json_rpc))), ("id"@, Some(self.id.enc())), ("result"@, Some(self.result.enc()))]
    }

    /// The canonical encoding.
    pub open spec fn enc(self) -> JsonV {
        record(self.fields(), Seq::empty())
    }

    /// The value can be told apart from its neighbours on the wire.
    pub open spec fn wf(self) -> bool {
        self.id.wf() && self.result.wf()
    }
}

/// The member names that JSONRPCResult's fields take.
pub open spec fn result_response_reserved() -> Seq<Seq<char>> {
    seq!["jsonrpc"@, "id"@, "result"@]
}

pub(crate) proof fn lemma_result_response_separable(t: JSONRPCResult)
    requires
        t.wf(),
    ensures
        separable(t.fields(), Seq::empty(), result_response_reserved()),
{
    reveal_strlit("jsonrpc");
    reveal_strlit("id");
    reveal_strlit("result");
    assert("jsonrpc"@.len() == 7);
    assert("id"@.len() == 2);
    assert("result"@.len() == 6);
    assert(field_keys(t.fields()) =~= seq!["jsonrpc"@, "id"@, "result"@]);
    assert(result_response_reserved()[0] == t.fields()[0].0);
    assert(result_response_reserved()[1] == t.fields()[1].0);
    assert(result_response_reserved()[2] == t.fields()[2].0);
    assert(fresh(Seq::empty(), result_response_reserved()));
}

pub fn encode_result_response(x: &JSONRPCResult) -> (r: Json)
    ensures
        r.model() == x.enc(),
{
    let fs = vec![("jsonrpc", enc_str(&x.json_rpc)), ("id", Some(encode_request_id(&x.id))), ("result", Some(encode_rpc_result(&x.result)))];
    proof {
        assert(fields_model(fs@) =~= x.fields());
    }
    build(fs, Vec::new())
}

pub fn decode_result_response(j: &Json) -> (r: Result<JSONRPCResult, DecodeError>)
    ensures
        !(j.model() is Object) ==> r == Err::<JSONRPCResult, DecodeError>(DecodeError::InvalidParams),
        (exists|t: JSONRPCResult| t.wf() && t.enc() == j.model()) ==> (r matches Ok(t) && t.wf() && t.enc() == j.model()),
{
    let ghost canon = exists|t: JSONRPCResult| t.wf() && t.enc() == j.model();
    let ghost t = choose|t: JSONRPCResult| t.wf() && t.enc() == j.model();
    let o = as_object(j)?;
    proof {
        if canon {
            lemma_result_response_separable(t);
            lemma_record_get(t.fields(), Seq::<(Seq<char>, JsonV)>::empty(), result_response_reserved(), 0);
            lemma_record_get(t.fields(), Seq::<(Seq<char>, JsonV)>::empty(), result_response_reserved(), 1);
            lemma_record_get(t.fields(), Seq::<(Seq<char>, JsonV)>::empty(), result_response_reserved(), 2);
            assert(present(t.fields()) + Seq::<(Seq<char>, JsonV)>::empty() =~= present(t.fields()));
            assert(t.id.wf() && t.id.enc() == t.fields()[1].1->Some_0);
            assert(t.result.wf() && t.result.enc() == t.fields()[2].1->Some_0);
        }
    }
    let f_jsonrpc = req_str(o, "jsonrpc")?;
    let f_id = match find(o, "id") { Some(v) => decode_request_id(v)?, None => { return Err(DecodeError::InvalidParams); } };
    let f_result = match find(o, "result") { Some(v) => decode_rpc_result(v)?, None => { return Err(DecodeError::InvalidParams); } };
    let r = JSONRPCResult { json_rpc: f_jsonrpc, id: f_id, result: f_result };
    proof {
        if canon {
            assert(r.fields() =~= t.fields());
        }
    }
    Ok(r)
}

impl JSONRPCError {
    /// The fields of the canonical encoding, in order.
    pub open spec fn fields(self) -> Fields {
        seq![("jsonrpc"@, Some(str_v(self.json_rpc))), ("id"@, Some(self.id.enc())), ("error"@, Some(self.error.enc()))]
    }

    /// The canonical encoding.
    pub open spec fn enc(self) -> JsonV {
        record(self.fields(), Seq::empty())
    }

    /// The value can be told apart from its neighbours on the wire.
    pub open spec fn wf(self) -> bool {
        self.id.wf() && self.error.wf()
    }
}

/// The member names that JSONRPCError's fields take.
pub open spec fn error_response_reserved() -> Seq<Seq<char>> {
    seq!["jsonrpc"@, "id"@, "error"@]
}

pub(crate) proof fn lemma_error_response_separable(t: JSONRPCError)
    requires
        t.wf(),
    ensures
        separable(t.fields(), Seq::empty(), error_response_reserved()),
{
    reveal_strlit("jsonrpc");
    reveal_strlit("id");
    reveal_strlit("error");
    assert("jsonrpc"@.len() == 7);
    assert("id"@.len() == 2);
    assert("error"@.len() == 5);
    assert(field_keys(t.fields()) =~= seq!["jsonrpc"@, "id"@, "error"@]);
    assert(error_response_reserved()[0] == t.fields()[0].0);
    assert(error_response_reserved()[1] == t.fields()[1].0);
    assert(error_response_reserved()[2] == t.fields()[2].0);
    assert(fresh(Seq::empty(), error_response_reserved()));
}

pub fn encode_error_response(x: &JSONRPCError) -> (r: Json)
    ensures
        r.model() == x.enc(),
{
    let fs = vec![("jsonrpc", enc_str(&x.json_rpc)), ("id", Some(encode_request_id(&x.id))), ("error", Some(encode_error_params(&x.error)))];
    proof {
        assert(fields_model(fs@) =~= x.fields());
    }
    build(fs, Vec::new())
}

pub fn decode_error_response(j: &Json) -> (r: Result<JSONRPCError, DecodeError>)
    ensures
        !(j.model() is Object) ==> r == Err::<JSONRPCError, DecodeError>(DecodeError::InvalidParams),
        (exists|t: JSONRPCError| t.wf() && t.enc() == j.model()) ==> (r matches Ok(t) && t.wf() && t.enc() == j.model()),
{
    let ghost canon = exists|t: JSONRPCError| t.wf() && t.enc() == j.model();
    let ghost t = choose|t: JSONRPCError| t.wf() && t.enc() == j.model();
    let o = as_object(j)?;
    proof {
        if canon {
            lemma_error_response_separable(t);
            lemma_record_get(t.fields(), Seq::<(Seq<char>, JsonV)>::empty(), error_response_reserved(), 0);
            lemma_record_get(t.fields(), Seq::<(Seq<char>, JsonV)>::empty(), error_response_reserved(), 1);
            lemma_record_get(t.fields(), Seq::<(Seq<char>, JsonV)>::empty(), error_response_reserved(), 2);
            assert(present(t.fields()) + Seq::<(Seq<char>, JsonV)>::empty() =~= present(t.fields()));
            assert(t.id.wf() && t.id.enc() == t.fields()[1].1->Some_0);
            assert(t.error.wf() && t.error.enc() == t.fields()[2].1->Some_0);
        }
    }
    let f_jsonrpc = req_str(o, "jsonrpc")?;
    let f_id = match find(o, "id") { Some(v) => decode_request_id(v)?, None => { return Err(DecodeError::InvalidParams); } };
    let f_error = match find(o, "error") { Some(v) => decode_error_params(v)?, None => { return Err(DecodeError::InvalidParams); } };
    let r = JSONRPCError { json_rpc: f_jsonrpc, id: f_id, error: f_error };
    proof {
        if canon {
            assert(r.fields() =~= t.fields());
        }
    }
    Ok(r)
}


// ---- requests ----

/// The method name of a request.
pub open spec fn request_method(p: RequestParams) -> Seq<char> {
    match p {
        RequestParams::Initialize(_) => "initialize"@,
        RequestParams::Ping(_) => "ping"@,
        RequestParams::Paginated(_) => "paginated"@,
        RequestParams::ListResources(_) => "resources/list"@,
        RequestParams::ListResourceTemplate(_) => "resources/templates/list"@,
        RequestParams::ReadResource(_) => "resources/read"@,
        RequestParams::Subscribe(_) => "resources/subscribe"@,
        RequestParams::Unsubscribe(_) => "unsubscribe"@,
        RequestParams::ListPrompts(_) => "prompts/list"@,
        RequestParams::GetPrompt(_) => "prompts/get"@,
        RequestParams::ListTools(_) => "tools/list"@,
        RequestParams::CallTool(_) => "tools/call"@,
        RequestParams::SetLevel(_) => "logging/setLevel"@,
        RequestParams::CreateMessage(_) => "sampling/createMessage"@,
        RequestParams::CompleteRequest(_) => "completion/complete"@,
        RequestParams::ListRoots(_) => "roots/list"@,
    }
}

/// The `params` member of a request, if it has one.
pub open spec fn request_params_enc(p: RequestParams) -> Option<JsonV> {
    match p {
        RequestParams::Initialize(x) => Some(x.enc()),
        RequestParams::Ping(x) => Some(x.enc()),
        RequestParams::Paginated(x) => match x { Some(y) => Some(y.enc()), None => None },
        RequestParams::ListResources(x) => Some(x.paginated_base.enc()),
        RequestParams::ListResourceTemplate(x) => Some(x.paginated_base.enc()),
        RequestParams::ReadResource(x) => Some(x.enc()),
        RequestParams::Subscribe(x) => Some(x.enc()),
        RequestParams::Unsubscribe(x) => Some(x.enc()),
        RequestParams::ListPrompts(x) => Some(x.paginated_base.enc()),
        RequestParams::GetPrompt(x) => Some(x.enc()),
        RequestParams::ListTools(x) => Some(x.paginated_base.enc()),
        RequestParams::CallTool(x) => Some(x.enc()),
        RequestParams::SetLevel(x) => Some(x.enc()),
        RequestParams::CreateMessage(x) => Some(x.enc()),
        RequestParams::CompleteRequest(x) => Some(x.enc()),
        RequestParams::ListRoots(x) => Some(x.enc()),
    }
}

impl RequestParams {
    /// The parameters have a shape the codec reads, and can be told apart on the wire.
    pub open spec fn wf(self) -> bool {
        match self {
            RequestParams::Initialize(x) => x.wf(),
            RequestParams::Ping(x) => x.wf(),
            RequestParams::Paginated(x) => x matches Some(y) ==> y.wf(),
            RequestParams::ListResources(x) => x.paginated_base.wf(),
            RequestParams::ListResourceTemplate(x) => x.paginated_base.wf(),
            RequestParams::ReadResource(x) => x.wf(),
            RequestParams::Subscribe(x) => x.wf(),
            RequestParams::Unsubscribe(x) => x.wf(),
            RequestParams::ListPrompts(x) => x.paginated_base.wf(),
            RequestParams::GetPrompt(x) => x.wf(),
            RequestParams::ListTools(x) => x.paginated_base.wf(),
            RequestParams::CallTool(x) => x.wf(),
            RequestParams::SetLevel(x) => x.wf(),
            RequestParams::CreateMessage(x) => x.wf(),
            RequestParams::CompleteRequest(x) => x.wf(),
            RequestParams::ListRoots(x) => x.wf(),
        }
    }
}

/// The known request method names.
pub open spec fn request_methods() -> Seq<Seq<char>> {
    seq!["initialize"@, "ping"@, "paginated"@, "resources/list"@, "resources/templates/list"@, "resources/read"@, "resources/subscribe"@, "unsubscribe"@, "prompts/list"@, "prompts/get"@, "tools/list"@, "tools/call"@, "logging/setLevel"@, "sampling/createMessage"@, "completion/complete"@, "roots/list"@]
}

pub(crate) proof fn lemma_request_methods()
    ensures
        request_methods().no_duplicates(),
        forall|p: RequestParams| #[trigger] request_methods().contains(request_method(p)),
{
    reveal_strlit("initialize");
    reveal_strlit("ping");
    reveal_strlit("paginated");
    reveal_strlit("resources/list");
    reveal_strlit("resources/templates/list");
    reveal_strlit("resources/read");
    reveal_strlit("resources/subscribe");
    reveal_strlit("unsubscribe");
    reveal_strlit("prompts/list");
    reveal_strlit("prompts/get");
    reveal_strlit("tools/list");
    reveal_strlit("tools/call");
    reveal_strlit("logging/setLevel");
    reveal_strlit("sampling/createMessage");
    reveal_strlit("completion/complete");
    reveal_strlit("roots/list");
    assert("initialize"@.len() == 10);
    assert("ping"@.len() == 4);
    assert("paginated"@.len() == 9);
    assert("resources/list"@.len() == 14);
    assert("resources/templates/list"@.len() == 24);
    assert("resources/read"@.len() == 14);
    assert("resources/subscribe"@.len() == 19);
    assert("unsubscribe"@.len() == 11);
    assert("prompts/list"@.len() == 12);
    assert("prompts/get"@.len() == 11);
    assert("tools/list"@.len() == 10);
    assert("tools/call"@.len() == 10);
    assert("logging/setLevel"@.len() == 16);
    assert("sampling/createMessage"@.len() == 22);
    assert("completion/complete"@.len() == 19);
    assert("roots/list"@.len() == 10);
    assert("initialize"@[0] == 'i' && "tools/list"@[0] == 't');
    assert("initialize"@[0] == 'i' && "tools/call"@[0] == 't');
    assert("initialize"@[0] == 'i' && "roots/list"@[0] == 'r');
    assert("resources/list"@[10] == 'l' && "resources/read"@[10] == 'r');
    assert("resources/subscribe"@[0] == 'r' && "completion/complete"@[0] == 'c');
    assert("unsubscribe"@[0] == 'u' && "prompts/get"@[0] == 'p');
    assert("tools/list"@[6] == 'l' && "tools/call"@[6] == 'c');
    assert("tools/list"@[0] == 't' && "roots/list"@[0] == 'r');
    assert("tools/call"@[0] == 't' && "roots/list"@[0] == 'r');
    assert forall|p: RequestParams| #[trigger] request_methods().contains(request_method(p)) by {
        match p {
            RequestParams::Initialize(_) => { assert(request_methods()[0] == request_method(p)); },
            RequestParams::Ping(_) => { assert(request_methods()[1] == request_method(p)); },
            RequestParams::Paginated(_) => { assert(request_methods()[2] == request_method(p)); },
            RequestParams::ListResources(_) => { assert(request_methods()[3] == request_method(p)); },
            RequestParams::ListResourceTemplate(_) => { assert(request_methods()[4] == request_method(p)); },
            RequestParams::ReadResource(_) => { assert(request_methods()[5] == request_method(p)); },
            RequestParams::Subscribe(_) => { assert(request_methods()[6] == request_method(p)); },
            RequestParams::Unsubscribe(_) => { assert(request_methods()[7] == request_method(p)); },
            RequestParams::ListPrompts(_) => { assert(request_methods()[8] == request_method(p)); },
            RequestParams::GetPrompt(_) => { assert(request_methods()[9] == request_method(p)); },
            RequestParams::ListTools(_) => { assert(request_methods()[10] == request_method(p)); },
            RequestParams::CallTool(_) => { assert(request_methods()[11] == request_method(p)); },
            RequestParams::SetLevel(_) => { assert(request_methods()[12] == request_method(p)); },
            RequestParams::CreateMessage(_) => { assert(request_methods()[13] == request_method(p)); },
            RequestParams::CompleteRequest(_) => { assert(request_methods()[14] == request_method(p)); },
            RequestParams::ListRoots(_) => { assert(request_methods()[15] == request_method(p)); },
        }
    }
}

pub(crate) fn request_method_name(p: &RequestParams) -> (r: &'static str)
    ensures
        r@ == request_method(*p),
{
    match p {
        RequestParams::Initialize(_) => "initialize",
        RequestParams::Ping(_) => "ping",
        RequestParams::Paginated(_) => "paginated",
        RequestParams::ListResources(_) => "resources/list",
        RequestParams::ListResourceTemplate(_) => "resources/templates/list",
        RequestParams::ReadResource(_) => "resources/read",
        RequestParams::Subscribe(_) => "resources/subscribe",
        RequestParams::Unsubscribe(_) => "unsubscribe",
        RequestParams::ListPrompts(_) => "prompts/list",
        RequestParams::GetPrompt(_) => "prompts/get",
        RequestParams::ListTools(_) => "tools/list",
        RequestParams::CallTool(_) => "tools/call",
        RequestParams::SetLevel(_) => "logging/setLevel",
        RequestParams::CreateMessage(_) => "sampling/createMessage",
        RequestParams::CompleteRequest(_) => "completion/complete",
        RequestParams::ListRoots(_) => "roots/list",
    }
}

pub(crate) fn encode_request_params(p: &RequestParams) -> (r: Option<Json>)
    ensures
        opt_model(r) == request_params_enc(*p),
{
    match p {
        RequestParams::Initialize(x) => Some(encode_initialize_request_params(x)),
        RequestParams::Ping(x) => Some(encode_ping_request_params(x)),
        RequestParams::Paginated(x) => match x { Some(y) => Some(encode_paginated_request_params(y)), None => None },
        RequestParams::ListResources(x) => Some(encode_paginated_request_params(&x.paginated_base)),
        RequestParams::ListResourceTemplate(x) => Some(encode_paginated_request_params(&x.paginated_base)),
        RequestParams::ReadResource(x) => Some(encode_read_resource_request_params(x)),
        RequestParams::Subscribe(x) => Some(encode_subscribe_request_params(x)),
        RequestParams::Unsubscribe(x) => Some(encode_unsubscribe_request_params(x)),
        RequestParams::ListPrompts(x) => Some(encode_paginated_request_params(&x.paginated_base)),
        RequestParams::GetPrompt(x) => Some(encode_get_prompt_request_params(x)),
        RequestParams::ListTools(x) => Some(encode_paginated_request_params(&x.paginated_base)),
        RequestParams::CallTool(x) => Some(encode_call_tool_request_params(x)),
        RequestParams::SetLevel(x) => Some(encode_set_level_request_params(x)),
        RequestParams::CreateMessage(x) => Some(encode_create_message_request_params(x)),
        RequestParams::CompleteRequest(x) => Some(encode_complete_request_params(x)),
        RequestParams::ListRoots(x) => Some(encode_list_roots_request_params(x)),
    }
}

/// Reads the parameters of a request for `method`; a request whose
/// parameters may all be absent reads a missing `params` as `{}`.
#[verifier::rlimit(60)]
pub(crate) fn decode_request_params(method: &String, pj: Option<&Json>) -> (r: Result<RequestParams, DecodeError>)
    ensures
        (exists|p: RequestParams| p.wf() && request_method(p) == method@ && request_params_enc(p) == opt_ref_model(pj))
            ==> (r matches Ok(p) && p.wf() && request_method(p) == method@ && request_params_enc(p) == opt_ref_model(pj)),
        !request_methods().contains(method@) ==> r == Err::<RequestParams, DecodeError>(DecodeError::UnknownMethod(*method)),
        request_methods().contains(method@) && (pj matches Some(v) && !(v.model() is Object))
            ==> r == Err::<RequestParams, DecodeError>(DecodeError::InvalidParams),
{
    let ghost canon = exists|p: RequestParams| p.wf() && request_method(p) == method@ && request_params_enc(p) == opt_ref_model(pj);
    let ghost p = choose|p: RequestParams| p.wf() && request_method(p) == method@ && request_params_enc(p) == opt_ref_model(pj);
    proof {
        lemma_request_methods();
        reveal_strlit("initialize");
        reveal_strlit("ping");
        reveal_strlit("paginated");
        reveal_strlit("resources/list");
        reveal_strlit("resources/templates/list");
        reveal_strlit("resources/read");
        reveal_strlit("resources/subscribe");
        reveal_strlit("unsubscribe");
        reveal_strlit("prompts/list");
        reveal_strlit("prompts/get");
        reveal_strlit("tools/list");
        reveal_strlit("tools/call");
        reveal_strlit("logging/setLevel");
        reveal_strlit("sampling/createMessage");
        reveal_strlit("completion/complete");
        reveal_strlit("roots/list");
        assert("initialize"@.len() == 10);
        assert("ping"@.len() == 4);
        assert("paginated"@.len() == 9);
        assert("resources/list"@.len() == 14);
        assert("resources/templates/list"@.len() == 24);
        assert("resources/read"@.len() == 14);
        assert("resources/subscribe"@.len() == 19);
        assert("unsubscribe"@.len() == 11);
        assert("prompts/list"@.len() == 12);
        assert("prompts/get"@.len() == 11);
        assert("tools/list"@.len() == 10);
        assert("tools/call"@.len() == 10);
        assert("logging/setLevel"@.len() == 16);
        assert("sampling/createMessage"@.len() == 22);
        assert("completion/complete"@.len() == 19);
        assert("roots/list"@.len() == 10);
        assert("initialize"@[0] == 'i' && "tools/list"@[0] == 't');
        assert("initialize"@[0] == 'i' && "tools/call"@[0] == 't');
        assert("initialize"@[0] == 'i' && "roots/list"@[0] == 'r');
        assert("resources/list"@[10] == 'l' && "resources/read"@[10] == 'r');
        assert("resources/subscribe"@[0] == 'r' && "completion/complete"@[0] == 'c');
        assert("unsubscribe"@[0] == 'u' && "prompts/get"@[0] == 'p');
        assert("tools/list"@[6] == 'l' && "tools/call"@[6] == 'c');
        assert("tools/list"@[0] == 't' && "roots/list"@[0] == 'r');
        assert("tools/call"@[0] == 't' && "roots/list"@[0] == 'r');
    }
    let no_members: JsonMap = Vec::new();
    proof { crate::json::lemma_object_model(no_members); }
    let empty = Json::Object(no_members);
    let pv: &Json = match pj { Some(v) => v, None => &empty };
    if crate::record::same_text(method, "initialize") {
        proof { assert(request_methods()[0] == method@); }
        let x = decode_initialize_request_params(pv)?;
        Ok(RequestParams::Initialize(x))
    } else if crate::record::same_text(method, "ping") {
        proof { assert(request_methods()[1] == method@); }
        let x = decode_ping_request_params(pv)?;
        Ok(RequestParams::Ping(x))
    } else if crate::record::same_text(method, "paginated") {
        proof { assert(request_methods()[2] == method@); }
        match pj {
            Some(v) => { let x = decode_paginated_request_params(v)?; Ok(RequestParams::Paginated(Some(x))) },
            None => Ok(RequestParams::Paginated(None)),
        }
    } else if crate::record::same_text(method, "resources/list") {
        proof { assert(request_methods()[3] == method@); }
        let x = decode_paginated_request_params(pv)?;
        Ok(RequestParams::ListResources(ListResourcesRequestParams { paginated_base: x }))
    } else if crate::record::same_text(method, "resources/templates/list") {
        proof { assert(request_methods()[4] == method@); }
        let x = decode_paginated_request_params(pv)?;
        Ok(RequestParams::ListResourceTemplate(ListResourceTemplatesRequestParams { paginated_base: x }))
    } else if crate::record::same_text(method, "resources/read") {
        proof { assert(request_methods()[5] == method@); }
        let x = decode_read_resource_request_params(pv)?;
        Ok(RequestParams::ReadResource(x))
    } else if crate::record::same_text(method, "resources/subscribe") {
        proof { assert(request_methods()[6] == method@); }
        let x = decode_subscribe_request_params(pv)?;
        Ok(RequestParams::Subscribe(x))
    } else if crate::record::same_text(method, "unsubscribe") {
        proof { assert(request_methods()[7] == method@); }
        let x = decode_unsubscribe_request_params(pv)?;
        Ok(RequestParams::Unsubscribe(x))
    } else if crate::record::same_text(method, "prompts/list") {
        proof { assert(request_methods()[8] == method@); }
        let x = decode_paginated_request_params(pv)?;
        Ok(RequestParams::ListPrompts(ListPromptsRequestParams { paginated_base: x }))
    } else if crate::record::same_text(method, "prompts/get") {
        proof { assert(request_methods()[9] == method@); }
        let x = decode_get_prompt_request_params(pv)?;
        Ok(RequestParams::GetPrompt(x))
    } else if crate::record::same_text(method, "tools/list") {
        proof { assert(request_methods()[10] == method@); }
        let x = decode_paginated_request_params(pv)?;
        Ok(RequestParams::ListTools(ListToolsRequestParams { paginated_base: x }))
    } else if crate::record::same_text(method, "tools/call") {
        proof { assert(request_methods()[11] == method@); }
        let x = decode_call_tool_request_params(pv)?;
        Ok(RequestParams::CallTool(x))
    } else if crate::record::same_text(method, "logging/setLevel") {
        proof { assert(request_methods()[12] == method@); }
        let x = decode_set_level_request_params(pv)?;
        Ok(RequestParams::SetLevel(x))
    } else if crate::record::same_text(method, "sampling/createMessage") {
        proof {
            assert(request_methods()[13] == method@);
            if canon {
                assert(request_method(p) == "sampling/createMessage"@);
                match p {
                    RequestParams::CreateMessage(_) => {},
                    RequestParams::Initialize(_) => { assert(request_method(p) == request_methods()[0]); },
                    RequestParams::Ping(_) => { assert(request_method(p) == request_methods()[1]); },
                    RequestParams::Paginated(_) => { assert(request_method(p) == request_methods()[2]); },
                    RequestParams::ListResources(_) => { assert(request_method(p) == request_methods()[3]); },
                    RequestParams::ListResourceTemplate(_) => { assert(request_method(p) == request_methods()[4]); },
                    RequestParams::ReadResource(_) => { assert(request_method(p) == request_methods()[5]); },
                    RequestParams::Subscribe(_) => { assert(request_method(p) == request_methods()[6]); },
                    RequestParams::Unsubscribe(_) => { assert(request_method(p) == request_methods()[7]); },
                    RequestParams::ListPrompts(_) => { assert(request_method(p) == request_methods()[8]); },
                    RequestParams::GetPrompt(_) => { assert(request_method(p) == request_methods()[9]); },
                    RequestParams::ListTools(_) => { assert(request_method(p) == request_methods()[10]); },
                    RequestParams::CallTool(_) => { assert(request_method(p) == request_methods()[11]); },
                    RequestParams::SetLevel(_) => { assert(request_method(p) == request_methods()[12]); },
                    RequestParams::CompleteRequest(_) => { assert(request_method(p) == request_methods()[14]); },
                    RequestParams::ListRoots(_) => { assert(request_method(p) == request_methods()[15]); },
                }
                assert(p is CreateMessage);
                assert(pj is Some);
                assert(p->CreateMessage_0.wf() && p->CreateMessage_0.enc() == pv.model());
            }
        }
        let x = decode_create_message_request_params(pv)?;
        Ok(RequestParams::CreateMessage(x))
    } else if crate::record::same_text(method, "completion/complete") {
        proof { assert(request_methods()[14] == method@); }
        let x = decode_complete_request_params(pv)?;
        Ok(RequestParams::CompleteRequest(x))
    } else if crate::record::same_text(method, "roots/list") {
        proof { assert(request_methods()[15] == method@); }
        let x = decode_list_roots_request_params(pv)?;
        Ok(RequestParams::ListRoots(x))
    } else {
        proof {
            assert(!request_methods().contains(method@)) by {
                if request_methods().contains(method@) {
                    let i = choose|i: int| 0 <= i < request_methods().len() && request_methods()[i] == method@;
                }
            }
        }
        Err(DecodeError::UnknownMethod(method.clone()))
    }
}

// ---- notifications ----

/// The method name of a notification.
pub open spec fn notification_method(p: NotificationParams) -> Seq<char> {
    match p {
        NotificationParams::Cancelled(_) => "notifications/cancelled"@,
        NotificationParams::Initialized(_) => "notifications/initialized"@,
        NotificationParams::Progress(_) => "notifications/progress"@,
        NotificationParams::ResourceListChanged(_) => "notifications/resources/list_changed"@,
        NotificationParams::ResourceUpdated(_) => "notifications/resources/updated"@,
        NotificationParams::PromptListChanged(_) => "notifications/prompts/list_changed"@,
        NotificationParams::ToolListChanged(_) => "notifications/tools/list_changed"@,
        NotificationParams::LoggingMessage(_) => "notifications/message"@,
        NotificationParams::RootsListChanged(_) => "notifications/roots/list_changed"@,
    }
}

/// The fields that a notification's parameters add to its object.
pub open spec fn notification_fields(p: NotificationParams) -> Fields {
    match p {
        NotificationParams::Cancelled(x) => x.fields(),
        NotificationParams::Initialized(x) => x.notification_base.fields(),
        NotificationParams::Progress(x) => x.fields(),
        NotificationParams::ResourceListChanged(x) => x.notification_base.fields(),
        NotificationParams::ResourceUpdated(x) => x.fields(),
        NotificationParams::PromptListChanged(x) => x.notification_base.fields(),
        NotificationParams::ToolListChanged(x) => x.notifications_base.fields(),
        NotificationParams::LoggingMessage(x) => x.fields(),
        NotificationParams::RootsListChanged(x) => x.notification_base.fields(),
    }
}

/// The extension members of a notification.
pub open spec fn notification_extra(p: NotificationParams) -> Pairs {
    match p {
        NotificationParams::Cancelled(_) => Seq::empty(),
        NotificationParams::Initialized(x) => x.notification_base.extra_model(),
        NotificationParams::Progress(_) => Seq::empty(),
        NotificationParams::ResourceListChanged(x) => x.notification_base.extra_model(),
        NotificationParams::ResourceUpdated(_) => Seq::empty(),
        NotificationParams::PromptListChanged(x) => x.notification_base.extra_model(),
        NotificationParams::ToolListChanged(x) => x.notifications_base.extra_model(),
        NotificationParams::LoggingMessage(_) => Seq::empty(),
        NotificationParams::RootsListChanged(x) => x.notification_base.extra_model(),
    }
}

/// A notification's parameters as an object of their own.
pub open spec fn notification_params_enc(p: NotificationParams) -> JsonV {
    match p {
        NotificationParams::Cancelled(x) => x.enc(),
        NotificationParams::Initialized(x) => x.notification_base.enc(),
        NotificationParams::Progress(x) => x.enc(),
        NotificationParams::ResourceListChanged(x) => x.notification_base.enc(),
        NotificationParams::ResourceUpdated(x) => x.enc(),
        NotificationParams::PromptListChanged(x) => x.notification_base.enc(),
        NotificationParams::ToolListChanged(x) => x.notifications_base.enc(),
        NotificationParams::LoggingMessage(x) => x.enc(),
        NotificationParams::RootsListChanged(x) => x.notification_base.enc(),
    }
}

impl NotificationParams {
    pub open spec fn wf(self) -> bool {
        match self {
            NotificationParams::Cancelled(x) => x.wf(),
            NotificationParams::Initialized(x) => x.notification_base.wf(),
            NotificationParams::Progress(x) => x.wf(),
            NotificationParams::ResourceListChanged(x) => x.notification_base.wf(),
            NotificationParams::ResourceUpdated(x) => x.wf(),
            NotificationParams::PromptListChanged(x) => x.notification_base.wf(),
            NotificationParams::ToolListChanged(x) => x.notifications_base.wf(),
            NotificationParams::LoggingMessage(x) => x.wf(),
            NotificationParams::RootsListChanged(x) => x.notification_base.wf(),
        }
    }
}

/// The known notification method names.
pub open spec fn notification_methods() -> Seq<Seq<char>> {
    seq!["notifications/cancelled"@, "notifications/initialized"@, "notifications/progress"@, "notifications/resources/list_changed"@, "notifications/resources/updated"@, "notifications/prompts/list_changed"@, "notifications/tools/list_changed"@, "notifications/message"@, "notifications/roots/list_changed"@]
}

pub(crate) proof fn lemma_notification_methods()
    ensures
        notification_methods().no_duplicates(),
{
    reveal_strlit("notifications/cancelled");
    reveal_strlit("notifications/initialized");
    reveal_strlit("notifications/progress");
    reveal_strlit("notifications/resources/list_changed");
    reveal_strlit("notifications/resources/updated");
    reveal_strlit("notifications/prompts/list_changed");
    reveal_strlit("notifications/tools/list_changed");
    reveal_strlit("notifications/message");
    reveal_strlit("notifications/roots/list_changed");
    assert("notifications/cancelled"@.len() == 23);
    assert("notifications/initialized"@.len() == 25);
    assert("notifications/progress"@.len() == 22);
    assert("notifications/resources/list_changed"@.len() == 36);
    assert("notifications/resources/updated"@.len() == 31);
    assert("notifications/prompts/list_changed"@.len() == 34);
    assert("notifications/tools/list_changed"@.len() == 32);
    assert("notifications/message"@.len() == 21);
    assert("notifications/roots/list_changed"@.len() == 32);
    assert("notifications/tools/list_changed"@[14] == 't' && "notifications/roots/list_changed"@[14] == 'r');
}

pub(crate) fn notification_method_name(p: &NotificationParams) -> (r: &'static str)
    ensures
        r@ == notification_method(*p),
{
    match p {
        NotificationParams::Cancelled(_) => "notifications/cancelled",
        NotificationParams::Initialized(_) => "notifications/initialized",
        NotificationParams::Progress(_) => "notifications/progress",
        NotificationParams::ResourceListChanged(_) => "notifications/resources/list_changed",
        NotificationParams::ResourceUpdated(_) => "notifications/resources/updated",
        NotificationParams::PromptListChanged(_) => "notifications/prompts/list_changed",
        NotificationParams::ToolListChanged(_) => "notifications/tools/list_changed",
        NotificationParams::LoggingMessage(_) => "notifications/message",
        NotificationParams::RootsListChanged(_) => "notifications/roots/list_changed",
    }
}

/// The names that the framing of a notification takes.
pub open spec fn notification_head_keys() -> Seq<Seq<char>> {
    seq!["jsonrpc"@, "method"@]
}

/// No field of a notification's parameters is named like the framing's
/// members or `id`, and the parameters' own encoding is their record.
pub(crate) proof fn lemma_notification_fields(p: NotificationParams)
    requires
        p.wf(),
    ensures
        forall|i: int| 0 <= i < notification_fields(p).len() ==> !notification_head_keys().contains(#[trigger] notification_fields(p)[i].0),
        forall|i: int| 0 <= i < notification_fields(p).len() ==> #[trigger] notification_fields(p)[i].0 != "id"@,
        fresh(notification_extra(p), notification_head_keys()),
        forall|i: int| 0 <= i < notification_extra(p).len() ==> #[trigger] notification_extra(p)[i].0 != "id"@,
        notification_params_enc(p) == record(notification_fields(p), notification_extra(p)),
{
    reveal_strlit("jsonrpc");
    reveal_strlit("method");
    reveal_strlit("id");
    reveal_strlit("requestId");
    reveal_strlit("reason");
    reveal_strlit("_meta");
    reveal_strlit("progressToken");
    reveal_strlit("progress");
    reveal_strlit("total");
    reveal_strlit("uri");
    reveal_strlit("level");
    reveal_strlit("logger");
    reveal_strlit("data");
    assert("jsonrpc"@.len() == 7);
    assert("method"@.len() == 6);
    assert("id"@.len() == 2);
    assert("requestId"@.len() == 9);
    assert("reason"@.len() == 6);
    assert("_meta"@.len() == 5);
    assert("progressToken"@.len() == 13);
    assert("progress"@.len() == 8);
    assert("total"@.len() == 5);
    assert("uri"@.len() == 3);
    assert("level"@.len() == 5);
    assert("logger"@.len() == 6);
    assert("data"@.len() == 4);
    assert("method"@[0] == 'm' && "reason"@[0] == 'r');
    assert("method"@[0] == 'm' && "logger"@[0] == 'l');
    assert("reason"@[0] == 'r' && "logger"@[0] == 'l');
    assert("_meta"@[0] == '_' && "total"@[0] == 't');
    assert("_meta"@[0] == '_' && "level"@[0] == 'l');
    assert("total"@[0] == 't' && "level"@[0] == 'l');
    let fs = notification_fields(p);
    let hk = notification_head_keys();
    assert forall|i: int| 0 <= i < fs.len() implies !hk.contains(#[trigger] fs[i].0) && fs[i].0 != "id"@ by {
        if hk.contains(fs[i].0) {
            let j = choose|j: int| 0 <= j < hk.len() && hk[j] == fs[i].0;
        }
    }
    match p {
        NotificationParams::Cancelled(x) => {},
        NotificationParams::Initialized(x) => {
            let e = notification_extra(p);
            assert forall|i: int| 0 <= i < e.len() implies !hk.contains(#[trigger] e[i].0) && e[i].0 != "id"@ by {
                assert(!notification_base_params_reserved().contains(e[i].0));
                assert(notification_base_params_reserved()[1] == "jsonrpc"@);
                assert(notification_base_params_reserved()[2] == "method"@);
                assert(notification_base_params_reserved()[3] == "id"@);
                if hk.contains(e[i].0) {
                    let j = choose|j: int| 0 <= j < hk.len() && hk[j] == e[i].0;
                }
            }
        },
        NotificationParams::Progress(x) => {},
        NotificationParams::ResourceListChanged(x) => {
            let e = notification_extra(p);
            assert forall|i: int| 0 <= i < e.len() implies !hk.contains(#[trigger] e[i].0) && e[i].0 != "id"@ by {
                assert(!notification_base_params_reserved().contains(e[i].0));
                assert(notification_base_params_reserved()[1] == "jsonrpc"@);
                assert(notification_base_params_reserved()[2] == "method"@);
                assert(notification_base_params_reserved()[3] == "id"@);
                if hk.contains(e[i].0) {
                    let j = choose|j: int| 0 <= j < hk.len() && hk[j] == e[i].0;
                }
            }
        },
        NotificationParams::ResourceUpdated(x) => {},
        NotificationParams::PromptListChanged(x) => {
            let e = notification_extra(p);
            assert forall|i: int| 0 <= i < e.len() implies !hk.contains(#[trigger] e[i].0) && e[i].0 != "id"@ by {
                assert(!notification_base_params_reserved().contains(e[i].0));
                assert(notification_base_params_reserved()[1] == "jsonrpc"@);
                assert(notification_base_params_reserved()[2] == "method"@);
                assert(notification_base_params_reserved()[3] == "id"@);
                if hk.contains(e[i].0) {
                    let j = choose|j: int| 0 <= j < hk.len() && hk[j] == e[i].0;
                }
            }
        },
        NotificationParams::ToolListChanged(x) => {
            let e = notification_extra(p);
            assert forall|i: int| 0 <= i < e.len() implies !hk.contains(#[trigger] e[i].0) && e[i].0 != "id"@ by {
                assert(!notification_base_params_reserved().contains(e[i].0));
                assert(notification_base_params_reserved()[1] == "jsonrpc"@);
                assert(notification_base_params_reserved()[2] == "method"@);
                assert(notification_base_params_reserved()[3] == "id"@);
                if hk.contains(e[i].0) {
                    let j = choose|j: int| 0 <= j < hk.len() && hk[j] == e[i].0;
                }
            }
        },
        NotificationParams::LoggingMessage(x) => {},
        NotificationParams::RootsListChanged(x) => {
            let e = notification_extra(p);
            assert forall|i: int| 0 <= i < e.len() implies !hk.contains(#[trigger] e[i].0) && e[i].0 != "id"@ by {
                assert(!notification_base_params_reserved().contains(e[i].0));
                assert(notification_base_params_reserved()[1] == "jsonrpc"@);
                assert(notification_base_params_reserved()[2] == "method"@);
                assert(notification_base_params_reserved()[3] == "id"@);
                if hk.contains(e[i].0) {
                    let j = choose|j: int| 0 <= j < hk.len() && hk[j] == e[i].0;
                }
            }
        },
    }
}

impl JSONRPCNotification {
    pub open spec fn head(self) -> Fields {
        seq![("jsonrpc"@, Some(str_v(self.json_rpc))), ("method"@, Some(JsonV::Str(notification_method(self.params))))]
    }

    pub open spec fn enc(self) -> JsonV {
        record(self.head() + notification_fields(self.params), notification_extra(self.params))
    }

    pub open spec fn wf(self) -> bool {
        self.params.wf()
    }
}

/// The members of the record `r` with fields `fs` and extension `extra`.
pub(crate) proof fn lemma_record_members(j: Json, fs: Fields, extra: Pairs)
    requires
        j.model() == record(fs, extra),
    ensures
        j is Object,
        map_model(j->Object_0@) == present(fs) + extra,
{
    match j {
        Json::Object(m) => { crate::json::lemma_object_model(m); },
        Json::Null => {},
        Json::Bool(_) => {},
        Json::Number(_) => {},
        Json::Str(_) => {},
        Json::Array(_) => {},
    }
}

pub(crate) fn encode_notification_params(p: &NotificationParams) -> (r: Json)
    ensures
        r.model() == notification_params_enc(*p),
{
    match p {
        NotificationParams::Cancelled(x) => encode_cancelled_notification_params(&x),
        NotificationParams::Initialized(x) => encode_notification_base_params(&x.notification_base),
        NotificationParams::Progress(x) => encode_progress_notification_params(&x),
        NotificationParams::ResourceListChanged(x) => encode_notification_base_params(&x.notification_base),
        NotificationParams::ResourceUpdated(x) => encode_resource_updated_notification_params(&x),
        NotificationParams::PromptListChanged(x) => encode_notification_base_params(&x.notification_base),
        NotificationParams::ToolListChanged(x) => encode_notification_base_params(&x.notifications_base),
        NotificationParams::LoggingMessage(x) => encode_logging_message_notification_params(&x),
        NotificationParams::RootsListChanged(x) => encode_notification_base_params(&x.notification_base),
    }
}

/// A notification's parameters, as an object of their own, are the record of
/// their fields and extension members.
proof fn lemma_notification_params_record(p: NotificationParams)
    ensures
        notification_params_enc(p) == record(notification_fields(p), notification_extra(p)),
{
}

pub fn encode_notification(x: &JSONRPCNotification) -> (r: Json)
    ensures
        r.model() == x.enc(),
{
    let inner = encode_notification_params(&x.params);
    let members = match inner {
        Json::Object(m) => m,
        _ => Vec::new(),
    };
    let mut out: JsonMap = Vec::new();
    out.push(("jsonrpc".to_owned(), Json::Str(x.json_rpc.clone())));
    out.push(("method".to_owned(), Json::Str(notification_method_name(&x.params).to_owned())));
    let ghost head = out@;
    let ghost m0 = members@;
    let mut members = members;
    let ghost mut k: int = 0;
    assert(head + m0.subrange(0, 0) =~= head);
    while members.len() > 0
        invariant
            0 <= k <= m0.len(),
            members@ == m0.subrange(k, m0.len() as int),
            out@ == head + m0.subrange(0, k),
        decreases members@.len(),
    {
        let e = members.remove(0);
        out.push(e);
        proof {
            assert(m0.subrange(0, k + 1) =~= m0.subrange(0, k).push(e));
            k = k + 1;
            assert(members@ =~= m0.subrange(k, m0.len() as int));
        }
    }
    proof {
        assert(m0.subrange(0, k) =~= m0);
        {
            lemma_notification_params_record(x.params);
            lemma_record_members(inner, notification_fields(x.params), notification_extra(x.params));
            crate::record::lemma_present_concat(x.head(), notification_fields(x.params));
            reveal_strlit("jsonrpc");
            reveal_strlit("method");
            reveal_with_fuel(present, 3);
            assert(x.head().drop_first().drop_first() =~= Seq::<(Seq<char>, Option<JsonV>)>::empty());
            assert(present(x.head()) =~= seq![("jsonrpc"@, str_v(x.json_rpc)), ("method"@, JsonV::Str(notification_method(x.params)))]);
            assert(map_model(out@) =~= present(x.head()) + map_model(m0));
            assert(map_model(out@) =~= present(x.head() + notification_fields(x.params)) + notification_extra(x.params));
        }
        crate::json::lemma_object_model(out);
    }
    Json::Object(out)
}

pub(crate) fn decode_notification_params(method: &String, inner: &Json) -> (r: Result<NotificationParams, DecodeError>)
    ensures
        (exists|p: NotificationParams| p.wf() && notification_method(p) == method@ && notification_params_enc(p) == inner.model())
            ==> (r matches Ok(p) && p.wf() && notification_method(p) == method@ && notification_params_enc(p) == inner.model()),
        !notification_methods().contains(method@) ==> r == Err::<NotificationParams, DecodeError>(DecodeError::UnknownMethod(*method)),
{
    let ghost canon = exists|p: NotificationParams| p.wf() && notification_method(p) == method@ && notification_params_enc(p) == inner.model();
    let ghost p = choose|p: NotificationParams| p.wf() && notification_method(p) == method@ && notification_params_enc(p) == inner.model();
    proof {
        lemma_notification_methods();
        reveal_strlit("notifications/cancelled");
        reveal_strlit("notifications/initialized");
        reveal_strlit("notifications/progress");
        reveal_strlit("notifications/resources/list_changed");
        reveal_strlit("notifications/resources/updated");
        reveal_strlit("notifications/prompts/list_changed");
        reveal_strlit("notifications/tools/list_changed");
        reveal_strlit("notifications/message");
        reveal_strlit("notifications/roots/list_changed");
        assert("notifications/cancelled"@.len() == 23);
        assert("notifications/initialized"@.len() == 25);
        assert("notifications/progress"@.len() == 22);
        assert("notifications/resources/list_changed"@.len() == 36);
        assert("notifications/resources/updated"@.len() == 31);
        assert("notifications/prompts/list_changed"@.len() == 34);
        assert("notifications/tools/list_changed"@.len() == 32);
        assert("notifications/message"@.len() == 21);
        assert("notifications/roots/list_changed"@.len() == 32);
        assert("notifications/tools/list_changed"@[14] == 't' && "notifications/roots/list_changed"@[14] == 'r');
    }
    if crate::record::same_text(method, "notifications/cancelled") {
        proof { assert(notification_methods()[0] == method@); }
        let x = decode_cancelled_notification_params(inner)?;
        Ok(NotificationParams::Cancelled(x))
    } else if crate::record::same_text(method, "notifications/initialized") {
        proof { assert(notification_methods()[1] == method@); }
        let b = decode_notification_base_params(inner)?;
        Ok(NotificationParams::Initialized(InitializedNotificationParams { notification_base: b }))
    } else if crate::record::same_text(method, "notifications/progress") {
        proof { assert(notification_methods()[2] == method@); }
        let x = decode_progress_notification_params(inner)?;
        Ok(NotificationParams::Progress(x))
    } else if crate::record::same_text(method, "notifications/resources/list_changed") {
        proof { assert(notification_methods()[3] == method@); }
        let b = decode_notification_base_params(inner)?;
        Ok(NotificationParams::ResourceListChanged(ResourceListChangedNotificationParams { notification_base: b }))
    } else if crate::record::same_text(method, "notifications/resources/updated") {
        proof { assert(notification_methods()[4] == method@); }
        let x = decode_resource_updated_notification_params(inner)?;
        Ok(NotificationParams::ResourceUpdated(x))
    } else if crate::record::same_text(method, "notifications/prompts/list_changed") {
        proof { assert(notification_methods()[5] == method@); }
        let b = decode_notification_base_params(inner)?;
        Ok(NotificationParams::PromptListChanged(PromptListChangedNotificationParams { notification_base: b }))
    } else if crate::record::same_text(method, "notifications/tools/list_changed") {
        proof { assert(notification_methods()[6] == method@); }
        let b = decode_notification_base_params(inner)?;
        Ok(NotificationParams::ToolListChanged(ToolListChangedNotificationParams { notifications_base: b }))
    } else if crate::record::same_text(method, "notifications/message") {
        proof { assert(notification_methods()[7] == method@); }
        let x = decode_logging_message_notification_params(inner)?;
        Ok(NotificationParams::LoggingMessage(x))
    } else if crate::record::same_text(method, "notifications/roots/list_changed") {
        proof { assert(notification_methods()[8] == method@); }
        let b = decode_notification_base_params(inner)?;
        Ok(NotificationParams::RootsListChanged(RootsListChangedNotificationParams { notification_base: b }))
    } else {
        proof {
            assert(!notification_methods().contains(method@)) by {
                if notification_methods().contains(method@) {
                    let i = choose|i: int| 0 <= i < notification_methods().len() && notification_methods()[i] == method@;
                }
            }
        }
        Err(DecodeError::UnknownMethod(method.clone()))
    }
}


impl JSONRPCRequest {
    pub open spec fn fields(self) -> Fields {
        seq![
            ("jsonrpc"@, Some(str_v(self.json_rpc))),
            ("id"@, Some(self.id.enc())),
            ("method"@, Some(JsonV::Str(request_method(self.params)))),
            ("params"@, request_params_enc(self.params)),
        ]
    }

    pub open spec fn enc(self) -> JsonV {
        record(self.fields(), Seq::empty())
    }

    pub open spec fn wf(self) -> bool {
        self.params.wf()
    }
}

pub(crate) proof fn lemma_request_separable(t: JSONRPCRequest)
    ensures
        separable(t.fields(), Seq::empty(), field_keys(t.fields())),
{
    reveal_strlit("jsonrpc");
    reveal_strlit("id");
    reveal_strlit("method");
    reveal_strlit("params");
    assert("jsonrpc"@.len() == 7);
    assert("id"@.len() == 2);
    assert("method"@.len() == 6);
    assert("params"@.len() == 6);
    assert("method"@[0] == 'm' && "params"@[0] == 'p');
    assert(field_keys(t.fields()) =~= seq!["jsonrpc"@, "id"@, "method"@, "params"@]);
    let ks = field_keys(t.fields());
    assert(ks[0] == t.fields()[0].0 && ks[1] == t.fields()[1].0 && ks[2] == t.fields()[2].0 && ks[3] == t.fields()[3].0);
    assert(fresh(Seq::empty(), ks));
}

pub fn encode_request(x: &JSONRPCRequest) -> (r: Json)
    ensures
        r.model() == x.enc(),
{
    let fs = vec![
        ("jsonrpc", enc_str(&x.json_rpc)),
        ("id", Some(encode_request_id(&x.id))),
        ("method", Some(Json::Str(request_method_name(&x.params).to_owned()))),
        ("params", encode_request_params(&x.params)),
    ];
    proof {
        assert(fields_model(fs@) =~= x.fields());
    }
    build(fs, Vec::new())
}

/// The text of the `method` member of `o`, if it has one.
pub open spec fn method_name_of(o: Pairs) -> Option<Seq<char>> {
    match get(o, "method"@) {
        Some(JsonV::Str(m)) => Some(m),
        _ => None,
    }
}

/// `o` has a text `jsonrpc` member and an `id` that a request id reads.
pub open spec fn framed_request(o: Pairs) -> bool {
    &&& get(o, "jsonrpc"@) matches Some(JsonV::Str(_))
    &&& match get(o, "id"@) {
        Some(JsonV::Str(_)) => true,
        Some(JsonV::Number(Number::Int(_))) => true,
        _ => false,
    }
}

/// `o` has a text `jsonrpc` member and no `id`.
pub open spec fn framed_notification(o: Pairs) -> bool {
    &&& get(o, "jsonrpc"@) matches Some(JsonV::Str(_))
    &&& get(o, "id"@) is None
}

/// The method of a document framed as a request.
pub open spec fn request_doc_method(j: JsonV) -> Option<Seq<char>> {
    match j {
        JsonV::Object(o) => if framed_request(o) { method_name_of(o) } else { None },
        _ => None,
    }
}

/// The method of a document framed as a notification.
pub open spec fn notification_doc_method(j: JsonV) -> Option<Seq<char>> {
    match j {
        JsonV::Object(o) => if framed_notification(o) { method_name_of(o) } else { None },
        _ => None,
    }
}

/// The method of a document with a text `jsonrpc` member.
pub open spec fn doc_method(j: JsonV) -> Option<Seq<char>> {
    match j {
        JsonV::Object(o) => if get(o, "jsonrpc"@) matches Some(JsonV::Str(_)) { method_name_of(o) } else { None },
        _ => None,
    }
}

/// The document has a `params` member that is not an object.
pub open spec fn params_not_object(j: JsonV) -> bool {
    match j {
        JsonV::Object(o) => get(o, "params"@) matches Some(v) && !(v is Object),
        _ => false,
    }
}

/// `r` reports the unknown method `m`.
pub open spec fn unknown_method<T>(r: Result<T, DecodeError>, m: Seq<char>) -> bool {
    r matches Err(DecodeError::UnknownMethod(s)) && s@ == m
}

/// Reads a request: its framing, then the parameters its method asks for.
pub fn decode_request(j: &Json) -> (r: Result<JSONRPCRequest, DecodeError>)
    ensures
        request_doc_method(j.model()) matches Some(m) ==> (!request_methods().contains(m) ==> unknown_method(r, m)),
        request_doc_method(j.model()) matches Some(m) ==> (request_methods().contains(m) && params_not_object(j.model())
            ==> r == Err::<JSONRPCRequest, DecodeError>(DecodeError::InvalidParams)),
        !(j.model() is Object) ==> r == Err::<JSONRPCRequest, DecodeError>(DecodeError::InvalidParams),
        (exists|t: JSONRPCRequest| t.wf() && t.enc() == j.model()) ==> (r matches Ok(t) && t.wf() && t.enc() == j.model()),
{
    let ghost canon = exists|t: JSONRPCRequest| t.wf() && t.enc() == j.model();
    let ghost t = choose|t: JSONRPCRequest| t.wf() && t.enc() == j.model();
    let o = as_object(j)?;
    let ghost e = Seq::<(Seq<char>, JsonV)>::empty();
    proof {
        if canon {
            lemma_request_separable(t);
            let ks = field_keys(t.fields());
            lemma_record_get(t.fields(), e, ks, 0);
            lemma_record_get(t.fields(), e, ks, 1);
            lemma_record_get(t.fields(), e, ks, 2);
            lemma_record_get(t.fields(), e, ks, 3);
            assert(present(t.fields()) + e =~= present(t.fields()));
        }
    }
    let json_rpc = match req_str(o, "jsonrpc") {
        Ok(s) => s,
        Err(_) => {
            return Err(DecodeError::InvalidEnvelope);
        },
    };
    let id = match find(o, "id") {
        Some(v) => decode_request_id(v)?,
        None => {
            return Err(DecodeError::InvalidEnvelope);
        },
    };
    let method = match req_str(o, "method") {
        Ok(s) => s,
        Err(_) => {
            return Err(DecodeError::InvalidEnvelope);
        },
    };
    let params = decode_request_params(&method, find(o, "params"))?;
    let r = JSONRPCRequest { params, json_rpc, id };
    proof {
        if canon {
            assert(r.fields() =~= t.fields());
        }
    }
    Ok(r)
}

pub(crate) proof fn lemma_notification_layout(n: JSONRPCNotification)
    requires
        n.wf(),
    ensures
        n.enc() == JsonV::Object(present(n.head()) + (present(notification_fields(n.params)) + notification_extra(n.params))),
        notification_params_enc(n.params) == JsonV::Object(present(notification_fields(n.params)) + notification_extra(n.params)),
        present(n.head()) == seq![("jsonrpc"@, str_v(n.json_rpc)), ("method"@, JsonV::Str(notification_method(n.params)))],
{
    lemma_notification_fields(n.params);
    crate::record::lemma_present_concat(n.head(), notification_fields(n.params));
    reveal_with_fuel(present, 3);
    assert(n.head().drop_first().drop_first() =~= Seq::<(Seq<char>, Option<JsonV>)>::empty());
    assert(present(n.head()) =~= seq![("jsonrpc"@, str_v(n.json_rpc)), ("method"@, JsonV::Str(notification_method(n.params)))]);
    assert(present(n.head()) + present(notification_fields(n.params)) + notification_extra(n.params)
        =~= present(n.head()) + (present(notification_fields(n.params)) + notification_extra(n.params)));
}

/// Reads a notification: its framing, then, from the remaining members, the
/// parameters its method asks for.
pub fn decode_notification(j: &Json) -> (r: Result<JSONRPCNotification, DecodeError>)
    ensures
        doc_method(j.model()) matches Some(m) ==> (!notification_methods().contains(m) ==> unknown_method(r, m)),
        !(j.model() is Object) ==> r == Err::<JSONRPCNotification, DecodeError>(DecodeError::InvalidParams),
        (exists|t: JSONRPCNotification| t.wf() && t.enc() == j.model()) ==> (r matches Ok(t) && t.wf() && t.enc() == j.model()),
{
    let ghost canon = exists|t: JSONRPCNotification| t.wf() && t.enc() == j.model();
    let ghost t = choose|t: JSONRPCNotification| t.wf() && t.enc() == j.model();
    let o = as_object(j)?;
    proof {
        if canon {
            lemma_notification_layout(t);
            reveal_strlit("jsonrpc");
            reveal_strlit("method");
            assert("jsonrpc"@.len() == 7);
            assert("method"@.len() == 6);
            let h = present(t.head());
            let tail = present(notification_fields(t.params)) + notification_extra(t.params);
            crate::record::lemma_get_append(h, tail, "jsonrpc"@);
            crate::record::lemma_get_append(h, tail, "method"@);
            assert(h.drop_first()[0] == h[1]);
            reveal_with_fuel(get, 2);
        }
    }
    let json_rpc = match req_str(o, "jsonrpc") {
        Ok(s) => s,
        Err(_) => {
            return Err(DecodeError::InvalidEnvelope);
        },
    };
    let method = match req_str(o, "method") {
        Ok(s) => s,
        Err(_) => {
            return Err(DecodeError::InvalidEnvelope);
        },
    };
    let head = vec!["jsonrpc", "method"];
    let inner_members = rest(o, &head);
    proof {
        assert(key_model(head@) =~= notification_head_keys());
        crate::json::lemma_object_model(inner_members);
        if canon {
            lemma_notification_fields(t.params);
            reveal_strlit("jsonrpc");
            reveal_strlit("method");
            assert(t.head()[0].0 == notification_head_keys()[0]);
            assert(t.head()[1].0 == notification_head_keys()[1]);
            assert forall|i: int| 0 <= i < t.head().len() implies notification_head_keys().contains(#[trigger] t.head()[i].0) by {
                assert(t.head()[i].0 == notification_head_keys()[i]);
            }
            crate::record::lemma_record_strip(t.head(), notification_fields(t.params), notification_extra(t.params), notification_head_keys());
        }
    }
    let inner = Json::Object(inner_members);
    let params = decode_notification_params(&method, &inner)?;
    let r = JSONRPCNotification { params, json_rpc };
    proof {
        if canon {
            lemma_notification_layout(t);
            lemma_notification_layout(r);
        }
    }
    Ok(r)
}

// ---- messages ----

impl JSONRPCMessage {
    /// The canonical encoding.
    pub open spec fn enc(self) -> JsonV {
        match self {
            JSONRPCMessage::Request(r) => r.enc(),
            JSONRPCMessage::Notification(n) => n.enc(),
            JSONRPCMessage::Response(JSONRPCResponse::Result(x)) => x.enc(),
            JSONRPCMessage::Response(JSONRPCResponse::Error(e)) => e.enc(),
        }
    }

    /// The message has a shape the codec reads, and its encoding can be told
    /// apart from that of every other message.
    pub open spec fn wf(self) -> bool {
        match self {
            JSONRPCMessage::Request(r) => r.wf(),
            JSONRPCMessage::Notification(n) => n.wf(),
            JSONRPCMessage::Response(JSONRPCResponse::Result(x)) => x.wf(),
            JSONRPCMessage::Response(JSONRPCResponse::Error(e)) => e.wf(),
        }
    }
}

pub(crate) proof fn lemma_envelope_keys()
    ensures
        "jsonrpc"@ != "method"@, "id"@ != "method"@, "params"@ != "method"@, "result"@ != "method"@,
        "error"@ != "method"@, "jsonrpc"@ != "result"@, "id"@ != "result"@, "error"@ != "result"@,
        "jsonrpc"@ != "id"@, "method"@ != "id"@,
{
    reveal_strlit("jsonrpc");
    reveal_strlit("id");
    reveal_strlit("method");
    reveal_strlit("params");
    reveal_strlit("result");
    reveal_strlit("error");
    assert("jsonrpc"@.len() == 7);
    assert("id"@.len() == 2);
    assert("method"@.len() == 6);
    assert("params"@.len() == 6);
    assert("result"@.len() == 6);
    assert("error"@.len() == 5);
    assert("method"@[0] == 'm' && "result"@[0] == 'r' && "params"@[0] == 'p');
}

pub(crate) proof fn lemma_request_routing(t: JSONRPCRequest)
    ensures
        t.enc() is Object,
        get(t.enc()->Object_0, "method"@) is Some,
        get(t.enc()->Object_0, "id"@) is Some,
{
    lemma_request_separable(t);
    let ks = field_keys(t.fields());
    let e = Seq::<(Seq<char>, JsonV)>::empty();
    lemma_record_get(t.fields(), e, ks, 1);
    lemma_record_get(t.fields(), e, ks, 2);
}

pub(crate) proof fn lemma_notification_routing(t: JSONRPCNotification)
    requires
        t.wf(),
    ensures
        t.enc() is Object,
        get(t.enc()->Object_0, "method"@) is Some,
        get(t.enc()->Object_0, "id"@) is None,
{
    lemma_envelope_keys();
    lemma_notification_layout(t);
    lemma_notification_fields(t.params);
    let h = present(t.head());
    let tail = present(notification_fields(t.params)) + notification_extra(t.params);
    crate::record::lemma_get_append(h, tail, "method"@);
    crate::record::lemma_get_append(h, tail, "id"@);
    assert(h.drop_first()[0] == h[1]);
    assert(h.drop_first().drop_first().len() == 0);
    reveal_with_fuel(get, 3);
    crate::record::lemma_record_absent(notification_fields(t.params), notification_extra(t.params), "id"@);
}

pub(crate) proof fn lemma_result_routing(t: JSONRPCResult)
    requires
        t.wf(),
    ensures
        t.enc() is Object,
        get(t.enc()->Object_0, "method"@) is None,
        get(t.enc()->Object_0, "result"@) is Some,
{
    lemma_envelope_keys();
    lemma_result_response_separable(t);
    let e = Seq::<(Seq<char>, JsonV)>::empty();
    lemma_record_get(t.fields(), e, result_response_reserved(), 2);
    assert forall|k: int| 0 <= k < t.fields().len() implies #[trigger] t.fields()[k].0 != "method"@ by {}
    crate::record::lemma_record_absent(t.fields(), e, "method"@);
}

pub(crate) proof fn lemma_error_routing(t: JSONRPCError)
    requires
        t.wf(),
    ensures
        t.enc() is Object,
        get(t.enc()->Object_0, "method"@) is None,
        get(t.enc()->Object_0, "result"@) is None,
        get(t.enc()->Object_0, "error"@) is Some,
{
    lemma_envelope_keys();
    lemma_error_response_separable(t);
    let e = Seq::<(Seq<char>, JsonV)>::empty();
    lemma_record_get(t.fields(), e, error_response_reserved(), 2);
    assert forall|k: int| 0 <= k < t.fields().len() implies #[trigger] t.fields()[k].0 != "method"@ && t.fields()[k].0 != "result"@ by {}
    crate::record::lemma_record_absent(t.fields(), e, "method"@);
    crate::record::lemma_record_absent(t.fields(), e, "result"@);
}

/// Encodes a message as its canonical encoding.
pub fn encode_message(m: &JSONRPCMessage) -> (r: Json)
    ensures
        r.model() == m.enc(),
{
    match m {
        JSONRPCMessage::Request(req) => encode_request(req),
        JSONRPCMessage::Notification(n) => encode_notification(n),
        JSONRPCMessage::Response(JSONRPCResponse::Result(x)) => encode_result_response(x),
        JSONRPCMessage::Response(JSONRPCResponse::Error(e)) => encode_error_response(e),
    }
}

/// Decodes a message. An object with a `method` member is a request when it
/// has an `id` member and a notification otherwise; any other object is a
/// response, read as a success when it has a `result` member and, failing
/// that, as an error.
///
/// Decoding the canonical encoding of a well-formed message gives back a
/// message with that same encoding.
pub fn decode_message(j: &Json) -> (r: Result<JSONRPCMessage, DecodeError>)
    ensures
        request_doc_method(j.model()) matches Some(m) ==> (!request_methods().contains(m) ==> unknown_method(r, m)),
        notification_doc_method(j.model()) matches Some(m) ==> (!notification_methods().contains(m) ==> unknown_method(r, m)),
        request_doc_method(j.model()) matches Some(m) ==> (request_methods().contains(m) && params_not_object(j.model())
            ==> r == Err::<JSONRPCMessage, DecodeError>(DecodeError::InvalidParams)),
        (exists|m: JSONRPCMessage| m.wf() && m.enc() == j.model()) ==> (r matches Ok(m) && m.wf() && m.enc() == j.model()),
        !(j.model() is Object) ==> r == Err::<JSONRPCMessage, DecodeError>(DecodeError::InvalidEnvelope),
{
    let ghost canon = exists|m: JSONRPCMessage| m.wf() && m.enc() == j.model();
    let ghost m = choose|m: JSONRPCMessage| m.wf() && m.enc() == j.model();
    let o = match as_object(j) {
        Ok(o) => o,
        Err(_) => {
            return Err(DecodeError::InvalidEnvelope);
        },
    };
    proof {
        if canon {
            match m {
                JSONRPCMessage::Request(t) => lemma_request_routing(t),
                JSONRPCMessage::Notification(t) => lemma_notification_routing(t),
                JSONRPCMessage::Response(JSONRPCResponse::Result(t)) => lemma_result_routing(t),
                JSONRPCMessage::Response(JSONRPCResponse::Error(t)) => lemma_error_routing(t),
            }
        }
    }
    if find(o, "method").is_some() {
        if find(o, "id").is_some() {
            let req = decode_request(j)?;
            Ok(JSONRPCMessage::Request(req))
        } else {
            let n = decode_notification(j)?;
            Ok(JSONRPCMessage::Notification(n))
        }
    } else if find(o, "result").is_some() {
        match decode_result_response(j) {
            Ok(x) => Ok(JSONRPCMessage::Response(JSONRPCResponse::Result(x))),
            Err(e) => {
                if find(o, "error").is_some() {
                    let x = decode_error_response(j)?;
                    Ok(JSONRPCMessage::Response(JSONRPCResponse::Error(x)))
                } else {
                    Err(e)
                }
            },
        }
    } else if find(o, "error").is_some() {
        let x = decode_error_response(j)?;
        Ok(JSONRPCMessage::Response(JSONRPCResponse::Error(x)))
    } else {
        Err(DecodeError::InvalidEnvelope)
    }
}

/// The id of a request, read from a document that may not decode as a
/// whole, so that an error can still be answered to it.
pub fn request_id_of(j: &Json) -> (r: Option<RequestId>)
    ensures
        r matches Some(id) ==> (j.model() is Object && get(j.model()->Object_0, "id"@) == Some(id.enc())),
{
    match as_object(j) {
        Ok(o) => match find(o, "id") {
            Some(v) => match decode_request_id(v) {
                Ok(id) => {
                    assert(j.model()->Object_0 == map_model(o@));
                    Some(id)
                },
                Err(_) => None,
            },
            None => None,
        },
        Err(_) => None,
    }
}

} // verus!
