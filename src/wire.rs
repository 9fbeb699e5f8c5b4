//! Values on the wire: reading and writing single members, enumerations
//! with a text fallback, and lists.
use vstd::prelude::*;
use crate::json::{Json, JsonMap, JsonV, Number, map_model};
use crate::record::{
    Fields, Pairs, build, field_keys, fields_model, find, get, lemma_record_get, present,
    record, separable,
};
use crate::schema::{
    CompleteRequestRef, LoggingLevel, PROTOCOL_VERSION_TEXT, ProgressToken, ProtocolVersion,
    RequestId, Role, StopReason,
};

use crate::codec::DecodeError;

verus! {

// ---- values ----

pub open spec fn str_v(s: String) -> JsonV {
    JsonV::Str(s@)
}

pub open spec fn int_v(n: i64) -> JsonV {
    JsonV::Number(Number::Int(n))
}

pub open spec fn obj_v(m: JsonMap) -> JsonV {
    JsonV::Object(map_model(m@))
}

pub open spec fn opt_str_v(o: Option<String>) -> Option<JsonV> {
    match o {
        Some(s) => Some(str_v(s)),
        None => None,
    }
}

pub open spec fn opt_int_v(o: Option<i64>) -> Option<JsonV> {
    match o {
        Some(n) => Some(int_v(n)),
        None => None,
    }
}

pub open spec fn opt_bool_v(o: Option<bool>) -> Option<JsonV> {
    match o {
        Some(b) => Some(JsonV::Bool(b)),
        None => None,
    }
}

pub open spec fn opt_obj_v(o: Option<JsonMap>) -> Option<JsonV> {
    match o {
        Some(m) => Some(obj_v(m)),
        None => None,
    }
}

/// The members of `j` when it is an object.
pub(crate) fn as_object(j: &Json) -> (r: Result<&JsonMap, DecodeError>)
    ensures
        match r {
            Ok(o) => j.model() == JsonV::Object(map_model(o@)),
            Err(e) => !(j.model() is Object) && e == DecodeError::InvalidParams,
        },
{
    match j {
        Json::Object(o) => {
            proof { crate::json::lemma_object_model(*o); }
            Ok(o)
        },
        _ => Err(DecodeError::InvalidParams),
    }
}

pub(crate) fn str_value(v: &Json) -> (r: Result<String, DecodeError>)
    ensures
        match r {
            Ok(s) => v.model() == str_v(s),
            Err(e) => !(v.model() is Str) && e == DecodeError::InvalidParams,
        },
{
    match v {
        Json::Str(s) => Ok(s.clone()),
        _ => Err(DecodeError::InvalidParams),
    }
}

pub(crate) fn int_value(v: &Json) -> (r: Result<i64, DecodeError>)
    ensures
        match r {
            Ok(n) => v.model() == int_v(n),
            Err(e) => (forall|n: i64| v.model() != int_v(n)) && e == DecodeError::InvalidParams,
        },
{
    match v {
        Json::Number(Number::Int(n)) => Ok(*n),
        _ => Err(DecodeError::InvalidParams),
    }
}

pub(crate) fn bool_value(v: &Json) -> (r: Result<bool, DecodeError>)
    ensures
        match r {
            Ok(b) => v.model() == JsonV::Bool(b),
            Err(e) => !(v.model() is Bool) && e == DecodeError::InvalidParams,
        },
{
    match v {
        Json::Bool(b) => Ok(*b),
        _ => Err(DecodeError::InvalidParams),
    }
}

pub(crate) fn object_value(v: &Json) -> (r: Result<JsonMap, DecodeError>)
    ensures
        match r {
            Ok(m) => v.model() == obj_v(m),
            Err(e) => !(v.model() is Object) && e == DecodeError::InvalidParams,
        },
{
    match v {
        Json::Object(o) => {
            proof { crate::json::lemma_object_model(*o); }
            Ok(crate::json::clone_map(o))
        },
        _ => Err(DecodeError::InvalidParams),
    }
}

/// A required text member.
pub(crate) fn req_str(o: &JsonMap, k: &str) -> (r: Result<String, DecodeError>)
    ensures
        match r {
            Ok(s) => get(map_model(o@), k@) == Some(str_v(s)),
            Err(e) => !(get(map_model(o@), k@) matches Some(v) && v is Str) && e == DecodeError::InvalidParams,
        },
{
    match find(o, k) {
        Some(v) => str_value(v),
        None => Err(DecodeError::InvalidParams),
    }
}

/// An optional text member.
pub(crate) fn opt_str(o: &JsonMap, k: &str) -> (r: Result<Option<String>, DecodeError>)
    ensures
        match r {
            Ok(s) => get(map_model(o@), k@) == opt_str_v(s),
            Err(e) => !(get(map_model(o@), k@) is None) && !(get(map_model(o@), k@) matches Some(v) && v is Str)
                && e == DecodeError::InvalidParams,
        },
{
    match find(o, k) {
        Some(v) => match str_value(v) {
            Ok(s) => Ok(Some(s)),
            Err(e) => Err(e),
        },
        None => Ok(None),
    }
}

/// A required integer member.
pub(crate) fn req_int(o: &JsonMap, k: &str) -> (r: Result<i64, DecodeError>)
    ensures
        match r {
            Ok(n) => get(map_model(o@), k@) == Some(int_v(n)),
            Err(e) => (forall|n: i64| get(map_model(o@), k@) != Some(int_v(n))) && e == DecodeError::InvalidParams,
        },
{
    match find(o, k) {
        Some(v) => int_value(v),
        None => Err(DecodeError::InvalidParams),
    }
}

/// An optional integer member.
pub(crate) fn opt_int(o: &JsonMap, k: &str) -> (r: Result<Option<i64>, DecodeError>)
    ensures
        match r {
            Ok(n) => get(map_model(o@), k@) == opt_int_v(n),
            Err(e) => (forall|n: Option<i64>| get(map_model(o@), k@) != opt_int_v(n)) && e == DecodeError::InvalidParams,
        },
{
    match find(o, k) {
        Some(v) => match int_value(v) {
            Ok(n) => Ok(Some(n)),
            Err(e) => Err(e),
        },
        None => Ok(None),
    }
}

/// An optional boolean member.
pub(crate) fn opt_bool(o: &JsonMap, k: &str) -> (r: Result<Option<bool>, DecodeError>)
    ensures
        match r {
            Ok(b) => get(map_model(o@), k@) == opt_bool_v(b),
            Err(e) => (forall|b: Option<bool>| get(map_model(o@), k@) != opt_bool_v(b)) && e == DecodeError::InvalidParams,
        },
{
    match find(o, k) {
        Some(v) => match bool_value(v) {
            Ok(b) => Ok(Some(b)),
            Err(e) => Err(e),
        },
        None => Ok(None),
    }
}

/// An optional object member.
pub(crate) fn opt_obj(o: &JsonMap, k: &str) -> (r: Result<Option<JsonMap>, DecodeError>)
    ensures
        match r {
            Ok(m) => get(map_model(o@), k@) == opt_obj_v(m),
            Err(e) => (forall|m: Option<JsonMap>| get(map_model(o@), k@) != opt_obj_v(m)) && e == DecodeError::InvalidParams,
        },
{
    match find(o, k) {
        Some(v) => match object_value(v) {
            Ok(m) => Ok(Some(m)),
            Err(e) => Err(e),
        },
        None => Ok(None),
    }
}

pub(crate) fn enc_str(s: &String) -> (r: Option<Json>)
    ensures
        r == Some(Json::Str(*s)),
{
    Some(Json::Str(s.clone()))
}

pub(crate) fn enc_opt_str(s: &Option<String>) -> (r: Option<Json>)
    ensures
        match r {
            Some(j) => j.model() == opt_str_v(*s)->Some_0 && s is Some,
            None => s is None,
        },
{
    match s {
        Some(x) => Some(Json::Str(x.clone())),
        None => None,
    }
}

pub(crate) fn enc_opt_int(n: &Option<i64>) -> (r: Option<Json>)
    ensures
        match r {
            Some(j) => j.model() == opt_int_v(*n)->Some_0 && n is Some,
            None => n is None,
        },
{
    match n {
        Some(x) => Some(Json::Number(Number::Int(*x))),
        None => None,
    }
}

pub(crate) fn enc_opt_bool(b: &Option<bool>) -> (r: Option<Json>)
    ensures
        match r {
            Some(j) => j.model() == opt_bool_v(*b)->Some_0 && b is Some,
            None => b is None,
        },
{
    match b {
        Some(x) => Some(Json::Bool(*x)),
        None => None,
    }
}

pub(crate) fn enc_opt_obj(m: &Option<JsonMap>) -> (r: Option<Json>)
    ensures
        match r {
            Some(j) => j.model() == opt_obj_v(*m)->Some_0 && m is Some,
            None => m is None,
        },
{
    match m {
        Some(x) => {
            let c = crate::json::clone_map(x);
            proof { crate::json::lemma_object_model(c); }
            Some(Json::Object(c))
        },
        None => None,
    }
}

/// The model of an optional borrowed value.
pub open spec fn opt_ref_model(o: Option<&Json>) -> Option<JsonV> {
    match o {
        Some(j) => Some(j.model()),
        None => None,
    }
}

/// The model of an optional encoded value.
pub open spec fn opt_model(o: Option<Json>) -> Option<JsonV> {
    match o {
        Some(j) => Some(j.model()),
        None => None,
    }
}

// ---- members ----

pub open spec fn opt_json_v(o: Option<Json>) -> Option<JsonV> {
    match o {
        Some(j) => Some(j.model()),
        None => None,
    }
}

pub(crate) fn enc_opt_json(o: &Option<Json>) -> (r: Option<Json>)
    ensures
        match r {
            Some(j) => j.model() == opt_json_v(*o)->Some_0 && o is Some,
            None => o is None,
        },
{
    match o {
        Some(j) => Some(j.clone_json()),
        None => None,
    }
}

/// The model of an object whose members are all text.
pub open spec fn strmap_model(m: Seq<(String, String)>) -> Pairs {
    Seq::new(m.len(), |i: int| (m[i].0@, JsonV::Str(m[i].1@)))
}

pub open spec fn opt_strmap_v(o: Option<Vec<(String, String)>>) -> Option<JsonV> {
    match o {
        Some(m) => Some(JsonV::Object(strmap_model(m@))),
        None => None,
    }
}

pub(crate) fn enc_opt_strmap(o: &Option<Vec<(String, String)>>) -> (r: Option<Json>)
    ensures
        match r {
            Some(j) => j.model() == opt_strmap_v(*o)->Some_0 && o is Some,
            None => o is None,
        },
{
    match o {
        Some(m) => {
            let mut out: JsonMap = Vec::new();
            let mut i: usize = 0;
            while i < m.len()
                invariant
                    i <= m@.len(),
                    map_model(out@) =~= strmap_model(m@.subrange(0, i as int)),
                decreases m@.len() - i,
            {
                let ghost before = out@;
                out.push((m[i].0.clone(), Json::Str(m[i].1.clone())));
                proof {
                    assert(m@.subrange(0, i + 1) =~= m@.subrange(0, i as int).push(m@[i as int]));
                    assert(map_model(out@) =~= map_model(before).push((m@[i as int].0@, JsonV::Str(m@[i as int].1@))));
                    assert(strmap_model(m@.subrange(0, i + 1)) =~= strmap_model(m@.subrange(0, i as int)).push((m@[i as int].0@, JsonV::Str(m@[i as int].1@))));
                }
                i += 1;
            }
            proof {
                assert(m@.subrange(0, m@.len() as int) =~= m@);
                crate::json::lemma_object_model(out);
            }
            Some(Json::Object(out))
        },
        None => None,
    }
}

/// An optional member whose value is an object of text members.
pub(crate) fn opt_strmap(o: &JsonMap, k: &str) -> (r: Result<Option<Vec<(String, String)>>, DecodeError>)
    ensures
        match r {
            Ok(m) => get(map_model(o@), k@) == opt_strmap_v(m),
            Err(e) => (forall|m: Option<Vec<(String, String)>>| get(map_model(o@), k@) != opt_strmap_v(m))
                && e == DecodeError::InvalidParams,
        },
{
    match find(o, k) {
        None => Ok(None),
        Some(v) => {
            let members = as_object(v)?;
            let mut out: Vec<(String, String)> = Vec::new();
            assert(strmap_model(out@) =~= map_model(members@).subrange(0, 0));
            let mut i: usize = 0;
            while i < members.len()
                invariant
                    i <= members@.len(),
                    v.model() == JsonV::Object(map_model(members@)),
                    get(map_model(o@), k@) == Some(v.model()),
                    strmap_model(out@) =~= map_model(members@).subrange(0, i as int),
                decreases members@.len() - i,
            {
                match str_value(&members[i].1) {
                    Ok(s) => {
                        let ghost before = out@;
                        out.push((members[i].0.clone(), s));
                        proof {
                            assert(strmap_model(out@) =~= strmap_model(before).push(map_model(members@)[i as int]));
                            assert(map_model(members@).subrange(0, i + 1)
                                =~= map_model(members@).subrange(0, i as int).push(map_model(members@)[i as int]));
                        }
                    },
                    Err(_) => {
                        proof {
                            assert(map_model(members@)[i as int].1 == members@[i as int].1.model());
                            assert(!(map_model(members@)[i as int].1 is Str));
                            assert forall|m: Option<Vec<(String, String)>>| get(map_model(o@), k@) != opt_strmap_v(m) by {
                                if get(map_model(o@), k@) == opt_strmap_v(m) {
                                    assert(get(map_model(o@), k@) == Some(v.model()));
                                    assert(m is Some);
                                    let mm = m->Some_0;
                                    assert(v.model() == JsonV::Object(strmap_model(mm@)));
                                    assert(strmap_model(mm@) == map_model(members@));
                                    assert(strmap_model(mm@).len() == mm@.len());
                                    assert(strmap_model(mm@)[i as int] == (mm@[i as int].0@, JsonV::Str(mm@[i as int].1@)));
                                }
                            }
                        }
                        return Err(DecodeError::InvalidParams);
                    },
                }
                i += 1;
            }
            proof {
                assert(map_model(members@).subrange(0, members@.len() as int) =~= map_model(members@));
            }
            Ok(Some(out))
        },
    }
}

pub open spec fn opt_number_v(o: Option<Number>) -> Option<JsonV> {
    match o {
        Some(n) => Some(JsonV::Number(n)),
        None => None,
    }
}

/// The wire form of an unsigned count: an `i64` where it fits.
pub open spec fn u64_v(n: u64) -> JsonV {
    if n <= i64::MAX as u64 {
        JsonV::Number(Number::Int(n as i64))
    } else {
        JsonV::Number(Number::UInt(n))
    }
}

pub open spec fn opt_u64_v(o: Option<u64>) -> Option<JsonV> {
    match o {
        Some(n) => Some(u64_v(n)),
        None => None,
    }
}

pub(crate) fn enc_opt_number(o: &Option<Number>) -> (r: Option<Json>)
    ensures
        opt_model(r) == opt_number_v(*o),
{
    match o {
        Some(n) => Some(Json::Number(*n)),
        None => None,
    }
}

pub(crate) fn enc_opt_u64(o: &Option<u64>) -> (r: Option<Json>)
    ensures
        opt_model(r) == opt_u64_v(*o),
{
    match o {
        Some(n) => {
            if *n <= i64::MAX as u64 {
                Some(Json::Number(Number::Int(*n as i64)))
            } else {
                Some(Json::Number(Number::UInt(*n)))
            }
        },
        None => None,
    }
}

/// A required numeric member, kept as it came.
pub(crate) fn req_number(o: &JsonMap, k: &str) -> (r: Result<Number, DecodeError>)
    ensures
        match r {
            Ok(n) => get(map_model(o@), k@) == Some(JsonV::Number(n)),
            Err(e) => (forall|n: Number| get(map_model(o@), k@) != Some(JsonV::Number(n))) && e == DecodeError::InvalidParams,
        },
{
    match find(o, k) {
        Some(Json::Number(n)) => Ok(*n),
        _ => Err(DecodeError::InvalidParams),
    }
}

/// An optional numeric member, kept as it came.
pub(crate) fn opt_number(o: &JsonMap, k: &str) -> (r: Result<Option<Number>, DecodeError>)
    ensures
        match r {
            Ok(n) => get(map_model(o@), k@) == opt_number_v(n),
            Err(e) => (forall|n: Option<Number>| get(map_model(o@), k@) != opt_number_v(n)) && e == DecodeError::InvalidParams,
        },
{
    match find(o, k) {
        Some(Json::Number(n)) => Ok(Some(*n)),
        Some(_) => Err(DecodeError::InvalidParams),
        None => Ok(None),
    }
}

/// An optional unsigned count.
pub(crate) fn opt_u64(o: &JsonMap, k: &str) -> (r: Result<Option<u64>, DecodeError>)
    ensures
        match r {
            Ok(n) => (get(map_model(o@), k@) matches Some(JsonV::Number(Number::UInt(u))) ==> n == Some(u))
                && (!(get(map_model(o@), k@) matches Some(JsonV::Number(Number::UInt(_)))) ==> get(map_model(o@), k@) == opt_u64_v(n)),
            Err(e) => (forall|n: Option<u64>| get(map_model(o@), k@) != opt_u64_v(n)) && e == DecodeError::InvalidParams,
        },
{
    match find(o, k) {
        Some(Json::Number(Number::Int(i))) => {
            if *i >= 0 {
                Ok(Some(*i as u64))
            } else {
                Err(DecodeError::InvalidParams)
            }
        },
        Some(Json::Number(Number::UInt(u))) => Ok(Some(*u)),
        Some(_) => Err(DecodeError::InvalidParams),
        None => Ok(None),
    }
}


// ---- enumerations ----

impl ProtocolVersion {
    pub open spec fn enc(self) -> JsonV {
        JsonV::Str(PROTOCOL_VERSION_TEXT@)
    }

    pub open spec fn wf(self) -> bool {
        true
    }
}

pub fn encode_protocol_version(x: &ProtocolVersion) -> (r: Json)
    ensures
        r.model() == x.enc(),
{
    Json::Str(PROTOCOL_VERSION_TEXT.to_owned())
}

pub fn decode_protocol_version(j: &Json) -> (r: Result<ProtocolVersion, DecodeError>)
    ensures
        (exists|t: ProtocolVersion| t.wf() && t.enc() == j.model()) ==> (r matches Ok(t) && t.wf() && t.enc() == j.model()),
{
    let s = str_value(j)?;
    if crate::record::same_text(&s, PROTOCOL_VERSION_TEXT) {
        Ok(ProtocolVersion::Mcp2024_11_05)
    } else {
        Err(DecodeError::InvalidParams)
    }
}

impl RequestId {
    pub open spec fn enc(self) -> JsonV {
        match self {
            RequestId::String(s) => str_v(s),
            RequestId::Number(n) => int_v(n),
        }
    }

    pub open spec fn wf(self) -> bool {
        true
    }
}

pub fn encode_request_id(x: &RequestId) -> (r: Json)
    ensures
        r.model() == x.enc(),
{
    match x {
        RequestId::String(s) => Json::Str(s.clone()),
        RequestId::Number(n) => Json::Number(Number::Int(*n)),
    }
}

pub fn decode_request_id(j: &Json) -> (r: Result<RequestId, DecodeError>)
    ensures
        (exists|t: RequestId| t.wf() && t.enc() == j.model()) ==> (r matches Ok(t) && t.wf() && t.enc() == j.model()),
        r matches Ok(t) ==> t.enc() == j.model(),
        (j.model() is Str || j.model() matches JsonV::Number(Number::Int(_))) ==> r is Ok,
{
    match j {
        Json::Str(s) => Ok(RequestId::String(s.clone())),
        Json::Number(Number::Int(n)) => Ok(RequestId::Number(*n)),
        _ => Err(DecodeError::InvalidEnvelope),
    }
}

impl ProgressToken {
    pub open spec fn enc(self) -> JsonV {
        match self {
            ProgressToken::String(s) => str_v(s),
            ProgressToken::Number(n) => int_v(n),
        }
    }

    pub open spec fn wf(self) -> bool {
        true
    }
}

pub fn encode_progress_token(x: &ProgressToken) -> (r: Json)
    ensures
        r.model() == x.enc(),
{
    match x {
        ProgressToken::String(s) => Json::Str(s.clone()),
        ProgressToken::Number(n) => Json::Number(Number::Int(*n)),
    }
}

pub fn decode_progress_token(j: &Json) -> (r: Result<ProgressToken, DecodeError>)
    ensures
        (exists|t: ProgressToken| t.wf() && t.enc() == j.model()) ==> (r matches Ok(t) && t.wf() && t.enc() == j.model()),
{
    match j {
        Json::Str(s) => Ok(ProgressToken::String(s.clone())),
        Json::Number(Number::Int(n)) => Ok(ProgressToken::Number(*n)),
        _ => Err(DecodeError::InvalidParams),
    }
}

/// The wire names of the known logging levels.
pub open spec fn level_names() -> Seq<Seq<char>> {
    seq!["debug"@, "info"@, "notice"@, "warning"@, "error"@, "critical"@, "alert"@, "emergency"@]
}

pub(crate) proof fn lemma_level_names()
    ensures
        level_names().no_duplicates(),
{
    reveal_strlit("debug");
    reveal_strlit("info");
    reveal_strlit("notice");
    reveal_strlit("warning");
    reveal_strlit("error");
    reveal_strlit("critical");
    reveal_strlit("alert");
    reveal_strlit("emergency");
    assert("debug"@.len() == 5);
    assert("info"@.len() == 4);
    assert("notice"@.len() == 6);
    assert("warning"@.len() == 7);
    assert("error"@.len() == 5);
    assert("critical"@.len() == 8);
    assert("alert"@.len() == 5);
    assert("emergency"@.len() == 9);
    assert("debug"@[0] == 'd' && "error"@[0] == 'e');
    assert("debug"@[0] == 'd' && "alert"@[0] == 'a');
    assert("error"@[0] == 'e' && "alert"@[0] == 'a');
}

impl LoggingLevel {
    pub open spec fn enc(self) -> JsonV {
        JsonV::Str(match self {
            LoggingLevel::Debug => "debug"@,
            LoggingLevel::Info => "info"@,
            LoggingLevel::Notice => "notice"@,
            LoggingLevel::Warning => "warning"@,
            LoggingLevel::Error => "error"@,
            LoggingLevel::Critical => "critical"@,
            LoggingLevel::Alert => "alert"@,
            LoggingLevel::Emergency => "emergency"@,
            LoggingLevel::Other(s) => s@,
        })
    }

    /// A level kept as text names none of the known ones.
    pub open spec fn wf(self) -> bool {
        self matches LoggingLevel::Other(s) ==> !level_names().contains(s@)
    }
}

pub fn encode_logging_level(x: &LoggingLevel) -> (r: Json)
    ensures
        r.model() == x.enc(),
{
    let s = match x {
        LoggingLevel::Debug => "debug".to_owned(),
        LoggingLevel::Info => "info".to_owned(),
        LoggingLevel::Notice => "notice".to_owned(),
        LoggingLevel::Warning => "warning".to_owned(),
        LoggingLevel::Error => "error".to_owned(),
        LoggingLevel::Critical => "critical".to_owned(),
        LoggingLevel::Alert => "alert".to_owned(),
        LoggingLevel::Emergency => "emergency".to_owned(),
        LoggingLevel::Other(s) => s.clone(),
    };
    Json::Str(s)
}

/// Reads a level; text that names no known level is kept as it is.
pub fn decode_logging_level(j: &Json) -> (r: Result<LoggingLevel, DecodeError>)
    ensures
        (exists|t: LoggingLevel| t.wf() && t.enc() == j.model()) ==> (r matches Ok(t) && t.wf() && t.enc() == j.model()),
        r matches Ok(t) ==> t.wf() && t.enc() == j.model(),
        j.model() is Str ==> r is Ok,
{
    let s = str_value(j)?;
    proof {
        lemma_level_names();
        reveal_strlit("debug");
        reveal_strlit("info");
        reveal_strlit("notice");
        reveal_strlit("warning");
        reveal_strlit("error");
        reveal_strlit("critical");
        reveal_strlit("alert");
        reveal_strlit("emergency");
    }
    let r = if crate::record::same_text(&s, "debug") {
        LoggingLevel::Debug
    } else if crate::record::same_text(&s, "info") {
        LoggingLevel::Info
    } else if crate::record::same_text(&s, "notice") {
        LoggingLevel::Notice
    } else if crate::record::same_text(&s, "warning") {
        LoggingLevel::Warning
    } else if crate::record::same_text(&s, "error") {
        LoggingLevel::Error
    } else if crate::record::same_text(&s, "critical") {
        LoggingLevel::Critical
    } else if crate::record::same_text(&s, "alert") {
        LoggingLevel::Alert
    } else if crate::record::same_text(&s, "emergency") {
        LoggingLevel::Emergency
    } else {
        proof {
            assert(!level_names().contains(s@)) by {
                if level_names().contains(s@) {
                    let i = choose|i: int| 0 <= i < level_names().len() && level_names()[i] == s@;
                }
            }
        }
        LoggingLevel::Other(s)
    };
    Ok(r)
}

/// The wire names of the known stop reasons.
pub open spec fn stop_reason_names() -> Seq<Seq<char>> {
    seq!["endTurn"@, "stopSequence"@, "maxTokens"@]
}

impl StopReason {
    pub open spec fn enc(self) -> JsonV {
        JsonV::Str(match self {
            StopReason::EndTurn => "endTurn"@,
            StopReason::StopSequence => "stopSequence"@,
            StopReason::MaxTokens => "maxTokens"@,
            StopReason::String(s) => s@,
        })
    }

    /// A reason kept as text names none of the known ones.
    pub open spec fn wf(self) -> bool {
        self matches StopReason::String(s) ==> !stop_reason_names().contains(s@)
    }
}

pub fn encode_stop_reason(x: &StopReason) -> (r: Json)
    ensures
        r.model() == x.enc(),
{
    let s = match x {
        StopReason::EndTurn => "endTurn".to_owned(),
        StopReason::StopSequence => "stopSequence".to_owned(),
        StopReason::MaxTokens => "maxTokens".to_owned(),
        StopReason::String(s) => s.clone(),
    };
    Json::Str(s)
}

/// Reads a stop reason; text that names no known reason is kept as it is.
pub fn decode_stop_reason(j: &Json) -> (r: Result<StopReason, DecodeError>)
    ensures
        (exists|t: StopReason| t.wf() && t.enc() == j.model()) ==> (r matches Ok(t) && t.wf() && t.enc() == j.model()),
        r matches Ok(t) ==> t.wf() && t.enc() == j.model(),
        j.model() is Str ==> r is Ok,
{
    let s = str_value(j)?;
    proof {
        reveal_strlit("endTurn");
        reveal_strlit("stopSequence");
        reveal_strlit("maxTokens");
        assert("endTurn"@.len() == 7);
        assert("stopSequence"@.len() == 12);
        assert("maxTokens"@.len() == 9);
    }
    let r = if crate::record::same_text(&s, "endTurn") {
        StopReason::EndTurn
    } else if crate::record::same_text(&s, "stopSequence") {
        StopReason::StopSequence
    } else if crate::record::same_text(&s, "maxTokens") {
        StopReason::MaxTokens
    } else {
        proof {
            assert(!stop_reason_names().contains(s@)) by {
                if stop_reason_names().contains(s@) {
                    let i = choose|i: int| 0 <= i < stop_reason_names().len() && stop_reason_names()[i] == s@;
                }
            }
        }
        StopReason::String(s)
    };
    Ok(r)
}

impl Role {
    pub open spec fn wf(self) -> bool {
        true
    }

    pub open spec fn enc(self) -> JsonV {
        JsonV::Str(match self {
            Role::User => "user"@,
            Role::Assistant => "assistant"@,
        })
    }
}

pub fn encode_role(x: &Role) -> (r: Json)
    ensures
        r.model() == x.enc(),
{
    match x {
        Role::User => Json::Str("user".to_owned()),
        Role::Assistant => Json::Str("assistant".to_owned()),
    }
}

/// Reads a role; any other text is an error.
pub fn decode_role(j: &Json) -> (r: Result<Role, DecodeError>)
    ensures
        (exists|t: Role| t.wf() && t.enc() == j.model()) ==> (r matches Ok(t) && t.wf() && t.enc() == j.model()),
        match r {
            Ok(t) => t.enc() == j.model(),
            Err(e) => forall|t: Role| t.enc() != j.model(),
        },
{
    proof {
        reveal_strlit("user");
        reveal_strlit("assistant");
        assert("user"@.len() == 4);
        assert("assistant"@.len() == 9);
    }
    let s = match str_value(j) {
        Ok(s) => s,
        Err(e) => {
            return Err(e);
        },
    };
    if crate::record::same_text(&s, "user") {
        Ok(Role::User)
    } else if crate::record::same_text(&s, "assistant") {
        Ok(Role::Assistant)
    } else {
        Err(DecodeError::InvalidParams)
    }
}

impl CompleteRequestRef {
    pub open spec fn fields(self) -> Fields {
        match self {
            CompleteRequestRef::Resource { uri } => seq![("type"@, Some(JsonV::Str("ref/resource"@))), ("uri"@, Some(str_v(uri)))],
            CompleteRequestRef::Prompt { name } => seq![("type"@, Some(JsonV::Str("ref/prompt"@))), ("name"@, Some(str_v(name)))],
        }
    }

    pub open spec fn enc(self) -> JsonV {
        record(self.fields(), Seq::empty())
    }

    pub open spec fn wf(self) -> bool {
        true
    }
}

pub fn encode_complete_request_ref(x: &CompleteRequestRef) -> (r: Json)
    ensures
        r.model() == x.enc(),
{
    match x {
        CompleteRequestRef::Resource { uri } => {
            let fs = vec![("type", Some(Json::Str("ref/resource".to_owned()))), ("uri", enc_str(uri))];
            proof {
                assert(fields_model(fs@) =~= x.fields());
            }
            build(fs, Vec::new())
        },
        CompleteRequestRef::Prompt { name } => {
            let fs = vec![("type", Some(Json::Str("ref/prompt".to_owned()))), ("name", enc_str(name))];
            proof {
                assert(fields_model(fs@) =~= x.fields());
            }
            build(fs, Vec::new())
        },
    }
}

pub fn decode_complete_request_ref(j: &Json) -> (r: Result<CompleteRequestRef, DecodeError>)
    ensures
        (exists|t: CompleteRequestRef| t.wf() && t.enc() == j.model()) ==> (r matches Ok(t) && t.wf() && t.enc() == j.model()),
{
    let ghost canon = exists|t: CompleteRequestRef| t.wf() && t.enc() == j.model();
    let ghost t = choose|t: CompleteRequestRef| t.wf() && t.enc() == j.model();
    let o = as_object(j)?;
    let ghost e = Seq::<(Seq<char>, JsonV)>::empty();
    proof {
        reveal_strlit("type");
        reveal_strlit("uri");
        reveal_strlit("name");
        reveal_strlit("ref/resource");
        reveal_strlit("ref/prompt");
        assert("type"@.len() == 4);
        assert("uri"@.len() == 3);
        assert("name"@.len() == 4);
        assert("type"@[0] == 't' && "name"@[0] == 'n');
        assert("ref/resource"@.len() == 12);
        assert("ref/prompt"@.len() == 10);
        if canon {
            let ks = field_keys(t.fields());
            assert(ks[0] == t.fields()[0].0 && ks[1] == t.fields()[1].0);
            assert(ks =~= seq!["type"@, t.fields()[1].0]);
            assert(separable(t.fields(), e, ks));
            lemma_record_get(t.fields(), e, ks, 0);
            lemma_record_get(t.fields(), e, ks, 1);
            assert(present(t.fields()) + e =~= present(t.fields()));
        }
    }
    let kind = req_str(o, "type")?;
    if crate::record::same_text(&kind, "ref/resource") {
        let uri = req_str(o, "uri")?;
        let r = CompleteRequestRef::Resource { uri };
        proof {
            if canon {
                assert(r.fields() =~= t.fields());
            }
        }
        Ok(r)
    } else if crate::record::same_text(&kind, "ref/prompt") {
        let name = req_str(o, "name")?;
        let r = CompleteRequestRef::Prompt { name };
        proof {
            if canon {
                assert(r.fields() =~= t.fields());
            }
        }
        Ok(r)
    } else {
        Err(DecodeError::InvalidParams)
    }
}



// ---- lists ----

/// A shape with a canonical encoding that the codec reads back.
pub trait WireShape: Sized {
    spec fn shape_enc(&self) -> JsonV;

    spec fn shape_wf(&self) -> bool;

    fn encode_shape(&self) -> (r: Json)
        ensures
            r.model() == self.shape_enc(),
    ;

    fn decode_shape(j: &Json) -> (r: Result<Self, DecodeError>)
        ensures
            (exists|t: Self| t.shape_wf() && t.shape_enc() == j.model()) ==> (r matches Ok(t) && t.shape_wf() && t.shape_enc() == j.model()),
    ;
}

/// The encoding of a list.
pub open spec fn seq_enc<T: WireShape>(s: Seq<T>) -> JsonV {
    JsonV::Array(Seq::new(s.len(), |i: int| s[i].shape_enc()))
}

/// Every element of a list is well formed.
pub open spec fn seq_wf<T: WireShape>(s: Seq<T>) -> bool {
    forall|i: int| 0 <= i < s.len() ==> #[trigger] s[i].shape_wf()
}

pub(crate) fn encode_vec<T: WireShape>(v: &Vec<T>) -> (r: Json)
    ensures
        r.model() == seq_enc(v@),
{
    let mut out: Vec<Json> = Vec::new();
    let mut i: usize = 0;
    while i < v.len()
        invariant
            i <= v@.len(),
            out@.len() == i,
            forall|k: int| 0 <= k < i ==> #[trigger] out@[k].model() == v@[k].shape_enc(),
        decreases v@.len() - i,
    {
        out.push(v[i].encode_shape());
        i += 1;
    }
    proof {
        crate::json::lemma_array_model(out);
        assert(crate::json::array_model(out@) =~= Seq::new(v@.len(), |k: int| v@[k].shape_enc()));
    }
    Json::Array(out)
}

pub(crate) fn decode_vec<T: WireShape>(j: &Json) -> (r: Result<Vec<T>, DecodeError>)
    ensures
        (exists|t: Vec<T>| seq_wf(t@) && seq_enc(t@) == j.model()) ==> (r matches Ok(t) && seq_wf(t@) && seq_enc(t@) == j.model()),
{
    let ghost canon = exists|t: Vec<T>| seq_wf(t@) && seq_enc(t@) == j.model();
    let ghost t = choose|t: Vec<T>| seq_wf(t@) && seq_enc(t@) == j.model();
    let a = match j {
        Json::Array(a) => a,
        _ => {
            return Err(DecodeError::InvalidParams);
        },
    };
    proof {
        crate::json::lemma_array_model(*a);
        if canon {
            assert(seq_enc(t@)->Array_0.len() == t@.len());
            assert(crate::json::array_model(a@).len() == a@.len());
        }
    }
    let mut out: Vec<T> = Vec::new();
    let mut i: usize = 0;
    while i < a.len()
        invariant
            i <= a@.len(),
            out@.len() == i,
            j.model() == JsonV::Array(crate::json::array_model(a@)),
            canon == (exists|t: Vec<T>| seq_wf(t@) && seq_enc(t@) == j.model()),
            canon ==> seq_wf(t@) && seq_enc(t@) == j.model() && t@.len() == a@.len(),
            canon ==> forall|k: int| 0 <= k < i ==> #[trigger] out@[k].shape_enc() == t@[k].shape_enc() && out@[k].shape_wf(),
        decreases a@.len() - i,
    {
        proof {
            if canon {
                assert(crate::json::array_model(a@)[i as int] == a@[i as int].model());
                assert(seq_enc(t@)->Array_0[i as int] == t@[i as int].shape_enc());
                assert(t@[i as int].shape_wf());
                assert(a@[i as int].model() == t@[i as int].shape_enc());
                assert(exists|x: T| x.shape_wf() && x.shape_enc() == a@[i as int].model());
            }
        }
        let x = match T::decode_shape(&a[i]) {
            Ok(x) => x,
            Err(e) => {
                return Err(e);
            },
        };
        proof {
            if canon {
                assert(x.shape_enc() == t@[i as int].shape_enc());
            }
        }
        out.push(x);
        i += 1;
    }
    proof {
        if canon {
            assert(Seq::new(out@.len(), |k: int| out@[k].shape_enc()) =~= Seq::new(t@.len(), |k: int| t@[k].shape_enc()));
            assert(seq_enc(out@) == seq_enc(t@));
            assert forall|k: int| 0 <= k < out@.len() implies #[trigger] out@[k].shape_wf() by {
                assert(out@[k].shape_enc() == t@[k].shape_enc());
            }
            assert(seq_wf(out@));
        }
    }
    Ok(out)
}

pub open spec fn opt_seq_enc<T: WireShape>(o: Option<Vec<T>>) -> Option<JsonV> {
    match o {
        Some(v) => Some(seq_enc(v@)),
        None => None,
    }
}

pub open spec fn opt_seq_wf<T: WireShape>(o: Option<Vec<T>>) -> bool {
    o matches Some(v) ==> seq_wf(v@)
}

impl WireShape for String {
    open spec fn shape_enc(&self) -> JsonV {
        str_v(*self)
    }

    open spec fn shape_wf(&self) -> bool {
        true
    }

    fn encode_shape(&self) -> (r: Json) {
        Json::Str(self.clone())
    }

    fn decode_shape(j: &Json) -> (r: Result<String, DecodeError>) {
        str_value(j)
    }
}

impl WireShape for Role {
    open spec fn shape_enc(&self) -> JsonV {
        self.enc()
    }

    open spec fn shape_wf(&self) -> bool {
        true
    }

    fn encode_shape(&self) -> (r: Json) {
        encode_role(self)
    }

    fn decode_shape(j: &Json) -> (r: Result<Role, DecodeError>) {
        decode_role(j)
    }
}

} // verus!
