use vstd::prelude::*;
use vstd::string::StringExecFns;

use crate::audit::Logger;
use crate::audit::attach_body_spec;
use crate::audit::attach_response_spec;
use crate::json::Json;
use crate::json::JsonV;
use crate::json::arr_view;
use crate::json::obj_view;
use crate::json::obj_get;
use crate::json::spec_obj_get;
use crate::json::render;
use crate::json::render_spec;
use crate::notes::NoteStore;
use crate::notes::NoteV;
use crate::notes::note_doc;
use crate::notes::notes_doc;
use crate::notes::note_to_json;
use crate::notes::spec_get;
use crate::notes::spec_remove;
use crate::notes::spec_update;
use crate::notes::contains_id;
use crate::notes::upd_note;

verus! {

/// How an RPC method fails: arguments that do not fit the method, or a
/// fault of the service itself (missing shared state, an identifier
/// collision during creation).
#[derive(Debug)]
pub enum RpcError {
    InvalidParams(String),
    InternalError,
}

/// Mathematical image of an `RpcError`.
pub enum RpcErrorV {
    InvalidParams(Seq<char>),
    InternalError,
}

impl View for RpcError {
    type V = RpcErrorV;

    open spec fn view(&self) -> RpcErrorV {
        match self {
            RpcError::InvalidParams(m) => RpcErrorV::InvalidParams(m@),
            RpcError::InternalError => RpcErrorV::InternalError,
        }
    }
}

pub open spec fn err_text(e: RpcErrorV) -> Seq<char> {
    match e {
        RpcErrorV::InvalidParams(m) => m,
        RpcErrorV::InternalError => "Internal error"@,
    }
}

impl RpcError {
    /// The error's descriptive text.
    pub fn message(&self) -> (r: String)
        ensures
            r@ == err_text(self@),
    {
        match self {
            RpcError::InvalidParams(m) => m.clone(),
            RpcError::InternalError => String::from_str("Internal error"),
        }
    }
}

fn invalid_params(m: &str) -> (r: RpcError)
    ensures
        r@ == RpcErrorV::InvalidParams(m@),
{
    RpcError::InvalidParams(String::from_str(m))
}

pub open spec fn res_view(r: Result<Json, RpcError>) -> Result<JsonV, RpcErrorV> {
    match r {
        Result::Ok(j) => Result::Ok(j@),
        Result::Err(e) => Result::Err(e@),
    }
}

/// What gets attached to the audit entry after a handler finishes: the
/// rendered result on success, the error's text on failure.
pub open spec fn response_text(r: Result<JsonV, RpcErrorV>) -> Seq<char> {
    match r {
        Result::Ok(v) => render_spec(v),
        Result::Err(e) => err_text(e),
    }
}

/// The audit trail a handler leaves: the rendered parameters attached as the
/// body of the most recent entry, then the response text attached to it.
pub open spec fn logged(s: Seq<crate::audit::LogEntryV>, p: JsonV, r: Result<JsonV, RpcErrorV>) -> Seq<
    crate::audit::LogEntryV,
> {
    attach_response_spec(attach_body_spec(s, render_spec(p)), response_text(r))
}

fn response_message(r: &Result<Json, RpcError>) -> (t: String)
    ensures
        t@ == response_text(res_view(*r)),
{
    match r {
        Result::Ok(j) => render(j),
        Result::Err(e) => e.message(),
    }
}

/// Read-only snapshot of the host environment, assembled by the host at
/// startup and reported verbatim by `system_info`.
pub struct SystemInfo {
    pub app_name: String,
    pub version: String,
    pub os: String,
    pub arch: String,
}

/// Mathematical image of a `SystemInfo`.
pub struct SystemInfoV {
    pub app_name: Seq<char>,
    pub version: Seq<char>,
    pub os: Seq<char>,
    pub arch: Seq<char>,
}

impl View for SystemInfo {
    type V = SystemInfoV;

    open spec fn view(&self) -> SystemInfoV {
        SystemInfoV {
            app_name: self.app_name@,
            version: self.version@,
            os: self.os@,
            arch: self.arch@,
        }
    }
}

/// The JSON image of a system-information snapshot.
pub open spec fn system_info_doc(i: SystemInfoV) -> JsonV {
    JsonV::Obj(
        seq![
            ("app_name"@, JsonV::Str(i.app_name)),
            ("version"@, JsonV::Str(i.version)),
            ("os"@, JsonV::Str(i.os)),
            ("arch"@, JsonV::Str(i.arch)),
        ],
    )
}

pub fn system_info_to_json(i: &SystemInfo) -> (r: Json)
    ensures
        r@ == system_info_doc(i@),
{
    let mut fs: Vec<(String, Json)> = Vec::new();
    fs.push((String::from_str("app_name"), Json::Str(i.app_name.clone())));
    fs.push((String::from_str("version"), Json::Str(i.version.clone())));
    fs.push((String::from_str("os"), Json::Str(i.os.clone())));
    fs.push((String::from_str("arch"), Json::Str(i.arch.clone())));
    let r = Json::Obj(fs);
    proof {
        let fsv = match &r {
            Json::Obj(v) => obj_view(v@),
            _ => Seq::empty(),
        };
        assert(fsv =~= match system_info_doc(i@) {
            JsonV::Obj(x) => x,
            _ => Seq::empty(),
        });
    }
    r
}

/// The `message` argument of `echo`: taken from the `message` key of a
/// parameter object, or from the first item of a parameter array, and
/// required to be a string.
pub open spec fn spec_decode_echo(p: JsonV) -> Result<Seq<char>, Seq<char>> {
    match p {
        JsonV::Obj(fs) => match spec_obj_get(fs, "message"@) {
            Option::Some(JsonV::Str(s)) => Result::Ok(s),
            _ => Result::Err("Missing or invalid 'message' parameter"@),
        },
        JsonV::Arr(els) => if els.len() > 0 && els[0] is Str {
            Result::Ok(els[0]->Str_0)
        } else {
            Result::Err("Expected string parameter"@)
        },
        _ => Result::Err("Expected object or array params"@),
    }
}

/// The `id` argument of `notes_get` and `notes_delete`.
pub open spec fn spec_decode_id(p: JsonV) -> Result<Seq<char>, Seq<char>> {
    match p {
        JsonV::Obj(fs) => match spec_obj_get(fs, "id"@) {
            Option::Some(JsonV::Str(s)) => Result::Ok(s),
            _ => Result::Err("Missing or invalid 'id' parameter"@),
        },
        JsonV::Arr(els) => if els.len() > 0 && els[0] is Str {
            Result::Ok(els[0]->Str_0)
        } else {
            Result::Err("Expected string parameter for note ID"@)
        },
        _ => Result::Err("Expected object or array params"@),
    }
}

/// The `title` and `content` arguments of `notes_create`, both required
/// strings; a parameter array must carry at least both of them.
pub open spec fn spec_decode_create(p: JsonV) -> Result<(Seq<char>, Seq<char>), Seq<char>> {
    match p {
        JsonV::Obj(fs) => match spec_obj_get(fs, "title"@) {
            Option::Some(JsonV::Str(t)) => match spec_obj_get(fs, "content"@) {
                Option::Some(JsonV::Str(c)) => Result::Ok((t, c)),
                _ => Result::Err("Missing or invalid 'content' parameter"@),
            },
            _ => Result::Err("Missing or invalid 'title' parameter"@),
        },
        JsonV::Arr(els) => if els.len() < 2 {
            Result::Err("Expected title and content parameters"@)
        } else if !(els[0] is Str) {
            Result::Err("Expected string parameter for title"@)
        } else if !(els[1] is Str) {
            Result::Err("Expected string parameter for content"@)
        } else {
            Result::Ok((els[0]->Str_0, els[1]->Str_0))
        },
        _ => Result::Err("Expected object or array params"@),
    }
}

/// An optional field of `notes_update`: a string stands for itself, an
/// absent or null value for "leave unchanged", anything else is rejected.
pub open spec fn spec_opt_field(v: Option<JsonV>) -> Result<Option<Seq<char>>, ()> {
    match v {
        Option::None => Result::Ok(Option::None),
        Option::Some(JsonV::Null) => Result::Ok(Option::None),
        Option::Some(JsonV::Str(s)) => Result::Ok(Option::Some(s)),
        Option::Some(_) => Result::Err(()),
    }
}

/// The `id`, `title` and `content` arguments of `notes_update`; a parameter
/// array must carry all three, with null standing for an absent field.
pub open spec fn spec_decode_update(p: JsonV) -> Result<
    (Seq<char>, Option<Seq<char>>, Option<Seq<char>>),
    Seq<char>,
> {
    match p {
        JsonV::Obj(fs) => match spec_obj_get(fs, "id"@) {
            Option::Some(JsonV::Str(id)) => match spec_opt_field(spec_obj_get(fs, "title"@)) {
                Result::Ok(t) => match spec_opt_field(spec_obj_get(fs, "content"@)) {
                    Result::Ok(c) => Result::Ok((id, t, c)),
                    Result::Err(_) => Result::Err("Invalid 'content' parameter"@),
                },
                Result::Err(_) => Result::Err("Invalid 'title' parameter"@),
            },
            _ => Result::Err("Missing or invalid 'id' parameter"@),
        },
        JsonV::Arr(els) => if els.len() < 3 {
            Result::Err("Expected id, title and content parameters"@)
        } else if !(els[0] is Str) {
            Result::Err("Expected string parameter for note ID"@)
        } else {
            match spec_opt_field(Option::Some(els[1])) {
                Result::Ok(t) => match spec_opt_field(Option::Some(els[2])) {
                    Result::Ok(c) => Result::Ok((els[0]->Str_0, t, c)),
                    Result::Err(_) => Result::Err("Expected string or null for content"@),
                },
                Result::Err(_) => Result::Err("Expected string or null for title"@),
            }
        },
        _ => Result::Err("Expected object or array params"@),
    }
}

/// What `echo` answers: the message, unchanged.
pub open spec fn spec_echo_result(p: JsonV) -> Result<JsonV, RpcErrorV> {
    match spec_decode_echo(p) {
        Result::Ok(m) => Result::Ok(JsonV::Str(m)),
        Result::Err(e) => Result::Err(RpcErrorV::InvalidParams(e)),
    }
}

/// `echo`: logs the parameters, returns the message argument unchanged,
/// logs the response.
pub fn rpc_echo(params: &Json, logger: &mut Logger) -> (r: Result<Json, RpcError>)
    requires
        old(logger).wf(),
    ensures
        final(logger).wf(),
        res_view(r) == spec_echo_result(params@),
        final(logger)@ =~= logged(old(logger)@, params@, spec_echo_result(params@)),
{
    logger.log_body(render(params));
    let result: Result<Json, RpcError> = match params {
        Json::Obj(fs) => match obj_get(fs, "message") {
            Option::Some(Json::Str(s)) => Result::Ok(Json::Str(s.clone())),
            _ => Result::Err(invalid_params("Missing or invalid 'message' parameter")),
        },
        Json::Arr(els) => {
            proof {
                if els@.len() > 0 {
                    assert(arr_view(els@)[0] == els@[0]@);
                }
            }
            if els.len() > 0 {
                match &els[0] {
                    Json::Str(s) => Result::Ok(Json::Str(s.clone())),
                    _ => Result::Err(invalid_params("Expected string parameter")),
                }
            } else {
                Result::Err(invalid_params("Expected string parameter"))
            }
        },
        _ => Result::Err(invalid_params("Expected object or array params")),
    };
    let text = response_message(&result);
    logger.log_response(text);
    result
}

/// What `system_info` answers: the host snapshot, as a JSON object.
pub open spec fn spec_system_info_result(i: SystemInfoV) -> Result<JsonV, RpcErrorV> {
    Result::Ok(system_info_doc(i))
}

/// `system_info`: logs the parameters, reports the host snapshot, logs the
/// response.
pub fn rpc_system_info(params: &Json, info: &SystemInfo, logger: &mut Logger) -> (r: Result<
    Json,
    RpcError,
>)
    requires
        old(logger).wf(),
    ensures
        final(logger).wf(),
        res_view(r) == spec_system_info_result(info@),
        final(logger)@ =~= logged(old(logger)@, params@, spec_system_info_result(info@)),
{
    logger.log_body(render(params));
    let result: Result<Json, RpcError> = Result::Ok(system_info_to_json(info));
    let text = response_message(&result);
    logger.log_response(text);
    result
}

pub open spec fn store_view(o: Option<NoteStore>) -> Option<Seq<NoteV>> {
    match o {
        Option::Some(st) => Option::Some(st@),
        Option::None => Option::None,
    }
}

pub open spec fn store_wf(o: Option<NoteStore>) -> bool {
    match o {
        Option::Some(st) => st.wf(),
        Option::None => true,
    }
}

/// What `notes_list` answers: the array of all notes, or an internal fault
/// when the shared store is unavailable.
pub open spec fn spec_notes_list_result(st: Option<Seq<NoteV>>) -> Result<JsonV, RpcErrorV> {
    match st {
        Option::Some(s) => Result::Ok(notes_doc(s)),
        Option::None => Result::Err(RpcErrorV::InternalError),
    }
}

/// `notes_list`: logs the parameters, reports every note, logs the
/// response.
pub fn rpc_notes_list(params: &Json, store: &Option<NoteStore>, logger: &mut Logger) -> (r: Result<
    Json,
    RpcError,
>)
    requires
        old(logger).wf(),
    ensures
        final(logger).wf(),
        res_view(r) == spec_notes_list_result(store_view(*store)),
        final(logger)@ =~= logged(old(logger)@, params@, spec_notes_list_result(store_view(*store))),
{
    logger.log_body(render(params));
    let result: Result<Json, RpcError> = match store {
        Option::Some(st) => Result::Ok(st.save_doc()),
        Option::None => Result::Err(RpcError::InternalError),
    };
    let text = response_message(&result);
    logger.log_response(text);
    result
}

/// What `notes_get` answers: the note as an object, null when the
/// identifier is unknown; bad parameters and a missing store fail.
pub open spec fn spec_notes_get_result(p: JsonV, st: Option<Seq<NoteV>>) -> Result<
    JsonV,
    RpcErrorV,
> {
    match spec_decode_id(p) {
        Result::Err(e) => Result::Err(RpcErrorV::InvalidParams(e)),
        Result::Ok(id) => match st {
            Option::None => Result::Err(RpcErrorV::InternalError),
            Option::Some(s) => match spec_get(s, id) {
                Option::Some(n) => Result::Ok(note_doc(n)),
                Option::None => Result::Ok(JsonV::Null),
            },
        },
    }
}

fn decode_id(params: &Json) -> (r: Result<String, RpcError>)
    ensures
        match r {
            Result::Ok(id) => spec_decode_id(params@) == Result::Ok::<_, Seq<char>>(id@),
            Result::Err(e) => e@ matches RpcErrorV::InvalidParams(m) && spec_decode_id(params@)
                == Result::Err::<Seq<char>, _>(m),
        },
{
    match params {
        Json::Obj(fs) => match obj_get(fs, "id") {
            Option::Some(Json::Str(s)) => Result::Ok(s.clone()),
            _ => Result::Err(invalid_params("Missing or invalid 'id' parameter")),
        },
        Json::Arr(els) => {
            proof {
                if els@.len() > 0 {
                    assert(arr_view(els@)[0] == els@[0]@);
                }
            }
            if els.len() > 0 {
                match &els[0] {
                    Json::Str(s) => Result::Ok(s.clone()),
                    _ => Result::Err(invalid_params("Expected string parameter for note ID")),
                }
            } else {
                Result::Err(invalid_params("Expected string parameter for note ID"))
            }
        },
        _ => Result::Err(invalid_params("Expected object or array params")),
    }
}

/// `notes_get`: logs the parameters, fetches one note, logs the response.
pub fn rpc_notes_get(params: &Json, store: &Option<NoteStore>, logger: &mut Logger) -> (r: Result<
    Json,
    RpcError,
>)
    requires
        old(logger).wf(),
    ensures
        final(logger).wf(),
        res_view(r) == spec_notes_get_result(params@, store_view(*store)),
        final(logger)@ =~= logged(
            old(logger)@,
            params@,
            spec_notes_get_result(params@, store_view(*store)),
        ),
{
    logger.log_body(render(params));
    let result: Result<Json, RpcError> = match decode_id(params) {
        Result::Err(e) => Result::Err(e),
        Result::Ok(id) => match store {
            Option::None => Result::Err(RpcError::InternalError),
            Option::Some(st) => match st.get(id.as_str()) {
                Option::Some(n) => Result::Ok(note_to_json(&n)),
                Option::None => Result::Ok(Json::Null),
            },
        },
    };
    let text = response_message(&result);
    logger.log_response(text);
    result
}

/// What `notes_delete` answers: whether a note was removed; bad parameters
/// and a missing store fail.
pub open spec fn spec_notes_delete_result(p: JsonV, st: Option<Seq<NoteV>>) -> Result<
    JsonV,
    RpcErrorV,
> {
    match spec_decode_id(p) {
        Result::Err(e) => Result::Err(RpcErrorV::InvalidParams(e)),
        Result::Ok(id) => match st {
            Option::None => Result::Err(RpcErrorV::InternalError),
            Option::Some(s) => Result::Ok(JsonV::Bool(contains_id(s, id))),
        },
    }
}

/// The store `notes_delete` leaves behind.
pub open spec fn spec_notes_delete_store(p: JsonV, st: Option<Seq<NoteV>>) -> Option<Seq<NoteV>> {
    match (spec_decode_id(p), st) {
        (Result::Ok(id), Option::Some(s)) => Option::Some(spec_remove(s, id)),
        _ => st,
    }
}

/// `notes_delete`: logs the parameters, removes one note, logs the
/// response.
pub fn rpc_notes_delete(params: &Json, store: &mut Option<NoteStore>, logger: &mut Logger) -> (r:
    Result<Json, RpcError>)
    requires
        old(logger).wf(),
        store_wf(*old(store)),
    ensures
        final(logger).wf(),
        store_wf(*final(store)),
        res_view(r) == spec_notes_delete_result(params@, store_view(*old(store))),
        store_view(*final(store)) == spec_notes_delete_store(params@, store_view(*old(store))),
        final(logger)@ =~= logged(
            old(logger)@,
            params@,
            spec_notes_delete_result(params@, store_view(*old(store))),
        ),
{
    logger.log_body(render(params));
    let result: Result<Json, RpcError> = match decode_id(params) {
        Result::Err(e) => Result::Err(e),
        Result::Ok(id) => match store {
            Option::None => Result::Err(RpcError::InternalError),
            Option::Some(st) => {
                let removed = st.delete(id.as_str());
                proof {
                    assert(store_view(*store) == Option::Some(st@));
                }
                Result::Ok(Json::Bool(removed))
            },
        },
    };
    let text = response_message(&result);
    logger.log_response(text);
    result
}

fn decode_create(params: &Json) -> (r: Result<(String, String), RpcError>)
    ensures
        match r {
            Result::Ok(tc) => spec_decode_create(params@) == Result::Ok::<_, Seq<char>>(
                (tc.0@, tc.1@),
            ),
            Result::Err(e) => e@ matches RpcErrorV::InvalidParams(m) && spec_decode_create(params@)
                == Result::Err::<(Seq<char>, Seq<char>), _>(m),
        },
{
    match params {
        Json::Obj(fs) => match obj_get(fs, "title") {
            Option::Some(Json::Str(t)) => match obj_get(fs, "content") {
                Option::Some(Json::Str(c)) => Result::Ok((t.clone(), c.clone())),
                _ => Result::Err(invalid_params("Missing or invalid 'content' parameter")),
            },
            _ => Result::Err(invalid_params("Missing or invalid 'title' parameter")),
        },
        Json::Arr(els) => {
            proof {
                if els@.len() > 0 {
                    assert(arr_view(els@)[0] == els@[0]@);
                }
                if els@.len() > 1 {
                    assert(arr_view(els@)[1] == els@[1]@);
                }
            }
            if els.len() < 2 {
                Result::Err(invalid_params("Expected title and content parameters"))
            } else {
                let t = match &els[0] {
                    Json::Str(s) => s,
                    _ => {
                        return Result::Err(invalid_params("Expected string parameter for title"));
                    },
                };
                let c = match &els[1] {
                    Json::Str(s) => s,
                    _ => {
                        return Result::Err(invalid_params("Expected string parameter for content"));
                    },
                };
                Result::Ok((t.clone(), c.clone()))
            }
        },
        _ => Result::Err(invalid_params("Expected object or array params")),
    }
}

/// What `notes_create` answers when the store is reachable and the
/// parameters are well-formed is not a function of the inputs alone: the
/// identifier and the timestamps are drawn at creation. The contract states
/// what holds of every outcome, and that the only failure left — a drawn
/// identifier that collides — cannot happen on an empty store.
pub fn rpc_notes_create(params: &Json, store: &mut Option<NoteStore>, logger: &mut Logger) -> (r:
    Result<Json, RpcError>)
    requires
        old(logger).wf(),
        store_wf(*old(store)),
    ensures
        final(logger).wf(),
        store_wf(*final(store)),
        final(logger)@ =~= logged(old(logger)@, params@, res_view(r)),
        match spec_decode_create(params@) {
            Result::Err(e) => res_view(r) == Result::Err::<JsonV, _>(RpcErrorV::InvalidParams(e))
                && store_view(*final(store)) == store_view(*old(store)),
            Result::Ok(tc) => match store_view(*old(store)) {
                Option::None => res_view(r) == Result::Err::<JsonV, _>(RpcErrorV::InternalError)
                    && store_view(*final(store)) == store_view(*old(store)),
                Option::Some(s) => match res_view(r) {
                    Result::Ok(v) => exists|n: NoteV|
                        {
                            &&& n.title == tc.0
                            &&& n.content == tc.1
                            &&& n.created_at == n.updated_at
                            &&& !contains_id(s, n.id)
                            &&& v == note_doc(n)
                            &&& store_view(*final(store)) == Option::Some(s.push(n))
                        },
                    Result::Err(e) => e == RpcErrorV::InternalError && store_view(*final(store))
                        == store_view(*old(store)) && s.len() > 0,
                },
            },
        },
{
    logger.log_body(render(params));
    let result: Result<Json, RpcError> = match decode_create(params) {
        Result::Err(e) => Result::Err(e),
        Result::Ok((title, content)) => {
            let ghost tv = title@;
            let ghost cv = content@;
            match store {
                Option::None => Result::Err(RpcError::InternalError),
                Option::Some(st) => {
                    let ghost prev = st@;
                    match st.create(title, content) {
                        Option::Some(n) => {
                            let v = note_to_json(&n);
                            proof {
                                assert({
                                    &&& n@.title == tv
                                    &&& n@.content == cv
                                    &&& n@.created_at == n@.updated_at
                                    &&& !contains_id(prev, n@.id)
                                    &&& v@ == note_doc(n@)
                                    &&& store_view(*store) == Option::Some(prev.push(n@))
                                });
                            }
                            Result::Ok(v)
                        },
                        Option::None => Result::Err(RpcError::InternalError),
                    }
                },
            }
        },
    };
    let text = response_message(&result);
    logger.log_response(text);
    result
}

fn decode_update(params: &Json) -> (r: Result<(String, Option<String>, Option<String>), RpcError>)
    ensures
        match r {
            Result::Ok(d) => spec_decode_update(params@) == Result::Ok::<_, Seq<char>>(
                (d.0@, crate::notes::opt_view(d.1), crate::notes::opt_view(d.2)),
            ),
            Result::Err(e) => e@ matches RpcErrorV::InvalidParams(m) && spec_decode_update(params@)
                == Result::Err::<(Seq<char>, Option<Seq<char>>, Option<Seq<char>>), _>(m),
        },
{
    match params {
        Json::Obj(fs) => {
            let id = match obj_get(fs, "id") {
                Option::Some(Json::Str(s)) => s.clone(),
                _ => {
                    return Result::Err(invalid_params("Missing or invalid 'id' parameter"));
                },
            };
            let title = match obj_get(fs, "title") {
                Option::Some(Json::Str(s)) => Option::Some(s.clone()),
                Option::Some(Json::Null) => Option::None,
                Option::None => Option::None,
                Option::Some(_) => {
                    return Result::Err(invalid_params("Invalid 'title' parameter"));
                },
            };
            let content = match obj_get(fs, "content") {
                Option::Some(Json::Str(s)) => Option::Some(s.clone()),
                Option::Some(Json::Null) => Option::None,
                Option::None => Option::None,
                Option::Some(_) => {
                    return Result::Err(invalid_params("Invalid 'content' parameter"));
                },
            };
            Result::Ok((id, title, content))
        },
        Json::Arr(els) => {
            proof {
                if els@.len() > 0 {
                    assert(arr_view(els@)[0] == els@[0]@);
                }
                if els@.len() > 1 {
                    assert(arr_view(els@)[1] == els@[1]@);
                }
                if els@.len() > 2 {
                    assert(arr_view(els@)[2] == els@[2]@);
                }
            }
            if els.len() < 3 {
                return Result::Err(invalid_params("Expected id, title and content parameters"));
            }
            let id = match &els[0] {
                Json::Str(s) => s.clone(),
                _ => {
                    return Result::Err(invalid_params("Expected string parameter for note ID"));
                },
            };
            let title = match &els[1] {
                Json::Str(s) => Option::Some(s.clone()),
                Json::Null => Option::None,
                _ => {
                    return Result::Err(invalid_params("Expected string or null for title"));
                },
            };
            let content = match &els[2] {
                Json::Str(s) => Option::Some(s.clone()),
                Json::Null => Option::None,
                _ => {
                    return Result::Err(invalid_params("Expected string or null for content"));
                },
            };
            Result::Ok((id, title, content))
        },
        _ => Result::Err(invalid_params("Expected object or array params")),
    }
}

/// What one `notes_update` call did, for the update time `t` it drew from
/// the clock: how the answer and the store it left behind relate to the
/// parameters and the store it found.
pub open spec fn update_outcome(
    p: JsonV,
    st0: Option<Seq<NoteV>>,
    st1: Option<Seq<NoteV>>,
    r: Result<JsonV, RpcErrorV>,
    t: u64,
) -> bool {
    match spec_decode_update(p) {
        Result::Err(e) => r == Result::Err::<JsonV, _>(RpcErrorV::InvalidParams(e)) && st1 == st0,
        Result::Ok(d) => match st0 {
            Option::None => r == Result::Err::<JsonV, _>(RpcErrorV::InternalError) && st1 == st0,
            Option::Some(s) => {
                &&& st1 == Option::Some(spec_update(s, d.0, d.1, d.2, t))
                &&& r == (match spec_get(s, d.0) {
                    Option::Some(n) => Result::Ok::<_, RpcErrorV>(
                        note_doc(upd_note(n, d.1, d.2, t)),
                    ),
                    Option::None => Result::Ok::<_, RpcErrorV>(JsonV::Null),
                })
            },
        },
    }
}

/// `notes_update`: logs the parameters, rewrites the provided fields of one
/// note, answers the rewritten note (or null for an unknown identifier),
/// logs the response. The update time is drawn from the clock, so the
/// contract holds for some timestamp.
pub fn rpc_notes_update(params: &Json, store: &mut Option<NoteStore>, logger: &mut Logger) -> (r:
    Result<Json, RpcError>)
    requires
        old(logger).wf(),
        store_wf(*old(store)),
    ensures
        final(logger).wf(),
        store_wf(*final(store)),
        final(logger)@ =~= logged(old(logger)@, params@, res_view(r)),
        exists|t: u64|
            update_outcome(
                params@,
                store_view(*old(store)),
                store_view(*final(store)),
                res_view(r),
                t,
            ),
{
    let ghost pv = params@;
    let ghost st0 = store_view(*store);
    let ghost mut tw: u64 = 0;
    logger.log_body(render(params));
    let result: Result<Json, RpcError> = match decode_update(params) {
        Result::Err(e) => Result::Err(e),
        Result::Ok((id, title, content)) => {
            let ghost idv = id@;
            let ghost tv = crate::notes::opt_view(title);
            let ghost cv = crate::notes::opt_view(content);
            match store {
                Option::None => Result::Err(RpcError::InternalError),
                Option::Some(st) => {
                    let ghost prev = st@;
                    let upd = st.update(id.as_str(), title, content);
                    match upd {
                        Option::Some(n) => {
                            let v = note_to_json(&n);
                            proof {
                                tw = choose|t: u64|
                                    {
                                        &&& st@ =~= spec_update(prev, idv, tv, cv, t)
                                        &&& spec_get(prev, idv) matches Option::Some(m) && n@
                                            == upd_note(m, tv, cv, t)
                                    };
                            }
                            Result::Ok(v)
                        },
                        Option::None => {
                            proof {
                                tw = choose|t: u64|
                                    {
                                        &&& st@ =~= spec_update(prev, idv, tv, cv, t)
                                        &&& spec_get(prev, idv) is None
                                    };
                            }
                            Result::Ok(Json::Null)
                        },
                    }
                },
            }
        },
    };
    let text = response_message(&result);
    logger.log_response(text);
    proof {
        assert(update_outcome(pv, st0, store_view(*store), res_view(result), tw));
    }
    result
}

} // verus!
