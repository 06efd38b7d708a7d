//! The two completion backends' wire logic, as far as it is computation:
//! building the request a backend needs, and digging the reply text out
//! of what it returned. The transport itself stays with the caller.

use vstd::prelude::*;
use vstd::string::*;
use crate::codec::{as_str, as_str_x, obj_get, obj_get_x};
use crate::errors::AiError;
use crate::json::{
    Json, JsonV, Member, MemberV, encode_json, jsonv_list, jsonv_of, lemma_jsonv_list_index,
    lemma_memberv_list_index, lemma_wf_arr, lemma_wf_obj, memberv_list, memberv_of, print_jsonv,
    wf_jsonv,
};
use crate::text::clean_str;

verus! {

/// Which backend the service is configured to call.
#[derive(Debug, Clone, Copy, PartialEq, Eq, Structural)]
pub enum ProviderKind {
    /// A managed-conversation endpoint: one user-role text message in,
    /// one message of text blocks out.
    Managed,
    /// A direct REST `generateContent` endpoint, addressed by model id
    /// and API key.
    Rest,
}

/// One piece of work for the caller's transport: either post `body` to
/// `url`, or send `message` as the single user message of a managed
/// conversation.
#[derive(Debug, PartialEq, Eq)]
pub enum ProviderRequest {
    Rest { url: String, body: String },
    Managed { message: String },
}

/// The REST request document: the prompt as the single part of the single
/// content, and a hint asking for JSON output.
pub open spec fn rest_body_jsonv(prompt: Seq<char>) -> JsonV {
    JsonV::Obj(
        seq![
            MemberV {
                key: "contents"@,
                val: JsonV::Arr(
                    seq![
                        JsonV::Obj(
                            seq![
                                MemberV {
                                    key: "parts"@,
                                    val: JsonV::Arr(
                                        seq![
                                            JsonV::Obj(
                                                seq![MemberV { key: "text"@, val: JsonV::Str(prompt) }],
                                            ),
                                        ],
                                    ),
                                },
                            ],
                        ),
                    ],
                ),
            },
            MemberV {
                key: "generationConfig"@,
                val: JsonV::Obj(
                    seq![
                        MemberV {
                            key: "responseMimeType"@,
                            val: JsonV::Str("application/json"@),
                        },
                    ],
                ),
            },
        ],
    )
}

/// The REST endpoint address for one model and key.
pub open spec fn rest_url(model_id: Seq<char>, api_key: Seq<char>) -> Seq<char> {
    "https://generativelanguage.googleapis.com/v1beta/models/"@ + model_id
        + ":generateContent?key="@ + api_key
}

/// Builds the REST endpoint address.
pub fn build_rest_url(model_id: &str, api_key: &str) -> (r: String)
    ensures
        r@ == rest_url(model_id@, api_key@),
{
    let mut s = String::from_str("https://generativelanguage.googleapis.com/v1beta/models/");
    s.append(model_id);
    s.append(":generateContent?key=");
    s.append(api_key);
    s
}

/// Builds the REST request body, printed compactly.
pub fn build_rest_body(prompt: &str) -> (r: String)
    requires
        clean_str(prompt@),
    ensures
        r@ == print_jsonv(rest_body_jsonv(prompt@)),
{
    let mut text_obj_ms: Vec<Member> = Vec::new();
    text_obj_ms.push(Member { key: String::from_str("text"), val: Json::Str(String::from_str(prompt)) });
    let text_obj = Json::Obj(text_obj_ms);
    let mut parts: Vec<Json> = Vec::new();
    parts.push(text_obj);
    let mut content_ms: Vec<Member> = Vec::new();
    content_ms.push(Member { key: String::from_str("parts"), val: Json::Arr(parts) });
    let content = Json::Obj(content_ms);
    let mut contents: Vec<Json> = Vec::new();
    contents.push(content);
    let mut cfg_ms: Vec<Member> = Vec::new();
    cfg_ms.push(
        Member {
            key: String::from_str("responseMimeType"),
            val: Json::Str(String::from_str("application/json")),
        },
    );
    let cfg = Json::Obj(cfg_ms);
    let mut top_ms: Vec<Member> = Vec::new();
    top_ms.push(Member { key: String::from_str("contents"), val: Json::Arr(contents) });
    top_ms.push(Member { key: String::from_str("generationConfig"), val: cfg });
    let top = Json::Obj(top_ms);
    proof {
        lemma_memberv_list_index(text_obj_ms, 0);
        assert(memberv_list(text_obj_ms, 0) =~= seq![
            MemberV { key: "text"@, val: JsonV::Str(prompt@) },
        ]);
        lemma_jsonv_list_index(parts, 0);
        assert(jsonv_list(parts, 0) =~= seq![
            JsonV::Obj(seq![MemberV { key: "text"@, val: JsonV::Str(prompt@) }]),
        ]);
        lemma_memberv_list_index(content_ms, 0);
        assert(memberv_list(content_ms, 0) =~= rest_body_jsonv(prompt@)->Obj_0[0].val->Arr_0[0]->Obj_0);
        lemma_jsonv_list_index(contents, 0);
        assert(jsonv_list(contents, 0) =~= rest_body_jsonv(prompt@)->Obj_0[0].val->Arr_0);
        lemma_memberv_list_index(cfg_ms, 0);
        assert(memberv_list(cfg_ms, 0) =~= rest_body_jsonv(prompt@)->Obj_0[1].val->Obj_0);
        lemma_memberv_list_index(top_ms, 0);
        let want = rest_body_jsonv(prompt@)->Obj_0;
        assert(memberv_of(top_ms@[0]).key == "contents"@);
        assert(memberv_of(top_ms@[0]).val == JsonV::Arr(jsonv_list(contents, 0)));
        assert(jsonv_list(contents, 0) == want[0].val->Arr_0);
        assert(memberv_of(top_ms@[0]) == want[0]);
        assert(memberv_of(top_ms@[1]).key == "generationConfig"@);
        assert(memberv_of(top_ms@[1]).val == JsonV::Obj(memberv_list(cfg_ms, 0)));
        assert(memberv_list(cfg_ms, 0) == want[1].val->Obj_0);
        assert(memberv_of(top_ms@[1]) == want[1]);
        assert(memberv_list(top_ms, 0) =~= want);
        assert(top@ == rest_body_jsonv(prompt@));
        lemma_rest_body_wf(prompt@);
    }
    encode_json(&top)
}

/// The request body of a well-formed prompt is well formed.
pub proof fn lemma_rest_body_wf(prompt: Seq<char>)
    requires
        clean_str(prompt),
    ensures
        wf_jsonv(rest_body_jsonv(prompt)),
{
    reveal_strlit("contents");
    reveal_strlit("parts");
    reveal_strlit("text");
    reveal_strlit("generationConfig");
    reveal_strlit("responseMimeType");
    reveal_strlit("application/json");
    let text_obj = JsonV::Obj(seq![MemberV { key: "text"@, val: JsonV::Str(prompt) }]);
    assert(clean_str("text"@)) by {
        assert forall|k: int| 0 <= k < "text"@.len() implies crate::text::is_clean_char(
            "text"@[k],
        ) by {}
    }
    assert(wf_jsonv(text_obj)) by {
        lemma_wf_obj(text_obj->Obj_0);
        assert(text_obj->Obj_0[0].key == "text"@);
    }
    let parts = seq![text_obj];
    assert(wf_jsonv(JsonV::Arr(parts))) by {
        lemma_wf_arr(parts);
    }
    assert(clean_str("parts"@)) by {
        assert forall|k: int| 0 <= k < "parts"@.len() implies crate::text::is_clean_char(
            "parts"@[k],
        ) by {}
    }
    let content = JsonV::Obj(seq![MemberV { key: "parts"@, val: JsonV::Arr(parts) }]);
    assert(wf_jsonv(content)) by {
        lemma_wf_obj(content->Obj_0);
    }
    let contents = seq![content];
    assert(wf_jsonv(JsonV::Arr(contents))) by {
        lemma_wf_arr(contents);
    }
    assert(clean_str("application/json"@)) by {
        assert forall|k: int| 0 <= k < "application/json"@.len() implies
            crate::text::is_clean_char("application/json"@[k]) by {}
    }
    assert(clean_str("responseMimeType"@)) by {
        assert forall|k: int| 0 <= k < "responseMimeType"@.len() implies
            crate::text::is_clean_char("responseMimeType"@[k]) by {}
    }
    let cfg = JsonV::Obj(
        seq![MemberV { key: "responseMimeType"@, val: JsonV::Str("application/json"@) }],
    );
    assert(wf_jsonv(cfg)) by {
        lemma_wf_obj(cfg->Obj_0);
    }
    assert(clean_str("contents"@)) by {
        assert forall|k: int| 0 <= k < "contents"@.len() implies crate::text::is_clean_char(
            "contents"@[k],
        ) by {}
    }
    assert(clean_str("generationConfig"@)) by {
        assert forall|k: int| 0 <= k < "generationConfig"@.len() implies
            crate::text::is_clean_char("generationConfig"@[k]) by {}
    }
    let top = rest_body_jsonv(prompt);
    assert(wf_jsonv(top)) by {
        lemma_wf_obj(top->Obj_0);
        assert(top->Obj_0[0].val == JsonV::Arr(contents));
        assert(top->Obj_0[1].val == cfg);
    }
}

/// The work to hand the transport for one prompt, under the configured
/// backend.
pub fn build_provider_request(
    kind: ProviderKind,
    model_id: &str,
    api_key: &str,
    prompt: String,
) -> (r: ProviderRequest)
    requires
        clean_str(prompt@),
    ensures
        match kind {
            ProviderKind::Rest => (r matches ProviderRequest::Rest { url, body } && url@
                == rest_url(model_id@, api_key@) && body@ == print_jsonv(
                rest_body_jsonv(prompt@),
            )),
            ProviderKind::Managed => (r matches ProviderRequest::Managed { message } && message@
                == prompt@),
        },
{
    match kind {
        ProviderKind::Rest => {
            let url = build_rest_url(model_id, api_key);
            let body = build_rest_body(prompt.as_str());
            ProviderRequest::Rest { url, body }
        },
        ProviderKind::Managed => ProviderRequest::Managed { message: prompt },
    }
}

/// The text of the first candidate's first part of a REST reply document.
pub open spec fn rest_reply_text(v: JsonV) -> Option<Seq<char>> {
    if !(v is Obj) {
        None
    } else {
        match obj_get(v->Obj_0, "candidates"@) {
            Some(c) => if c is Arr && c->Arr_0.len() > 0 {
                let first = c->Arr_0[0];
                if !(first is Obj) {
                    None
                } else {
                    match obj_get(first->Obj_0, "content"@) {
                        Some(ct) => if !(ct is Obj) {
                            None
                        } else {
                            match obj_get(ct->Obj_0, "parts"@) {
                                Some(p) => if p is Arr && p->Arr_0.len() > 0 {
                                    let part = p->Arr_0[0];
                                    if !(part is Obj) {
                                        None
                                    } else {
                                        match obj_get(part->Obj_0, "text"@) {
                                            Some(t) => as_str(t),
                                            None => None,
                                        }
                                    }
                                } else {
                                    None
                                },
                                None => None,
                            }
                        },
                        None => None,
                    }
                }
            } else {
                None
            },
            None => None,
        }
    }
}


/// What a REST reply yields for each inbound status and body: a
/// non-success status is surfaced with its body; a success body that is
/// not a JSON document, or one without a first candidate part, is a
/// malformed success; otherwise the part's text is the reply.
pub open spec fn rest_reply_spec(status: u16, body: Seq<char>) -> Result<Seq<char>, AiError> {
    if !(200 <= status < 300) {
        Err(AiError::ProviderStatusError(status, arbitrary()))
    } else {
        match crate::jsonparse::sparse_json(body) {
            None => Err(AiError::ProviderShapeError(arbitrary())),
            Some(v) => match rest_reply_text(v) {
                Some(t) => Ok(t),
                None => Err(AiError::ProviderShapeError(arbitrary())),
            },
        }
    }
}

/// Digs the reply text out of a REST response.
///
/// A non-success status yields `ProviderStatusError` carrying the exact
/// status and body; a success response without a readable first
/// candidate part yields `ProviderShapeError`.
pub fn extract_rest_reply(status: u16, body: String) -> (r: Result<String, AiError>)
    ensures
        !(200 <= status < 300) ==> (r matches Err(e) && e == AiError::ProviderStatusError(
            status,
            body,
        )),
        (200 <= status < 300) ==> match crate::jsonparse::sparse_json(body@) {
            None => r matches Err(e) && e is ProviderShapeError,
            Some(v) => match rest_reply_text(v) {
                Some(t) => r matches Ok(s) && s@ == t,
                None => r matches Err(e) && e is ProviderShapeError,
            },
        },
{
    if !(200 <= status && status < 300) {
        return Err(AiError::ProviderStatusError(status, body));
    }
    let parsed = crate::jsonparse::parse_json(body.as_str());
    match parsed {
        None => Err(
            AiError::ProviderShapeError(String::from_str("the response body is not a JSON document")),
        ),
        Some(v) => {
            match extract_rest_text(&v) {
                Some(t) => Ok(t),
                None => Err(
                    AiError::ProviderShapeError(
                        String::from_str("the response carries no candidate text part"),
                    ),
                ),
            }
        },
    }
}

/// Executable form of `rest_reply_text`.
fn extract_rest_text(v: &Json) -> (r: Option<String>)
    ensures
        match r {
            Some(s) => rest_reply_text(v@) == Some(s@),
            None => rest_reply_text(v@) is None,
        },
{
    match v {
        Json::Obj(ms) => {
            proof {
                assert(v@ == JsonV::Obj(memberv_list(*ms, 0)));
            }
            match obj_get_x(ms, "candidates") {
                Some(c) => match c {
                    Json::Arr(cands) => {
                        proof {
                            assert(c@ == JsonV::Arr(jsonv_list(*cands, 0)));
                            lemma_jsonv_list_index(*cands, 0);
                        }
                        if cands.len() == 0 {
                            return None;
                        }
                        proof {
                            assert(jsonv_list(*cands, 0)[0] == jsonv_of(cands@[0]));
                        }
                        match &cands[0] {
                            Json::Obj(fm) => {
                                proof {
                                    assert(cands@[0]@ == JsonV::Obj(memberv_list(*fm, 0)));
                                }
                                match obj_get_x(fm, "content") {
                                    Some(ct) => match ct {
                                        Json::Obj(cm) => {
                                            proof {
                                                assert(ct@ == JsonV::Obj(memberv_list(*cm, 0)));
                                            }
                                            match obj_get_x(cm, "parts") {
                                                Some(p) => match p {
                                                    Json::Arr(parts) => {
                                                        proof {
                                                            assert(p@ == JsonV::Arr(
                                                                jsonv_list(*parts, 0),
                                                            ));
                                                            lemma_jsonv_list_index(*parts, 0);
                                                        }
                                                        if parts.len() == 0 {
                                                            return None;
                                                        }
                                                        proof {
                                                            assert(jsonv_list(*parts, 0)[0]
                                                                == jsonv_of(parts@[0]));
                                                        }
                                                        match &parts[0] {
                                                            Json::Obj(pm) => {
                                                                proof {
                                                                    assert(parts@[0]@
                                                                        == JsonV::Obj(
                                                                        memberv_list(*pm, 0),
                                                                    ));
                                                                }
                                                                match obj_get_x(pm, "text") {
                                                                    Some(t) => as_str_x(t),
                                                                    None => None,
                                                                }
                                                            },
                                                            _ => None,
                                                        }
                                                    },
                                                    _ => None,
                                                },
                                                None => None,
                                            }
                                        },
                                        _ => None,
                                    },
                                    None => None,
                                }
                            },
                            _ => None,
                        }
                    },
                    _ => None,
                },
                None => None,
            }
        },
        _ => None,
    }
}

/// One block of a managed-conversation reply message.
#[derive(Debug, Clone, PartialEq, Eq)]
pub enum ContentBlock {
    /// A text segment.
    Text(String),
    /// Anything that is not text (an image, a tool call).
    Other,
}

/// The shape of a content block.
pub enum ContentBlockV {
    Text(Seq<char>),
    Other,
}

impl View for ContentBlock {
    type V = ContentBlockV;

    open spec fn view(&self) -> ContentBlockV {
        match self {
            ContentBlock::Text(s) => ContentBlockV::Text(s@),
            ContentBlock::Other => ContentBlockV::Other,
        }
    }
}

/// The reply message of a managed conversation.
#[derive(Debug, Clone, PartialEq, Eq)]
pub struct ConverseMessage {
    /// Whether the message came back in the assistant role.
    pub from_assistant: bool,
    pub content: Vec<ContentBlock>,
}

/// All text segments of a message, concatenated in order.
pub open spec fn text_of_blocks(bs: Seq<ContentBlockV>) -> Seq<char>
    decreases bs.len(),
{
    if bs.len() == 0 {
        Seq::<char>::empty()
    } else {
        (match bs[0] {
            ContentBlockV::Text(t) => t,
            ContentBlockV::Other => Seq::<char>::empty(),
        }) + text_of_blocks(bs.drop_first())
    }
}

pub proof fn lemma_text_of_blocks_push(bs: Seq<ContentBlockV>, x: ContentBlockV)
    ensures
        text_of_blocks(bs.push(x)) == text_of_blocks(bs) + (match x {
            ContentBlockV::Text(t) => t,
            ContentBlockV::Other => Seq::<char>::empty(),
        }),
    decreases bs.len(),
{
    if bs.len() == 0 {
        assert(bs.push(x)[0] == x);
        assert(bs.push(x).drop_first() =~= Seq::<ContentBlockV>::empty());
        assert(text_of_blocks(Seq::<ContentBlockV>::empty()) == Seq::<char>::empty());
        assert(text_of_blocks(bs.push(x)) =~= text_of_blocks(bs) + (match x {
            ContentBlockV::Text(t) => t,
            ContentBlockV::Other => Seq::<char>::empty(),
        }));
    } else {
        assert(bs.push(x)[0] == bs[0]);
        assert(bs.push(x).drop_first() =~= bs.drop_first().push(x));
        lemma_text_of_blocks_push(bs.drop_first(), x);
        assert(text_of_blocks(bs.push(x)) =~= text_of_blocks(bs) + (match x {
            ContentBlockV::Text(t) => t,
            ContentBlockV::Other => Seq::<char>::empty(),
        }));
    }
}

/// Digs the reply text out of a managed-conversation response: the
/// concatenated text segments of the first message.
///
/// No message, a message outside the assistant role, and a message whose
/// text comes up empty are each a malformed success.
pub fn extract_converse_reply(msg: Option<&ConverseMessage>) -> (r: Result<String, AiError>)
    ensures
        match msg {
            None => r matches Err(e) && e is ProviderShapeError,
            Some(m) => {
                let text = text_of_blocks(Seq::new(m.content@.len(), |i: int| m.content@[i]@));
                if !m.from_assistant {
                    r matches Err(e) && e is ProviderShapeError
                } else if text.len() == 0 {
                    r matches Err(e) && e is ProviderShapeError
                } else {
                    r matches Ok(s) && s@ == text
                }
            },
        },
{
    match msg {
        None => Err(
            AiError::ProviderShapeError(String::from_str("the response carries no message")),
        ),
        Some(m) => {
            if !m.from_assistant {
                return Err(
                    AiError::ProviderShapeError(
                        String::from_str("the response message is not an assistant message"),
                    ),
                );
            }
            let ghost bv = Seq::new(m.content@.len(), |i: int| m.content@[i]@);
            let n = m.content.len();
            let mut out = String::new();
            let mut i: usize = 0;
            proof {
                assert(bv.take(0) =~= Seq::<ContentBlockV>::empty());
                assert(out@ =~= text_of_blocks(bv.take(0)));
            }
            while i < n
                invariant
                    n == m.content@.len(),
                    i <= n,
                    bv == Seq::new(m.content@.len(), |k: int| m.content@[k]@),
                    out@ == text_of_blocks(bv.take(i as int)),
                decreases n - i,
            {
                match &m.content[i] {
                    ContentBlock::Text(t) => {
                        out.append(t.as_str());
                    },
                    ContentBlock::Other => {},
                }
                proof {
                    assert(bv[i as int] == m.content@[i as int]@);
                    assert(bv.take(i + 1) =~= bv.take(i as int).push(bv[i as int]));
                    lemma_text_of_blocks_push(bv.take(i as int), bv[i as int]);
                }
                i += 1;
            }
            proof {
                assert(bv.take(n as int) =~= bv);
            }
            if out.as_str().unicode_len() == 0 {
                return Err(
                    AiError::ProviderShapeError(
                        String::from_str("the response message carries no text"),
                    ),
                );
            }
            Ok(out)
        },
    }
}

} // verus!
