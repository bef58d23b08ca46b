//! The operation builder: one contiguous annotation run, ending at a
//! function declaration, becomes one API operation keyed by path and
//! method.  Body parameters fold into the single request body instead of
//! the parameter list, and struct field examples enrich media entries.

use vstd::prelude::*;

use crate::annotation::{
    spec_parse_router, parse_router_value, Annotation, AnnotationType, AnnotationTypeView,
    AnnotationView,
};
use crate::assoc::{spec_assoc_set, spec_has_key, spec_key_idx, assoc_set, str_eq, lemma_key_idx};
use crate::chars::{
    chars_to_string, find_char, rfind_char, spec_find_char, spec_rfind_char, spec_replace_char,
    spec_split_char, spec_split_ws, spec_trim, split_char, split_ws, str_concat, sub_chars,
    to_chars, trim_chars, replace_char,
};
use crate::errors::{ParserError, ParserErrorView};
use crate::jsontext::{json_string_of, encode_json_string};
use crate::models::{
    lemma_seq_view_push, opt_view, pairs_view, seq_view, spec_empty_media, spec_empty_operation,
    spec_ref_schema, MediaType, MediaTypeView, Operation, OperationView, Parameter, ParameterView,
    ParsedOperation, ParsedOperationView, RequestBody, RequestBodyView, Response, ResponseView,
    Schema, SchemaView, SecurityRequirement, SecurityRequirementView,
};
use crate::operation::{spec_parse_parameter, spec_parse_response};
use crate::parser::{spec_normalize_mime, normalize_mime, GoParser};

verus! {

/// Struct field examples: struct name to (field name, raw JSON text)
/// pairs.
pub type StructExamples = Vec<(String, Vec<(String, String)>)>;

/// The char-level view of a struct examples map.
pub open spec fn ex_view(m: Seq<(String, Vec<(String, String)>)>) -> Seq<
    (Seq<char>, Seq<(Seq<char>, Seq<char>)>),
> {
    m.map_values(|p: (String, Vec<(String, String)>)| (p.0@, pairs_view(p.1@)))
}

/// The last dot-separated segment of a name.
pub open spec fn spec_last_dot_seg(name: Seq<char>) -> Seq<char> {
    match spec_rfind_char(name, '.', name.len() - 1) {
        Some(j) => name.skip(j + 1),
        None => name,
    }
}

fn last_dot_seg(v: &Vec<char>) -> (r: Vec<char>)
    ensures
        r@ == spec_last_dot_seg(v@),
{
    match rfind_char(v, '.') {
        Some(j) => {
            let r = sub_chars(v, j + 1, v.len());
            proof {
                assert(v@.subrange(j + 1 as int, v@.len() as int) =~= v@.skip(j + 1 as int));
            }
            r
        },
        None => {
            let r = sub_chars(v, 0, v.len());
            proof {
                assert(v@.subrange(0, v@.len() as int) =~= v@);
            }
            r
        },
    }
}

/// The last slash-separated segment of a reference.
pub open spec fn spec_last_slash_seg(name: Seq<char>) -> Seq<char> {
    match spec_rfind_char(name, '/', name.len() - 1) {
        Some(j) => name.skip(j + 1),
        None => name,
    }
}

pub fn last_slash_seg_pub(v: &Vec<char>) -> (r: Vec<char>)
    ensures
        r@ == spec_last_slash_seg(v@),
{
    last_slash_seg(v)
}

fn last_slash_seg(v: &Vec<char>) -> (r: Vec<char>)
    ensures
        r@ == spec_last_slash_seg(v@),
{
    match rfind_char(v, '/') {
        Some(j) => {
            let r = sub_chars(v, j + 1, v.len());
            proof {
                assert(v@.subrange(j + 1 as int, v@.len() as int) =~= v@.skip(j + 1 as int));
            }
            r
        },
        None => {
            let r = sub_chars(v, 0, v.len());
            proof {
                assert(v@.subrange(0, v@.len() as int) =~= v@);
            }
            r
        },
    }
}

/// One field of an example object: the JSON-quoted field name, a colon,
/// and the raw JSON value.
pub open spec fn spec_example_entry(p: (Seq<char>, Seq<char>)) -> Seq<char> {
    json_string_of(p.0) + ":"@ + p.1
}

/// The members of an example object, comma separated, in field order.
pub open spec fn spec_example_body(fields: Seq<(Seq<char>, Seq<char>)>) -> Seq<char>
    decreases fields.len(),
{
    if fields.len() == 0 {
        Seq::empty()
    } else if fields.len() == 1 {
        spec_example_entry(fields[0])
    } else {
        spec_example_body(fields.drop_last()) + ","@ + spec_example_entry(fields.last())
    }
}

/// The JSON object text written for a struct's field examples.
pub open spec fn spec_example_json(fields: Seq<(Seq<char>, Seq<char>)>) -> Seq<char> {
    "{"@ + spec_example_body(fields) + "}"@
}

/// Renders a struct's field examples as one JSON object, per
/// `spec_example_json`.
fn render_example_json(fields: &Vec<(String, String)>) -> (r: String)
    ensures
        r@ == spec_example_json(pairs_view(fields@)),
{
    let mut body = String::new();
    let mut i: usize = 0;
    while i < fields.len()
        invariant
            i <= fields@.len(),
            pairs_view(fields@).len() == fields@.len(),
            i == 0 ==> body@ == Seq::<char>::empty(),
            i > 0 ==> body@ == spec_example_body(pairs_view(fields@).take(i as int)),
        decreases fields@.len() - i,
    {
        if i > 0 {
            body.append(",");
        }
        let quoted = encode_json_string(fields[i].0.as_str());
        body.append(quoted.as_str());
        body.append(":");
        body.append(fields[i].1.as_str());
        proof {
            reveal_strlit(",");
            reveal_strlit(":");
            let fv = pairs_view(fields@);
            assert(fv[i as int] == (fields@[i as int].0@, fields@[i as int].1@));
            assert(fv.take(i + 1 as int).drop_last() =~= fv.take(i as int));
            assert(fv.take(i + 1 as int).last() == fv[i as int]);
            if i == 0 {
                assert(body@ =~= spec_example_entry(fv[0]));
                assert(fv.take(1).len() == 1);
                assert(fv.take(1)[0] == fv[0]);
            } else {
                assert(body@ =~= spec_example_body(fv.take(i as int)) + ","@ + spec_example_entry(
                    fv[i as int],
                ));
            }
        }
        i += 1;
    }
    proof {
        let fv = pairs_view(fields@);
        assert(fv.take(fv.len() as int) =~= fv);
        reveal_strlit("{");
        reveal_strlit("}");
    }
    let mut r = "{".to_owned();
    r.append(body.as_str());
    r.append("}");
    proof {
        if fields@.len() == 0 {
            assert(spec_example_body(pairs_view(fields@)) =~= Seq::<char>::empty());
            assert(r@ =~= spec_example_json(pairs_view(fields@)));
        }
    }
    r
}

/// The rendered example object for a name: the name itself is tried
/// first, then its last dot segment.
pub open spec fn spec_lookup_examples(
    ex: Seq<(Seq<char>, Seq<(Seq<char>, Seq<char>)>)>,
    name: Seq<char>,
) -> Option<Seq<char>> {
    if spec_has_key(ex, name) {
        Some(spec_example_json(ex[spec_key_idx(ex, name)].1))
    } else {
        let tail = spec_last_dot_seg(name);
        if spec_has_key(ex, tail) {
            Some(spec_example_json(ex[spec_key_idx(ex, tail)].1))
        } else {
            None
        }
    }
}

/// The first index of `ex` whose key is `name`, against the char-level
/// view.
fn ex_key_index(ex: &StructExamples, name: &str) -> (r: usize)
    ensures
        r as int == spec_key_idx(ex_view(ex@), name@),
{
    proof {
        lemma_key_idx(ex_view(ex@), name@);
    }
    let mut i: usize = 0;
    while i < ex.len()
        invariant
            i <= ex@.len(),
            ex_view(ex@).len() == ex@.len(),
            forall|j: int| 0 <= j < i ==> (#[trigger] ex_view(ex@)[j]).0 != name@,
            0 <= spec_key_idx(ex_view(ex@), name@) <= ex@.len(),
            spec_key_idx(ex_view(ex@), name@) < ex@.len() ==> ex_view(ex@)[spec_key_idx(
                ex_view(ex@),
                name@,
            )].0 == name@,
            forall|j: int|
                0 <= j < spec_key_idx(ex_view(ex@), name@) ==> (#[trigger] ex_view(ex@)[j]).0
                    != name@,
        decreases ex@.len() - i,
    {
        if str_eq(ex[i].0.as_str(), name) {
            proof {
                assert(ex_view(ex@)[i as int].0 == ex@[i as int].0@);
                let s = spec_key_idx(ex_view(ex@), name@);
                if s < i as int {
                    assert(ex_view(ex@)[s].0 == name@);
                } else if s > i as int {
                    assert(ex_view(ex@)[i as int].0 != name@);
                }
            }
            return i;
        }
        proof {
            assert(ex_view(ex@)[i as int].0 == ex@[i as int].0@);
        }
        i += 1;
    }
    i
}

/// Renders the example object for a name, per `spec_lookup_examples`.
fn lookup_examples(ex: &StructExamples, name: &str) -> (r: Option<String>)
    ensures
        match r {
            Some(s) => spec_lookup_examples(ex_view(ex@), name@) == Some(s@),
            None => spec_lookup_examples(ex_view(ex@), name@) is None,
        },
{
    let i = ex_key_index(ex, name);
    if i < ex.len() {
        proof {
            assert(ex_view(ex@)[i as int].1 == pairs_view(ex@[i as int].1@));
        }
        return Some(render_example_json(&ex[i].1));
    }
    let nc = to_chars(name);
    let tail = chars_to_string(&last_dot_seg(&nc));
    let j = ex_key_index(ex, tail.as_str());
    if j < ex.len() {
        proof {
            assert(ex_view(ex@)[j as int].1 == pairs_view(ex@[j as int].1@));
        }
        return Some(render_example_json(&ex[j].1));
    }
    None
}

} // verus!

verus! {

/// The state threaded through one operation's annotation run.
pub struct OpState {
    pub operation: Operation,
    pub path: String,
    pub method: String,
    pub rbsr: Option<String>,
}

pub ghost struct OpStateView {
    pub operation: OperationView,
    pub path: Seq<char>,
    pub method: Seq<char>,
    pub rbsr: Option<Seq<char>>,
}

impl View for OpState {
    type V = OpStateView;

    open spec fn view(&self) -> OpStateView {
        OpStateView {
            operation: self.operation@,
            path: self.path@,
            method: self.method@,
            rbsr: opt_view(self.rbsr),
        }
    }
}

/// The operation builder's starting state.
pub open spec fn spec_op_init() -> OpStateView {
    OpStateView {
        operation: spec_empty_operation(),
        path: Seq::empty(),
        method: Seq::empty(),
        rbsr: None,
    }
}

/// Content with the given schema on every entry; empty content receives
/// one `application/json` entry instead.
pub open spec fn spec_media_with_schema(
    content: Seq<(Seq<char>, MediaTypeView)>,
    sch: SchemaView,
) -> Seq<(Seq<char>, MediaTypeView)> {
    if content.len() == 0 {
        seq![("application/json"@, MediaTypeView { schema: Some(sch), example: None })]
    } else {
        content.map_values(
            |e: (Seq<char>, MediaTypeView)| (e.0, MediaTypeView { schema: Some(sch), ..e.1 }),
        )
    }
}

/// Content with the given example text on every entry.
pub open spec fn spec_media_with_example(
    content: Seq<(Seq<char>, MediaTypeView)>,
    obj: Seq<char>,
) -> Seq<(Seq<char>, MediaTypeView)> {
    content.map_values(
        |e: (Seq<char>, MediaTypeView)| (e.0, MediaTypeView { example: Some(obj), ..e.1 }),
    )
}

/// One declared accept media type: it joins `consumes` and keys an empty
/// request body content entry.
pub open spec fn spec_accept_one(op: OperationView, tok: Seq<char>) -> OperationView {
    let m = spec_normalize_mime(spec_trim(tok));
    let rb = match op.requestBody {
        Some(rb) => rb,
        None => RequestBodyView { description: None, content: Seq::empty(), required: Some(true) },
    };
    OperationView {
        consumes: op.consumes.push(m),
        requestBody: Some(
            RequestBodyView { content: spec_assoc_set(rb.content, m, spec_empty_media()), ..rb },
        ),
        ..op
    }
}

pub open spec fn spec_accept_fold(op: OperationView, toks: Seq<Seq<char>>, i: int) -> OperationView
    decreases toks.len() - i when 0 <= i
{
    if i >= toks.len() {
        op
    } else {
        spec_accept_fold(spec_accept_one(op, toks[i]), toks, i + 1)
    }
}

/// The first index of a response with the given code, or the length.
pub open spec fn spec_resp_idx(responses: Seq<ResponseView>, code: Seq<char>) -> int
    decreases responses.len(),
{
    if responses.len() == 0 {
        0
    } else if responses[0].code == code {
        0
    } else {
        1 + spec_resp_idx(responses.drop_first(), code)
    }
}

pub proof fn lemma_resp_idx(responses: Seq<ResponseView>, code: Seq<char>)
    ensures
        0 <= spec_resp_idx(responses, code) <= responses.len(),
        spec_resp_idx(responses, code) < responses.len() ==> responses[spec_resp_idx(
            responses,
            code,
        )].code == code,
        forall|j: int|
            0 <= j < spec_resp_idx(responses, code) ==> (#[trigger] responses[j]).code != code,
    decreases responses.len(),
{
    if responses.len() > 0 && responses[0].code != code {
        lemma_resp_idx(responses.drop_first(), code);
        assert forall|j: int|
            0 <= j < spec_resp_idx(responses, code) implies (#[trigger] responses[j]).code
            != code by {
            if j >= 1 {
                assert(responses.drop_first()[j - 1] == responses[j]);
            }
        }
    }
}

/// The responses with one response stored under its code: an existing
/// response with the same code is replaced, otherwise it is appended.
pub open spec fn spec_set_response(responses: Seq<ResponseView>, resp: ResponseView) -> Seq<
    ResponseView,
> {
    let i = spec_resp_idx(responses, resp.code);
    if i < responses.len() {
        responses.update(i, resp)
    } else {
        responses.push(resp)
    }
}

/// A response media entry enriched with a struct example: a direct
/// schema reference takes the object itself; an array item reference
/// takes a one-element array of it; nothing changes when the entry
/// already has an example or no example is known.
pub open spec fn spec_inject_response_media(
    m: MediaTypeView,
    ex: Seq<(Seq<char>, Seq<(Seq<char>, Seq<char>)>)>,
) -> MediaTypeView {
    match m.schema {
        Some(sch) => match sch.ref_ {
            Some(r) => match spec_lookup_examples(ex, spec_last_slash_seg(r)) {
                Some(obj) => if m.example is None {
                    MediaTypeView { example: Some(obj), ..m }
                } else {
                    m
                },
                None => m,
            },
            None => match sch.items {
                Some(it) => match it.ref_ {
                    Some(r) => match spec_lookup_examples(ex, spec_last_slash_seg(r)) {
                        Some(obj) => if m.example is None {
                            MediaTypeView { example: Some("["@ + obj + "]"@), ..m }
                        } else {
                            m
                        },
                        None => m,
                    },
                    None => m,
                },
                None => m,
            },
        },
        None => m,
    }
}

pub open spec fn spec_inject_response_content(
    content: Seq<(Seq<char>, MediaTypeView)>,
    ex: Seq<(Seq<char>, Seq<(Seq<char>, Seq<char>)>)>,
) -> Seq<(Seq<char>, MediaTypeView)> {
    content.map_values(
        |e: (Seq<char>, MediaTypeView)| (e.0, spec_inject_response_media(e.1, ex)),
    )
}

/// What a body-location parameter makes of the operation: the name the
/// request body's schema will be remembered under, and the request body
/// itself, its content given the parameter's schema and any known
/// example for the referenced model.
pub open spec fn spec_body_param(
    st: OpStateView,
    param: ParameterView,
    ex: Seq<(Seq<char>, Seq<(Seq<char>, Seq<char>)>)>,
) -> OpStateView {
    let rbsr2 = match param.schema {
        Some(sch) => match sch.ref_ {
            Some(r) => Some(spec_last_slash_seg(r)),
            None => match sch.type_ {
                Some(t) => Some(t),
                None => st.rbsr,
            },
        },
        None => Some(param.name),
    };
    let rb0 = match st.operation.requestBody {
        Some(rb) => rb,
        None => RequestBodyView {
            description: param.description,
            content: Seq::empty(),
            required: param.required,
        },
    };
    let rb1 = match param.schema {
        Some(sch) => {
            let c1 = spec_media_with_schema(rb0.content, sch);
            let c2 = match sch.ref_ {
                Some(r) => match spec_lookup_examples(ex, spec_last_slash_seg(r)) {
                    Some(obj) => spec_media_with_example(c1, obj),
                    None => c1,
                },
                None => c1,
            };
            RequestBodyView { content: c2, ..rb0 }
        },
        None => rb0,
    };
    OpStateView {
        operation: OperationView { requestBody: Some(rb1), ..st.operation },
        rbsr: rbsr2,
        ..st
    }
}

/// What one annotation of the run does to the operation being built.
/// Parameter and response annotations that fail to parse are skipped;
/// only a malformed router annotation fails the whole operation.
pub open spec fn spec_op_step(
    st: OpStateView,
    a: AnnotationView,
    ex: Seq<(Seq<char>, Seq<(Seq<char>, Seq<char>)>)>,
) -> Result<OpStateView, ParserErrorView> {
    let op = st.operation;
    match a.annotation_type {
        AnnotationTypeView::Id => Ok(
            OpStateView { operation: OperationView { operationId: Some(a.value), ..op }, ..st },
        ),
        AnnotationTypeView::Summary => Ok(
            OpStateView { operation: OperationView { summary: Some(a.value), ..op }, ..st },
        ),
        AnnotationTypeView::Description => Ok(
            OpStateView { operation: OperationView { description: Some(a.value), ..op }, ..st },
        ),
        AnnotationTypeView::Tags => Ok(
            OpStateView {
                operation: OperationView {
                    tags: op.tags + spec_split_char(a.value, ',').map_values(
                        |t: Seq<char>| spec_trim(t),
                    ),
                    ..op
                },
                ..st
            },
        ),
        AnnotationTypeView::Router => match spec_parse_router(a.value) {
            Some(pm) => Ok(OpStateView { path: pm.0, method: pm.1, ..st }),
            None => Err(ParserErrorView::RouterParseError("Invalid router format: "@ + a.value)),
        },
        AnnotationTypeView::DeprecatedRouter => match spec_parse_router(a.value) {
            Some(pm) => Ok(
                OpStateView {
                    path: pm.0,
                    method: pm.1,
                    operation: OperationView { deprecated: Some(true), ..op },
                    ..st
                },
            ),
            None => Err(ParserErrorView::RouterParseError("Invalid router format: "@ + a.value)),
        },
        AnnotationTypeView::Accept => Ok(
            OpStateView {
                operation: spec_accept_fold(op, spec_split_char(a.value, ','), 0),
                ..st
            },
        ),
        AnnotationTypeView::Produce => Ok(
            OpStateView {
                operation: OperationView {
                    produces: op.produces + spec_split_char(a.value, ',').map_values(
                        |t: Seq<char>| spec_normalize_mime(spec_trim(t)),
                    ),
                    ..op
                },
                ..st
            },
        ),
        AnnotationTypeView::Param => match spec_parse_parameter(a.value) {
            Ok(param) => if param.in_type == "body"@ {
                Ok(spec_body_param(st, param, ex))
            } else {
                Ok(
                    OpStateView {
                        operation: OperationView { parameters: op.parameters.push(param), ..op },
                        ..st
                    },
                )
            },
            Err(_) => Ok(st),
        },
        AnnotationTypeView::RequestBody => {
            let op1 = if op.requestBody is None {
                OperationView {
                    requestBody: Some(
                        RequestBodyView {
                            description: Some(a.value),
                            content: Seq::empty(),
                            required: Some(true),
                        },
                    ),
                    ..op
                }
            } else {
                op
            };
            let rbsr2 = match spec_find_char(a.value, '{', 0) {
                Some(s) => match spec_find_char(a.value, '}', 0) {
                    Some(e) => if s < e {
                        let mt = a.value.subrange(s + 1, e);
                        let ps = spec_split_ws(mt);
                        if ps.len() >= 2 && ps[0] == "object"@ {
                            Some(ps[1])
                        } else if ps.len() >= 1 {
                            Some(ps[0])
                        } else {
                            st.rbsr
                        }
                    } else {
                        st.rbsr
                    },
                    None => st.rbsr,
                },
                None => st.rbsr,
            };
            Ok(OpStateView { operation: op1, rbsr: rbsr2, ..st })
        },
        AnnotationTypeView::Response => match spec_parse_response(a.value) {
            Ok(resp) => {
                let c1 = spec_inject_response_content(resp.content, ex);
                let resp2 = ResponseView { content: c1, ..resp };
                Ok(
                    OpStateView {
                        operation: OperationView {
                            responses: spec_set_response(op.responses, resp2),
                            ..op
                        },
                        ..st
                    },
                )
            },
            Err(_) => Ok(st),
        },
        AnnotationTypeView::Security => {
            let toks = spec_split_ws(a.value);
            if toks.len() > 0 {
                Ok(
                    OpStateView {
                        operation: OperationView {
                            security: op.security.push(
                                SecurityRequirementView { name: toks[0], scopes: toks.skip(1) },
                            ),
                            ..op
                        },
                        ..st
                    },
                )
            } else {
                Ok(st)
            }
        },
        _ => Ok(st),
    }
}

/// The annotation run folded in order, stopping at a router error.
pub open spec fn spec_op_fold(
    anns: Seq<AnnotationView>,
    ex: Seq<(Seq<char>, Seq<(Seq<char>, Seq<char>)>)>,
) -> Result<OpStateView, ParserErrorView>
    decreases anns.len(),
{
    if anns.len() == 0 {
        Ok(spec_op_init())
    } else {
        match spec_op_fold(anns.drop_last(), ex) {
            Ok(st) => spec_op_step(st, anns.last(), ex),
            Err(e) => Err(e),
        }
    }
}

/// The finished operation: a remembered body model name enriches the
/// request body, a missing operation id is synthesised from method and
/// path, and responses without content default to the first produce
/// type or `application/json`.
pub open spec fn spec_op_finish(
    st: OpStateView,
    ex: Seq<(Seq<char>, Seq<(Seq<char>, Seq<char>)>)>,
) -> ParsedOperationView {
    let op0 = st.operation;
    let op1 = match st.rbsr {
        Some(mn) => match spec_lookup_examples(ex, mn) {
            Some(obj) => {
                let rb0 = match op0.requestBody {
                    Some(rb) => rb,
                    None => RequestBodyView {
                        description: None,
                        content: Seq::empty(),
                        required: Some(true),
                    },
                };
                let c1 = if rb0.content.len() == 0 {
                    seq![
                        (
                            "application/json"@,
                            MediaTypeView {
                                schema: Some(spec_ref_schema("#/components/schemas/"@ + mn)),
                                example: Some(obj),
                            },
                        ),
                    ]
                } else {
                    rb0.content.map_values(
                        |e: (Seq<char>, MediaTypeView)| (
                            e.0,
                            MediaTypeView {
                                example: Some(obj),
                                schema: if e.1.schema is None {
                                    Some(spec_ref_schema("#/components/schemas/"@ + mn))
                                } else {
                                    e.1.schema
                                },
                            },
                        ),
                    )
                };
                OperationView { requestBody: Some(RequestBodyView { content: c1, ..rb0 }), ..op0 }
            },
            None => op0,
        },
        None => op0,
    };
    let op2 = if op1.operationId is None {
        let pu = spec_replace_char(st.path, '/', '_');
        let id = if st.method == "get"@ || st.method == "post"@ || st.method == "put"@ || st.method
            == "delete"@ || st.method == "patch"@ || st.method == "head"@ || st.method
            == "options"@ {
            st.method + pu
        } else {
            st.method + "_"@ + pu
        };
        OperationView { operationId: Some(id), ..op1 }
    } else {
        op1
    };
    let op3 = if op2.produces.len() == 0 && op2.responses.len() > 0 {
        OperationView { produces: seq!["application/json"@], ..op2 }
    } else {
        op2
    };
    let first_ct = if op3.produces.len() > 0 {
        op3.produces[0]
    } else {
        "application/json"@
    };
    let op4 = OperationView {
        responses: op3.responses.map_values(
            |r: ResponseView| if r.content.len() == 0 {
                ResponseView { content: seq![(first_ct, spec_empty_media())], ..r }
            } else {
                r
            },
        ),
        ..op3
    };
    ParsedOperationView { path: st.path, method: st.method, operation: op4 }
}

/// The operation one annotation run describes, with struct examples
/// available for enrichment.
pub open spec fn spec_parse_operation(
    anns: Seq<AnnotationView>,
    ex: Seq<(Seq<char>, Seq<(Seq<char>, Seq<char>)>)>,
) -> Result<ParsedOperationView, ParserErrorView> {
    match spec_op_fold(anns, ex) {
        Ok(st) => Ok(spec_op_finish(st, ex)),
        Err(e) => Err(e),
    }
}

} // verus!

verus! {

/// Content rebuilt with the given schema on every entry, per
/// `spec_media_with_schema`.
fn content_with_schema(content: Vec<(String, MediaType)>, sch: &Schema) -> (r: Vec<
    (String, MediaType),
>)
    ensures
        pairs_view(r@) == spec_media_with_schema(pairs_view(content@), sch@),
{
    if content.len() == 0 {
        let mut r: Vec<(String, MediaType)> = Vec::new();
        r.push(("application/json".to_owned(), MediaType { schema: Some(sch.dup()), example: None }));
        proof {
            assert(pairs_view(r@) =~= spec_media_with_schema(pairs_view(content@), sch@));
        }
        r
    } else {
        let mut r: Vec<(String, MediaType)> = Vec::new();
        let mut i: usize = 0;
        while i < content.len()
            invariant
                i <= content@.len(),
                content@.len() > 0,
                pairs_view(content@).len() == content@.len(),
                pairs_view(r@) == pairs_view(content@).take(i as int).map_values(
                    |e: (Seq<char>, MediaTypeView)| (e.0, MediaTypeView { schema: Some(sch@), ..e.1 }),
                ),
            decreases content@.len() - i,
        {
            let ghost before = pairs_view(r@);
            let m = MediaType { schema: Some(sch.dup()), example: crate::models::dup_opt_string(&content[i].1.example) };
            r.push((content[i].0.clone(), m));
            proof {
                let cv = pairs_view(content@);
                assert(cv[i as int] == (content@[i as int].0@, content@[i as int].1@));
                assert(pairs_view(r@) =~= before.push((cv[i as int].0, MediaTypeView { schema: Some(sch@), ..cv[i as int].1 })));
                assert(cv.take(i + 1 as int).map_values(
                    |e: (Seq<char>, MediaTypeView)| (e.0, MediaTypeView { schema: Some(sch@), ..e.1 }),
                ) =~= cv.take(i as int).map_values(
                    |e: (Seq<char>, MediaTypeView)| (e.0, MediaTypeView { schema: Some(sch@), ..e.1 }),
                ).push((cv[i as int].0, MediaTypeView { schema: Some(sch@), ..cv[i as int].1 })));
            }
            i += 1;
        }
        proof {
            assert(pairs_view(content@).take(content@.len() as int) =~= pairs_view(content@));
        }
        r
    }
}

/// Content rebuilt with the given example on every entry, per
/// `spec_media_with_example`.
fn content_with_example(content: Vec<(String, MediaType)>, obj: &str) -> (r: Vec<
    (String, MediaType),
>)
    ensures
        pairs_view(r@) == spec_media_with_example(pairs_view(content@), obj@),
{
    let mut r: Vec<(String, MediaType)> = Vec::new();
    let mut i: usize = 0;
    while i < content.len()
        invariant
            i <= content@.len(),
            pairs_view(content@).len() == content@.len(),
            pairs_view(r@) == pairs_view(content@).take(i as int).map_values(
                |e: (Seq<char>, MediaTypeView)| (e.0, MediaTypeView { example: Some(obj@), ..e.1 }),
            ),
        decreases content@.len() - i,
    {
        let ghost before = pairs_view(r@);
        let sch = match &content[i].1.schema {
            Some(s) => Some(s.dup()),
            None => None,
        };
        r.push((content[i].0.clone(), MediaType { schema: sch, example: Some(obj.to_owned()) }));
        proof {
            let cv = pairs_view(content@);
            assert(cv[i as int] == (content@[i as int].0@, content@[i as int].1@));
            assert(pairs_view(r@) =~= before.push((cv[i as int].0, MediaTypeView { example: Some(obj@), ..cv[i as int].1 })));
            assert(cv.take(i + 1 as int).map_values(
                |e: (Seq<char>, MediaTypeView)| (e.0, MediaTypeView { example: Some(obj@), ..e.1 }),
            ) =~= cv.take(i as int).map_values(
                |e: (Seq<char>, MediaTypeView)| (e.0, MediaTypeView { example: Some(obj@), ..e.1 }),
            ).push((cv[i as int].0, MediaTypeView { example: Some(obj@), ..cv[i as int].1 })));
        }
        i += 1;
    }
    proof {
        assert(pairs_view(content@).take(content@.len() as int) =~= pairs_view(content@));
    }
    r
}

/// One response media entry enriched from the examples, per
/// `spec_inject_response_media`.
fn inject_response_media(m: MediaType, ex: &StructExamples) -> (r: MediaType)
    ensures
        r@ == spec_inject_response_media(m@, ex_view(ex@)),
{
    let has_example = m.example.is_some();
    match &m.schema {
        Some(sch) => {
            proof {
                assert(m@.schema == Some(sch@));
                assert(sch@.ref_ == opt_view(sch.ref_));
                assert(sch@.items == match sch.items {
                    Some(b) => Some(Box::new(crate::models::schema_view(*b))),
                    None => None::<Box<SchemaView>>,
                });
            }
            match &sch.ref_ {
                Some(rf) => {
                    let rc = to_chars(rf.as_str());
                    let name = chars_to_string(&last_slash_seg(&rc));
                    match lookup_examples(ex, name.as_str()) {
                        Some(obj) => {
                            if !has_example {
                                MediaType { schema: m.schema, example: Some(obj) }
                            } else {
                                m
                            }
                        },
                        None => m,
                    }
                },
                None => {
                    match &sch.items {
                        Some(it) => match &it.ref_ {
                            Some(rf) => {
                                proof {
                                    assert(crate::models::schema_view(**it).ref_ == opt_view(
                                        it.ref_,
                                    ));
                                }
                                let rc = to_chars(rf.as_str());
                                let name = chars_to_string(&last_slash_seg(&rc));
                                match lookup_examples(ex, name.as_str()) {
                                    Some(obj) => {
                                        if !has_example {
                                            let arr = crate::chars::str_concat3("[", obj.as_str(), "]");
                                            proof {
                                                reveal_strlit("[");
                                                reveal_strlit("]");
                                            }
                                            MediaType { schema: m.schema, example: Some(arr) }
                                        } else {
                                            m
                                        }
                                    },
                                    None => m,
                                }
                            },
                            None => m,
                        },
                        None => m,
                    }
                },
            }
        },
        None => m,
    }
}

/// Response content enriched entrywise, per
/// `spec_inject_response_content`.
fn inject_response_content(content: Vec<(String, MediaType)>, ex: &StructExamples) -> (r: Vec<
    (String, MediaType),
>)
    ensures
        pairs_view(r@) == spec_inject_response_content(pairs_view(content@), ex_view(ex@)),
{
    let mut r: Vec<(String, MediaType)> = Vec::new();
    let mut i: usize = 0;
    while i < content.len()
        invariant
            i <= content@.len(),
            pairs_view(content@).len() == content@.len(),
            pairs_view(r@) == pairs_view(content@).take(i as int).map_values(
                |e: (Seq<char>, MediaTypeView)| (e.0, spec_inject_response_media(e.1, ex_view(ex@))),
            ),
        decreases content@.len() - i,
    {
        let ghost before = pairs_view(r@);
        let m2 = inject_response_media(content[i].1.dup(), ex);
        r.push((content[i].0.clone(), m2));
        proof {
            let cv = pairs_view(content@);
            assert(cv[i as int] == (content@[i as int].0@, content@[i as int].1@));
            assert(pairs_view(r@) =~= before.push((cv[i as int].0, spec_inject_response_media(cv[i as int].1, ex_view(ex@)))));
            assert(cv.take(i + 1 as int).map_values(
                |e: (Seq<char>, MediaTypeView)| (e.0, spec_inject_response_media(e.1, ex_view(ex@))),
            ) =~= cv.take(i as int).map_values(
                |e: (Seq<char>, MediaTypeView)| (e.0, spec_inject_response_media(e.1, ex_view(ex@))),
            ).push((cv[i as int].0, spec_inject_response_media(cv[i as int].1, ex_view(ex@)))));
        }
        i += 1;
    }
    proof {
        assert(pairs_view(content@).take(content@.len() as int) =~= pairs_view(content@));
    }
    r
}

/// Stores a response under its code, per `spec_set_response`.
fn set_response(responses: &mut Vec<Response>, resp: Response)
    ensures
        seq_view(final(responses)@) == spec_set_response(seq_view(old(responses)@), resp@),
{
    proof {
        lemma_resp_idx(seq_view(responses@), resp@.code);
    }
    let mut i: usize = 0;
    let n = responses.len();
    while i < n
        invariant
            i <= n,
            n == responses@.len(),
            responses@ == old(responses)@,
            seq_view(responses@).len() == responses@.len(),
            forall|j: int| 0 <= j < i ==> (#[trigger] seq_view(responses@)[j]).code != resp@.code,
            0 <= spec_resp_idx(seq_view(responses@), resp@.code) <= responses@.len(),
            spec_resp_idx(seq_view(responses@), resp@.code) < responses@.len() ==> seq_view(
                responses@,
            )[spec_resp_idx(seq_view(responses@), resp@.code)].code == resp@.code,
            forall|j: int|
                0 <= j < spec_resp_idx(seq_view(responses@), resp@.code) ==> (#[trigger] seq_view(
                    responses@,
                )[j]).code != resp@.code,
        decreases n - i,
    {
        if str_eq(responses[i].code.as_str(), resp.code.as_str()) {
            proof {
                assert(seq_view(responses@)[i as int].code == responses@[i as int].code@);
                let s = spec_resp_idx(seq_view(responses@), resp@.code);
                if s < i as int {
                    assert(seq_view(responses@)[s].code == resp@.code);
                } else if s > i as int {
                    assert(seq_view(responses@)[i as int].code != resp@.code);
                }
            }
            let ghost before = seq_view(responses@);
            let ghost resp_v = resp@;
            let e = &mut responses[i];
            *e = resp;
            proof {
                assert(seq_view(responses@) =~= before.update(i as int, resp_v));
            }
            return ;
        }
        proof {
            assert(seq_view(responses@)[i as int].code == responses@[i as int].code@);
        }
        i += 1;
    }
    let ghost before = seq_view(responses@);
    responses.push(resp);
    proof {
        lemma_seq_view_push(responses@.drop_last(), responses@.last());
        assert(seq_view(responses@) =~= before.push(resp@));
    }
}

/// Comma-separated tokens of a value, trimmed.
fn comma_tokens_trimmed(value: &str) -> (r: Vec<String>)
    ensures
        seq_view(r@) == spec_split_char(value@, ',').map_values(|t: Seq<char>| spec_trim(t)),
{
    let vc = to_chars(value);
    let raw = split_char(&vc, ',');
    let ghost raw_v = seq_view(raw@);
    let mut r: Vec<String> = Vec::new();
    let mut i: usize = 0;
    while i < raw.len()
        invariant
            i <= raw@.len(),
            raw_v == seq_view(raw@),
            raw_v.len() == raw@.len(),
            seq_view(r@) == raw_v.take(i as int).map_values(|t: Seq<char>| spec_trim(t)),
        decreases raw@.len() - i,
    {
        let ghost before = seq_view(r@);
        let tc = to_chars(raw[i].as_str());
        r.push(chars_to_string(&trim_chars(&tc)));
        proof {
            lemma_seq_view_push(r@.drop_last(), r@.last());
            assert(raw_v[i as int] == raw@[i as int]@);
            assert(seq_view(r@) =~= before.push(spec_trim(raw_v[i as int])));
            assert(raw_v.take(i + 1 as int).map_values(|t: Seq<char>| spec_trim(t)) =~= raw_v.take(
                i as int,
            ).map_values(|t: Seq<char>| spec_trim(t)).push(spec_trim(raw_v[i as int])));
        }
        i += 1;
    }
    proof {
        assert(raw_v.take(raw_v.len() as int) =~= raw_v);
    }
    r
}

} // verus!

verus! {

#[verifier::rlimit(100)]
fn op_step(st0in: OpState, a: &Annotation, ex: &StructExamples) -> (r: Result<OpState, ParserError>)
    ensures
        match r {
            Ok(s2) => spec_op_step(st0in@, a@, ex_view(ex@)) == Ok::<
                OpStateView,
                ParserErrorView,
            >(s2@),
            Err(e) => spec_op_step(st0in@, a@, ex_view(ex@)) == Err::<
                OpStateView,
                ParserErrorView,
            >(e@),
        },
{
    let ghost st0 = st0in@;
    let mut st = st0in;
    let p = GoParser;
    match &a.annotation_type {
        AnnotationType::Id => {
            st.operation.operationId = Some(a.value.clone());
            Ok(st)
        },
        AnnotationType::Summary => {
            st.operation.summary = Some(a.value.clone());
            proof {
                assert(a@.annotation_type is Summary);
                assert(st@ == (OpStateView {
                    operation: OperationView { summary: Some(a@.value), ..st0.operation },
                    ..st0
                }));
                assert(spec_op_step(st0, a@, ex_view(ex@)) == Ok::<OpStateView, ParserErrorView>(
                    st@,
                ));
            }
            Ok(st)
        },
        AnnotationType::Description => {
            st.operation.description = Some(a.value.clone());
            Ok(st)
        },
        AnnotationType::Tags => {
            let mut toks = comma_tokens_trimmed(a.value.as_str());
            let ghost before = st.operation.tags@;
            let ghost toks_v = toks@;
            st.operation.tags.append(&mut toks);
            proof {
                crate::models::lemma_seq_view_add(before, toks_v);
            }
            Ok(st)
        },
        AnnotationType::Router => {
            let vc = to_chars(a.value.as_str());
            match parse_router_value(&vc) {
                Some((path, method)) => {
                    st.path = path;
                    st.method = method;
                    Ok(st)
                },
                None => Err(
                    ParserError::RouterParseError(
                        str_concat("Invalid router format: ", a.value.as_str()),
                    ),
                ),
            }
        },
        AnnotationType::DeprecatedRouter => {
            let vc = to_chars(a.value.as_str());
            match parse_router_value(&vc) {
                Some((path, method)) => {
                    st.path = path;
                    st.method = method;
                    st.operation.deprecated = Some(true);
                    Ok(st)
                },
                None => Err(
                    ParserError::RouterParseError(
                        str_concat("Invalid router format: ", a.value.as_str()),
                    ),
                ),
            }
        },
        AnnotationType::Accept => {
            let vc = to_chars(a.value.as_str());
            let toks = split_char(&vc, ',');
            let ghost toks_v = seq_view(toks@);
            let ghost op0 = st.operation@;
            let mut op = st.operation;
            let mut i: usize = 0;
            while i < toks.len()
                invariant
                    i <= toks@.len(),
                    toks_v == seq_view(toks@),
                    toks_v.len() == toks@.len(),
                    spec_accept_fold(op0, toks_v, 0) == spec_accept_fold(op@, toks_v, i as int),
                decreases toks@.len() - i,
            {
                let ghost op_prev = op@;
                proof {
                    assert(toks_v[i as int] == toks@[i as int]@);
                }
                let tc = to_chars(toks[i].as_str());
                let m = normalize_mime(chars_to_string(&trim_chars(&tc)).as_str());
                let ghost consumes_before = seq_view(op.consumes@);
                op.consumes.push(m.clone());
                proof {
                    lemma_seq_view_push(op.consumes@.drop_last(), op.consumes@.last());
                    assert(seq_view(op.consumes@) =~= consumes_before.push(
                        spec_normalize_mime(spec_trim(toks_v[i as int])),
                    ));
                }
                let rb = match op.requestBody {
                    Some(rb) => rb,
                    None => {
                        let r = RequestBody { description: None, content: Vec::new(), required: Some(true) };
                        proof {
                            assert(pairs_view(r.content@) =~= Seq::<(Seq<char>, MediaTypeView)>::empty());
                        }
                        r
                    },
                };
                let mut rb = rb;
                assoc_set(&mut rb.content, m, MediaType::default());
                op.requestBody = Some(rb);
                proof {
                    assert(op@ == spec_accept_one(op_prev, toks_v[i as int]));
                }
                i += 1;
            }
            proof {
                assert(spec_accept_fold(op@, toks_v, toks_v.len() as int) == op@);
            }
            st.operation = op;
            proof {
                assert(spec_op_step(st0, a@, ex_view(ex@)) == Ok::<OpStateView, ParserErrorView>(st@));
            }
            Ok(st)
        },
        AnnotationType::Produce => {
            let vc = to_chars(a.value.as_str());
            let toks = split_char(&vc, ',');
            let ghost toks_v = seq_view(toks@);
            let ghost produces0 = seq_view(st.operation.produces@);
            let mut i: usize = 0;
            assert(seq_view(st.operation.produces@) =~= produces0 + toks_v.take(0).map_values(
                |t: Seq<char>| spec_normalize_mime(spec_trim(t)),
            ));
            while i < toks.len()
                invariant
                    i <= toks@.len(),
                    toks_v == seq_view(toks@),
                    toks_v.len() == toks@.len(),
                    seq_view(st.operation.produces@) == produces0 + toks_v.take(
                        i as int,
                    ).map_values(|t: Seq<char>| spec_normalize_mime(spec_trim(t))),
                    st@ == (OpStateView {
                        operation: OperationView {
                            produces: seq_view(st.operation.produces@),
                            ..st0.operation
                        },
                        ..st0
                    }),
                decreases toks@.len() - i,
            {
                proof {
                    assert(toks_v[i as int] == toks@[i as int]@);
                }
                let tc = to_chars(toks[i].as_str());
                let m = normalize_mime(chars_to_string(&trim_chars(&tc)).as_str());
                let ghost before = seq_view(st.operation.produces@);
                st.operation.produces.push(m);
                proof {
                    lemma_seq_view_push(st.operation.produces@.drop_last(), st.operation.produces@.last());
                    assert(toks_v.take(i + 1 as int).map_values(
                        |t: Seq<char>| spec_normalize_mime(spec_trim(t)),
                    ) =~= toks_v.take(i as int).map_values(
                        |t: Seq<char>| spec_normalize_mime(spec_trim(t)),
                    ).push(spec_normalize_mime(spec_trim(toks_v[i as int]))));
                    assert(seq_view(st.operation.produces@) =~= before.push(
                        spec_normalize_mime(spec_trim(toks_v[i as int])),
                    ));
                    assert(seq_view(st.operation.produces@) =~= produces0 + toks_v.take(
                        i + 1 as int,
                    ).map_values(|t: Seq<char>| spec_normalize_mime(spec_trim(t))));
                }
                i += 1;
            }
            proof {
                assert(toks_v.take(toks_v.len() as int) =~= toks_v);
            }
            proof {
                assert(spec_op_step(st0, a@, ex_view(ex@)) == Ok::<OpStateView, ParserErrorView>(st@));
            }
            Ok(st)
        },
        AnnotationType::Param => {
            match p.parse_parameter(a.value.as_str()) {
                Ok(param) => {
                    let ghost pv = param@;
                    let is_body = str_eq(param.in_type.as_str(), "body");
                    if is_body {
                        let rbsr2: Option<String> = match &param.schema {
                            Some(sch) => match &sch.ref_ {
                                Some(r) => {
                                    let rc = to_chars(r.as_str());
                                    Some(chars_to_string(&last_slash_seg(&rc)))
                                },
                                None => match &sch.type_ {
                                    Some(t) => Some(t.clone()),
                                    None => st.rbsr,
                                },
                            },
                            None => Some(param.name.clone()),
                        };
                        let rb0 = match st.operation.requestBody {
                            Some(rb) => rb,
                            None => {
                                let r = RequestBody {
                                    description: crate::models::dup_opt_string(&param.description),
                                    content: Vec::new(),
                                    required: param.required,
                                };
                                proof {
                                    assert(pairs_view(r.content@) =~= Seq::<(Seq<char>, MediaTypeView)>::empty());
                                }
                                r
                            },
                        };
                        let rb1 = match &param.schema {
                            Some(sch) => {
                                let c1 = content_with_schema(rb0.content, sch);
                                let c2 = match &sch.ref_ {
                                    Some(r) => {
                                        let rc = to_chars(r.as_str());
                                        let name = chars_to_string(&last_slash_seg(&rc));
                                        proof {
                                            assert(crate::models::schema_view(*sch).ref_
                                                == opt_view(sch.ref_));
                                        }
                                        match lookup_examples(ex, name.as_str()) {
                                            Some(obj) => content_with_example(c1, obj.as_str()),
                                            None => c1,
                                        }
                                    },
                                    None => c1,
                                };
                                RequestBody { description: rb0.description, content: c2, required: rb0.required }
                            },
                            None => rb0,
                        };
                        proof {
                            match param.schema {
                                Some(sch) => {
                                    assert(crate::models::schema_view(sch).ref_ == opt_view(sch.ref_));
                                    assert(crate::models::schema_view(sch).type_ == opt_view(sch.type_));
                                },
                                None => {},
                            }
                        }
                        st.operation.requestBody = Some(rb1);
                        st.rbsr = rbsr2;
                        proof {
                            let exv = ex_view(ex@);
                            let sb = spec_body_param(st0, pv, exv);
                            assert(st@.rbsr == sb.rbsr);
                            assert(st@.operation.requestBody == sb.operation.requestBody);
                            assert(st@.operation == sb.operation);
                            assert(st@ == sb);
                            assert(a@.annotation_type is Param);
                            assert(spec_parse_parameter(a@.value) == Ok::<
                                ParameterView,
                                ParserErrorView,
                            >(pv));
                            assert(pv.in_type == "body"@);
                            assert(spec_op_step(st0, a@, exv) == Ok::<OpStateView, ParserErrorView>(st@));
                        }
                        Ok(st)
                    } else {
                        st.operation.parameters.push(param);
                        proof {
                            lemma_seq_view_push(
                                st.operation.parameters@.drop_last(),
                                st.operation.parameters@.last(),
                            );
                            assert(seq_view(st.operation.parameters@) =~= st0.operation.parameters.push(pv));
                            assert(st@.operation == (OperationView {
                                parameters: st0.operation.parameters.push(pv),
                                ..st0.operation
                            }));
                            assert(a@.annotation_type is Param);
                            assert(spec_parse_parameter(a@.value) == Ok::<
                                ParameterView,
                                ParserErrorView,
                            >(pv));
                            assert(pv.in_type != "body"@);
                            assert(spec_op_step(st0, a@, ex_view(ex@)) == Ok::<OpStateView, ParserErrorView>(st@));
                        }
                        Ok(st)
                    }
                },
                Err(_) => Ok(st),
            }
        },
        AnnotationType::RequestBody => {
            if st.operation.requestBody.is_none() {
                let r = RequestBody {
                    description: Some(a.value.clone()),
                    content: Vec::new(),
                    required: Some(true),
                };
                proof {
                    assert(pairs_view(r.content@) =~= Seq::<(Seq<char>, MediaTypeView)>::empty());
                }
                st.operation.requestBody = Some(r);
            }
            let vc = to_chars(a.value.as_str());
            match find_char(&vc, '{', 0) {
                Some(s) => match find_char(&vc, '}', 0) {
                    Some(e) => {
                        if s < e {
                            let mt = sub_chars(&vc, s + 1, e);
                            let ps = split_ws(&mt);
                            proof {
                                if ps@.len() >= 1 {
                                    assert(seq_view(ps@)[0] == ps@[0]@);
                                }
                                if ps@.len() >= 2 {
                                    assert(seq_view(ps@)[1] == ps@[1]@);
                                }
                            }
                            if ps.len() >= 2 && str_eq(ps[0].as_str(), "object") {
                                st.rbsr = Some(ps[1].clone());
                            } else if ps.len() >= 1 {
                                st.rbsr = Some(ps[0].clone());
                            }
                        }
                    },
                    None => {},
                },
                None => {},
            }
            proof {
                assert(spec_op_step(st0, a@, ex_view(ex@)) == Ok::<OpStateView, ParserErrorView>(st@));
            }
            Ok(st)
        },
        AnnotationType::Response => {
            match p.parse_response(a.value.as_str()) {
                Ok(resp) => {
                    let Response { code, description, content } = resp;
                    let content2 = inject_response_content(content, ex);
                    let resp2 = Response { code, description, content: content2 };
                    set_response(&mut st.operation.responses, resp2);
                    proof {
                        assert(spec_op_step(st0, a@, ex_view(ex@)) == Ok::<OpStateView, ParserErrorView>(st@));
                    }
                    Ok(st)
                },
                Err(_) => Ok(st),
            }
        },
        AnnotationType::Security => {
            let vc = to_chars(a.value.as_str());
            let toks = split_ws(&vc);
            let ghost toks_v = spec_split_ws(vc@);
            if toks.len() > 0 {
                proof {
                    assert(toks_v[0] == toks@[0]@);
                }
                let name = toks[0].clone();
                let mut scopes: Vec<String> = Vec::new();
                let mut i: usize = 1;
                while i < toks.len()
                    invariant
                        1 <= i <= toks@.len(),
                        toks@.len() >= 1,
                        toks_v == seq_view(toks@),
                        toks_v.len() == toks@.len(),
                        seq_view(scopes@) == toks_v.subrange(1, i as int),
                    decreases toks@.len() - i,
                {
                    let ghost before = seq_view(scopes@);
                    scopes.push(toks[i].clone());
                    proof {
                        lemma_seq_view_push(scopes@.drop_last(), scopes@.last());
                        assert(seq_view(scopes@) =~= before.push(toks_v[i as int]));
                        assert(toks_v.subrange(1, i + 1 as int) =~= toks_v.subrange(1, i as int).push(
                            toks_v[i as int],
                        ));
                    }
                    i += 1;
                }
                proof {
                    assert(toks_v.subrange(1, toks_v.len() as int) =~= toks_v.skip(1));
                }
                st.operation.security.push(SecurityRequirement { name, scopes });
                proof {
                    lemma_seq_view_push(
                        st.operation.security@.drop_last(),
                        st.operation.security@.last(),
                    );
                    assert(seq_view(st.operation.security@) =~= st0.operation.security.push(
                        SecurityRequirementView { name: toks_v[0], scopes: toks_v.skip(1) },
                    ));
                    assert(st@.operation == (OperationView {
                        security: st0.operation.security.push(
                            SecurityRequirementView { name: toks_v[0], scopes: toks_v.skip(1) },
                        ),
                        ..st0.operation
                    }));
                    assert(spec_op_step(st0, a@, ex_view(ex@)) == Ok::<OpStateView, ParserErrorView>(st@));
                }
                Ok(st)
            } else {
                Ok(st)
            }
        },
        _ => Ok(st),
    }
}

} // verus!

verus! {

fn op_finish(st: OpState, ex: &StructExamples) -> (r: ParsedOperation)
    ensures
        r@ == spec_op_finish(st@, ex_view(ex@)),
{
    let OpState { mut operation, path, method, rbsr } = st;
    match &rbsr {
        Some(mn) => {
            match lookup_examples(ex, mn.as_str()) {
                Some(obj) => {
                    let rb0 = match operation.requestBody {
                        Some(rb) => rb,
                        None => {
                            let r = RequestBody { description: None, content: Vec::new(), required: Some(true) };
                            proof {
                                assert(pairs_view(r.content@) =~= Seq::<(Seq<char>, MediaTypeView)>::empty());
                            }
                            r
                        },
                    };
                    let c1: Vec<(String, MediaType)> = if rb0.content.len() == 0 {
                        let mut c: Vec<(String, MediaType)> = Vec::new();
                        c.push(
                            (
                                "application/json".to_owned(),
                                MediaType {
                                    schema: Some(
                                        Schema::of_ref(
                                            str_concat("#/components/schemas/", mn.as_str()),
                                        ),
                                    ),
                                    example: Some(obj),
                                },
                            ),
                        );
                        proof {
                            crate::models::lemma_pairs_view_push(c@.drop_last(), c@.last());
                            assert(pairs_view(c@) =~= seq![
                                (
                                    "application/json"@,
                                    MediaTypeView {
                                        schema: Some(
                                            spec_ref_schema("#/components/schemas/"@ + mn@),
                                        ),
                                        example: Some(obj@),
                                    },
                                ),
                            ]);
                        }
                        c
                    } else {
                        let content = rb0.content;
                        let mut c: Vec<(String, MediaType)> = Vec::new();
                        let mut i: usize = 0;
                        while i < content.len()
                            invariant
                                i <= content@.len(),
                                pairs_view(content@).len() == content@.len(),
                                pairs_view(c@) == pairs_view(content@).take(i as int).map_values(
                                    |e: (Seq<char>, MediaTypeView)| (
                                        e.0,
                                        MediaTypeView {
                                            example: Some(obj@),
                                            schema: if e.1.schema is None {
                                                Some(spec_ref_schema("#/components/schemas/"@ + mn@))
                                            } else {
                                                e.1.schema
                                            },
                                        },
                                    ),
                                ),
                            decreases content@.len() - i,
                        {
                            let ghost before = pairs_view(c@);
                            let sch: Option<Schema> = match &content[i].1.schema {
                                Some(s) => Some(s.dup()),
                                None => Some(
                                    Schema::of_ref(str_concat("#/components/schemas/", mn.as_str())),
                                ),
                            };
                            c.push((content[i].0.clone(), MediaType { schema: sch, example: Some(obj.clone()) }));
                            proof {
                                let cv = pairs_view(content@);
                                assert(cv[i as int] == (content@[i as int].0@, content@[i as int].1@));
                                assert(pairs_view(c@) =~= before.push(
                                    (
                                        cv[i as int].0,
                                        MediaTypeView {
                                            example: Some(obj@),
                                            schema: if cv[i as int].1.schema is None {
                                                Some(spec_ref_schema("#/components/schemas/"@ + mn@))
                                            } else {
                                                cv[i as int].1.schema
                                            },
                                        },
                                    ),
                                ));
                                assert(cv.take(i + 1 as int).map_values(
                                    |e: (Seq<char>, MediaTypeView)| (
                                        e.0,
                                        MediaTypeView {
                                            example: Some(obj@),
                                            schema: if e.1.schema is None {
                                                Some(spec_ref_schema("#/components/schemas/"@ + mn@))
                                            } else {
                                                e.1.schema
                                            },
                                        },
                                    ),
                                ) =~= cv.take(i as int).map_values(
                                    |e: (Seq<char>, MediaTypeView)| (
                                        e.0,
                                        MediaTypeView {
                                            example: Some(obj@),
                                            schema: if e.1.schema is None {
                                                Some(spec_ref_schema("#/components/schemas/"@ + mn@))
                                            } else {
                                                e.1.schema
                                            },
                                        },
                                    ),
                                ).push(
                                    (
                                        cv[i as int].0,
                                        MediaTypeView {
                                            example: Some(obj@),
                                            schema: if cv[i as int].1.schema is None {
                                                Some(spec_ref_schema("#/components/schemas/"@ + mn@))
                                            } else {
                                                cv[i as int].1.schema
                                            },
                                        },
                                    ),
                                ));
                            }
                            i += 1;
                        }
                        proof {
                            assert(pairs_view(content@).take(content@.len() as int) =~= pairs_view(
                                content@,
                            ));
                        }
                        c
                    };
                    operation.requestBody = Some(
                        RequestBody { description: rb0.description, content: c1, required: rb0.required },
                    );
                },
                None => {},
            }
        },
        None => {},
    }
    if operation.operationId.is_none() {
        let pc = to_chars(path.as_str());
        let pu = chars_to_string(&replace_char(&pc, '/', '_'));
        let m = method.as_str();
        let id: String = if str_eq(m, "get") || str_eq(m, "post") || str_eq(m, "put") || str_eq(
            m,
            "delete",
        ) || str_eq(m, "patch") || str_eq(m, "head") || str_eq(m, "options") {
            str_concat(method.as_str(), pu.as_str())
        } else {
            crate::chars::str_concat3(method.as_str(), "_", pu.as_str())
        };
        operation.operationId = Some(id);
    }
    if operation.produces.len() == 0 && operation.responses.len() > 0 {
        proof {
            assert(seq_view(operation.produces@) =~= Seq::<Seq<char>>::empty());
        }
        operation.produces.push("application/json".to_owned());
        proof {
            lemma_seq_view_push(operation.produces@.drop_last(), operation.produces@.last());
            assert(seq_view(operation.produces@) =~= seq!["application/json"@]);
        }
    }
    let first_ct: String = if operation.produces.len() > 0 {
        proof {
            assert(seq_view(operation.produces@)[0] == operation.produces@[0]@);
        }
        operation.produces[0].clone()
    } else {
        "application/json".to_owned()
    };
    let ghost key_v = first_ct@;
    let mut rest = operation.responses;
    let ghost orig = seq_view(rest@);
    operation.responses = Vec::new();
    let mut rs: Vec<Response> = Vec::new();
    while rest.len() > 0
        invariant
            seq_view(rest@) == orig.skip(orig.len() - rest@.len()),
            rest@.len() <= orig.len(),
            orig.len() == seq_view(rest@).len() + rs@.len(),
            key_v == first_ct@,
            seq_view(rs@) == orig.take(orig.len() - rest@.len()).map_values(
                |r: ResponseView| if r.content.len() == 0 {
                    ResponseView { content: seq![(key_v, spec_empty_media())], ..r }
                } else {
                    r
                },
            ),
        decreases rest@.len(),
    {
        let ghost k = orig.len() - rest@.len();
        let ghost pre_rest = rest@;
        let mut r0 = rest.remove(0);
        proof {
            assert(rest@ =~= pre_rest.drop_first());
            assert(seq_view(rest@) =~= seq_view(pre_rest).drop_first());
            assert(seq_view(pre_rest).drop_first() =~= orig.skip(k + 1));
            assert(r0@ == seq_view(pre_rest)[0]);
            assert(r0@ == orig[k]);
        }
        if r0.content.len() == 0 {
            r0.content.push((first_ct.clone(), MediaType::default()));
            proof {
                crate::models::lemma_pairs_view_push(r0.content@.drop_last(), r0.content@.last());
                assert(pairs_view(r0.content@) =~= seq![(key_v, spec_empty_media())]);
            }
        }
        let ghost before = seq_view(rs@);
        rs.push(r0);
        proof {
            lemma_seq_view_push(rs@.drop_last(), rs@.last());
            let f = |r: ResponseView| if r.content.len() == 0 {
                ResponseView { content: seq![(key_v, spec_empty_media())], ..r }
            } else {
                r
            };
            assert(seq_view(rs@) =~= before.push(f(orig[k])));
            assert(orig.take(k + 1).map_values(f) =~= orig.take(k).map_values(f).push(f(orig[k])));
        }
    }
    proof {
        assert(orig.take(orig.len() as int) =~= orig);
    }
    operation.responses = rs;
    ParsedOperation { path, method, operation }
}

/// An operation fold error in a prefix is the fold's outcome for the
/// whole run.
proof fn lemma_op_fold_err(
    anns: Seq<AnnotationView>,
    j: int,
    e: ParserErrorView,
    ex: Seq<(Seq<char>, Seq<(Seq<char>, Seq<char>)>)>,
)
    requires
        0 <= j <= anns.len(),
        spec_op_fold(anns.take(j), ex) == Err::<OpStateView, ParserErrorView>(e),
    ensures
        spec_op_fold(anns, ex) == Err::<OpStateView, ParserErrorView>(e),
    decreases anns.len() - j,
{
    if j == anns.len() {
        assert(anns.take(j) =~= anns);
    } else {
        assert(anns.take(j + 1).drop_last() =~= anns.take(j));
        lemma_op_fold_err(anns, j + 1, e, ex);
    }
}

impl GoParser {
    /// Builds one operation from its annotation run, per
    /// `spec_parse_operation`; the struct examples enrich media entries.
    pub fn parse_operation_with_examples(
        &self,
        annotations: &Vec<Annotation>,
        struct_examples: &StructExamples,
    ) -> (r: Result<ParsedOperation, ParserError>)
        ensures
            match r {
                Ok(p) => spec_parse_operation(seq_view(annotations@), ex_view(struct_examples@))
                    == Ok::<ParsedOperationView, ParserErrorView>(p@),
                Err(e) => spec_parse_operation(seq_view(annotations@), ex_view(struct_examples@))
                    == Err::<ParsedOperationView, ParserErrorView>(e@),
            },
    {
        let ghost av = seq_view(annotations@);
        let mut st = OpState {
            operation: Operation::new(),
            path: String::new(),
            method: String::new(),
            rbsr: None,
        };
        proof {
            assert(av.take(0) =~= Seq::<AnnotationView>::empty());
            assert(st@ == spec_op_init());
        }
        let mut i: usize = 0;
        while i < annotations.len()
            invariant
                i <= annotations@.len(),
                av == seq_view(annotations@),
                av.len() == annotations@.len(),
                spec_op_fold(av.take(i as int), ex_view(struct_examples@)) == Ok::<
                    OpStateView,
                    ParserErrorView,
                >(st@),
            decreases annotations@.len() - i,
        {
            proof {
                assert(av[i as int] == annotations@[i as int]@);
                assert(av.take(i + 1 as int).drop_last() =~= av.take(i as int));
                assert(av.take(i + 1 as int).last() == av[i as int]);
            }
            match op_step(st, &annotations[i], struct_examples) {
                Ok(s2) => {
                    st = s2;
                },
                Err(e) => {
                    proof {
                        lemma_op_fold_err(av, i + 1, e@, ex_view(struct_examples@));
                    }
                    return Err(e);
                },
            }
            i += 1;
        }
        proof {
            assert(av.take(av.len() as int) =~= av);
        }
        Ok(op_finish(st, struct_examples))
    }
}

} // verus!
