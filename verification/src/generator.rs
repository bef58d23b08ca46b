//! Document assembly and the reference normalizer.
//!
//! The normalizer rewrites every `$ref` into `#/components/schemas/<Name>`
//! form, leaving references to external documents alone, and then closes
//! the registry: every referenced name absent from it receives a
//! placeholder, so no dangling reference survives into the final
//! document.  Both passes leave an already-normalized document untouched.

use vstd::prelude::*;

use crate::assoc::{assoc_set, spec_has_key, spec_key_idx, str_eq};
use crate::chars::{
    chars_to_string, find_char, match_at, rfind_char, spec_find_char, spec_match_at,
    spec_rfind_char, str_concat, sub_chars, to_chars,
};
use crate::models::{
    assoc_lookup, assoc_contains, lemma_assoc_lookup_contains, opt_view, pairs_view,
    schema_pairs_view, schema_view, seq_view, spec_empty_schema, Components, ComponentsView,
    MediaType, MediaTypeView, OpenAPI, OpenAPIView, Operation, OperationView, Parameter,
    ParameterView, ParsedApiInfo, ParsedOperation, ParsedOperationView, PathItem, PathItemView, RequestBody,
    RequestBodyView, Response, ResponseView, Schema, SchemaView, Server,
};
use crate::opbuild::{spec_last_slash_seg};

verus! {

/// The canonical reference prefix.
pub open spec fn spec_ref_prefix() -> Seq<char> {
    "#/components/schemas/"@
}

/// A canonical reference: the prefix followed by a nonempty name free of
/// slashes.
pub open spec fn spec_ref_canonical(r: Seq<char>) -> bool {
    &&& r.len() > spec_ref_prefix().len()
    &&& r.take(spec_ref_prefix().len() as int) == spec_ref_prefix()
    &&& forall|i: int| spec_ref_prefix().len() <= i < r.len() ==> r[i] != '/'
}

/// A reference to an external document: it ends in a recognised
/// external-document extension.
pub open spec fn spec_ref_external(r: Seq<char>) -> bool {
    let j = ".json"@;
    let y = ".yaml"@;
    (r.len() >= j.len() && r.skip(r.len() - j.len()) == j) || (r.len() >= y.len() && r.skip(
        r.len() - y.len(),
    ) == y)
}

/// What the normalizer writes for one reference: canonical and external
/// references stay; a reference missing the leading `#` gains it; a bare
/// name moves under the prefix; of any other path the last segment is
/// taken as the name.
pub open spec fn spec_fix_ref(r: Seq<char>) -> Seq<char> {
    if spec_match_at(r, spec_ref_prefix(), 0) {
        r
    } else if spec_match_at(r, "/components/schemas/"@, 0) {
        "#"@ + r
    } else if spec_find_char(r, '/', 0) is None {
        spec_ref_prefix() + r
    } else if spec_ref_external(r) {
        r
    } else {
        spec_ref_prefix() + spec_last_slash_seg(r)
    }
}

/// A whole schema node with every reference rewritten, recursively.
pub open spec fn spec_fix_schema(s: SchemaView) -> SchemaView
    decreases s,
{
    SchemaView {
        ref_: match s.ref_ {
            Some(r) => Some(spec_fix_ref(r)),
            None => None,
        },
        items: match s.items {
            Some(b) => Some(Box::new(spec_fix_schema(*b))),
            None => None,
        },
        properties: spec_fix_schema_pairs(s.properties),
        allOf: match s.allOf {
            Some(v) => Some(spec_fix_schema_seq(v)),
            None => None,
        },
        anyOf: match s.anyOf {
            Some(v) => Some(spec_fix_schema_seq(v)),
            None => None,
        },
        oneOf: match s.oneOf {
            Some(v) => Some(spec_fix_schema_seq(v)),
            None => None,
        },
        not: match s.not {
            Some(b) => Some(Box::new(spec_fix_schema(*b))),
            None => None,
        },
        ..s
    }
}

pub open spec fn spec_fix_schema_pairs(ps: Seq<(Seq<char>, SchemaView)>) -> Seq<
    (Seq<char>, SchemaView),
>
    decreases ps,
{
    if ps.len() == 0 {
        Seq::empty()
    } else {
        spec_fix_schema_pairs(ps.drop_last()).push(
            (ps.last().0, spec_fix_schema(ps.last().1)),
        )
    }
}

pub open spec fn spec_fix_schema_seq(ss: Seq<SchemaView>) -> Seq<SchemaView>
    decreases ss,
{
    if ss.len() == 0 {
        Seq::empty()
    } else {
        spec_fix_schema_seq(ss.drop_last()).push(spec_fix_schema(ss.last()))
    }
}

/// Every reference of the node, and of its children, satisfies `ok`.
pub open spec fn spec_schema_refs_ok(s: SchemaView) -> bool
    decreases s,
{
    &&& match s.ref_ {
        Some(r) => spec_ref_canonical(r) || spec_ref_external(r),
        None => true,
    }
    &&& match s.items {
        Some(b) => spec_schema_refs_ok(*b),
        None => true,
    }
    &&& spec_schema_pairs_refs_ok(s.properties)
    &&& match s.allOf {
        Some(v) => spec_schema_seq_refs_ok(v),
        None => true,
    }
    &&& match s.anyOf {
        Some(v) => spec_schema_seq_refs_ok(v),
        None => true,
    }
    &&& match s.oneOf {
        Some(v) => spec_schema_seq_refs_ok(v),
        None => true,
    }
    &&& match s.not {
        Some(b) => spec_schema_refs_ok(*b),
        None => true,
    }
}

pub open spec fn spec_schema_pairs_refs_ok(ps: Seq<(Seq<char>, SchemaView)>) -> bool
    decreases ps,
{
    if ps.len() == 0 {
        true
    } else {
        spec_schema_pairs_refs_ok(ps.drop_last()) && spec_schema_refs_ok(ps.last().1)
    }
}

pub open spec fn spec_schema_seq_refs_ok(ss: Seq<SchemaView>) -> bool
    decreases ss,
{
    if ss.len() == 0 {
        true
    } else {
        spec_schema_seq_refs_ok(ss.drop_last()) && spec_schema_refs_ok(ss.last())
    }
}

/// A reference the normalizer can make canonical: whatever already sits
/// under the canonical prefix (with or without its `#`) must have a
/// nonempty, slash-free name; a bare name must be nonempty; of any other
/// path the last segment must be nonempty.  External references are
/// always left alone.
pub open spec fn spec_ref_fixable(r: Seq<char>) -> bool {
    if spec_match_at(r, spec_ref_prefix(), 0) {
        spec_ref_canonical(r)
    } else if spec_match_at(r, "/components/schemas/"@, 0) {
        spec_ref_canonical("#"@ + r)
    } else if spec_find_char(r, '/', 0) is None {
        r.len() > 0
    } else if spec_ref_external(r) {
        true
    } else {
        spec_last_slash_seg(r).len() > 0 && (forall|i: int|
            0 <= i < spec_last_slash_seg(r).len() ==> spec_last_slash_seg(r)[i] != '/')
    }
}

/// Every reference of the node, and of its children, is fixable.
pub open spec fn spec_schema_refs_fixable(s: SchemaView) -> bool
    decreases s,
{
    &&& match s.ref_ {
        Some(r) => spec_ref_fixable(r),
        None => true,
    }
    &&& match s.items {
        Some(b) => spec_schema_refs_fixable(*b),
        None => true,
    }
    &&& spec_schema_pairs_refs_fixable(s.properties)
    &&& match s.allOf {
        Some(v) => spec_schema_seq_refs_fixable(v),
        None => true,
    }
    &&& match s.anyOf {
        Some(v) => spec_schema_seq_refs_fixable(v),
        None => true,
    }
    &&& match s.oneOf {
        Some(v) => spec_schema_seq_refs_fixable(v),
        None => true,
    }
    &&& match s.not {
        Some(b) => spec_schema_refs_fixable(*b),
        None => true,
    }
}

pub open spec fn spec_schema_pairs_refs_fixable(ps: Seq<(Seq<char>, SchemaView)>) -> bool
    decreases ps,
{
    if ps.len() == 0 {
        true
    } else {
        spec_schema_pairs_refs_fixable(ps.drop_last()) && spec_schema_refs_fixable(ps.last().1)
    }
}

pub open spec fn spec_schema_seq_refs_fixable(ss: Seq<SchemaView>) -> bool
    decreases ss,
{
    if ss.len() == 0 {
        true
    } else {
        spec_schema_seq_refs_fixable(ss.drop_last()) && spec_schema_refs_fixable(ss.last())
    }
}

/// Rewriting a fixable reference makes it canonical or leaves an
/// external one; rewriting is idempotent on every reference.
pub proof fn lemma_fix_ref(r: Seq<char>)
    ensures
        spec_ref_fixable(r) ==> spec_ref_canonical(spec_fix_ref(r)) || spec_ref_external(
            spec_fix_ref(r),
        ),
        spec_fix_ref(spec_fix_ref(r)) == spec_fix_ref(r),
{
    reveal_strlit("#/components/schemas/");
    reveal_strlit("/components/schemas/");
    reveal_strlit("#");
    reveal_strlit(".json");
    reveal_strlit(".yaml");
    let p = spec_ref_prefix();
    let q = "/components/schemas/"@;
    let f = spec_fix_ref(r);
    if spec_match_at(r, p, 0) {
    } else if spec_match_at(r, q, 0) {
        let f2 = "#"@ + r;
        assert(p =~= "#"@ + q);
        assert(r.subrange(0, q.len() as int) == q);
        assert(f2.take(p.len() as int) =~= "#"@ + r.subrange(0, q.len() as int));
        assert(f2.take(p.len() as int) =~= p);
        assert(spec_match_at(f2, p, 0));
        if spec_ref_fixable(r) {
            assert(spec_ref_canonical(f2));
        }
    } else if spec_find_char(r, '/', 0) is None {
        lemma_find_char_none(r, '/', 0);
        let f2 = p + r;
        assert(f2.take(p.len() as int) =~= p);
        assert(spec_match_at(f2, p, 0));
        if r.len() > 0 {
            assert forall|i: int| p.len() <= i < f2.len() implies f2[i] != '/' by {
                assert(f2[i] == r[i - p.len()]);
            }
            assert(spec_ref_canonical(f2));
        } else {
            assert(f2 =~= p);
            assert(spec_match_at(f2, p, 0));
        }
    } else if spec_ref_external(r) {
    } else {
        let seg = spec_last_slash_seg(r);
        let f2 = p + seg;
        assert(f2.take(p.len() as int) =~= p);
        assert(spec_match_at(f2, p, 0));
        if spec_ref_fixable(r) {
            assert forall|i: int| p.len() <= i < f2.len() implies f2[i] != '/' by {
                assert(f2[i] == seg[i - p.len()]);
            }
            assert(spec_ref_canonical(f2));
        }
        if seg.len() == 0 {
            assert(f2 =~= p);
        }
    }
    // idempotence: the result either keeps the canonical prefix or is
    // external and unchanged by a second pass
    let g = spec_fix_ref(f);
    if spec_match_at(f, p, 0) {
    } else if spec_match_at(r, p, 0) || spec_match_at(r, q, 0) || spec_find_char(r, '/', 0)
        is None {
    } else if spec_ref_external(r) {
        if spec_match_at(f, q, 0) {
            assert(f[0] == '/');
            assert(q[0] == '/');
        }
    }
}

/// A canonical prefix at the front means the first slash search finds a
/// slash, so the bare-name branch cannot apply after rewriting.
proof fn lemma_find_char_none(h: Seq<char>, c: char, from: int)
    requires
        0 <= from,
        spec_find_char(h, c, from) is None,
    ensures
        forall|i: int| from <= i < h.len() ==> h[i] != c,
    decreases h.len() - from,
{
    if from < h.len() {
        lemma_find_char_none(h, c, from + 1);
    }
}

} // verus!

verus! {

/// Rewriting makes every fixable node's references canonical or
/// external, and rewriting twice is rewriting once.
pub proof fn lemma_fix_schema(s: SchemaView)
    ensures
        spec_schema_refs_fixable(s) ==> spec_schema_refs_ok(spec_fix_schema(s)),
        spec_fix_schema(spec_fix_schema(s)) == spec_fix_schema(s),
    decreases s,
{
    match s.ref_ {
        Some(r) => {
            lemma_fix_ref(r);
        },
        None => {},
    }
    match s.items {
        Some(b) => {
            lemma_fix_schema(*b);
        },
        None => {},
    }
    lemma_fix_schema_pairs(s.properties);
    match s.allOf {
        Some(v) => {
            lemma_fix_schema_seq(v);
        },
        None => {},
    }
    match s.anyOf {
        Some(v) => {
            lemma_fix_schema_seq(v);
        },
        None => {},
    }
    match s.oneOf {
        Some(v) => {
            lemma_fix_schema_seq(v);
        },
        None => {},
    }
    match s.not {
        Some(b) => {
            lemma_fix_schema(*b);
        },
        None => {},
    }
}

pub proof fn lemma_fix_schema_pairs(ps: Seq<(Seq<char>, SchemaView)>)
    ensures
        spec_schema_pairs_refs_fixable(ps) ==> spec_schema_pairs_refs_ok(
            spec_fix_schema_pairs(ps),
        ),
        spec_fix_schema_pairs(spec_fix_schema_pairs(ps)) == spec_fix_schema_pairs(ps),
        spec_fix_schema_pairs(ps).len() == ps.len(),
        forall|i: int|
            0 <= i < ps.len() ==> #[trigger] spec_fix_schema_pairs(ps)[i] == (
            ps[i].0,
            spec_fix_schema(ps[i].1),
            ),
    decreases ps,
{
    if ps.len() > 0 {
        lemma_fix_schema_pairs(ps.drop_last());
        lemma_fix_schema(ps.last().1);
        assert(spec_fix_schema_pairs(ps).drop_last() =~= spec_fix_schema_pairs(ps.drop_last()));
        assert(spec_fix_schema_pairs(spec_fix_schema_pairs(ps)) =~= spec_fix_schema_pairs(
            spec_fix_schema_pairs(ps.drop_last()),
        ).push((ps.last().0, spec_fix_schema(spec_fix_schema(ps.last().1)))));
    }
}

pub proof fn lemma_fix_schema_seq(ss: Seq<SchemaView>)
    ensures
        spec_schema_seq_refs_fixable(ss) ==> spec_schema_seq_refs_ok(spec_fix_schema_seq(ss)),
        spec_fix_schema_seq(spec_fix_schema_seq(ss)) == spec_fix_schema_seq(ss),
        spec_fix_schema_seq(ss).len() == ss.len(),
        forall|i: int|
            0 <= i < ss.len() ==> #[trigger] spec_fix_schema_seq(ss)[i] == spec_fix_schema(ss[i]),
    decreases ss,
{
    if ss.len() > 0 {
        lemma_fix_schema_seq(ss.drop_last());
        lemma_fix_schema(ss.last());
        assert(spec_fix_schema_seq(ss).drop_last() =~= spec_fix_schema_seq(ss.drop_last()));
        assert(spec_fix_schema_seq(spec_fix_schema_seq(ss)) =~= spec_fix_schema_seq(
            spec_fix_schema_seq(ss.drop_last()),
        ).push(spec_fix_schema(spec_fix_schema(ss.last()))));
    }
}

/// Rewrites one reference, per `spec_fix_ref`.
fn fix_ref_text(r: &str) -> (out: String)
    ensures
        out@ == spec_fix_ref(r@),
{
    proof {
        reveal_strlit("#/components/schemas/");
        reveal_strlit("/components/schemas/");
        reveal_strlit("#");
        reveal_strlit(".json");
        reveal_strlit(".yaml");
    }
    let rc = to_chars(r);
    if match_at(&rc, "#/components/schemas/", 0) {
        r.to_owned()
    } else if match_at(&rc, "/components/schemas/", 0) {
        str_concat("#", r)
    } else if find_char(&rc, '/', 0).is_none() {
        str_concat("#/components/schemas/", r)
    } else if is_external_ref(&rc) {
        r.to_owned()
    } else {
        let seg = crate::opbuild::last_slash_seg_pub(&rc);
        str_concat("#/components/schemas/", chars_to_string(&seg).as_str())
    }
}

/// Whether the reference ends in a recognised external-document
/// extension.
fn is_external_ref(rc: &Vec<char>) -> (b: bool)
    ensures
        b == spec_ref_external(rc@),
{
    proof {
        reveal_strlit(".json");
        reveal_strlit(".yaml");
    }
    let n = rc.len();
    let json_end = n >= 5 && match_at(rc, ".json", n - 5);
    let yaml_end = n >= 5 && match_at(rc, ".yaml", n - 5);
    proof {
        if n >= 5 {
            assert(rc@.subrange(n - 5, n as int) =~= rc@.skip(n - 5));
        }
    }
    json_end || yaml_end
}

/// Rewrites every reference of a schema node, per `spec_fix_schema`.
pub fn fix_schema(s: Schema) -> (r: Schema)
    ensures
        r@ == spec_fix_schema(s@),
    decreases s,
{
    let Schema {
        ref_,
        type_,
        format,
        default,
        example,
        enum_values,
        required,
        properties,
        items,
        allOf,
        anyOf,
        oneOf,
        not,
        additionalProperties,
    } = s;
    let ref2: Option<String> = match ref_ {
        Some(r) => Some(fix_ref_text(r.as_str())),
        None => None,
    };
    let ghost s0 = s;
    let mut props2: Vec<(String, Schema)> = Vec::new();
    let ghost props_v = crate::models::schema_pairs_view(properties@);
    proof {
        crate::models::lemma_schema_pairs_view_len(properties@);
    }
    let mut rest = properties;
    let ghost rest_orig = rest@;
    while rest.len() > 0
        invariant
            rest@.len() <= rest_orig.len(),
            rest@ == rest_orig.skip(rest_orig.len() - rest@.len()),
            props_v == crate::models::schema_pairs_view(rest_orig),
            props_v.len() == rest_orig.len(),
            forall|j: int|
                0 <= j < rest_orig.len() ==> #[trigger] props_v[j] == (
                rest_orig[j].0@,
                schema_view(rest_orig[j].1),
                ),
            crate::models::schema_pairs_view(props2@) == spec_fix_schema_pairs(
                props_v.take(rest_orig.len() - rest@.len()),
            ),
            s0 == s,
            s0.properties@ == rest_orig,
        decreases rest@.len(),
    {
        let ghost k = rest_orig.len() - rest@.len();
        let ghost pre_rest = rest@;
        let ghost before = crate::models::schema_pairs_view(props2@);
        let p = rest.remove(0);
        proof {
            assert(rest@ =~= pre_rest.drop_first());
            assert(rest@ =~= rest_orig.skip(k + 1));
            assert(p == rest_orig[k]);
            assert(decreases_to!(s => s.properties));
            assert(decreases_to!(s.properties => s.properties@));
            assert(decreases_to!(s.properties@ => s.properties@[k]));
            assert(decreases_to!(s.properties@[k] => s.properties@[k].1));
            assert(p.1 == s.properties@[k].1);
        }
        let fixed = fix_schema(p.1);
        let ghost old_pv = props2@;
        props2.push((p.0, fixed));
        proof {
            assert(props2@.drop_last() =~= old_pv);
            assert(crate::models::schema_pairs_view(props2@) == crate::models::schema_pairs_view(
                props2@.drop_last(),
            ).push((props2@.last().0@, schema_view(props2@.last().1))));
            assert(props_v.take(k + 1).drop_last() =~= props_v.take(k as int));
            assert(crate::models::schema_pairs_view(props2@) =~= before.push(
                (props_v[k].0, spec_fix_schema(props_v[k].1)),
            ));
            assert(spec_fix_schema_pairs(props_v.take(k + 1)) == spec_fix_schema_pairs(
                props_v.take(k as int),
            ).push((props_v.take(k + 1).last().0, spec_fix_schema(props_v.take(k + 1).last().1))));
        }
    }
    proof {
        assert(props_v.take(props_v.len() as int) =~= props_v);
    }
    let items2: Option<Box<Schema>> = match items {
        Some(b) => Some(Box::new(fix_schema(*b))),
        None => None,
    };
    let not2: Option<Box<Schema>> = match not {
        Some(b) => Some(Box::new(fix_schema(*b))),
        None => None,
    };
    let all2: Option<Vec<Schema>> = match allOf {
        Some(v) => Some(fix_schema_list(v)),
        None => None,
    };
    let any2: Option<Vec<Schema>> = match anyOf {
        Some(v) => Some(fix_schema_list(v)),
        None => None,
    };
    let one2: Option<Vec<Schema>> = match oneOf {
        Some(v) => Some(fix_schema_list(v)),
        None => None,
    };
    Schema {
        ref_: ref2,
        type_,
        format,
        default,
        example,
        enum_values,
        required,
        properties: props2,
        items: items2,
        allOf: all2,
        anyOf: any2,
        oneOf: one2,
        not: not2,
        additionalProperties,
    }
}

/// Rewrites every reference in a schema list.
fn fix_schema_list(v: Vec<Schema>) -> (r: Vec<Schema>)
    ensures
        crate::models::schema_seq_view(r@) == spec_fix_schema_seq(
            crate::models::schema_seq_view(v@),
        ),
    decreases v@,
{
    let ghost sv = crate::models::schema_seq_view(v@);
    let ghost v_orig = v@;
    proof {
        lemma_schema_seq_view_index(v@);
    }
    let mut rest = v;
    let mut r: Vec<Schema> = Vec::new();
    while rest.len() > 0
        invariant
            rest@.len() <= v_orig.len(),
            rest@ == v_orig.skip(v_orig.len() - rest@.len()),
            sv == crate::models::schema_seq_view(v_orig),
            sv.len() == v_orig.len(),
            forall|j: int| 0 <= j < v_orig.len() ==> #[trigger] sv[j] == schema_view(v_orig[j]),
            crate::models::schema_seq_view(r@) == spec_fix_schema_seq(
                sv.take(v_orig.len() - rest@.len()),
            ),
            v@ == v_orig,
        decreases rest@.len(),
    {
        let ghost k = v_orig.len() - rest@.len();
        let ghost pre_rest = rest@;
        let ghost before = crate::models::schema_seq_view(r@);
        let p = rest.remove(0);
        proof {
            assert(rest@ =~= pre_rest.drop_first());
            assert(rest@ =~= v_orig.skip(k + 1));
            assert(p == v_orig[k]);
            assert(decreases_to!(v@ => v@[k]));
            assert(p == v@[k]);
        }
        let ghost old_rv = r@;
        r.push(fix_schema(p));
        proof {
            assert(r@.drop_last() =~= old_rv);
            assert(crate::models::schema_seq_view(r@) == crate::models::schema_seq_view(
                r@.drop_last(),
            ).push(schema_view(r@.last())));
            assert(sv.take(k + 1).drop_last() =~= sv.take(k as int));
            assert(crate::models::schema_seq_view(r@) =~= before.push(spec_fix_schema(sv[k])));
            assert(spec_fix_schema_seq(sv.take(k + 1)) == spec_fix_schema_seq(sv.take(k as int)).push(
                spec_fix_schema(sv.take(k + 1).last()),
            ));
        }
    }
    proof {
        assert(sv.take(sv.len() as int) =~= sv);
    }
    r
}

/// The view of a schema list, entry by entry.
pub proof fn lemma_schema_seq_view_index(ss: Seq<Schema>)
    ensures
        crate::models::schema_seq_view(ss).len() == ss.len(),
        forall|i: int|
            0 <= i < ss.len() ==> #[trigger] crate::models::schema_seq_view(ss)[i] == schema_view(
                ss[i],
            ),
    decreases ss,
{
    if ss.len() > 0 {
        lemma_schema_seq_view_index(ss.drop_last());
        assert(forall|i: int| 0 <= i < ss.len() - 1 ==> #[trigger] ss.drop_last()[i] == ss[i]);
    }
}

} // verus!

verus! {

/// Reference soundness of one media entry.
pub open spec fn spec_media_ok(m: MediaTypeView) -> bool {
    match m.schema {
        Some(s) => spec_schema_refs_ok(s),
        None => true,
    }
}

pub open spec fn spec_content_ok(c: Seq<(Seq<char>, MediaTypeView)>) -> bool {
    forall|i: int| 0 <= i < c.len() ==> spec_media_ok((#[trigger] c[i]).1)
}

pub open spec fn spec_params_ok(ps: Seq<ParameterView>) -> bool {
    forall|i: int|
        0 <= i < ps.len() ==> match (#[trigger] ps[i]).schema {
            Some(s) => spec_schema_refs_ok(s),
            None => true,
        }
}

pub open spec fn spec_operation_ok(op: OperationView) -> bool {
    &&& spec_params_ok(op.parameters)
    &&& match op.requestBody {
        Some(rb) => spec_content_ok(rb.content),
        None => true,
    }
    &&& forall|i: int| 0 <= i < op.responses.len() ==> spec_content_ok(
        (#[trigger] op.responses[i]).content,
    )
}

pub open spec fn spec_opt_operation_ok(o: Option<OperationView>) -> bool {
    match o {
        Some(op) => spec_operation_ok(op),
        None => true,
    }
}

pub open spec fn spec_path_item_ok(pi: PathItemView) -> bool {
    &&& spec_opt_operation_ok(pi.get)
    &&& spec_opt_operation_ok(pi.post)
    &&& spec_opt_operation_ok(pi.put)
    &&& spec_opt_operation_ok(pi.delete)
    &&& spec_opt_operation_ok(pi.options)
    &&& spec_opt_operation_ok(pi.head)
    &&& spec_opt_operation_ok(pi.patch)
    &&& spec_opt_operation_ok(pi.trace)
    &&& spec_params_ok(pi.parameters)
}

/// Every `$ref` in the document is canonical or external.
pub open spec fn spec_doc_refs_ok(d: OpenAPIView) -> bool {
    &&& forall|i: int| 0 <= i < d.paths.len() ==> spec_path_item_ok((#[trigger] d.paths[i]).1)
    &&& match d.components {
        Some(c) => forall|i: int| 0 <= i < c.schemas.len() ==> spec_schema_refs_ok(
            (#[trigger] c.schemas[i]).1,
        ),
        None => true,
    }
}

/// The same shape, over fixability.
pub open spec fn spec_media_fixable(m: MediaTypeView) -> bool {
    match m.schema {
        Some(s) => spec_schema_refs_fixable(s),
        None => true,
    }
}

pub open spec fn spec_content_fixable(c: Seq<(Seq<char>, MediaTypeView)>) -> bool {
    forall|i: int| 0 <= i < c.len() ==> spec_media_fixable((#[trigger] c[i]).1)
}

pub open spec fn spec_params_fixable(ps: Seq<ParameterView>) -> bool {
    forall|i: int|
        0 <= i < ps.len() ==> match (#[trigger] ps[i]).schema {
            Some(s) => spec_schema_refs_fixable(s),
            None => true,
        }
}

pub open spec fn spec_operation_fixable(op: OperationView) -> bool {
    &&& spec_params_fixable(op.parameters)
    &&& match op.requestBody {
        Some(rb) => spec_content_fixable(rb.content),
        None => true,
    }
    &&& forall|i: int| 0 <= i < op.responses.len() ==> spec_content_fixable(
        (#[trigger] op.responses[i]).content,
    )
}

pub open spec fn spec_opt_operation_fixable(o: Option<OperationView>) -> bool {
    match o {
        Some(op) => spec_operation_fixable(op),
        None => true,
    }
}

pub open spec fn spec_path_item_fixable(pi: PathItemView) -> bool {
    &&& spec_opt_operation_fixable(pi.get)
    &&& spec_opt_operation_fixable(pi.post)
    &&& spec_opt_operation_fixable(pi.put)
    &&& spec_opt_operation_fixable(pi.delete)
    &&& spec_opt_operation_fixable(pi.options)
    &&& spec_opt_operation_fixable(pi.head)
    &&& spec_opt_operation_fixable(pi.patch)
    &&& spec_opt_operation_fixable(pi.trace)
    &&& spec_params_fixable(pi.parameters)
}

/// Every `$ref` in the document can be made canonical (or is external).
pub open spec fn spec_doc_refs_fixable(d: OpenAPIView) -> bool {
    &&& forall|i: int| 0 <= i < d.paths.len() ==> spec_path_item_fixable((#[trigger] d.paths[i]).1)
    &&& match d.components {
        Some(c) => forall|i: int| 0 <= i < c.schemas.len() ==> spec_schema_refs_fixable(
            (#[trigger] c.schemas[i]).1,
        ),
        None => true,
    }
}

/// Whether some reference of the node names `name` canonically.
pub open spec fn spec_schema_refers(s: SchemaView, name: Seq<char>) -> bool
    decreases s,
{
    ||| match s.ref_ {
        Some(r) => spec_match_at(r, spec_ref_prefix(), 0) && r.skip(spec_ref_prefix().len() as int)
            == name,
        None => false,
    }
    ||| match s.items {
        Some(b) => spec_schema_refers(*b, name),
        None => false,
    }
    ||| spec_schema_pairs_refers(s.properties, name)
    ||| match s.allOf {
        Some(v) => spec_schema_seq_refers(v, name),
        None => false,
    }
    ||| match s.anyOf {
        Some(v) => spec_schema_seq_refers(v, name),
        None => false,
    }
    ||| match s.oneOf {
        Some(v) => spec_schema_seq_refers(v, name),
        None => false,
    }
    ||| match s.not {
        Some(b) => spec_schema_refers(*b, name),
        None => false,
    }
}

pub open spec fn spec_schema_pairs_refers(ps: Seq<(Seq<char>, SchemaView)>, name: Seq<char>) -> bool
    decreases ps,
{
    if ps.len() == 0 {
        false
    } else {
        spec_schema_pairs_refers(ps.drop_last(), name) || spec_schema_refers(ps.last().1, name)
    }
}

pub open spec fn spec_schema_seq_refers(ss: Seq<SchemaView>, name: Seq<char>) -> bool
    decreases ss,
{
    if ss.len() == 0 {
        false
    } else {
        spec_schema_seq_refers(ss.drop_last(), name) || spec_schema_refers(ss.last(), name)
    }
}

pub open spec fn spec_media_refers(m: MediaTypeView, name: Seq<char>) -> bool {
    match m.schema {
        Some(s) => spec_schema_refers(s, name),
        None => false,
    }
}

pub open spec fn spec_content_refers(c: Seq<(Seq<char>, MediaTypeView)>, name: Seq<char>) -> bool {
    exists|i: int| 0 <= i < c.len() && spec_media_refers((#[trigger] c[i]).1, name)
}

pub open spec fn spec_params_refers(ps: Seq<ParameterView>, name: Seq<char>) -> bool {
    exists|i: int|
        0 <= i < ps.len() && match (#[trigger] ps[i]).schema {
            Some(s) => spec_schema_refers(s, name),
            None => false,
        }
}

pub open spec fn spec_operation_refers(op: OperationView, name: Seq<char>) -> bool {
    ||| spec_params_refers(op.parameters, name)
    ||| match op.requestBody {
        Some(rb) => spec_content_refers(rb.content, name),
        None => false,
    }
    ||| exists|i: int| 0 <= i < op.responses.len() && spec_content_refers(
        (#[trigger] op.responses[i]).content,
        name,
    )
}

pub open spec fn spec_opt_operation_refers(o: Option<OperationView>, name: Seq<char>) -> bool {
    match o {
        Some(op) => spec_operation_refers(op, name),
        None => false,
    }
}

pub open spec fn spec_path_item_refers(pi: PathItemView, name: Seq<char>) -> bool {
    ||| spec_opt_operation_refers(pi.get, name)
    ||| spec_opt_operation_refers(pi.post, name)
    ||| spec_opt_operation_refers(pi.put, name)
    ||| spec_opt_operation_refers(pi.delete, name)
    ||| spec_opt_operation_refers(pi.options, name)
    ||| spec_opt_operation_refers(pi.head, name)
    ||| spec_opt_operation_refers(pi.patch, name)
    ||| spec_opt_operation_refers(pi.trace, name)
    ||| spec_params_refers(pi.parameters, name)
}

/// Whether some canonical reference reachable from the document, paths
/// or registry, names `name`.
pub open spec fn spec_doc_refers(d: OpenAPIView, name: Seq<char>) -> bool {
    ||| exists|i: int| 0 <= i < d.paths.len() && spec_path_item_refers(
        (#[trigger] d.paths[i]).1,
        name,
    )
    ||| match d.components {
        Some(c) => exists|i: int| 0 <= i < c.schemas.len() && spec_schema_refers(
            (#[trigger] c.schemas[i]).1,
            name,
        ),
        None => false,
    }
}

/// Closure: every canonically referenced name is a key of the registry.
pub open spec fn spec_doc_closed(d: OpenAPIView) -> bool {
    forall|name: Seq<char>| #[trigger]
        spec_doc_refers(d, name) ==> match d.components {
            Some(c) => spec_has_key(c.schemas, name),
            None => false,
        }
}

} // verus!

verus! {

pub open spec fn spec_fix_media(m: MediaTypeView) -> MediaTypeView {
    MediaTypeView {
        schema: match m.schema {
            Some(s) => Some(spec_fix_schema(s)),
            None => None,
        },
        ..m
    }
}

pub open spec fn spec_fix_content(c: Seq<(Seq<char>, MediaTypeView)>) -> Seq<
    (Seq<char>, MediaTypeView),
> {
    c.map_values(|e: (Seq<char>, MediaTypeView)| (e.0, spec_fix_media(e.1)))
}

pub open spec fn spec_fix_param(p: ParameterView) -> ParameterView {
    ParameterView {
        schema: match p.schema {
            Some(s) => Some(spec_fix_schema(s)),
            None => None,
        },
        ..p
    }
}

pub open spec fn spec_fix_params(ps: Seq<ParameterView>) -> Seq<ParameterView> {
    ps.map_values(|p: ParameterView| spec_fix_param(p))
}

pub open spec fn spec_fix_request_body(rb: RequestBodyView) -> RequestBodyView {
    RequestBodyView { content: spec_fix_content(rb.content), ..rb }
}

pub open spec fn spec_fix_response(r: ResponseView) -> ResponseView {
    ResponseView { content: spec_fix_content(r.content), ..r }
}

pub open spec fn spec_fix_operation(op: OperationView) -> OperationView {
    OperationView {
        parameters: spec_fix_params(op.parameters),
        requestBody: match op.requestBody {
            Some(rb) => Some(spec_fix_request_body(rb)),
            None => None,
        },
        responses: op.responses.map_values(|r: ResponseView| spec_fix_response(r)),
        ..op
    }
}

pub open spec fn spec_fix_opt_operation(o: Option<OperationView>) -> Option<OperationView> {
    match o {
        Some(op) => Some(spec_fix_operation(op)),
        None => None,
    }
}

pub open spec fn spec_fix_path_item(pi: PathItemView) -> PathItemView {
    PathItemView {
        get: spec_fix_opt_operation(pi.get),
        post: spec_fix_opt_operation(pi.post),
        put: spec_fix_opt_operation(pi.put),
        delete: spec_fix_opt_operation(pi.delete),
        options: spec_fix_opt_operation(pi.options),
        head: spec_fix_opt_operation(pi.head),
        patch: spec_fix_opt_operation(pi.patch),
        trace: spec_fix_opt_operation(pi.trace),
        parameters: spec_fix_params(pi.parameters),
        ..pi
    }
}

pub open spec fn spec_fix_paths(paths: Seq<(Seq<char>, PathItemView)>) -> Seq<
    (Seq<char>, PathItemView),
> {
    paths.map_values(|e: (Seq<char>, PathItemView)| (e.0, spec_fix_path_item(e.1)))
}

pub open spec fn spec_fix_components(c: ComponentsView) -> ComponentsView {
    ComponentsView { schemas: spec_fix_schema_pairs(c.schemas), securitySchemes: c.securitySchemes }
}

/// The whole document with every reference rewritten.
pub open spec fn spec_fix_doc(d: OpenAPIView) -> OpenAPIView {
    OpenAPIView {
        paths: spec_fix_paths(d.paths),
        components: match d.components {
            Some(c) => Some(spec_fix_components(c)),
            None => None,
        },
        ..d
    }
}

fn fix_media(m: MediaType) -> (r: MediaType)
    ensures
        r@ == spec_fix_media(m@),
{
    let MediaType { schema, example } = m;
    MediaType {
        schema: match schema {
            Some(s) => Some(fix_schema(s)),
            None => None,
        },
        example,
    }
}

fn fix_content(c: Vec<(String, MediaType)>) -> (r: Vec<(String, MediaType)>)
    ensures
        pairs_view(r@) == spec_fix_content(pairs_view(c@)),
{
    let ghost cv = pairs_view(c@);
    let mut rest = c;
    let ghost rest_orig = rest@;
    let mut r: Vec<(String, MediaType)> = Vec::new();
    while rest.len() > 0
        invariant
            rest@.len() <= rest_orig.len(),
            rest@ == rest_orig.skip(rest_orig.len() - rest@.len()),
            cv == pairs_view(rest_orig),
            cv.len() == rest_orig.len(),
            pairs_view(r@) == spec_fix_content(cv.take(rest_orig.len() - rest@.len())),
        decreases rest@.len(),
    {
        let ghost k = rest_orig.len() - rest@.len();
        let ghost pre = rest@;
        let ghost before = pairs_view(r@);
        let e = rest.remove(0);
        proof {
            assert(rest@ =~= pre.drop_first());
            assert(rest@ =~= rest_orig.skip(k + 1));
            assert(e == rest_orig[k]);
            assert(cv[k] == (rest_orig[k].0@, rest_orig[k].1@));
        }
        r.push((e.0, fix_media(e.1)));
        proof {
            assert(pairs_view(r@) =~= before.push((cv[k].0, spec_fix_media(cv[k].1))));
            assert(spec_fix_content(cv.take(k + 1)) =~= spec_fix_content(cv.take(k as int)).push(
                (cv[k].0, spec_fix_media(cv[k].1)),
            ));
        }
    }
    proof {
        assert(cv.take(cv.len() as int) =~= cv);
    }
    r
}

fn fix_parameter(p: Parameter) -> (r: Parameter)
    ensures
        r@ == spec_fix_param(p@),
{
    let Parameter { name, in_type, description, required, schema, example } = p;
    Parameter {
        name,
        in_type,
        description,
        required,
        schema: match schema {
            Some(s) => Some(fix_schema(s)),
            None => None,
        },
        example,
    }
}

fn fix_params(ps: Vec<Parameter>) -> (r: Vec<Parameter>)
    ensures
        seq_view(r@) == spec_fix_params(seq_view(ps@)),
{
    let ghost pv = seq_view(ps@);
    let mut rest = ps;
    let ghost rest_orig = rest@;
    let mut r: Vec<Parameter> = Vec::new();
    while rest.len() > 0
        invariant
            rest@.len() <= rest_orig.len(),
            rest@ == rest_orig.skip(rest_orig.len() - rest@.len()),
            pv == seq_view(rest_orig),
            pv.len() == rest_orig.len(),
            seq_view(r@) == spec_fix_params(pv.take(rest_orig.len() - rest@.len())),
        decreases rest@.len(),
    {
        let ghost k = rest_orig.len() - rest@.len();
        let ghost pre = rest@;
        let ghost before = seq_view(r@);
        let e = rest.remove(0);
        proof {
            assert(rest@ =~= pre.drop_first());
            assert(rest@ =~= rest_orig.skip(k + 1));
            assert(e == rest_orig[k]);
            assert(pv[k] == rest_orig[k]@);
        }
        r.push(fix_parameter(e));
        proof {
            crate::models::lemma_seq_view_push(r@.drop_last(), r@.last());
            assert(seq_view(r@) =~= before.push(spec_fix_param(pv[k])));
            assert(spec_fix_params(pv.take(k + 1)) =~= spec_fix_params(pv.take(k as int)).push(
                spec_fix_param(pv[k]),
            ));
        }
    }
    proof {
        assert(pv.take(pv.len() as int) =~= pv);
    }
    r
}

fn fix_operation(op: Operation) -> (r: Operation)
    ensures
        r@ == spec_fix_operation(op@),
{
    let Operation {
        tags,
        summary,
        description,
        operationId,
        parameters,
        requestBody,
        responses,
        deprecated,
        security,
        consumes,
        produces,
    } = op;
    let parameters2 = fix_params(parameters);
    let requestBody2: Option<RequestBody> = match requestBody {
        Some(rb) => {
            let RequestBody { description, content, required } = rb;
            Some(RequestBody { description, content: fix_content(content), required })
        },
        None => None,
    };
    let ghost rv = seq_view(responses@);
    let mut rest = responses;
    let ghost rest_orig = rest@;
    let mut responses2: Vec<Response> = Vec::new();
    while rest.len() > 0
        invariant
            rest@.len() <= rest_orig.len(),
            rest@ == rest_orig.skip(rest_orig.len() - rest@.len()),
            rv == seq_view(rest_orig),
            rv.len() == rest_orig.len(),
            seq_view(responses2@) == rv.take(rest_orig.len() - rest@.len()).map_values(
                |r: ResponseView| spec_fix_response(r),
            ),
        decreases rest@.len(),
    {
        let ghost k = rest_orig.len() - rest@.len();
        let ghost pre = rest@;
        let ghost before = seq_view(responses2@);
        let e = rest.remove(0);
        proof {
            assert(rest@ =~= pre.drop_first());
            assert(rest@ =~= rest_orig.skip(k + 1));
            assert(e == rest_orig[k]);
            assert(rv[k] == rest_orig[k]@);
        }
        let Response { code, description, content } = e;
        responses2.push(Response { code, description, content: fix_content(content) });
        proof {
            crate::models::lemma_seq_view_push(responses2@.drop_last(), responses2@.last());
            assert(seq_view(responses2@) =~= before.push(spec_fix_response(rv[k])));
            assert(rv.take(k + 1).map_values(|r: ResponseView| spec_fix_response(r)) =~= rv.take(
                k as int,
            ).map_values(|r: ResponseView| spec_fix_response(r)).push(spec_fix_response(rv[k])));
        }
    }
    proof {
        assert(rv.take(rv.len() as int) =~= rv);
    }
    Operation {
        tags,
        summary,
        description,
        operationId,
        parameters: parameters2,
        requestBody: requestBody2,
        responses: responses2,
        deprecated,
        security,
        consumes,
        produces,
    }
}

fn fix_opt_operation(o: Option<Operation>) -> (r: Option<Operation>)
    ensures
        opt_view(r) == spec_fix_opt_operation(opt_view(o)),
{
    match o {
        Some(op) => Some(fix_operation(op)),
        None => None,
    }
}

fn fix_path_item(pi: PathItem) -> (r: PathItem)
    ensures
        r@ == spec_fix_path_item(pi@),
{
    let PathItem {
        summary,
        description,
        get,
        post,
        put,
        delete,
        options,
        head,
        patch,
        trace,
        parameters,
    } = pi;
    PathItem {
        summary,
        description,
        get: fix_opt_operation(get),
        post: fix_opt_operation(post),
        put: fix_opt_operation(put),
        delete: fix_opt_operation(delete),
        options: fix_opt_operation(options),
        head: fix_opt_operation(head),
        patch: fix_opt_operation(patch),
        trace: fix_opt_operation(trace),
        parameters: fix_params(parameters),
    }
}

} // verus!

verus! {

/// Structural closure of one node: every canonical reference's name is
/// a key of the registry.
pub open spec fn spec_schema_closed(s: SchemaView, reg: Seq<(Seq<char>, SchemaView)>) -> bool
    decreases s,
{
    &&& match s.ref_ {
        Some(r) => spec_match_at(r, spec_ref_prefix(), 0) ==> spec_has_key(
            reg,
            r.skip(spec_ref_prefix().len() as int),
        ),
        None => true,
    }
    &&& match s.items {
        Some(b) => spec_schema_closed(*b, reg),
        None => true,
    }
    &&& spec_schema_pairs_closed(s.properties, reg)
    &&& match s.allOf {
        Some(v) => spec_schema_seq_closed(v, reg),
        None => true,
    }
    &&& match s.anyOf {
        Some(v) => spec_schema_seq_closed(v, reg),
        None => true,
    }
    &&& match s.oneOf {
        Some(v) => spec_schema_seq_closed(v, reg),
        None => true,
    }
    &&& match s.not {
        Some(b) => spec_schema_closed(*b, reg),
        None => true,
    }
}

pub open spec fn spec_schema_pairs_closed(
    ps: Seq<(Seq<char>, SchemaView)>,
    reg: Seq<(Seq<char>, SchemaView)>,
) -> bool
    decreases ps,
{
    if ps.len() == 0 {
        true
    } else {
        spec_schema_pairs_closed(ps.drop_last(), reg) && spec_schema_closed(ps.last().1, reg)
    }
}

pub open spec fn spec_schema_seq_closed(
    ss: Seq<SchemaView>,
    reg: Seq<(Seq<char>, SchemaView)>,
) -> bool
    decreases ss,
{
    if ss.len() == 0 {
        true
    } else {
        spec_schema_seq_closed(ss.drop_last(), reg) && spec_schema_closed(ss.last(), reg)
    }
}

/// A structurally closed node refers only to present names.
pub proof fn lemma_schema_closed_refers(
    s: SchemaView,
    reg: Seq<(Seq<char>, SchemaView)>,
    name: Seq<char>,
)
    requires
        spec_schema_closed(s, reg),
        spec_schema_refers(s, name),
    ensures
        spec_has_key(reg, name),
    decreases s,
{
    match s.ref_ {
        Some(r) => {
            if spec_match_at(r, spec_ref_prefix(), 0) && r.skip(spec_ref_prefix().len() as int)
                == name {
                return ;
            }
        },
        None => {},
    }
    match s.items {
        Some(b) => {
            if spec_schema_refers(*b, name) {
                lemma_schema_closed_refers(*b, reg, name);
                return ;
            }
        },
        None => {},
    }
    if spec_schema_pairs_refers(s.properties, name) {
        lemma_schema_pairs_closed_refers(s.properties, reg, name);
        return ;
    }
    match s.allOf {
        Some(v) => {
            if spec_schema_seq_refers(v, name) {
                lemma_schema_seq_closed_refers(v, reg, name);
                return ;
            }
        },
        None => {},
    }
    match s.anyOf {
        Some(v) => {
            if spec_schema_seq_refers(v, name) {
                lemma_schema_seq_closed_refers(v, reg, name);
                return ;
            }
        },
        None => {},
    }
    match s.oneOf {
        Some(v) => {
            if spec_schema_seq_refers(v, name) {
                lemma_schema_seq_closed_refers(v, reg, name);
                return ;
            }
        },
        None => {},
    }
    match s.not {
        Some(b) => {
            if spec_schema_refers(*b, name) {
                lemma_schema_closed_refers(*b, reg, name);
                return ;
            }
        },
        None => {},
    }
}

pub proof fn lemma_schema_pairs_closed_refers(
    ps: Seq<(Seq<char>, SchemaView)>,
    reg: Seq<(Seq<char>, SchemaView)>,
    name: Seq<char>,
)
    requires
        spec_schema_pairs_closed(ps, reg),
        spec_schema_pairs_refers(ps, name),
    ensures
        spec_has_key(reg, name),
    decreases ps,
{
    if ps.len() > 0 {
        if spec_schema_refers(ps.last().1, name) {
            lemma_schema_closed_refers(ps.last().1, reg, name);
        } else {
            lemma_schema_pairs_closed_refers(ps.drop_last(), reg, name);
        }
    }
}

pub proof fn lemma_schema_seq_closed_refers(
    ss: Seq<SchemaView>,
    reg: Seq<(Seq<char>, SchemaView)>,
    name: Seq<char>,
)
    requires
        spec_schema_seq_closed(ss, reg),
        spec_schema_seq_refers(ss, name),
    ensures
        spec_has_key(reg, name),
    decreases ss,
{
    if ss.len() > 0 {
        if spec_schema_refers(ss.last(), name) {
            lemma_schema_closed_refers(ss.last(), reg, name);
        } else {
            lemma_schema_seq_closed_refers(ss.drop_last(), reg, name);
        }
    }
}

/// The first index of a schema registry whose key is `k`, against the
/// schema-pairs view.
fn reg_key_index(reg: &Vec<(String, Schema)>, k: &str) -> (r: usize)
    ensures
        r as int == spec_key_idx(schema_pairs_view(reg@), k@),
{
    proof {
        crate::assoc::lemma_key_idx(schema_pairs_view(reg@), k@);
        crate::models::lemma_schema_pairs_view_len(reg@);
    }
    let mut i: usize = 0;
    while i < reg.len()
        invariant
            i <= reg@.len(),
            schema_pairs_view(reg@).len() == reg@.len(),
            forall|j: int|
                0 <= j < reg@.len() ==> #[trigger] schema_pairs_view(reg@)[j] == (
                reg@[j].0@,
                schema_view(reg@[j].1),
                ),
            forall|j: int| 0 <= j < i ==> (#[trigger] schema_pairs_view(reg@)[j]).0 != k@,
            0 <= spec_key_idx(schema_pairs_view(reg@), k@) <= reg@.len(),
            spec_key_idx(schema_pairs_view(reg@), k@) < reg@.len() ==> schema_pairs_view(
                reg@,
            )[spec_key_idx(schema_pairs_view(reg@), k@)].0 == k@,
            forall|j: int|
                0 <= j < spec_key_idx(schema_pairs_view(reg@), k@) ==> (#[trigger] schema_pairs_view(
                    reg@,
                )[j]).0 != k@,
        decreases reg@.len() - i,
    {
        if str_eq(reg[i].0.as_str(), k) {
            proof {
                let s = spec_key_idx(schema_pairs_view(reg@), k@);
                if s < i as int {
                    assert(schema_pairs_view(reg@)[s].0 == k@);
                } else if s > i as int {
                    assert(schema_pairs_view(reg@)[i as int].0 != k@);
                }
            }
            return i;
        }
        i += 1;
    }
    i
}

/// Whether the registry has an entry keyed `k`.
fn reg_has_key(reg: &Vec<(String, Schema)>, k: &str) -> (r: bool)
    ensures
        r == spec_has_key(schema_pairs_view(reg@), k@),
{
    proof {
        crate::models::lemma_schema_pairs_view_len(reg@);
    }
    let i = reg_key_index(reg, k);
    i < reg.len()
}

/// The first dangling canonical reference of the node: a referenced name
/// absent from the registry, or nothing when the node is closed.
fn schema_find_dangling(s: &Schema, reg: &Vec<(String, Schema)>) -> (r: Option<String>)
    ensures
        match r {
            Some(n) => spec_schema_refers(s@, n@) && !spec_has_key(
                schema_pairs_view(reg@),
                n@,
            ),
            None => spec_schema_closed(s@, schema_pairs_view(reg@)),
        },
    decreases *s,
{
    proof {
        reveal_strlit("#/components/schemas/");
    }
    match &s.ref_ {
        Some(rf) => {
            let rc = to_chars(rf.as_str());
            if match_at(&rc, "#/components/schemas/", 0) {
                let name = chars_to_string(&sub_chars(&rc, 21, rc.len()));
                proof {
                    assert(rc@.subrange(21, rc@.len() as int) =~= rc@.skip(21));
                    assert(crate::models::schema_view(*s).ref_ == opt_view(s.ref_));
                }
                if !reg_has_key(reg, name.as_str()) {
                    return Some(name);
                }
            }
            proof {
                assert(crate::models::schema_view(*s).ref_ == opt_view(s.ref_));
            }
        },
        None => {},
    }
    match &s.items {
        Some(b) => {
            proof {
                assert(decreases_to!(*s => *s.items->0));
            }
            let r = schema_find_dangling(&**b, reg);
            if r.is_some() {
                return r;
            }
        },
        None => {},
    }
    let mut i: usize = 0;
    proof {
        crate::models::lemma_schema_pairs_view_len(s.properties@);
    }
    while i < s.properties.len()
        invariant
            i <= s.properties@.len(),
            spec_schema_pairs_closed(
                crate::models::schema_pairs_view(s.properties@).take(i as int),
                schema_pairs_view(reg@),
            ),
            crate::models::schema_pairs_view(s.properties@).len() == s.properties@.len(),
            forall|j: int|
                0 <= j < s.properties@.len() ==> #[trigger] crate::models::schema_pairs_view(
                    s.properties@,
                )[j] == (s.properties@[j].0@, schema_view(s.properties@[j].1)),
        decreases s.properties@.len() - i,
    {
        proof {
            assert(decreases_to!(*s => s.properties@[i as int].1));
        }
        let r = schema_find_dangling(&s.properties[i].1, reg);
        match r {
            Some(n) => {
                proof {
                    lemma_pairs_refers_at(
                        crate::models::schema_pairs_view(s.properties@),
                        i as int,
                        n@,
                    );
                }
                return Some(n);
            },
            None => {
                proof {
                    let pv = crate::models::schema_pairs_view(s.properties@);
                    assert(pv.take(i + 1 as int).drop_last() =~= pv.take(i as int));
                }
            },
        }
        i += 1;
    }
    proof {
        let pv = crate::models::schema_pairs_view(s.properties@);
        assert(pv.take(pv.len() as int) =~= pv);
    }
    match &s.allOf {
        Some(v) => {
            let r = seq_find_dangling(v, reg);
            if r.is_some() {
                return r;
            }
        },
        None => {},
    }
    match &s.anyOf {
        Some(v) => {
            let r = seq_find_dangling(v, reg);
            if r.is_some() {
                return r;
            }
        },
        None => {},
    }
    match &s.oneOf {
        Some(v) => {
            let r = seq_find_dangling(v, reg);
            if r.is_some() {
                return r;
            }
        },
        None => {},
    }
    match &s.not {
        Some(b) => {
            proof {
                assert(decreases_to!(*s => *s.not->0));
            }
            let r = schema_find_dangling(&**b, reg);
            if r.is_some() {
                return r;
            }
        },
        None => {},
    }
    None
}

/// A dangling name found in an entry is referred to by the pair list.
proof fn lemma_pairs_refers_at(ps: Seq<(Seq<char>, SchemaView)>, i: int, name: Seq<char>)
    requires
        0 <= i < ps.len(),
        spec_schema_refers(ps[i].1, name),
    ensures
        spec_schema_pairs_refers(ps, name),
    decreases ps,
{
    if i == ps.len() - 1 {
    } else {
        lemma_pairs_refers_at(ps.drop_last(), i, name);
    }
}

proof fn lemma_seq_refers_at(ss: Seq<SchemaView>, i: int, name: Seq<char>)
    requires
        0 <= i < ss.len(),
        spec_schema_refers(ss[i], name),
    ensures
        spec_schema_seq_refers(ss, name),
    decreases ss,
{
    if i == ss.len() - 1 {
    } else {
        lemma_seq_refers_at(ss.drop_last(), i, name);
    }
}

/// The first dangling reference of a schema list.
fn seq_find_dangling(v: &Vec<Schema>, reg: &Vec<(String, Schema)>) -> (r: Option<String>)
    ensures
        match r {
            Some(n) => spec_schema_seq_refers(crate::models::schema_seq_view(v@), n@)
                && !spec_has_key(schema_pairs_view(reg@), n@),
            None => spec_schema_seq_closed(
                crate::models::schema_seq_view(v@),
                schema_pairs_view(reg@),
            ),
        },
    decreases v@,
{
    proof {
        lemma_schema_seq_view_index(v@);
    }
    let mut i: usize = 0;
    while i < v.len()
        invariant
            i <= v@.len(),
            spec_schema_seq_closed(
                crate::models::schema_seq_view(v@).take(i as int),
                schema_pairs_view(reg@),
            ),
            crate::models::schema_seq_view(v@).len() == v@.len(),
            forall|j: int|
                0 <= j < v@.len() ==> #[trigger] crate::models::schema_seq_view(v@)[j]
                    == schema_view(v@[j]),
        decreases v@.len() - i,
    {
        proof {
            assert(decreases_to!(v@ => v@[i as int]));
        }
        let r = schema_find_dangling(&v[i], reg);
        match r {
            Some(n) => {
                proof {
                    lemma_seq_refers_at(crate::models::schema_seq_view(v@), i as int, n@);
                }
                return Some(n);
            },
            None => {
                proof {
                    let sv = crate::models::schema_seq_view(v@);
                    assert(sv.take(i + 1 as int).drop_last() =~= sv.take(i as int));
                }
            },
        }
        i += 1;
    }
    proof {
        let sv = crate::models::schema_seq_view(v@);
        assert(sv.take(sv.len() as int) =~= sv);
    }
    None
}

} // verus!

verus! {

/// Structural closure of media content.
pub open spec fn spec_content_closed(
    c: Seq<(Seq<char>, MediaTypeView)>,
    reg: Seq<(Seq<char>, SchemaView)>,
) -> bool {
    forall|i: int|
        0 <= i < c.len() ==> match (#[trigger] c[i]).1.schema {
            Some(s) => spec_schema_closed(s, reg),
            None => true,
        }
}

pub open spec fn spec_params_closed(
    ps: Seq<ParameterView>,
    reg: Seq<(Seq<char>, SchemaView)>,
) -> bool {
    forall|i: int|
        0 <= i < ps.len() ==> match (#[trigger] ps[i]).schema {
            Some(s) => spec_schema_closed(s, reg),
            None => true,
        }
}

pub open spec fn spec_operation_closed(op: OperationView, reg: Seq<(Seq<char>, SchemaView)>) -> bool {
    &&& spec_params_closed(op.parameters, reg)
    &&& match op.requestBody {
        Some(rb) => spec_content_closed(rb.content, reg),
        None => true,
    }
    &&& forall|i: int| 0 <= i < op.responses.len() ==> spec_content_closed(
        (#[trigger] op.responses[i]).content,
        reg,
    )
}

pub open spec fn spec_opt_operation_closed(
    o: Option<OperationView>,
    reg: Seq<(Seq<char>, SchemaView)>,
) -> bool {
    match o {
        Some(op) => spec_operation_closed(op, reg),
        None => true,
    }
}

pub open spec fn spec_path_item_closed(pi: PathItemView, reg: Seq<(Seq<char>, SchemaView)>) -> bool {
    &&& spec_opt_operation_closed(pi.get, reg)
    &&& spec_opt_operation_closed(pi.post, reg)
    &&& spec_opt_operation_closed(pi.put, reg)
    &&& spec_opt_operation_closed(pi.delete, reg)
    &&& spec_opt_operation_closed(pi.options, reg)
    &&& spec_opt_operation_closed(pi.head, reg)
    &&& spec_opt_operation_closed(pi.patch, reg)
    &&& spec_opt_operation_closed(pi.trace, reg)
    &&& spec_params_closed(pi.parameters, reg)
}

/// A structurally closed content list refers only to present names.
pub proof fn lemma_content_closed_refers(
    c: Seq<(Seq<char>, MediaTypeView)>,
    reg: Seq<(Seq<char>, SchemaView)>,
    name: Seq<char>,
)
    requires
        spec_content_closed(c, reg),
        spec_content_refers(c, name),
    ensures
        spec_has_key(reg, name),
{
    let i = choose|i: int| 0 <= i < c.len() && spec_media_refers(#[trigger] c[i].1, name);
    match c[i].1.schema {
        Some(s) => {
            lemma_schema_closed_refers(s, reg, name);
        },
        None => {},
    }
}

pub proof fn lemma_params_closed_refers(
    ps: Seq<ParameterView>,
    reg: Seq<(Seq<char>, SchemaView)>,
    name: Seq<char>,
)
    requires
        spec_params_closed(ps, reg),
        spec_params_refers(ps, name),
    ensures
        spec_has_key(reg, name),
{
    let i = choose|i: int|
        0 <= i < ps.len() && match (#[trigger] ps[i]).schema {
            Some(s) => spec_schema_refers(s, name),
            None => false,
        };
    match ps[i].schema {
        Some(s) => {
            lemma_schema_closed_refers(s, reg, name);
        },
        None => {},
    }
}

pub proof fn lemma_operation_closed_refers(
    op: OperationView,
    reg: Seq<(Seq<char>, SchemaView)>,
    name: Seq<char>,
)
    requires
        spec_operation_closed(op, reg),
        spec_operation_refers(op, name),
    ensures
        spec_has_key(reg, name),
{
    if spec_params_refers(op.parameters, name) {
        lemma_params_closed_refers(op.parameters, reg, name);
    } else {
        match op.requestBody {
            Some(rb) => {
                if spec_content_refers(rb.content, name) {
                    lemma_content_closed_refers(rb.content, reg, name);
                    return ;
                }
            },
            None => {},
        }
        let i = choose|i: int|
            0 <= i < op.responses.len() && spec_content_refers(
                (#[trigger] op.responses[i]).content,
                name,
            );
        lemma_content_closed_refers(op.responses[i].content, reg, name);
    }
}

pub proof fn lemma_path_item_closed_refers(
    pi: PathItemView,
    reg: Seq<(Seq<char>, SchemaView)>,
    name: Seq<char>,
)
    requires
        spec_path_item_closed(pi, reg),
        spec_path_item_refers(pi, name),
    ensures
        spec_has_key(reg, name),
{
    if spec_opt_operation_refers(pi.get, name) {
        lemma_operation_closed_refers(pi.get->0, reg, name);
    } else if spec_opt_operation_refers(pi.post, name) {
        lemma_operation_closed_refers(pi.post->0, reg, name);
    } else if spec_opt_operation_refers(pi.put, name) {
        lemma_operation_closed_refers(pi.put->0, reg, name);
    } else if spec_opt_operation_refers(pi.delete, name) {
        lemma_operation_closed_refers(pi.delete->0, reg, name);
    } else if spec_opt_operation_refers(pi.options, name) {
        lemma_operation_closed_refers(pi.options->0, reg, name);
    } else if spec_opt_operation_refers(pi.head, name) {
        lemma_operation_closed_refers(pi.head->0, reg, name);
    } else if spec_opt_operation_refers(pi.patch, name) {
        lemma_operation_closed_refers(pi.patch->0, reg, name);
    } else if spec_opt_operation_refers(pi.trace, name) {
        lemma_operation_closed_refers(pi.trace->0, reg, name);
    } else {
        lemma_params_closed_refers(pi.parameters, reg, name);
    }
}

/// The first dangling reference among a parameter list's schemas.
fn params_find_dangling(ps: &Vec<Parameter>, reg: &Vec<(String, Schema)>) -> (r: Option<String>)
    ensures
        match r {
            Some(n) => spec_params_refers(seq_view(ps@), n@) && !spec_has_key(
                schema_pairs_view(reg@),
                n@,
            ),
            None => spec_params_closed(seq_view(ps@), schema_pairs_view(reg@)),
        },
{
    let mut i: usize = 0;
    while i < ps.len()
        invariant
            i <= ps@.len(),
            seq_view(ps@).len() == ps@.len(),
            forall|j: int|
                0 <= j < i ==> match (#[trigger] seq_view(ps@)[j]).schema {
                    Some(s) => spec_schema_closed(s, schema_pairs_view(reg@)),
                    None => true,
                },
        decreases ps@.len() - i,
    {
        proof {
            assert(seq_view(ps@)[i as int] == ps@[i as int]@);
        }
        match &ps[i].schema {
            Some(s) => {
                let r = schema_find_dangling(s, reg);
                match r {
                    Some(n) => {
                        proof {
                            assert(match seq_view(ps@)[i as int].schema {
                                Some(sv) => spec_schema_refers(sv, n@),
                                None => false,
                            });
                        }
                        return Some(n);
                    },
                    None => {},
                }
            },
            None => {},
        }
        i += 1;
    }
    None
}

/// The first dangling reference among a content list's schemas.
fn content_find_dangling(c: &Vec<(String, MediaType)>, reg: &Vec<(String, Schema)>) -> (r: Option<
    String,
>)
    ensures
        match r {
            Some(n) => spec_content_refers(pairs_view(c@), n@) && !spec_has_key(
                schema_pairs_view(reg@),
                n@,
            ),
            None => spec_content_closed(pairs_view(c@), schema_pairs_view(reg@)),
        },
{
    let mut i: usize = 0;
    while i < c.len()
        invariant
            i <= c@.len(),
            pairs_view(c@).len() == c@.len(),
            forall|j: int|
                0 <= j < i ==> match (#[trigger] pairs_view(c@)[j]).1.schema {
                    Some(s) => spec_schema_closed(s, schema_pairs_view(reg@)),
                    None => true,
                },
        decreases c@.len() - i,
    {
        proof {
            assert(pairs_view(c@)[i as int] == (c@[i as int].0@, c@[i as int].1@));
        }
        match &c[i].1.schema {
            Some(s) => {
                let r = schema_find_dangling(s, reg);
                match r {
                    Some(n) => {
                        return Some(n);
                    },
                    None => {},
                }
            },
            None => {},
        }
        i += 1;
    }
    None
}

/// The first dangling reference of an operation.
fn op_find_dangling(op: &Operation, reg: &Vec<(String, Schema)>) -> (r: Option<String>)
    ensures
        match r {
            Some(n) => spec_operation_refers(op@, n@) && !spec_has_key(
                schema_pairs_view(reg@),
                n@,
            ),
            None => spec_operation_closed(op@, schema_pairs_view(reg@)),
        },
{
    let r = params_find_dangling(&op.parameters, reg);
    if r.is_some() {
        return r;
    }
    match &op.requestBody {
        Some(rb) => {
            let r = content_find_dangling(&rb.content, reg);
            if r.is_some() {
                return r;
            }
        },
        None => {},
    }
    let mut i: usize = 0;
    while i < op.responses.len()
        invariant
            i <= op.responses@.len(),
            seq_view(op.responses@).len() == op.responses@.len(),
            forall|j: int|
                0 <= j < i ==> spec_content_closed(
                    (#[trigger] seq_view(op.responses@)[j]).content,
                    schema_pairs_view(reg@),
                ),
            spec_params_closed(seq_view(op.parameters@), schema_pairs_view(reg@)),
            match op@.requestBody {
                Some(rb) => spec_content_closed(rb.content, schema_pairs_view(reg@)),
                None => true,
            },
        decreases op.responses@.len() - i,
    {
        proof {
            assert(seq_view(op.responses@)[i as int] == op.responses@[i as int]@);
        }
        let r = content_find_dangling(&op.responses[i].content, reg);
        match r {
            Some(n) => {
                proof {
                    assert(0 <= i < op@.responses.len() && spec_content_refers(
                        (#[trigger] op@.responses[i as int]).content,
                        n@,
                    ));
                    assert(spec_operation_refers(op@, n@));
                }
                return Some(n);
            },
            None => {},
        }
        i += 1;
    }
    None
}

fn opt_op_find_dangling(o: &Option<Operation>, reg: &Vec<(String, Schema)>) -> (r: Option<String>)
    ensures
        match r {
            Some(n) => spec_opt_operation_refers(opt_view(*o), n@) && !spec_has_key(
                schema_pairs_view(reg@),
                n@,
            ),
            None => spec_opt_operation_closed(opt_view(*o), schema_pairs_view(reg@)),
        },
{
    match o {
        Some(op) => op_find_dangling(op, reg),
        None => None,
    }
}

/// The first dangling reference of a path item.
fn path_item_find_dangling(pi: &PathItem, reg: &Vec<(String, Schema)>) -> (r: Option<String>)
    ensures
        match r {
            Some(n) => spec_path_item_refers(pi@, n@) && !spec_has_key(
                schema_pairs_view(reg@),
                n@,
            ),
            None => spec_path_item_closed(pi@, schema_pairs_view(reg@)),
        },
{
    let r = opt_op_find_dangling(&pi.get, reg);
    if r.is_some() {
        return r;
    }
    let r = opt_op_find_dangling(&pi.post, reg);
    if r.is_some() {
        return r;
    }
    let r = opt_op_find_dangling(&pi.put, reg);
    if r.is_some() {
        return r;
    }
    let r = opt_op_find_dangling(&pi.delete, reg);
    if r.is_some() {
        return r;
    }
    let r = opt_op_find_dangling(&pi.options, reg);
    if r.is_some() {
        return r;
    }
    let r = opt_op_find_dangling(&pi.head, reg);
    if r.is_some() {
        return r;
    }
    let r = opt_op_find_dangling(&pi.patch, reg);
    if r.is_some() {
        return r;
    }
    let r = opt_op_find_dangling(&pi.trace, reg);
    if r.is_some() {
        return r;
    }
    params_find_dangling(&pi.parameters, reg)
}

} // verus!

verus! {

/// Whether some canonical reference among the paths or the registry
/// names `name`.
pub open spec fn spec_pr_refers(
    paths: Seq<(Seq<char>, PathItemView)>,
    reg: Seq<(Seq<char>, SchemaView)>,
    name: Seq<char>,
) -> bool {
    ||| exists|i: int| 0 <= i < paths.len() && spec_path_item_refers(
        (#[trigger] paths[i]).1,
        name,
    )
    ||| exists|i: int| 0 <= i < reg.len() && spec_schema_refers((#[trigger] reg[i]).1, name)
}

/// Structural closure of the whole document's schemas.
pub open spec fn spec_pr_closed(
    paths: Seq<(Seq<char>, PathItemView)>,
    reg: Seq<(Seq<char>, SchemaView)>,
) -> bool {
    &&& forall|i: int| 0 <= i < paths.len() ==> spec_path_item_closed((#[trigger] paths[i]).1, reg)
    &&& forall|i: int| 0 <= i < reg.len() ==> spec_schema_closed((#[trigger] reg[i]).1, reg)
}

/// Structural closure means every referenced name is present.
pub proof fn lemma_pr_closed(
    paths: Seq<(Seq<char>, PathItemView)>,
    reg: Seq<(Seq<char>, SchemaView)>,
)
    requires
        spec_pr_closed(paths, reg),
    ensures
        forall|name: Seq<char>| #[trigger]
            spec_pr_refers(paths, reg, name) ==> spec_has_key(reg, name),
{
    assert forall|name: Seq<char>| #[trigger]
        spec_pr_refers(paths, reg, name) implies spec_has_key(reg, name) by {
        if exists|i: int| 0 <= i < paths.len() && spec_path_item_refers(
            (#[trigger] paths[i]).1,
            name,
        ) {
            let i = choose|i: int|
                0 <= i < paths.len() && spec_path_item_refers((#[trigger] paths[i]).1, name);
            lemma_path_item_closed_refers(paths[i].1, reg, name);
        } else {
            let i = choose|i: int|
                0 <= i < reg.len() && spec_schema_refers((#[trigger] reg[i]).1, name);
            lemma_schema_closed_refers(reg[i].1, reg, name);
        }
    }
}

/// The first dangling reference of the whole document: paths first, then
/// the registry's own schemas.
fn doc_find_dangling(paths: &Vec<(String, PathItem)>, reg: &Vec<(String, Schema)>) -> (r: Option<
    String,
>)
    ensures
        match r {
            Some(n) => spec_pr_refers(pairs_view(paths@), schema_pairs_view(reg@), n@)
                && !spec_has_key(schema_pairs_view(reg@), n@),
            None => spec_pr_closed(pairs_view(paths@), schema_pairs_view(reg@)),
        },
{
    let mut i: usize = 0;
    while i < paths.len()
        invariant
            i <= paths@.len(),
            pairs_view(paths@).len() == paths@.len(),
            forall|j: int|
                0 <= j < i ==> spec_path_item_closed(
                    (#[trigger] pairs_view(paths@)[j]).1,
                    schema_pairs_view(reg@),
                ),
        decreases paths@.len() - i,
    {
        proof {
            assert(pairs_view(paths@)[i as int] == (paths@[i as int].0@, paths@[i as int].1@));
        }
        match path_item_find_dangling(&paths[i].1, reg) {
            Some(n) => {
                proof {
                    assert(0 <= i < pairs_view(paths@).len() && spec_path_item_refers(
                        (#[trigger] pairs_view(paths@)[i as int]).1,
                        n@,
                    ));
                }
                return Some(n);
            },
            None => {},
        }
        i += 1;
    }
    proof {
        crate::models::lemma_schema_pairs_view_len(reg@);
    }
    let mut k: usize = 0;
    while k < reg.len()
        invariant
            k <= reg@.len(),
            schema_pairs_view(reg@).len() == reg@.len(),
            forall|j: int|
                0 <= j < reg@.len() ==> #[trigger] schema_pairs_view(reg@)[j] == (
                reg@[j].0@,
                schema_view(reg@[j].1),
                ),
            forall|j: int|
                0 <= j < k ==> spec_schema_closed(
                    (#[trigger] schema_pairs_view(reg@)[j]).1,
                    schema_pairs_view(reg@),
                ),
            forall|j: int|
                0 <= j < paths@.len() ==> spec_path_item_closed(
                    (#[trigger] pairs_view(paths@)[j]).1,
                    schema_pairs_view(reg@),
                ),
        decreases reg@.len() - k,
    {
        match schema_find_dangling(&reg[k].1, reg) {
            Some(n) => {
                proof {
                    assert(0 <= k < schema_pairs_view(reg@).len() && spec_schema_refers(
                        (#[trigger] schema_pairs_view(reg@)[k as int]).1,
                        n@,
                    ));
                }
                return Some(n);
            },
            None => {},
        }
        k += 1;
    }
    None
}

/// A normalized document: its components are present, rewriting changes
/// nothing, and every referenced name is a key of its registry.
pub open spec fn spec_doc_normalized(d: OpenAPIView) -> bool {
    &&& d.components is Some
    &&& spec_fix_doc(d) == d
    &&& spec_pr_closed(d.paths, (d.components->0).schemas)
}

/// Rewrites every fixable path item's references soundly.
pub proof fn lemma_fix_params_ok(ps: Seq<ParameterView>)
    ensures
        spec_params_fixable(ps) ==> spec_params_ok(spec_fix_params(ps)),
        spec_fix_params(spec_fix_params(ps)) =~= spec_fix_params(ps),
{
    if spec_params_fixable(ps) {
        assert forall|i: int| 0 <= i < spec_fix_params(ps).len() implies match (
        #[trigger] spec_fix_params(ps)[i]).schema {
            Some(s) => spec_schema_refs_ok(s),
            None => true,
        } by {
            assert(spec_fix_params(ps)[i] == spec_fix_param(ps[i]));
            match ps[i].schema {
                Some(s) => {
                    lemma_fix_schema(s);
                },
                None => {},
            }
        }
    }
    assert forall|i: int| 0 <= i < spec_fix_params(ps).len() implies #[trigger] spec_fix_params(
        spec_fix_params(ps),
    )[i] == spec_fix_params(ps)[i] by {
        assert(spec_fix_params(ps)[i] == spec_fix_param(ps[i]));
        match ps[i].schema {
            Some(s) => {
                lemma_fix_schema(s);
            },
            None => {},
        }
    }
}

pub proof fn lemma_fix_content_ok(c: Seq<(Seq<char>, MediaTypeView)>)
    ensures
        spec_content_fixable(c) ==> spec_content_ok(spec_fix_content(c)),
        spec_fix_content(spec_fix_content(c)) =~= spec_fix_content(c),
{
    if spec_content_fixable(c) {
        assert forall|i: int| 0 <= i < spec_fix_content(c).len() implies spec_media_ok(
            (#[trigger] spec_fix_content(c)[i]).1,
        ) by {
            assert(spec_fix_content(c)[i] == (c[i].0, spec_fix_media(c[i].1)));
            match c[i].1.schema {
                Some(s) => {
                    lemma_fix_schema(s);
                },
                None => {},
            }
        }
    }
    assert forall|i: int| 0 <= i < spec_fix_content(c).len() implies #[trigger] spec_fix_content(
        spec_fix_content(c),
    )[i] == spec_fix_content(c)[i] by {
        assert(spec_fix_content(c)[i] == (c[i].0, spec_fix_media(c[i].1)));
        match c[i].1.schema {
            Some(s) => {
                lemma_fix_schema(s);
            },
            None => {},
        }
    }
}

pub proof fn lemma_fix_operation_ok(op: OperationView)
    ensures
        spec_operation_fixable(op) ==> spec_operation_ok(spec_fix_operation(op)),
        spec_fix_operation(spec_fix_operation(op)) == spec_fix_operation(op),
{
    lemma_fix_params_ok(op.parameters);
    match op.requestBody {
        Some(rb) => {
            lemma_fix_content_ok(rb.content);
        },
        None => {},
    }
    let f = spec_fix_operation(op);
    if spec_operation_fixable(op) {
        assert forall|i: int| 0 <= i < f.responses.len() implies spec_content_ok(
            (#[trigger] f.responses[i]).content,
        ) by {
            assert(f.responses[i] == spec_fix_response(op.responses[i]));
            lemma_fix_content_ok(op.responses[i].content);
        }
    }
    assert forall|i: int| 0 <= i < f.responses.len() implies #[trigger] spec_fix_operation(
        f,
    ).responses[i] == f.responses[i] by {
        assert(f.responses[i] == spec_fix_response(op.responses[i]));
        lemma_fix_content_ok(op.responses[i].content);
    }
    assert(spec_fix_operation(f).responses =~= f.responses);
    assert(spec_fix_operation(f).parameters =~= f.parameters);
}

pub proof fn lemma_fix_path_item_ok(pi: PathItemView)
    ensures
        spec_path_item_fixable(pi) ==> spec_path_item_ok(spec_fix_path_item(pi)),
        spec_fix_path_item(spec_fix_path_item(pi)) == spec_fix_path_item(pi),
{
    match pi.get { Some(op) => lemma_fix_operation_ok(op), None => () }
    match pi.post { Some(op) => lemma_fix_operation_ok(op), None => () }
    match pi.put { Some(op) => lemma_fix_operation_ok(op), None => () }
    match pi.delete { Some(op) => lemma_fix_operation_ok(op), None => () }
    match pi.options { Some(op) => lemma_fix_operation_ok(op), None => () }
    match pi.head { Some(op) => lemma_fix_operation_ok(op), None => () }
    match pi.patch { Some(op) => lemma_fix_operation_ok(op), None => () }
    match pi.trace { Some(op) => lemma_fix_operation_ok(op), None => () }
    lemma_fix_params_ok(pi.parameters);
}

/// Entrywise views of a pair sequence's reference soundness.
pub proof fn lemma_pairs_refs_ok_index(ps: Seq<(Seq<char>, SchemaView)>)
    ensures
        spec_schema_pairs_refs_ok(ps) <==> (forall|i: int|
            0 <= i < ps.len() ==> spec_schema_refs_ok((#[trigger] ps[i]).1)),
    decreases ps,
{
    if ps.len() > 0 {
        lemma_pairs_refs_ok_index(ps.drop_last());
        assert(forall|i: int| 0 <= i < ps.len() - 1 ==> #[trigger] ps.drop_last()[i] == ps[i]);
        if spec_schema_pairs_refs_ok(ps) {
            assert forall|i: int| 0 <= i < ps.len() implies spec_schema_refs_ok(
                (#[trigger] ps[i]).1,
            ) by {
                if i < ps.len() - 1 {
                    assert(ps.drop_last()[i] == ps[i]);
                    assert(spec_schema_refs_ok(ps.drop_last()[i].1));
                } else {
                    assert(ps[i] == ps.last());
                }
            }
        }
        if forall|i: int| 0 <= i < ps.len() ==> spec_schema_refs_ok((#[trigger] ps[i]).1) {
            assert forall|i: int|
                0 <= i < ps.drop_last().len() implies spec_schema_refs_ok(
                (#[trigger] ps.drop_last()[i]).1,
            ) by {
                assert(ps.drop_last()[i] == ps[i]);
            }
            assert(spec_schema_refs_ok(ps.last().1));
        }
    }
}

pub proof fn lemma_pairs_refs_fixable_index(ps: Seq<(Seq<char>, SchemaView)>)
    ensures
        spec_schema_pairs_refs_fixable(ps) <==> (forall|i: int|
            0 <= i < ps.len() ==> spec_schema_refs_fixable((#[trigger] ps[i]).1)),
    decreases ps,
{
    if ps.len() > 0 {
        lemma_pairs_refs_fixable_index(ps.drop_last());
        assert(forall|i: int| 0 <= i < ps.len() - 1 ==> #[trigger] ps.drop_last()[i] == ps[i]);
        if spec_schema_pairs_refs_fixable(ps) {
            assert forall|i: int| 0 <= i < ps.len() implies spec_schema_refs_fixable(
                (#[trigger] ps[i]).1,
            ) by {
                if i < ps.len() - 1 {
                    assert(ps.drop_last()[i] == ps[i]);
                    assert(spec_schema_refs_fixable(ps.drop_last()[i].1));
                } else {
                    assert(ps[i] == ps.last());
                }
            }
        }
        if forall|i: int| 0 <= i < ps.len() ==> spec_schema_refs_fixable((#[trigger] ps[i]).1) {
            assert forall|i: int|
                0 <= i < ps.drop_last().len() implies spec_schema_refs_fixable(
                (#[trigger] ps.drop_last()[i]).1,
            ) by {
                assert(ps.drop_last()[i] == ps[i]);
            }
            assert(spec_schema_refs_fixable(ps.last().1));
        }
    }
}

/// Rewrites every schema of a named registry.
fn fix_registry(v: Vec<(String, Schema)>) -> (r: Vec<(String, Schema)>)
    ensures
        schema_pairs_view(r@) == spec_fix_schema_pairs(schema_pairs_view(v@)),
{
    let ghost sv = schema_pairs_view(v@);
    let ghost v_orig = v@;
    proof {
        crate::models::lemma_schema_pairs_view_len(v@);
    }
    let mut rest = v;
    let mut r: Vec<(String, Schema)> = Vec::new();
    while rest.len() > 0
        invariant
            rest@.len() <= v_orig.len(),
            rest@ == v_orig.skip(v_orig.len() - rest@.len()),
            sv == schema_pairs_view(v_orig),
            sv.len() == v_orig.len(),
            forall|j: int|
                0 <= j < v_orig.len() ==> #[trigger] sv[j] == (
                v_orig[j].0@,
                schema_view(v_orig[j].1),
                ),
            schema_pairs_view(r@) == spec_fix_schema_pairs(sv.take(v_orig.len() - rest@.len())),
        decreases rest@.len(),
    {
        let ghost k = v_orig.len() - rest@.len();
        let ghost pre = rest@;
        let ghost before = schema_pairs_view(r@);
        let e = rest.remove(0);
        proof {
            assert(rest@ =~= pre.drop_first());
            assert(rest@ =~= v_orig.skip(k + 1));
            assert(e == v_orig[k]);
        }
        let fixed = fix_schema(e.1);
        let ghost old_rv = r@;
        r.push((e.0, fixed));
        proof {
            assert(r@.drop_last() =~= old_rv);
            assert(schema_pairs_view(r@) == schema_pairs_view(r@.drop_last()).push(
                (r@.last().0@, schema_view(r@.last().1)),
            ));
            assert(sv.take(k + 1).drop_last() =~= sv.take(k as int));
            assert(schema_pairs_view(r@) =~= before.push((sv[k].0, spec_fix_schema(sv[k].1))));
            assert(spec_fix_schema_pairs(sv.take(k + 1)) == spec_fix_schema_pairs(
                sv.take(k as int),
            ).push((sv.take(k + 1).last().0, spec_fix_schema(sv.take(k + 1).last().1))));
        }
    }
    proof {
        assert(sv.take(sv.len() as int) =~= sv);
    }
    r
}

/// Rewrites every path item of the paths map.
fn fix_paths(v: Vec<(String, PathItem)>) -> (r: Vec<(String, PathItem)>)
    ensures
        pairs_view(r@) == spec_fix_paths(pairs_view(v@)),
{
    let ghost pv = pairs_view(v@);
    let ghost v_orig = v@;
    let mut rest = v;
    let mut r: Vec<(String, PathItem)> = Vec::new();
    while rest.len() > 0
        invariant
            rest@.len() <= v_orig.len(),
            rest@ == v_orig.skip(v_orig.len() - rest@.len()),
            pv == pairs_view(v_orig),
            pv.len() == v_orig.len(),
            pairs_view(r@) == spec_fix_paths(pv.take(v_orig.len() - rest@.len())),
        decreases rest@.len(),
    {
        let ghost k = v_orig.len() - rest@.len();
        let ghost pre = rest@;
        let ghost before = pairs_view(r@);
        let e = rest.remove(0);
        proof {
            assert(rest@ =~= pre.drop_first());
            assert(rest@ =~= v_orig.skip(k + 1));
            assert(e == v_orig[k]);
            assert(pv[k] == (v_orig[k].0@, v_orig[k].1@));
        }
        r.push((e.0, fix_path_item(e.1)));
        proof {
            assert(pairs_view(r@) =~= before.push((pv[k].0, spec_fix_path_item(pv[k].1))));
            assert(spec_fix_paths(pv.take(k + 1)) =~= spec_fix_paths(pv.take(k as int)).push(
                (pv[k].0, spec_fix_path_item(pv[k].1)),
            ));
        }
    }
    proof {
        assert(pv.take(pv.len() as int) =~= pv);
    }
    r
}

} // verus!

verus! {

/// The reference normalizer, whole-document: every `$ref` is rewritten
/// into canonical form, and then every canonically referenced name
/// missing from the registry receives an empty placeholder schema.
///
/// Normalizing a normalized document gives it back unchanged.
pub fn normalize_openapi(doc: OpenAPI) -> (r: OpenAPI)
    ensures
        r@.openapi == doc@.openapi,
        r@.info == doc@.info,
        r@.servers == doc@.servers,
        r@.security == doc@.security,
        r@.tags == doc@.tags,
        r@.externalDocs == doc@.externalDocs,
        r@.paths == spec_fix_paths(doc@.paths),
        match doc@.components {
            None => r@.components is None,
            Some(c) => r@.components matches Some(c2) && c2.securitySchemes == c.securitySchemes
                && c2.schemas.len() >= c.schemas.len() && c2.schemas.take(c.schemas.len() as int)
                == spec_fix_schema_pairs(c.schemas) && (forall|i: int|
                c.schemas.len() <= i < c2.schemas.len() ==> (#[trigger] c2.schemas[i]).1
                    == spec_empty_schema() && !spec_has_key(c2.schemas.take(i), c2.schemas[i].0)),
        },
        spec_doc_refs_fixable(doc@) ==> spec_doc_refs_ok(r@),
        doc@.components is Some ==> spec_doc_closed(r@),
        spec_doc_normalized(doc@) ==> r@ == doc@,
{
    let ghost d0 = doc@;
    let OpenAPI { openapi, info, servers, paths, components, security, tags, externalDocs } = doc;
    let paths2 = fix_paths(paths);
    let ghost paths2_v = pairs_view(paths2@);
    let components2: Option<Components> = match components {
        Some(c) => {
            let Components { schemas, securitySchemes } = c;
            let ghost base_v = schema_pairs_view(schemas@);
            let mut schemas2 = fix_registry(schemas);
            let ghost fixed_v = schema_pairs_view(schemas2@);
            proof {
                crate::assoc::lemma_key_idx(fixed_v, Seq::empty());
                lemma_fix_schema_pairs(base_v);
            }
            let orig_len = schemas2.len();
            let ghost fixed_vec = schemas2@;
            proof {
                lemma_reg_extended_refl(fixed_v);
                crate::models::lemma_schema_pairs_view_len(schemas2@);
            }
            let mut pidx: usize = 0;
            while pidx < paths2.len()
                invariant
                    pidx <= paths2@.len(),
                    paths2_v == pairs_view(paths2@),
                    paths2_v.len() == paths2@.len(),
                    spec_reg_extended(fixed_v, schema_pairs_view(schemas2@)),
                    forall|j: int|
                        0 <= j < pidx ==> spec_path_item_closed(
                            (#[trigger] paths2_v[j]).1,
                            schema_pairs_view(schemas2@),
                        ),
                    orig_len == fixed_v.len(),
                    fixed_v == schema_pairs_view(fixed_vec),
                    spec_pr_closed(paths2_v, fixed_v) ==> schemas2@ == fixed_vec,
                decreases paths2@.len() - pidx,
            {
                proof {
                    assert(paths2_v[pidx as int] == (
                        paths2@[pidx as int].0@,
                        paths2@[pidx as int].1@,
                    ));
                }
                let ghost pre = schema_pairs_view(schemas2@);
                let ghost pre_vec = schemas2@;
                pi_close(&paths2[pidx].1, &mut schemas2);
                proof {
                    lemma_reg_extended_trans(fixed_v, pre, schema_pairs_view(schemas2@));
                    if spec_pr_closed(paths2_v, fixed_v) {
                        assert(pre_vec == fixed_vec);
                        assert(pre == fixed_v);
                        assert(spec_path_item_closed(paths2_v[pidx as int].1, fixed_v));
                        assert(schemas2@ == pre_vec);
                    }
                    assert forall|j: int|
                        0 <= j < pidx + 1 implies spec_path_item_closed(
                        (#[trigger] paths2_v[j]).1,
                        schema_pairs_view(schemas2@),
                    ) by {
                        if j < pidx as int {
                            lemma_path_item_closed_mono(
                                paths2_v[j].1,
                                pre,
                                schema_pairs_view(schemas2@),
                            );
                        }
                    }
                }
                pidx += 1;
            }
            proof {
                crate::models::lemma_schema_pairs_view_len(schemas2@);
            }
            let mut ridx: usize = 0;
            while ridx < orig_len
                invariant
                    ridx <= orig_len,
                    orig_len == fixed_v.len(),
                    paths2_v.len() == paths2@.len(),
                    spec_reg_extended(fixed_v, schema_pairs_view(schemas2@)),
                    schema_pairs_view(schemas2@).len() == schemas2@.len(),
                    orig_len <= schemas2@.len(),
                    fixed_v == schema_pairs_view(fixed_vec),
                    spec_pr_closed(paths2_v, fixed_v) ==> schemas2@ == fixed_vec,
                    forall|j: int|
                        0 <= j < paths2_v.len() ==> spec_path_item_closed(
                            (#[trigger] paths2_v[j]).1,
                            schema_pairs_view(schemas2@),
                        ),
                    forall|j: int|
                        0 <= j < ridx ==> spec_schema_closed(
                            (#[trigger] schema_pairs_view(schemas2@)[j]).1,
                            schema_pairs_view(schemas2@),
                        ),
                decreases orig_len - ridx,
            {
                proof {
                    crate::models::lemma_schema_pairs_view_len(schemas2@);
                    assert(schema_pairs_view(schemas2@)[ridx as int] == (
                        schemas2@[ridx as int].0@,
                        schema_view(schemas2@[ridx as int].1),
                    ));
                }
                let entry = schemas2[ridx].1.dup();
                let ghost pre = schema_pairs_view(schemas2@);
                let ghost pre_vec = schemas2@;
                schema_close(&entry, &mut schemas2);
                proof {
                    crate::models::lemma_schema_pairs_view_len(schemas2@);
                    lemma_reg_extended_trans(fixed_v, pre, schema_pairs_view(schemas2@));
                    if spec_pr_closed(paths2_v, fixed_v) {
                        assert(pre_vec == fixed_vec);
                        assert(pre == fixed_v);
                        assert(entry@ == fixed_v[ridx as int].1);
                        assert(spec_schema_closed(entry@, fixed_v));
                        assert(schemas2@ == pre_vec);
                    }
                    assert(pre[ridx as int] == schema_pairs_view(schemas2@)[ridx as int]);
                    assert forall|j: int|
                        0 <= j < paths2_v.len() implies spec_path_item_closed(
                        (#[trigger] paths2_v[j]).1,
                        schema_pairs_view(schemas2@),
                    ) by {
                        lemma_path_item_closed_mono(
                            paths2_v[j].1,
                            pre,
                            schema_pairs_view(schemas2@),
                        );
                    }
                    assert forall|j: int|
                        0 <= j < ridx + 1 implies spec_schema_closed(
                        (#[trigger] schema_pairs_view(schemas2@)[j]).1,
                        schema_pairs_view(schemas2@),
                    ) by {
                        if j < ridx as int {
                            assert(schema_pairs_view(schemas2@)[j] == pre[j]);
                            lemma_schema_closed_mono(pre[j].1, pre, schema_pairs_view(schemas2@));
                        } else {
                            assert(entry@ == pre[ridx as int].1);
                        }
                    }
                }
                ridx += 1;
            }
            proof {
                // appended placeholders are closed and the whole registry is
                // structurally closed
                crate::models::lemma_schema_pairs_view_len(schemas2@);
                assert forall|j: int|
                    0 <= j < schema_pairs_view(schemas2@).len() implies spec_schema_closed(
                    (#[trigger] schema_pairs_view(schemas2@)[j]).1,
                    schema_pairs_view(schemas2@),
                ) by {
                    if j >= orig_len {
                        assert(schema_pairs_view(schemas2@)[j].1 == spec_empty_schema());
                        assert(spec_schema_pairs_closed(
                            Seq::<(Seq<char>, SchemaView)>::empty(),
                            schema_pairs_view(schemas2@),
                        ));
                    }
                }
                assert(spec_pr_closed(paths2_v, schema_pairs_view(schemas2@)));
            }
            proof {
                lemma_pr_closed(paths2_v, schema_pairs_view(schemas2@));
            }
            Some(Components { schemas: schemas2, securitySchemes })
        },
        None => None,
    };
    let r = OpenAPI {
        openapi,
        info,
        servers,
        paths: paths2,
        components: components2,
        security,
        tags,
        externalDocs,
    };
    proof {
        // the three laws
        if spec_doc_refs_fixable(d0) {
            assert forall|i: int| 0 <= i < r@.paths.len() implies spec_path_item_ok(
                (#[trigger] r@.paths[i]).1,
            ) by {
                assert(r@.paths[i] == (d0.paths[i].0, spec_fix_path_item(d0.paths[i].1)));
                lemma_fix_path_item_ok(d0.paths[i].1);
            }
            match r@.components {
                Some(c2) => {
                    let c = d0.components->0;
                    lemma_pairs_refs_fixable_index(c.schemas);
                    lemma_fix_schema_pairs(c.schemas);
                    lemma_pairs_refs_ok_index(spec_fix_schema_pairs(c.schemas));
                    assert forall|i: int| 0 <= i < c2.schemas.len() implies spec_schema_refs_ok(
                        (#[trigger] c2.schemas[i]).1,
                    ) by {
                        if i < c.schemas.len() {
                            assert(c2.schemas[i] == c2.schemas.take(c.schemas.len() as int)[i]);
                            assert(c2.schemas[i] == spec_fix_schema_pairs(c.schemas)[i]);
                        } else {
                            assert(c2.schemas[i].1 == spec_empty_schema());
                            assert(spec_schema_pairs_refs_ok(
                                Seq::<(Seq<char>, SchemaView)>::empty(),
                            ));
                            assert(spec_schema_refs_ok(spec_empty_schema()));
                        }
                    }
                },
                None => {},
            }
        }
        if d0.components is Some {
            let c2 = r@.components->0;
            assert forall|name: Seq<char>| #[trigger]
                spec_doc_refers(r@, name) implies match r@.components {
                Some(cc) => spec_has_key(cc.schemas, name),
                None => false,
            } by {
                assert(spec_pr_refers(r@.paths, c2.schemas, name) == spec_doc_refers(r@, name));
            }
        }
        if spec_doc_normalized(d0) {
            let c = d0.components->0;
            let c2 = r@.components->0;
            assert(spec_fix_doc(d0).paths == d0.paths);
            assert(r@.paths == d0.paths);
            assert(spec_fix_components(c).schemas == c.schemas);
            assert(c2.schemas == c.schemas);
            assert(r@ =~= d0);
        }
    }
    r
}

} // verus!

verus! {

/// Key presence persists when the registry is extended at the end.
pub proof fn lemma_has_key_mono<V>(
    reg1: Seq<(Seq<char>, V)>,
    reg2: Seq<(Seq<char>, V)>,
    k: Seq<char>,
)
    requires
        reg1.len() <= reg2.len(),
        reg2.take(reg1.len() as int) == reg1,
        spec_has_key(reg1, k),
    ensures
        spec_has_key(reg2, k),
{
    crate::assoc::lemma_key_idx(reg1, k);
    crate::assoc::lemma_key_idx(reg2, k);
    let i = spec_key_idx(reg1, k);
    assert(reg2[i] == reg2.take(reg1.len() as int)[i]);
    assert(reg2[i].0 == k);
    let j = spec_key_idx(reg2, k);
    if j > i {
        assert(reg2[i].0 != k);
    }
}

/// Structural closure persists when the registry is extended at the end.
pub proof fn lemma_schema_closed_mono(
    s: SchemaView,
    reg1: Seq<(Seq<char>, SchemaView)>,
    reg2: Seq<(Seq<char>, SchemaView)>,
)
    requires
        reg1.len() <= reg2.len(),
        reg2.take(reg1.len() as int) == reg1,
        spec_schema_closed(s, reg1),
    ensures
        spec_schema_closed(s, reg2),
    decreases s,
{
    match s.ref_ {
        Some(r) => {
            if spec_match_at(r, spec_ref_prefix(), 0) {
                lemma_has_key_mono(reg1, reg2, r.skip(spec_ref_prefix().len() as int));
            }
        },
        None => {},
    }
    match s.items {
        Some(b) => {
            lemma_schema_closed_mono(*b, reg1, reg2);
        },
        None => {},
    }
    lemma_schema_pairs_closed_mono(s.properties, reg1, reg2);
    match s.allOf {
        Some(v) => {
            lemma_schema_seq_closed_mono(v, reg1, reg2);
        },
        None => {},
    }
    match s.anyOf {
        Some(v) => {
            lemma_schema_seq_closed_mono(v, reg1, reg2);
        },
        None => {},
    }
    match s.oneOf {
        Some(v) => {
            lemma_schema_seq_closed_mono(v, reg1, reg2);
        },
        None => {},
    }
    match s.not {
        Some(b) => {
            lemma_schema_closed_mono(*b, reg1, reg2);
        },
        None => {},
    }
}

pub proof fn lemma_schema_pairs_closed_mono(
    ps: Seq<(Seq<char>, SchemaView)>,
    reg1: Seq<(Seq<char>, SchemaView)>,
    reg2: Seq<(Seq<char>, SchemaView)>,
)
    requires
        reg1.len() <= reg2.len(),
        reg2.take(reg1.len() as int) == reg1,
        spec_schema_pairs_closed(ps, reg1),
    ensures
        spec_schema_pairs_closed(ps, reg2),
    decreases ps,
{
    if ps.len() > 0 {
        lemma_schema_pairs_closed_mono(ps.drop_last(), reg1, reg2);
        lemma_schema_closed_mono(ps.last().1, reg1, reg2);
    }
}

pub proof fn lemma_schema_seq_closed_mono(
    ss: Seq<SchemaView>,
    reg1: Seq<(Seq<char>, SchemaView)>,
    reg2: Seq<(Seq<char>, SchemaView)>,
)
    requires
        reg1.len() <= reg2.len(),
        reg2.take(reg1.len() as int) == reg1,
        spec_schema_seq_closed(ss, reg1),
    ensures
        spec_schema_seq_closed(ss, reg2),
    decreases ss,
{
    if ss.len() > 0 {
        lemma_schema_seq_closed_mono(ss.drop_last(), reg1, reg2);
        lemma_schema_closed_mono(ss.last(), reg1, reg2);
    }
}

/// An extension of the registry is well formed for the closure pass:
/// the old entries stand unchanged in front, and every appended entry is
/// an empty placeholder whose name no earlier entry has.
pub open spec fn spec_reg_extended(
    old_reg: Seq<(Seq<char>, SchemaView)>,
    new_reg: Seq<(Seq<char>, SchemaView)>,
) -> bool {
    &&& new_reg.len() >= old_reg.len()
    &&& new_reg.take(old_reg.len() as int) == old_reg
    &&& forall|i: int|
        old_reg.len() <= i < new_reg.len() ==> (#[trigger] new_reg[i]).1 == spec_empty_schema()
            && !spec_has_key(new_reg.take(i), new_reg[i].0)
}

/// Extension is reflexive.
pub proof fn lemma_reg_extended_refl(a: Seq<(Seq<char>, SchemaView)>)
    ensures
        spec_reg_extended(a, a),
{
    assert(a.take(a.len() as int) =~= a);
}

/// Extension composes.
pub proof fn lemma_reg_extended_trans(
    a: Seq<(Seq<char>, SchemaView)>,
    b: Seq<(Seq<char>, SchemaView)>,
    c: Seq<(Seq<char>, SchemaView)>,
)
    requires
        spec_reg_extended(a, b),
        spec_reg_extended(b, c),
    ensures
        spec_reg_extended(a, c),
{
    assert(c.take(a.len() as int) =~= b.take(a.len() as int));
    assert forall|i: int|
        a.len() <= i < c.len() implies (#[trigger] c[i]).1 == spec_empty_schema() && !spec_has_key(
        c.take(i),
        c[i].0,
    ) by {
        if i < b.len() {
            assert(c[i] == c.take(b.len() as int)[i]);
            assert(c[i] == b[i]);
            assert(c.take(i) =~= b.take(i));
        }
    }
}

/// Closes one schema node against the registry: every canonical
/// reference to a missing name appends an empty placeholder under that
/// name.  A node already closed against the registry appends nothing.
fn schema_close(s: &Schema, reg: &mut Vec<(String, Schema)>)
    ensures
        spec_reg_extended(schema_pairs_view(old(reg)@), schema_pairs_view(final(reg)@)),
        spec_schema_closed(s@, schema_pairs_view(final(reg)@)),
        spec_schema_closed(s@, schema_pairs_view(old(reg)@)) ==> final(reg)@ == old(reg)@,
    decreases *s,
{
    proof {
        reveal_strlit("#/components/schemas/");
    }
    let ghost reg0 = schema_pairs_view(reg@);
    let ghost vec0 = reg@;
    proof {
        lemma_reg_extended_refl(reg0);
    }
    match &s.ref_ {
        Some(rf) => {
            let rc = to_chars(rf.as_str());
            if match_at(&rc, "#/components/schemas/", 0) {
                let name = chars_to_string(&sub_chars(&rc, 21, rc.len()));
                proof {
                    assert(rc@.subrange(21, rc@.len() as int) =~= rc@.skip(21));
                    assert(crate::models::schema_view(*s).ref_ == opt_view(s.ref_));
                }
                if !reg_has_key(reg, name.as_str()) {
                    let ghost before = schema_pairs_view(reg@);
                    let ghost pre_vec = reg@;
                    let ghost nv = name@;
                    reg.push((name, Schema::default()));
                    proof {
                        assert(reg@.drop_last() =~= pre_vec);
                        assert(schema_pairs_view(reg@) == schema_pairs_view(reg@.drop_last()).push(
                            (reg@.last().0@, schema_view(reg@.last().1)),
                        ));
                        crate::models::lemma_schema_pairs_view_len(pre_vec);
                        crate::models::lemma_schema_pairs_view_len(reg@);
                        assert(schema_pairs_view(reg@).take(before.len() as int) =~= before);
                        crate::assoc::lemma_key_idx(schema_pairs_view(reg@), nv);
                        crate::assoc::lemma_key_idx(before, nv);
                        let cur = schema_pairs_view(reg@);
                        assert(cur[cur.len() - 1].0 == nv);
                        let ki = spec_key_idx(cur, nv);
                        if ki < cur.len() - 1 {
                            assert(cur[ki] == before[ki]);
                            let bi = spec_key_idx(before, nv);
                            if bi > ki {
                                assert(before[ki].0 != nv);
                            }
                            assert(spec_has_key(before, nv));
                        }
                        assert(spec_has_key(cur, nv));
                        assert(spec_reg_extended(before, cur));
                    }
                }
            }
            proof {
                assert(crate::models::schema_view(*s).ref_ == opt_view(s.ref_));
            }
        },
        None => {},
    }
    let ghost ra = schema_pairs_view(reg@);
    let ghost va = reg@;
    // stage a: the node's own reference, if canonical, now has a key
    match &s.items {
        Some(b) => {
            proof {
                assert(decreases_to!(*s => *s.items->0));
            }
            schema_close(&**b, reg);
        },
        None => {},
    }
    let ghost rb = schema_pairs_view(reg@);
    let ghost vb = reg@;
    proof {
        lemma_reg_extended_refl(rb);
        crate::models::lemma_schema_pairs_view_len(s.properties@);
        assert(spec_schema_pairs_closed(
            crate::models::schema_pairs_view(s.properties@).take(0),
            rb,
        ));
    }
    let mut i: usize = 0;
    while i < s.properties.len()
        invariant
            i <= s.properties@.len(),
            spec_reg_extended(rb, schema_pairs_view(reg@)),
            spec_schema_pairs_closed(
                crate::models::schema_pairs_view(s.properties@).take(i as int),
                schema_pairs_view(reg@),
            ),
            crate::models::schema_pairs_view(s.properties@).len() == s.properties@.len(),
            forall|j: int|
                0 <= j < s.properties@.len() ==> #[trigger] crate::models::schema_pairs_view(
                    s.properties@,
                )[j] == (s.properties@[j].0@, schema_view(s.properties@[j].1)),
            rb == schema_pairs_view(vb),
            spec_schema_pairs_closed(crate::models::schema_pairs_view(s.properties@), rb)
                ==> reg@ == vb,
        decreases s.properties@.len() - i,
    {
        proof {
            assert(decreases_to!(*s => s.properties@[i as int].1));
        }
        let ghost pre = schema_pairs_view(reg@);
        let ghost pre_vec = reg@;
        let ghost pv = crate::models::schema_pairs_view(s.properties@);
        proof {
            if spec_schema_pairs_closed(pv, rb) {
                lemma_pairs_closed_at(pv, i as int, rb);
            }
        }
        schema_close(&s.properties[i].1, reg);
        proof {
            lemma_reg_extended_trans(rb, pre, schema_pairs_view(reg@));
            lemma_schema_pairs_closed_mono(pv.take(i as int), pre, schema_pairs_view(reg@));
            assert(pv.take(i + 1 as int).drop_last() =~= pv.take(i as int));
            assert(spec_schema_pairs_closed(pv.take(i + 1 as int), schema_pairs_view(reg@)));
            if spec_schema_pairs_closed(pv, rb) {
                assert(pre_vec == vb);
                assert(pre == rb);
                assert(reg@ == pre_vec);
            }
        }
        i += 1;
    }
    proof {
        let pv = crate::models::schema_pairs_view(s.properties@);
        assert(pv.take(pv.len() as int) =~= pv);
    }
    let ghost rc_ = schema_pairs_view(reg@);
    let ghost vc = reg@;
    match &s.allOf {
        Some(v) => {
            seq_close(v, reg);
        },
        None => {},
    }
    let ghost rd = schema_pairs_view(reg@);
    let ghost vd = reg@;
    match &s.anyOf {
        Some(v) => {
            seq_close(v, reg);
        },
        None => {},
    }
    let ghost re_ = schema_pairs_view(reg@);
    let ghost ve = reg@;
    match &s.oneOf {
        Some(v) => {
            seq_close(v, reg);
        },
        None => {},
    }
    let ghost rf_ = schema_pairs_view(reg@);
    let ghost vf = reg@;
    match &s.not {
        Some(b) => {
            proof {
                assert(decreases_to!(*s => *s.not->0));
            }
            schema_close(&**b, reg);
        },
        None => {},
    }
    proof {
        let rz = schema_pairs_view(reg@);
        let sv = s@;
        assert(sv.items == match s.items {
            Some(b) => Some(Box::new(crate::models::schema_view(*b))),
            None => None::<Box<SchemaView>>,
        });
        assert(sv.properties == crate::models::schema_pairs_view(s.properties@));
        assert(sv.allOf == match s.allOf {
            Some(v) => Some(crate::models::schema_seq_view(v@)),
            None => None::<Seq<SchemaView>>,
        });
        assert(sv.anyOf == match s.anyOf {
            Some(v) => Some(crate::models::schema_seq_view(v@)),
            None => None::<Seq<SchemaView>>,
        });
        assert(sv.oneOf == match s.oneOf {
            Some(v) => Some(crate::models::schema_seq_view(v@)),
            None => None::<Seq<SchemaView>>,
        });
        assert(sv.not == match s.not {
            Some(b) => Some(Box::new(crate::models::schema_view(*b))),
            None => None::<Box<SchemaView>>,
        });
        // pairwise extension facts, allowing for unchanged stages
        assert(spec_reg_extended(reg0, ra)) by {
            if ra == reg0 {
                lemma_reg_extended_refl(reg0);
            }
        }
        assert(spec_reg_extended(ra, rb)) by {
            if rb == ra {
                lemma_reg_extended_refl(ra);
            }
        }
        assert(spec_reg_extended(rc_, rd)) by {
            if rd == rc_ {
                lemma_reg_extended_refl(rc_);
            }
        }
        assert(spec_reg_extended(rd, re_)) by {
            if re_ == rd {
                lemma_reg_extended_refl(rd);
            }
        }
        assert(spec_reg_extended(re_, rf_)) by {
            if rf_ == re_ {
                lemma_reg_extended_refl(re_);
            }
        }
        assert(spec_reg_extended(rf_, rz)) by {
            if rz == rf_ {
                lemma_reg_extended_refl(rf_);
            }
        }
        lemma_reg_extended_trans(re_, rf_, rz);
        lemma_reg_extended_trans(rd, re_, rz);
        lemma_reg_extended_trans(rc_, rd, rz);
        lemma_reg_extended_trans(rb, rc_, rz);
        lemma_reg_extended_trans(ra, rb, rz);
        lemma_reg_extended_trans(reg0, ra, rz);
        // lift each component's closure to the final registry
        match sv.ref_ {
            Some(r) => {
                if spec_match_at(r, spec_ref_prefix(), 0) {
                    lemma_has_key_mono(ra, rz, r.skip(spec_ref_prefix().len() as int));
                }
            },
            None => {},
        }
        match sv.items {
            Some(b) => {
                lemma_schema_closed_mono(*b, rb, rz);
            },
            None => {},
        }
        lemma_schema_pairs_closed_mono(sv.properties, rc_, rz);
        match sv.allOf {
            Some(v) => {
                lemma_schema_seq_closed_mono(v, rd, rz);
            },
            None => {},
        }
        match sv.anyOf {
            Some(v) => {
                lemma_schema_seq_closed_mono(v, re_, rz);
            },
            None => {},
        }
        match sv.oneOf {
            Some(v) => {
                lemma_schema_seq_closed_mono(v, rf_, rz);
            },
            None => {},
        }
        assert(spec_schema_closed(sv, rz));
        // a node already closed against the original registry changes
        // nothing at any stage
        if spec_schema_closed(sv, reg0) {
            assert(reg@ == vec0);
        }
    }
}

/// One entry of a closed pair list is closed.
proof fn lemma_pairs_closed_at(
    ps: Seq<(Seq<char>, SchemaView)>,
    i: int,
    reg: Seq<(Seq<char>, SchemaView)>,
)
    requires
        spec_schema_pairs_closed(ps, reg),
        0 <= i < ps.len(),
    ensures
        spec_schema_closed(ps[i].1, reg),
    decreases ps,
{
    if i == ps.len() - 1 {
    } else {
        lemma_pairs_closed_at(ps.drop_last(), i, reg);
    }
}

proof fn lemma_seq_closed_at(ss: Seq<SchemaView>, i: int, reg: Seq<(Seq<char>, SchemaView)>)
    requires
        spec_schema_seq_closed(ss, reg),
        0 <= i < ss.len(),
    ensures
        spec_schema_closed(ss[i], reg),
    decreases ss,
{
    if i == ss.len() - 1 {
    } else {
        lemma_seq_closed_at(ss.drop_last(), i, reg);
    }
}

/// Closes every schema of a list against the registry.
fn seq_close(v: &Vec<Schema>, reg: &mut Vec<(String, Schema)>)
    ensures
        spec_reg_extended(schema_pairs_view(old(reg)@), schema_pairs_view(final(reg)@)),
        spec_schema_seq_closed(
            crate::models::schema_seq_view(v@),
            schema_pairs_view(final(reg)@),
        ),
        spec_schema_seq_closed(
            crate::models::schema_seq_view(v@),
            schema_pairs_view(old(reg)@),
        ) ==> final(reg)@ == old(reg)@,
    decreases v@,
{
    let ghost reg0 = schema_pairs_view(reg@);
    let ghost sv = crate::models::schema_seq_view(v@);
    proof {
        lemma_schema_seq_view_index(v@);
        assert(reg0.take(reg0.len() as int) =~= reg0);
    }
    let mut i: usize = 0;
    while i < v.len()
        invariant
            i <= v@.len(),
            spec_reg_extended(reg0, schema_pairs_view(reg@)),
            spec_schema_seq_closed(sv.take(i as int), schema_pairs_view(reg@)),
            sv == crate::models::schema_seq_view(v@),
            sv.len() == v@.len(),
            forall|j: int| 0 <= j < v@.len() ==> #[trigger] sv[j] == schema_view(v@[j]),
            reg0 == schema_pairs_view(old(reg)@),
            spec_schema_seq_closed(sv, reg0) ==> schema_pairs_view(reg@) == reg0 && reg@ == old(
                reg,
            )@,
        decreases v@.len() - i,
    {
        proof {
            assert(decreases_to!(v@ => v@[i as int]));
            if spec_schema_seq_closed(sv, reg0) {
                lemma_seq_closed_at(sv, i as int, reg0);
            }
        }
        let ghost pre = schema_pairs_view(reg@);
        let ghost pre_vec = reg@;
        schema_close(&v[i], reg);
        proof {
            lemma_reg_extended_trans(reg0, pre, schema_pairs_view(reg@));
            lemma_schema_seq_closed_mono(sv.take(i as int), pre, schema_pairs_view(reg@));
            assert(sv.take(i + 1 as int).drop_last() =~= sv.take(i as int));
            assert(spec_schema_seq_closed(sv.take(i + 1 as int), schema_pairs_view(reg@)));
            if spec_schema_seq_closed(sv, reg0) {
                assert(pre == reg0);
                assert(spec_schema_closed(sv[i as int], pre));
                assert(reg@ == pre_vec);
            }
        }
        i += 1;
    }
    proof {
        assert(sv.take(sv.len() as int) =~= sv);
    }
}

} // verus!

verus! {

/// Closes every parameter schema of a list against the registry.
fn params_close(ps: &Vec<Parameter>, reg: &mut Vec<(String, Schema)>)
    ensures
        spec_reg_extended(schema_pairs_view(old(reg)@), schema_pairs_view(final(reg)@)),
        spec_params_closed(seq_view(ps@), schema_pairs_view(final(reg)@)),
        spec_params_closed(seq_view(ps@), schema_pairs_view(old(reg)@)) ==> final(reg)@ == old(
            reg,
        )@,
{
    let ghost reg0 = schema_pairs_view(reg@);
    let ghost pv = seq_view(ps@);
    proof {
        assert(reg0.take(reg0.len() as int) =~= reg0);
    }
    let mut i: usize = 0;
    while i < ps.len()
        invariant
            i <= ps@.len(),
            spec_reg_extended(reg0, schema_pairs_view(reg@)),
            pv == seq_view(ps@),
            pv.len() == ps@.len(),
            forall|j: int|
                0 <= j < i ==> match (#[trigger] pv[j]).schema {
                    Some(s) => spec_schema_closed(s, schema_pairs_view(reg@)),
                    None => true,
                },
            reg0 == schema_pairs_view(old(reg)@),
            spec_params_closed(pv, reg0) ==> schema_pairs_view(reg@) == reg0 && reg@ == old(reg)@,
        decreases ps@.len() - i,
    {
        proof {
            assert(pv[i as int] == ps@[i as int]@);
        }
        let ghost pre = schema_pairs_view(reg@);
        let ghost pre_vec = reg@;
        match &ps[i].schema {
            Some(s) => {
                schema_close(s, reg);
                proof {
                    lemma_reg_extended_trans(reg0, pre, schema_pairs_view(reg@));
                    assert forall|j: int|
                        0 <= j < i + 1 implies match (#[trigger] pv[j]).schema {
                        Some(sv) => spec_schema_closed(sv, schema_pairs_view(reg@)),
                        None => true,
                    } by {
                        if j < i as int {
                            match pv[j].schema {
                                Some(sv) => {
                                    lemma_schema_closed_mono(sv, pre, schema_pairs_view(reg@));
                                },
                                None => {},
                            }
                        }
                    }
                    if spec_params_closed(pv, reg0) {
                        assert(pre == reg0);
                        assert(match pv[i as int].schema {
                            Some(sv) => spec_schema_closed(sv, pre),
                            None => true,
                        });
                        assert(reg@ == pre_vec);
                    }
                }
            },
            None => {},
        }
        i += 1;
    }
}

/// Closes every media schema of a content list against the registry.
fn content_close(c: &Vec<(String, MediaType)>, reg: &mut Vec<(String, Schema)>)
    ensures
        spec_reg_extended(schema_pairs_view(old(reg)@), schema_pairs_view(final(reg)@)),
        spec_content_closed(pairs_view(c@), schema_pairs_view(final(reg)@)),
        spec_content_closed(pairs_view(c@), schema_pairs_view(old(reg)@)) ==> final(reg)@ == old(
            reg,
        )@,
{
    let ghost reg0 = schema_pairs_view(reg@);
    let ghost cv = pairs_view(c@);
    proof {
        assert(reg0.take(reg0.len() as int) =~= reg0);
    }
    let mut i: usize = 0;
    while i < c.len()
        invariant
            i <= c@.len(),
            spec_reg_extended(reg0, schema_pairs_view(reg@)),
            cv == pairs_view(c@),
            cv.len() == c@.len(),
            forall|j: int|
                0 <= j < i ==> match (#[trigger] cv[j]).1.schema {
                    Some(s) => spec_schema_closed(s, schema_pairs_view(reg@)),
                    None => true,
                },
            reg0 == schema_pairs_view(old(reg)@),
            spec_content_closed(cv, reg0) ==> schema_pairs_view(reg@) == reg0 && reg@ == old(
                reg,
            )@,
        decreases c@.len() - i,
    {
        proof {
            assert(cv[i as int] == (c@[i as int].0@, c@[i as int].1@));
        }
        let ghost pre = schema_pairs_view(reg@);
        let ghost pre_vec = reg@;
        match &c[i].1.schema {
            Some(s) => {
                schema_close(s, reg);
                proof {
                    lemma_reg_extended_trans(reg0, pre, schema_pairs_view(reg@));
                    assert forall|j: int|
                        0 <= j < i + 1 implies match (#[trigger] cv[j]).1.schema {
                        Some(sv) => spec_schema_closed(sv, schema_pairs_view(reg@)),
                        None => true,
                    } by {
                        if j < i as int {
                            match cv[j].1.schema {
                                Some(sv) => {
                                    lemma_schema_closed_mono(sv, pre, schema_pairs_view(reg@));
                                },
                                None => {},
                            }
                        }
                    }
                    if spec_content_closed(cv, reg0) {
                        assert(pre == reg0);
                        assert(match cv[i as int].1.schema {
                            Some(sv) => spec_schema_closed(sv, pre),
                            None => true,
                        });
                        assert(reg@ == pre_vec);
                    }
                }
            },
            None => {},
        }
        i += 1;
    }
}

/// Closes one operation's schemas against the registry.
fn op_close(op: &Operation, reg: &mut Vec<(String, Schema)>)
    ensures
        spec_reg_extended(schema_pairs_view(old(reg)@), schema_pairs_view(final(reg)@)),
        spec_operation_closed(op@, schema_pairs_view(final(reg)@)),
        spec_operation_closed(op@, schema_pairs_view(old(reg)@)) ==> final(reg)@ == old(reg)@,
{
    let ghost reg0 = schema_pairs_view(reg@);
    proof {
        assert(reg0.take(reg0.len() as int) =~= reg0);
    }
    params_close(&op.parameters, reg);
    let ghost reg_a = schema_pairs_view(reg@);
    match &op.requestBody {
        Some(rb) => {
            content_close(&rb.content, reg);
        },
        None => {},
    }
    let ghost reg_c = schema_pairs_view(reg@);
    proof {
        assert(spec_reg_extended(reg_a, reg_c)) by {
            if reg_c == reg_a {
                lemma_reg_extended_refl(reg_a);
            }
        }
        lemma_reg_extended_trans(reg0, reg_a, reg_c);
        lemma_reg_extended_refl(reg_c);
    }
    let mut i: usize = 0;
    while i < op.responses.len()
        invariant
            i <= op.responses@.len(),
            spec_reg_extended(reg0, schema_pairs_view(reg@)),
            spec_reg_extended(reg_a, schema_pairs_view(reg@)),
            spec_reg_extended(reg_c, schema_pairs_view(reg@)),
            seq_view(op.responses@).len() == op.responses@.len(),
            forall|j: int|
                0 <= j < i ==> spec_content_closed(
                    (#[trigger] seq_view(op.responses@)[j]).content,
                    schema_pairs_view(reg@),
                ),
            spec_params_closed(seq_view(op.parameters@), reg_a),
            match op@.requestBody {
                Some(rb) => spec_content_closed(rb.content, reg_c),
                None => true,
            },
            reg0 == schema_pairs_view(old(reg)@),
            spec_operation_closed(op@, reg0) ==> schema_pairs_view(reg@) == reg0 && reg@ == old(
                reg,
            )@ && reg_a == reg0 && reg_c == reg0,
        decreases op.responses@.len() - i,
    {
        proof {
            assert(seq_view(op.responses@)[i as int] == op.responses@[i as int]@);
            if spec_operation_closed(op@, reg0) {
                assert(spec_content_closed(
                    (#[trigger] op@.responses[i as int]).content,
                    reg0,
                ));
            }
        }
        let ghost pre = schema_pairs_view(reg@);
        let ghost pre_vec = reg@;
        content_close(&op.responses[i].content, reg);
        proof {
            lemma_reg_extended_trans(reg0, pre, schema_pairs_view(reg@));
            lemma_reg_extended_trans(reg_a, pre, schema_pairs_view(reg@));
            lemma_reg_extended_trans(reg_c, pre, schema_pairs_view(reg@));
            assert forall|j: int|
                0 <= j < i + 1 implies spec_content_closed(
                (#[trigger] seq_view(op.responses@)[j]).content,
                schema_pairs_view(reg@),
            ) by {
                if j < i as int {
                    lemma_content_closed_mono(
                        seq_view(op.responses@)[j].content,
                        pre,
                        schema_pairs_view(reg@),
                    );
                }
            }
            if spec_operation_closed(op@, reg0) {
                assert(pre == reg0);
                assert(reg@ == pre_vec);
            }
        }
        i += 1;
    }
    proof {
        let regz = schema_pairs_view(reg@);
        lemma_params_closed_mono(seq_view(op.parameters@), reg_a, regz);
        match op@.requestBody {
            Some(rb) => {
                lemma_content_closed_mono(rb.content, reg_c, regz);
            },
            None => {},
        }
        assert(spec_operation_closed(op@, regz));
    }
}

/// Content closure persists when the registry is extended.
pub proof fn lemma_content_closed_mono(
    c: Seq<(Seq<char>, MediaTypeView)>,
    reg1: Seq<(Seq<char>, SchemaView)>,
    reg2: Seq<(Seq<char>, SchemaView)>,
)
    requires
        reg1 == reg2 || (reg1.len() <= reg2.len() && reg2.take(reg1.len() as int) == reg1),
        spec_content_closed(c, reg1),
    ensures
        spec_content_closed(c, reg2),
{
    if reg1 != reg2 {
        assert forall|i: int|
            0 <= i < c.len() implies match (#[trigger] c[i]).1.schema {
            Some(s) => spec_schema_closed(s, reg2),
            None => true,
        } by {
            match c[i].1.schema {
                Some(s) => {
                    lemma_schema_closed_mono(s, reg1, reg2);
                },
                None => {},
            }
        }
    }
}

pub proof fn lemma_params_closed_mono(
    ps: Seq<ParameterView>,
    reg1: Seq<(Seq<char>, SchemaView)>,
    reg2: Seq<(Seq<char>, SchemaView)>,
)
    requires
        reg1 == reg2 || (reg1.len() <= reg2.len() && reg2.take(reg1.len() as int) == reg1),
        spec_params_closed(ps, reg1),
    ensures
        spec_params_closed(ps, reg2),
{
    if reg1 != reg2 {
        assert forall|i: int|
            0 <= i < ps.len() implies match (#[trigger] ps[i]).schema {
            Some(s) => spec_schema_closed(s, reg2),
            None => true,
        } by {
            match ps[i].schema {
                Some(s) => {
                    lemma_schema_closed_mono(s, reg1, reg2);
                },
                None => {},
            }
        }
    }
}

pub proof fn lemma_operation_closed_mono(
    op: OperationView,
    reg1: Seq<(Seq<char>, SchemaView)>,
    reg2: Seq<(Seq<char>, SchemaView)>,
)
    requires
        reg1 == reg2 || (reg1.len() <= reg2.len() && reg2.take(reg1.len() as int) == reg1),
        spec_operation_closed(op, reg1),
    ensures
        spec_operation_closed(op, reg2),
{
    lemma_params_closed_mono(op.parameters, reg1, reg2);
    match op.requestBody {
        Some(rb) => {
            lemma_content_closed_mono(rb.content, reg1, reg2);
        },
        None => {},
    }
    assert forall|i: int|
        0 <= i < op.responses.len() implies spec_content_closed(
        (#[trigger] op.responses[i]).content,
        reg2,
    ) by {
        lemma_content_closed_mono(op.responses[i].content, reg1, reg2);
    }
}

pub proof fn lemma_path_item_closed_mono(
    pi: PathItemView,
    reg1: Seq<(Seq<char>, SchemaView)>,
    reg2: Seq<(Seq<char>, SchemaView)>,
)
    requires
        reg1 == reg2 || (reg1.len() <= reg2.len() && reg2.take(reg1.len() as int) == reg1),
        spec_path_item_closed(pi, reg1),
    ensures
        spec_path_item_closed(pi, reg2),
{
    match pi.get { Some(op) => lemma_operation_closed_mono(op, reg1, reg2), None => () }
    match pi.post { Some(op) => lemma_operation_closed_mono(op, reg1, reg2), None => () }
    match pi.put { Some(op) => lemma_operation_closed_mono(op, reg1, reg2), None => () }
    match pi.delete { Some(op) => lemma_operation_closed_mono(op, reg1, reg2), None => () }
    match pi.options { Some(op) => lemma_operation_closed_mono(op, reg1, reg2), None => () }
    match pi.head { Some(op) => lemma_operation_closed_mono(op, reg1, reg2), None => () }
    match pi.patch { Some(op) => lemma_operation_closed_mono(op, reg1, reg2), None => () }
    match pi.trace { Some(op) => lemma_operation_closed_mono(op, reg1, reg2), None => () }
    lemma_params_closed_mono(pi.parameters, reg1, reg2);
}

/// Closes one path item's schemas against the registry.
fn pi_close(pi: &PathItem, reg: &mut Vec<(String, Schema)>)
    ensures
        spec_reg_extended(schema_pairs_view(old(reg)@), schema_pairs_view(final(reg)@)),
        spec_path_item_closed(pi@, schema_pairs_view(final(reg)@)),
        spec_path_item_closed(pi@, schema_pairs_view(old(reg)@)) ==> final(reg)@ == old(reg)@,
{
    let ghost reg0 = schema_pairs_view(reg@);
    proof {
        assert(reg0.take(reg0.len() as int) =~= reg0);
    }
    let ghost stage: Seq<(Seq<char>, SchemaView)> = reg0;
    match &pi.get {
        Some(op) => op_close(op, reg),
        None => (),
    }
    let ghost r1 = schema_pairs_view(reg@);
    match &pi.post {
        Some(op) => op_close(op, reg),
        None => (),
    }
    let ghost r2 = schema_pairs_view(reg@);
    match &pi.put {
        Some(op) => op_close(op, reg),
        None => (),
    }
    let ghost r3 = schema_pairs_view(reg@);
    match &pi.delete {
        Some(op) => op_close(op, reg),
        None => (),
    }
    let ghost r4 = schema_pairs_view(reg@);
    match &pi.options {
        Some(op) => op_close(op, reg),
        None => (),
    }
    let ghost r5 = schema_pairs_view(reg@);
    match &pi.head {
        Some(op) => op_close(op, reg),
        None => (),
    }
    let ghost r6 = schema_pairs_view(reg@);
    match &pi.patch {
        Some(op) => op_close(op, reg),
        None => (),
    }
    let ghost r7 = schema_pairs_view(reg@);
    match &pi.trace {
        Some(op) => op_close(op, reg),
        None => (),
    }
    let ghost r8 = schema_pairs_view(reg@);
    params_close(&pi.parameters, reg);
    proof {
        let rz = schema_pairs_view(reg@);
        assert(spec_reg_extended(reg0, r1)) by {
            if r1 == reg0 {
                lemma_reg_extended_refl(reg0);
            }
        }
        assert(spec_reg_extended(r1, r2)) by {
            if r2 == r1 {
                lemma_reg_extended_refl(r1);
            }
        }
        assert(spec_reg_extended(r2, r3)) by {
            if r3 == r2 {
                lemma_reg_extended_refl(r2);
            }
        }
        assert(spec_reg_extended(r3, r4)) by {
            if r4 == r3 {
                lemma_reg_extended_refl(r3);
            }
        }
        assert(spec_reg_extended(r4, r5)) by {
            if r5 == r4 {
                lemma_reg_extended_refl(r4);
            }
        }
        assert(spec_reg_extended(r5, r6)) by {
            if r6 == r5 {
                lemma_reg_extended_refl(r5);
            }
        }
        assert(spec_reg_extended(r6, r7)) by {
            if r7 == r6 {
                lemma_reg_extended_refl(r6);
            }
        }
        assert(spec_reg_extended(r7, r8)) by {
            if r8 == r7 {
                lemma_reg_extended_refl(r7);
            }
        }
        assert(spec_reg_extended(r8, rz)) by {
            if rz == r8 {
                lemma_reg_extended_refl(r8);
            }
        }
        lemma_reg_extended_trans(r7, r8, rz);
        lemma_reg_extended_trans(r6, r7, rz);
        lemma_reg_extended_trans(r5, r6, rz);
        lemma_reg_extended_trans(r4, r5, rz);
        lemma_reg_extended_trans(r3, r4, rz);
        lemma_reg_extended_trans(r2, r3, rz);
        lemma_reg_extended_trans(r1, r2, rz);
        lemma_reg_extended_trans(reg0, r1, rz);
        match pi@.get { Some(op) => lemma_operation_closed_mono(op, r1, rz), None => () }
        match pi@.post { Some(op) => lemma_operation_closed_mono(op, r2, rz), None => () }
        match pi@.put { Some(op) => lemma_operation_closed_mono(op, r3, rz), None => () }
        match pi@.delete { Some(op) => lemma_operation_closed_mono(op, r4, rz), None => () }
        match pi@.options { Some(op) => lemma_operation_closed_mono(op, r5, rz), None => () }
        match pi@.head { Some(op) => lemma_operation_closed_mono(op, r6, rz), None => () }
        match pi@.patch { Some(op) => lemma_operation_closed_mono(op, r7, rz), None => () }
        match pi@.trace { Some(op) => lemma_operation_closed_mono(op, r8, rz), None => () }
    }
}

} // verus!

verus! {

/// The path parameters of an operation, in order.
pub open spec fn spec_path_params(ps: Seq<ParameterView>) -> Seq<ParameterView>
    decreases ps,
{
    if ps.len() == 0 {
        Seq::empty()
    } else {
        let rest = spec_path_params(ps.drop_last());
        if ps.last().in_type == "path"@ {
            rest.push(ps.last())
        } else {
            rest
        }
    }
}

/// A path item with one operation stored under its method; an unknown
/// method leaves the item's operations alone.
pub open spec fn spec_item_with_op(base: PathItemView, method: Seq<char>, op: OperationView) -> PathItemView {
    if method == "get"@ {
        PathItemView { get: Some(op), ..base }
    } else if method == "post"@ {
        PathItemView { post: Some(op), ..base }
    } else if method == "put"@ {
        PathItemView { put: Some(op), ..base }
    } else if method == "delete"@ {
        PathItemView { delete: Some(op), ..base }
    } else if method == "options"@ {
        PathItemView { options: Some(op), ..base }
    } else if method == "head"@ {
        PathItemView { head: Some(op), ..base }
    } else if method == "patch"@ {
        PathItemView { patch: Some(op), ..base }
    } else if method == "trace"@ {
        PathItemView { trace: Some(op), ..base }
    } else {
        base
    }
}

/// One parsed operation folded into the paths map: the item under its
/// path gains the operation under its method, and its parameters become
/// the operation's path parameters.
pub open spec fn spec_paths_upsert(
    paths: Seq<(Seq<char>, PathItemView)>,
    pop: ParsedOperationView,
) -> Seq<(Seq<char>, PathItemView)> {
    let i = spec_key_idx(paths, pop.path);
    let base = if i < paths.len() {
        paths[i].1
    } else {
        crate::models::spec_empty_path_item()
    };
    let item1 = PathItemView {
        parameters: spec_path_params(pop.operation.parameters),
        ..base
    };
    let item2 = spec_item_with_op(item1, pop.method, pop.operation);
    if i < paths.len() {
        paths.update(i, (pop.path, item2))
    } else {
        paths.push((pop.path, item2))
    }
}

/// All parsed operations folded into a paths map, in order.
pub open spec fn spec_build_paths_from(
    ops: Seq<ParsedOperationView>,
    i: int,
    acc: Seq<(Seq<char>, PathItemView)>,
) -> Seq<(Seq<char>, PathItemView)>
    decreases ops.len() - i when 0 <= i
{
    if i >= ops.len() {
        acc
    } else {
        spec_build_paths_from(ops, i + 1, spec_paths_upsert(acc, ops[i]))
    }
}

pub open spec fn spec_build_paths(ops: Seq<ParsedOperationView>) -> Seq<(Seq<char>, PathItemView)> {
    spec_build_paths_from(ops, 0, Seq::empty())
}

/// The servers of the final document: declared servers when any exist,
/// otherwise one synthesised per legacy scheme, otherwise none.
pub open spec fn spec_build_servers(api: crate::models::ParsedApiInfoView) -> Option<
    Seq<crate::models::ServerView>,
> {
    if api.servers.len() > 0 {
        Some(api.servers)
    } else {
        match api.host {
            Some(h) => {
                let bp = match api.base_path {
                    Some(b) => b,
                    None => Seq::empty(),
                };
                let list = crate::info::spec_legacy_servers(api.schemes, h, bp);
                if list.len() > 0 {
                    Some(list)
                } else {
                    None
                }
            },
            None => None,
        }
    }
}

/// The document assembled from the generator's state, before the
/// reference normalizer runs: info and metadata copied, paths folded
/// from the operations, and the registry (made non-empty) together with
/// the security schemes as the components.
pub open spec fn spec_assemble_doc(g: GeneratorView) -> OpenAPIView {
    OpenAPIView {
        openapi: g.openapi_version,
        info: g.api_info.info,
        servers: spec_build_servers(g.api_info),
        paths: spec_build_paths(g.operations),
        components: Some(
            ComponentsView {
                schemas: if g.schemas.len() == 0 {
                    seq![("Empty"@, spec_empty_schema())]
                } else {
                    g.schemas
                },
                securitySchemes: g.api_info.security_definitions,
            },
        ),
        security: g.api_info.security,
        tags: g.api_info.tags,
        externalDocs: g.api_info.external_docs,
    }
}

/// Generates the OpenAPI document from parsed API info, operations and
/// the resolved schema registry.  Serialisation belongs to the caller.
pub struct Generator {
    api_info: ParsedApiInfo,
    operations: Vec<ParsedOperation>,
    schemas: Vec<(String, Schema)>,
    max_file_size: usize,
    openapi_version: String,
}

pub ghost struct GeneratorView {
    pub api_info: crate::models::ParsedApiInfoView,
    pub operations: Seq<crate::models::ParsedOperationView>,
    pub schemas: Seq<(Seq<char>, SchemaView)>,
    pub max_file_size: int,
    pub openapi_version: Seq<char>,
}

impl View for Generator {
    type V = GeneratorView;

    closed spec fn view(&self) -> GeneratorView {
        GeneratorView {
            api_info: self.api_info@,
            operations: seq_view(self.operations@),
            schemas: schema_pairs_view(self.schemas@),
            max_file_size: self.max_file_size as int,
            openapi_version: self.openapi_version@,
        }
    }
}

/// The default cap on one output file, in bytes.
pub open spec fn spec_default_max_file_size() -> int {
    (5 * 1024 * 1024) as int
}

impl Generator {
    /// A generator over the given parse results, with the default output
    /// file size cap.
    pub fn new(
        api_info: ParsedApiInfo,
        operations: Vec<ParsedOperation>,
        schemas: Vec<(String, Schema)>,
        openapi_version: String,
    ) -> (r: Generator)
        ensures
            r@.api_info == api_info@,
            r@.operations == seq_view(operations@),
            r@.schemas == schema_pairs_view(schemas@),
            r@.max_file_size == spec_default_max_file_size(),
            r@.openapi_version == openapi_version@,
    {
        Generator { api_info, operations, schemas, max_file_size: 5242880, openapi_version }
    }

    /// A generator with a caller-chosen output file size cap.
    pub fn new_with_max_file_size(
        api_info: ParsedApiInfo,
        operations: Vec<ParsedOperation>,
        schemas: Vec<(String, Schema)>,
        max_file_size: usize,
        openapi_version: String,
    ) -> (r: Generator)
        ensures
            r@.api_info == api_info@,
            r@.operations == seq_view(operations@),
            r@.schemas == schema_pairs_view(schemas@),
            r@.max_file_size == max_file_size as int,
            r@.openapi_version == openapi_version@,
    {
        Generator { api_info, operations, schemas, max_file_size, openapi_version }
    }

    /// The output file size cap, for the caller that writes files.
    pub fn max_file_size(&self) -> (r: usize)
        ensures
            r as int == self@.max_file_size,
    {
        self.max_file_size
    }

    /// Builds the complete, normalized OpenAPI document: the assembly of
    /// `spec_assemble_doc` run through the reference normalizer, so its
    /// references are canonical and its registry closed.
    pub fn build_openapi_doc(self) -> (r: OpenAPI)
        ensures
            ({
                let d = spec_assemble_doc(self@);
                &&& r@.openapi == d.openapi
                &&& r@.info == d.info
                &&& r@.servers == d.servers
                &&& r@.security == d.security
                &&& r@.tags == d.tags
                &&& r@.externalDocs == d.externalDocs
                &&& r@.paths == spec_fix_paths(d.paths)
                &&& {
                    let c = d.components->0;
                    r@.components matches Some(c2) && c2.securitySchemes == c.securitySchemes
                        && c2.schemas.len() >= c.schemas.len() && c2.schemas.take(
                        c.schemas.len() as int,
                    ) == spec_fix_schema_pairs(c.schemas) && (forall|i: int|
                        c.schemas.len() <= i < c2.schemas.len() ==> (#[trigger] c2.schemas[i]).1
                            == spec_empty_schema() && !spec_has_key(
                            c2.schemas.take(i),
                            c2.schemas[i].0,
                        ))
                }
                &&& (spec_doc_refs_fixable(d) ==> spec_doc_refs_ok(r@))
                &&& spec_doc_closed(r@)
            }),
    {
        let ghost g = self@;
        let Generator { api_info, operations, schemas, max_file_size: _, openapi_version } = self;
        let ParsedApiInfo {
            info,
            servers,
            security,
            security_definitions,
            tags,
            external_docs,
            host,
            base_path,
            schemes,
            consumes: _,
            produces: _,
        } = api_info;
        let servers_opt: Option<Vec<Server>> = if servers.len() > 0 {
            Some(servers)
        } else {
            match &host {
                Some(h) => {
                    let bp: String = match &base_path {
                        Some(b) => b.clone(),
                        None => String::new(),
                    };
                    let ghost schemes_v = seq_view(schemes@);
                    let mut list: Vec<Server> = Vec::new();
                    let mut i: usize = 0;
                    while i < schemes.len()
                        invariant
                            i <= schemes@.len(),
                            schemes_v == seq_view(schemes@),
                            schemes_v.len() == schemes@.len(),
                            seq_view(list@) == crate::info::spec_legacy_servers(
                                schemes_v.take(i as int),
                                h@,
                                bp@,
                            ),
                        decreases schemes@.len() - i,
                    {
                        let mut u = schemes[i].clone();
                        u.append("://");
                        u.append(h.as_str());
                        u.append(bp.as_str());
                        let ghost before = seq_view(list@);
                        list.push(Server::of_url(u));
                        proof {
                            crate::models::lemma_seq_view_push(list@.drop_last(), list@.last());
                            assert(seq_view(schemes@)[i as int] == schemes@[i as int]@);
                            assert(crate::info::spec_legacy_servers(
                                schemes_v.take(i + 1 as int),
                                h@,
                                bp@,
                            ) =~= crate::info::spec_legacy_servers(
                                schemes_v.take(i as int),
                                h@,
                                bp@,
                            ).push(crate::models::spec_server_of_url(
                                schemes_v[i as int] + "://"@ + h@ + bp@,
                            )));
                            assert(seq_view(list@) =~= before.push(
                                crate::models::spec_server_of_url(
                                    schemes_v[i as int] + "://"@ + h@ + bp@,
                                ),
                            ));
                        }
                        i += 1;
                    }
                    proof {
                        assert(schemes_v.take(schemes_v.len() as int) =~= schemes_v);
                    }
                    if list.len() > 0 {
                        Some(list)
                    } else {
                        None
                    }
                },
                None => None,
            }
        };
        let mut paths: Vec<(String, PathItem)> = Vec::new();
        let mut ops = operations;
        let ghost ops_v = seq_view(ops@);
        let ghost ops_orig = ops@;
        proof {
            assert(pairs_view(paths@) =~= Seq::<(Seq<char>, PathItemView)>::empty());
        }
        while ops.len() > 0
            invariant
                ops@.len() <= ops_orig.len(),
                ops@ == ops_orig.skip(ops_orig.len() - ops@.len()),
                ops_v == seq_view(ops_orig),
                ops_v.len() == ops_orig.len(),
                spec_build_paths_from(
                    ops_v,
                    ops_orig.len() - ops@.len(),
                    pairs_view(paths@),
                ) == spec_build_paths(ops_v),
            decreases ops@.len(),
        {
            let ghost k = ops_orig.len() - ops@.len();
            let ghost pre_rest = ops@;
            let pop = ops.remove(0);
            proof {
                assert(ops@ =~= pre_rest.drop_first());
                assert(ops@ =~= ops_orig.skip(k + 1));
                assert(pop == ops_orig[k]);
                assert(ops_v[k] == ops_orig[k]@);
            }
            paths_upsert(&mut paths, pop);
        }
        proof {
            assert(pairs_view(paths@) == spec_build_paths(ops_v));
        }
        let mut components = Components { schemas, securitySchemes: security_definitions };
        components.ensure_schemas_exists();
        let doc = OpenAPI {
            openapi: openapi_version,
            info,
            servers: servers_opt,
            paths,
            components: Some(components),
            security,
            tags,
            externalDocs: external_docs,
        };
        proof {
            assert(doc@ == spec_assemble_doc(g));
        }
        normalize_openapi(doc)
    }
}

/// Folds one parsed operation into the paths map, per
/// `spec_paths_upsert`.
fn paths_upsert(paths: &mut Vec<(String, PathItem)>, pop: ParsedOperation)
    ensures
        pairs_view(final(paths)@) == spec_paths_upsert(pairs_view(old(paths)@), pop@),
{
    proof {
        crate::assoc::lemma_key_idx(pairs_view(paths@), pop.path@);
    }
    let ParsedOperation { path, method, operation } = pop;
    let i = crate::assoc::key_index(paths, path.as_str());
    let mut item: PathItem = if i < paths.len() {
        let e = paths.remove(i);
        e.1
    } else {
        PathItem::default()
    };
    let mut params: Vec<Parameter> = Vec::new();
    let ghost opv = operation@;
    let mut j: usize = 0;
    while j < operation.parameters.len()
        invariant
            j <= operation.parameters@.len(),
            opv == operation@,
            opv.parameters.len() == operation.parameters@.len(),
            seq_view(params@) == spec_path_params(opv.parameters.take(j as int)),
        decreases operation.parameters@.len() - j,
    {
        proof {
            assert(opv.parameters[j as int] == operation.parameters@[j as int]@);
            assert(opv.parameters.take(j + 1 as int).drop_last() =~= opv.parameters.take(
                j as int,
            ));
        }
        if str_eq(operation.parameters[j].in_type.as_str(), "path") {
            let ghost before = seq_view(params@);
            params.push(operation.parameters[j].dup());
            proof {
                crate::models::lemma_seq_view_push(params@.drop_last(), params@.last());
                assert(seq_view(params@) =~= before.push(opv.parameters[j as int]));
            }
        }
        j += 1;
    }
    proof {
        assert(opv.parameters.take(opv.parameters.len() as int) =~= opv.parameters);
    }
    item.parameters = params;
    let m = method.as_str();
    if str_eq(m, "get") {
        item.get = Some(operation);
    } else if str_eq(m, "post") {
        item.post = Some(operation);
    } else if str_eq(m, "put") {
        item.put = Some(operation);
    } else if str_eq(m, "delete") {
        item.delete = Some(operation);
    } else if str_eq(m, "options") {
        item.options = Some(operation);
    } else if str_eq(m, "head") {
        item.head = Some(operation);
    } else if str_eq(m, "patch") {
        item.patch = Some(operation);
    } else if str_eq(m, "trace") {
        item.trace = Some(operation);
    }
    paths.insert(i, (path, item));
    proof {
        assert(pairs_view(paths@) =~= spec_paths_upsert(pairs_view(old(paths)@), pop@));
    }
}

} // verus!
