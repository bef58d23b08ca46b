//! The operation builder's two small grammars: `@param` text and
//! response text.  Both first collapse whitespace runs to single spaces
//! to tolerate tabs and irregular spacing.

use vstd::prelude::*;

use crate::assoc::{assoc_set, spec_assoc_set, str_eq};
use crate::chars::{
    chars_to_string, collapse_ws, find_at, find_char, join_space, match_at, rfind_char,
    spec_collapse_ws, spec_find_at, spec_find_char, spec_join_space, spec_lower, spec_match_at,
    spec_rfind_char, spec_split_char, spec_split_quoted, spec_split_ws, spec_trim, split_char,
    split_quoted, split_ws, str_concat, sub_chars, to_chars, trim_chars, lower_chars,
};
use crate::errors::{ParserError, ParserErrorView};
use crate::jsontext::{encode_json_string, json_is_valid, json_parses, json_string_of};
use crate::models::{
    pairs_view, seq_view, spec_array_schema, spec_empty_media, spec_ref_schema, spec_type_schema,
    MediaType, MediaTypeView, Parameter, ParameterView, Response, ResponseView, Schema, SchemaView,
};
use crate::parser::GoParser;

verus! {

/// The text before the first inline `{example=` marker, and the raw text
/// after the marker when there is one.
pub open spec fn spec_strip_example(s: Seq<char>) -> (Seq<char>, Option<Seq<char>>) {
    match spec_find_at(s, "{example="@, 0) {
        Some(j) => (s.take(j), Some(s.skip(j + "{example="@.len()))),
        None => (s, None),
    }
}

fn strip_example(v: &Vec<char>) -> (r: (Vec<char>, Option<Vec<char>>))
    ensures
        r.0@ == spec_strip_example(v@).0,
        match r.1 {
            Some(e) => spec_strip_example(v@).1 == Some(e@),
            None => spec_strip_example(v@).1 is None,
        },
{
    proof {
        reveal_strlit("{example=");
    }
    match find_at(v, "{example=", 0) {
        Some(j) => {
            proof {
                lemma_find_at_bounds(v@, "{example="@, 0);
                assert(j + 9 <= v.len());
            }
            (sub_chars(v, 0, j), Some(sub_chars(v, j + 9, v.len())))
        },
        None => (sub_chars(v, 0, v.len()), None),
    }
}

/// A found pattern lies within bounds.
pub proof fn lemma_find_at_bounds_pub(h: Seq<char>, pat: Seq<char>, from: int)
    requires
        0 <= from,
    ensures
        spec_find_at(h, pat, from) matches Some(j) ==> from <= j && j + pat.len() <= h.len(),
{
    lemma_find_at_bounds(h, pat, from);
}

/// A found pattern lies within bounds.
proof fn lemma_find_at_bounds(h: Seq<char>, pat: Seq<char>, from: int)
    requires
        0 <= from,
    ensures
        spec_find_at(h, pat, from) matches Some(j) ==> from <= j && j + pat.len() <= h.len(),
    decreases h.len() - from + 1,
{
    if from + pat.len() <= h.len() && !spec_match_at(h, pat, from) {
        lemma_find_at_bounds(h, pat, from + 1);
    }
}

/// The inline example text with an optional closing brace removed.
pub open spec fn spec_example_content(ex: Seq<char>) -> Seq<char> {
    if ex.len() > 0 && ex.last() == '}' {
        ex.take(ex.len() - 1)
    } else {
        ex
    }
}

fn example_content(v: Vec<char>) -> (r: Vec<char>)
    ensures
        r@ == spec_example_content(v@),
{
    if v.len() > 0 && v[v.len() - 1] == '}' {
        sub_chars(&v, 0, v.len() - 1)
    } else {
        v
    }
}

/// The description of a parameter: the quoted fifth token, or, when its
/// quotes are misplaced, the text between the first and last quote of
/// the joined remaining tokens, or that joined text itself.
pub open spec fn spec_param_description(parts: Seq<Seq<char>>) -> Seq<char>
    recommends
        parts.len() >= 5,
{
    let p4 = parts[4];
    if p4.len() >= 2 && p4[0] == '"' && p4.last() == '"' {
        p4.subrange(1, p4.len() - 1)
    } else {
        let joined = spec_join_space(parts.skip(4));
        match spec_find_char(joined, '"', 0) {
            Some(st) => match spec_rfind_char(joined, '"', joined.len() - 1) {
                Some(en) => if st < en {
                    joined.subrange(st + 1, en)
                } else {
                    joined
                },
                None => joined,
            },
            None => joined,
        }
    }
}

/// The scalar type name a primitive dataType token maps to: the integer
/// family to `integer`, the float family to `number`, `bool` to
/// `boolean`; anything else keeps its token.
pub open spec fn spec_primitive_type(t: Seq<char>) -> Seq<char> {
    if t == "int"@ || t == "int8"@ || t == "int16"@ || t == "int32"@ || t == "int64"@ || t
        == "uint"@ || t == "uint8"@ || t == "uint16"@ || t == "uint32"@ || t == "uint64"@ {
        "integer"@
    } else if t == "float32"@ || t == "float64"@ {
        "number"@
    } else if t == "bool"@ {
        "boolean"@
    } else {
        t
    }
}

fn primitive_type(t: &Vec<char>) -> (r: String)
    ensures
        r@ == spec_primitive_type(t@),
{
    if crate::chars::eq_str(t, "int") || crate::chars::eq_str(t, "int8") || crate::chars::eq_str(
        t,
        "int16",
    ) || crate::chars::eq_str(t, "int32") || crate::chars::eq_str(t, "int64")
        || crate::chars::eq_str(t, "uint") || crate::chars::eq_str(t, "uint8")
        || crate::chars::eq_str(t, "uint16") || crate::chars::eq_str(t, "uint32")
        || crate::chars::eq_str(t, "uint64") {
        "integer".to_owned()
    } else if crate::chars::eq_str(t, "float32") || crate::chars::eq_str(t, "float64") {
        "number".to_owned()
    } else if crate::chars::eq_str(t, "bool") {
        "boolean".to_owned()
    } else {
        chars_to_string(t)
    }
}

/// The schema written for a parameter's data type: `{object Name}` and
/// `{array Name}` make references, a dotted name makes a reference,
/// `[]t` makes an array of the primitive `t`, and anything else is a
/// plain scalar type, its primitive token mapped per
/// `spec_primitive_type`.
pub open spec fn spec_param_schema(dtype: Seq<char>) -> Result<SchemaView, ParserErrorView> {
    if dtype.len() >= 2 && dtype[0] == '{' && dtype.last() == '}' {
        let inner = dtype.subrange(1, dtype.len() - 1);
        let p2 = spec_split_ws(inner);
        if p2.len() >= 2 {
            if p2[0] == "object"@ {
                Ok(spec_ref_schema("#/components/schemas/"@ + p2[1]))
            } else if p2[0] == "array"@ {
                Ok(spec_array_schema(spec_ref_schema("#/components/schemas/"@ + p2[1])))
            } else {
                Err(ParserErrorView::ParameterParseError("Unknown schema type: "@ + p2[0]))
            }
        } else {
            Err(ParserErrorView::ParameterParseError("Invalid schema reference format: "@ + inner))
        }
    } else if spec_find_char(dtype, '.', 0) is Some {
        Ok(spec_ref_schema("#/components/schemas/"@ + dtype))
    } else if dtype.len() >= 2 && dtype[0] == '[' && dtype[1] == ']' {
        Ok(spec_array_schema(spec_type_schema(spec_primitive_type(dtype.skip(2)))))
    } else {
        Ok(spec_type_schema(spec_primitive_type(dtype)))
    }
}

fn param_schema(dtype: &Vec<char>) -> (r: Result<Schema, ParserError>)
    ensures
        match r {
            Ok(s) => spec_param_schema(dtype@) == Ok::<SchemaView, ParserErrorView>(s@),
            Err(e) => spec_param_schema(dtype@) == Err::<SchemaView, ParserErrorView>(e@),
        },
{
    if dtype.len() >= 2 && dtype[0] == '{' && dtype[dtype.len() - 1] == '}' {
        let inner = sub_chars(dtype, 1, dtype.len() - 1);
        let p2 = split_ws(&inner);
        if p2.len() >= 2 {
            proof {
                assert(seq_view(p2@)[0] == p2@[0]@);
                assert(seq_view(p2@)[1] == p2@[1]@);
            }
            if str_eq(p2[0].as_str(), "object") {
                Ok(Schema::of_ref(str_concat("#/components/schemas/", p2[1].as_str())))
            } else if str_eq(p2[0].as_str(), "array") {
                Ok(
                    Schema::of_array(
                        Schema::of_ref(str_concat("#/components/schemas/", p2[1].as_str())),
                    ),
                )
            } else {
                Err(
                    ParserError::ParameterParseError(
                        str_concat("Unknown schema type: ", p2[0].as_str()),
                    ),
                )
            }
        } else {
            Err(
                ParserError::ParameterParseError(
                    str_concat("Invalid schema reference format: ", chars_to_string(&inner).as_str()),
                ),
            )
        }
    } else {
        match find_char(dtype, '.', 0) {
            Some(_) => Ok(
                Schema::of_ref(
                    str_concat("#/components/schemas/", chars_to_string(dtype).as_str()),
                ),
            ),
            None => {
                if dtype.len() >= 2 && dtype[0] == '[' && dtype[1] == ']' {
                    let item = sub_chars(dtype, 2, dtype.len());
                    proof {
                        assert(dtype@.subrange(2, dtype@.len() as int) =~= dtype@.skip(2));
                    }
                    Ok(Schema::of_array(Schema::of_type(primitive_type(&item))))
                } else {
                    Ok(Schema::of_type(primitive_type(dtype)))
                }
            },
        }
    }
}

/// What one trailing attribute call does to the parameter being built:
/// `Format(..)` sets the schema's format, `Enums(..)` its enum list,
/// `Default(..)` its default text, and `Example(..)` the parameter's
/// example, kept as raw JSON text (quoted when it does not parse).
pub open spec fn spec_apply_attr(
    schema: SchemaView,
    example: Option<Seq<char>>,
    tok: Seq<char>,
) -> (SchemaView, Option<Seq<char>>) {
    if tok.len() >= 8 && spec_match_at(tok, "Format("@, 0) && tok.last() == ')' {
        (SchemaView { format: Some(tok.subrange(7, tok.len() - 1)), ..schema }, example)
    } else if tok.len() >= 7 && spec_match_at(tok, "Enums("@, 0) && tok.last() == ')' {
        let inner = tok.subrange(6, tok.len() - 1);
        (
            SchemaView {
                enum_values: Some(
                    spec_split_char(inner, ',').map_values(|t: Seq<char>| spec_trim(t)),
                ),
                ..schema
            },
            example,
        )
    } else if tok.len() >= 9 && spec_match_at(tok, "Default("@, 0) && tok.last() == ')' {
        (SchemaView { default: Some(tok.subrange(8, tok.len() - 1)), ..schema }, example)
    } else if tok.len() >= 9 && spec_match_at(tok, "Example("@, 0) && tok.last() == ')' {
        let inner = tok.subrange(8, tok.len() - 1);
        (
            schema,
            Some(
                if json_is_valid(inner) {
                    inner
                } else {
                    json_string_of(inner)
                },
            ),
        )
    } else {
        (schema, example)
    }
}

/// The trailing attributes applied in order, from token `i` on.
pub open spec fn spec_apply_attrs(
    schema: SchemaView,
    example: Option<Seq<char>>,
    toks: Seq<Seq<char>>,
    i: int,
) -> (SchemaView, Option<Seq<char>>)
    decreases toks.len() - i when 0 <= i
{
    if i >= toks.len() {
        (schema, example)
    } else {
        let n = spec_apply_attr(schema, example, toks[i]);
        spec_apply_attrs(n.0, n.1, toks, i + 1)
    }
}

fn apply_attr(schema: Schema, example: Option<String>, tok: &Vec<char>) -> (r: (
    Schema,
    Option<String>,
))
    ensures
        (r.0@, crate::models::opt_view(r.1)) == spec_apply_attr(
            schema@,
            crate::models::opt_view(example),
            tok@,
        ),
{
    proof {
        reveal_strlit("Format(");
        reveal_strlit("Enums(");
        reveal_strlit("Default(");
        reveal_strlit("Example(");
    }
    let mut schema = schema;
    if tok.len() >= 8 && match_at(tok, "Format(", 0) && tok[tok.len() - 1] == ')' {
        schema.format = Some(chars_to_string(&sub_chars(tok, 7, tok.len() - 1)));
        (schema, example)
    } else if tok.len() >= 7 && match_at(tok, "Enums(", 0) && tok[tok.len() - 1] == ')' {
        let inner = sub_chars(tok, 6, tok.len() - 1);
        let raw = split_char(&inner, ',');
        let mut vals: Vec<String> = Vec::new();
        let ghost raw_v = seq_view(raw@);
        let mut i: usize = 0;
        while i < raw.len()
            invariant
                i <= raw@.len(),
                raw_v == seq_view(raw@),
                raw_v.len() == raw@.len(),
                seq_view(vals@) == raw_v.take(i as int).map_values(|t: Seq<char>| spec_trim(t)),
            decreases raw@.len() - i,
        {
            let tc = to_chars(raw[i].as_str());
            let ghost before = seq_view(vals@);
            vals.push(chars_to_string(&trim_chars(&tc)));
            proof {
                crate::models::lemma_seq_view_push(
                    vals@.drop_last(),
                    vals@.last(),
                );
                assert(seq_view(vals@) =~= before.push(spec_trim(raw_v[i as int])));
                assert(raw_v.take(i + 1 as int).map_values(|t: Seq<char>| spec_trim(t))
                    =~= raw_v.take(i as int).map_values(|t: Seq<char>| spec_trim(t)).push(
                    spec_trim(raw_v[i as int]),
                ));
            }
            i += 1;
        }
        proof {
            assert(raw_v.take(raw_v.len() as int) =~= raw_v);
        }
        schema.enum_values = Some(vals);
        (schema, example)
    } else if tok.len() >= 9 && match_at(tok, "Default(", 0) && tok[tok.len() - 1] == ')' {
        schema.default = Some(chars_to_string(&sub_chars(tok, 8, tok.len() - 1)));
        (schema, example)
    } else if tok.len() >= 9 && match_at(tok, "Example(", 0) && tok[tok.len() - 1] == ')' {
        let inner = chars_to_string(&sub_chars(tok, 8, tok.len() - 1));
        if json_parses(inner.as_str()) {
            (schema, Some(inner))
        } else {
            (schema, Some(encode_json_string(inner.as_str())))
        }
    } else {
        (schema, example)
    }
}

/// The parameter that an `@param` annotation value describes, per the
/// grammar `name location dataType required "description" [attrs...]`.
pub open spec fn spec_parse_parameter(value: Seq<char>) -> Result<ParameterView, ParserErrorView> {
    let norm = spec_collapse_ws(value);
    let cut = spec_strip_example(norm);
    let parts = spec_split_quoted(cut.0);
    if parts.len() < 5 {
        Err(
            ParserErrorView::ParameterParseError(
                "Parameter needs at least 5 parts: name, type, dataType, required, description. Got: "@
                    + cut.0,
            ),
        )
    } else {
        match spec_param_schema(parts[2]) {
            Err(e) => Err(e),
            Ok(schema0) => {
                let attr_toks = if parts.len() > 5 {
                    spec_split_ws(spec_join_space(parts.skip(5)))
                } else {
                    Seq::empty()
                };
                let applied = spec_apply_attrs(schema0, None, attr_toks, 0);
                let example = match cut.1 {
                    Some(ex) => {
                        let content = spec_example_content(ex);
                        if json_is_valid(content) {
                            Some(content)
                        } else {
                            applied.1
                        }
                    },
                    None => applied.1,
                };
                Ok(
                    ParameterView {
                        name: parts[0],
                        in_type: parts[1],
                        description: Some(spec_param_description(parts)),
                        required: Some(spec_lower(parts[3]) == "true"@),
                        schema: Some(applied.0),
                        example,
                    },
                )
            },
        }
    }
}

impl GoParser {
    /// Parses one `@param` annotation value, per `spec_parse_parameter`.
    pub fn parse_parameter(&self, param_str: &str) -> (r: Result<Parameter, ParserError>)
        ensures
            match r {
                Ok(p) => spec_parse_parameter(param_str@) == Ok::<ParameterView, ParserErrorView>(
                    p@,
                ),
                Err(e) => spec_parse_parameter(param_str@) == Err::<
                    ParameterView,
                    ParserErrorView,
                >(e@),
            },
    {
        let vc = to_chars(param_str);
        let norm = collapse_ws(&vc);
        let (stripped, inline_ex) = strip_example(&norm);
        let parts = split_quoted(&stripped);
        let ghost parts_v = spec_split_quoted(stripped@);
        if parts.len() < 5 {
            return Err(
                ParserError::ParameterParseError(
                    str_concat(
                        "Parameter needs at least 5 parts: name, type, dataType, required, description. Got: ",
                        chars_to_string(&stripped).as_str(),
                    ),
                ),
            );
        }
        proof {
            assert(parts_v[0] == parts@[0]@);
            assert(parts_v[1] == parts@[1]@);
            assert(parts_v[2] == parts@[2]@);
            assert(parts_v[3] == parts@[3]@);
            assert(parts_v[4] == parts@[4]@);
        }
        let dtype = to_chars(parts[2].as_str());
        let schema0 = match param_schema(&dtype) {
            Ok(s) => s,
            Err(e) => {
                return Err(e);
            },
        };
        let mut schema = schema0;
        let mut example: Option<String> = None;
        if parts.len() > 5 {
            let mut tail: Vec<String> = Vec::new();
            let mut i: usize = 5;
            while i < parts.len()
                invariant
                    5 <= i <= parts@.len(),
                    parts@.len() > 5,
                    parts_v == seq_view(parts@),
                    parts_v.len() == parts@.len(),
                    seq_view(tail@) == parts_v.subrange(5, i as int),
                decreases parts@.len() - i,
            {
                let ghost before = seq_view(tail@);
                tail.push(parts[i].clone());
                proof {
                    crate::models::lemma_seq_view_push(tail@.drop_last(), tail@.last());
                    assert(seq_view(tail@) =~= before.push(parts_v[i as int]));
                    assert(parts_v.subrange(5, i + 1 as int) =~= parts_v.subrange(5, i as int).push(
                        parts_v[i as int],
                    ));
                }
                i += 1;
            }
            proof {
                assert(parts_v.subrange(5, parts_v.len() as int) =~= parts_v.skip(5));
            }
            let joined = join_space(&tail);
            let jc = to_chars(joined.as_str());
            let attr_toks = split_ws(&jc);
            let ghost toks_v = spec_split_ws(jc@);
            let mut k: usize = 0;
            while k < attr_toks.len()
                invariant
                    k <= attr_toks@.len(),
                    toks_v == seq_view(attr_toks@),
                    toks_v.len() == attr_toks@.len(),
                    spec_apply_attrs(schema0@, None, toks_v, 0) == spec_apply_attrs(
                        schema@,
                        crate::models::opt_view(example),
                        toks_v,
                        k as int,
                    ),
                decreases attr_toks@.len() - k,
            {
                let tc = to_chars(attr_toks[k].as_str());
                proof {
                    assert(toks_v[k as int] == attr_toks@[k as int]@);
                }
                let (s2, e2) = apply_attr(schema, example, &tc);
                schema = s2;
                example = e2;
                k += 1;
            }
        }
        match inline_ex {
            Some(ex) => {
                let content = example_content(ex);
                let cs = chars_to_string(&content);
                if json_parses(cs.as_str()) {
                    example = Some(cs);
                }
            },
            None => {},
        }
        let p4 = to_chars(parts[4].as_str());
        let description: String = if p4.len() >= 2 && p4[0] == '"' && p4[p4.len() - 1] == '"' {
            chars_to_string(&sub_chars(&p4, 1, p4.len() - 1))
        } else {
            let mut tail4: Vec<String> = Vec::new();
            let mut i: usize = 4;
            while i < parts.len()
                invariant
                    4 <= i <= parts@.len(),
                    parts@.len() > 4,
                    parts_v == seq_view(parts@),
                    parts_v.len() == parts@.len(),
                    seq_view(tail4@) == parts_v.subrange(4, i as int),
                decreases parts@.len() - i,
            {
                let ghost before = seq_view(tail4@);
                tail4.push(parts[i].clone());
                proof {
                    crate::models::lemma_seq_view_push(tail4@.drop_last(), tail4@.last());
                    assert(seq_view(tail4@) =~= before.push(parts_v[i as int]));
                    assert(parts_v.subrange(4, i + 1 as int) =~= parts_v.subrange(4, i as int).push(
                        parts_v[i as int],
                    ));
                }
                i += 1;
            }
            proof {
                assert(parts_v.subrange(4, parts_v.len() as int) =~= parts_v.skip(4));
            }
            let joined = join_space(&tail4);
            let jc = to_chars(joined.as_str());
            match find_char(&jc, '"', 0) {
                Some(st) => match rfind_char(&jc, '"') {
                    Some(en) => if st < en {
                        chars_to_string(&sub_chars(&jc, st + 1, en))
                    } else {
                        joined
                    },
                    None => joined,
                },
                None => joined,
            }
        };
        let required = {
            let p3 = to_chars(parts[3].as_str());
            let l3 = lower_chars(&p3);
            crate::chars::eq_str(&l3, "true")
        };
        Ok(
            Parameter {
                name: parts[0].clone(),
                in_type: parts[1].clone(),
                description: Some(description),
                required: Some(required),
                schema: Some(schema),
                example,
            },
        )
    }
}

} // verus!

verus! {

/// The least index at or after `i` of a brace-delimited token.
pub open spec fn spec_first_brace_idx(parts: Seq<Seq<char>>, i: int) -> int
    decreases parts.len() - i when 0 <= i
{
    if i >= parts.len() {
        parts.len() as int
    } else if parts[i].len() >= 1 && parts[i][0] == '{' && parts[i].last() == '}' {
        i
    } else {
        spec_first_brace_idx(parts, i + 1)
    }
}

/// The least index of a token equal to `tok`.
pub open spec fn spec_first_eq_idx(parts: Seq<Seq<char>>, tok: Seq<char>) -> int
    decreases parts.len(),
{
    if parts.len() == 0 {
        0
    } else if parts[0] == tok {
        0
    } else {
        1 + spec_first_eq_idx(parts.drop_first(), tok)
    }
}

proof fn lemma_first_brace_idx(parts: Seq<Seq<char>>, i: int)
    requires
        0 <= i <= parts.len(),
    ensures
        i <= spec_first_brace_idx(parts, i) <= parts.len(),
    decreases parts.len() - i,
{
    if i < parts.len() && !(parts[i].len() >= 1 && parts[i][0] == '{' && parts[i].last() == '}') {
        lemma_first_brace_idx(parts, i + 1);
    }
}

proof fn lemma_first_eq_idx(parts: Seq<Seq<char>>, tok: Seq<char>)
    ensures
        0 <= spec_first_eq_idx(parts, tok) <= parts.len(),
        spec_first_eq_idx(parts, tok) < parts.len() ==> parts[spec_first_eq_idx(parts, tok)]
            == tok,
        forall|j: int| 0 <= j < spec_first_eq_idx(parts, tok) ==> parts[j] != tok,
    decreases parts.len(),
{
    if parts.len() > 0 && parts[0] != tok {
        lemma_first_eq_idx(parts.drop_first(), tok);
        assert forall|j: int| 0 <= j < spec_first_eq_idx(parts, tok) implies parts[j] != tok by {
            if j >= 1 {
                assert(parts.drop_first()[j - 1] == parts[j]);
            }
        }
    }
}

/// The media content a response's brace-delimited marker makes: an
/// `{object}` marker references the named schema under
/// `application/json`; an `{array}` marker wraps that reference in an
/// array; any other marker adds nothing.
pub open spec fn spec_response_content(mtype: Seq<char>, mname: Seq<char>) -> Seq<
    (Seq<char>, MediaTypeView),
> {
    if mtype == "object"@ {
        seq![
            (
                "application/json"@,
                MediaTypeView {
                    schema: Some(spec_ref_schema("#/components/schemas/"@ + mname)),
                    example: None,
                },
            ),
        ]
    } else if mtype == "array"@ {
        seq![
            (
                "application/json"@,
                MediaTypeView {
                    schema: Some(
                        spec_array_schema(spec_ref_schema("#/components/schemas/"@ + mname)),
                    ),
                    example: None,
                },
            ),
        ]
    } else {
        Seq::empty()
    }
}

/// The response an annotation value describes: code, description joined
/// from the non-marker tokens, media content per the marker, a trailing
/// `{example=...}` attached when it parses as JSON, and a default
/// `application/json` entry when no content was produced.
pub open spec fn spec_parse_response(value: Seq<char>) -> Result<ResponseView, ParserErrorView> {
    let norm = spec_collapse_ws(value);
    let cut = match spec_find_at(norm, "{example="@, 0) {
        Some(j) => (norm.take(j), Some(norm.skip(j + "{example="@.len()))),
        None => (norm, None),
    };
    let parts = spec_split_ws(cut.0);
    if parts.len() == 0 {
        Err(
            ParserErrorView::ResponseParseError(
                "Response needs at least a status code. Got: "@ + value,
            ),
        )
    } else {
        let code = parts[0];
        let bi = spec_first_brace_idx(parts, 1);
        let found = bi < parts.len();
        let mi = if found {
            spec_first_eq_idx(parts, parts[bi])
        } else {
            parts.len() as int
        };
        let content0: Seq<(Seq<char>, MediaTypeView)> = if found && mi + 1 < parts.len() {
            spec_response_content(
                parts[bi].subrange(1, parts[bi].len() - 1),
                parts[mi + 1],
            )
        } else {
            Seq::empty()
        };
        let desc0: Seq<char> = if found {
            spec_join_space(
                (if mi >= 1 {
                    parts.subrange(1, mi)
                } else {
                    Seq::empty()
                }) + (if mi + 2 <= parts.len() {
                    parts.skip(mi + 2)
                } else {
                    Seq::empty()
                }),
            )
        } else if parts.len() > 1 {
            spec_join_space(parts.skip(1))
        } else {
            Seq::empty()
        };
        let desc = if desc0.len() >= 2 && desc0[0] == '"' && desc0.last() == '"' {
            desc0.subrange(1, desc0.len() - 1)
        } else {
            desc0
        };
        let content1 = match cut.1 {
            Some(ex) => {
                let c = spec_example_content(ex);
                if json_is_valid(c) {
                    if crate::assoc::spec_has_key(content0, "application/json"@) {
                        let i = crate::assoc::spec_key_idx(content0, "application/json"@);
                        content0.update(
                            i,
                            (
                                "application/json"@,
                                MediaTypeView { example: Some(c), ..content0[i].1 },
                            ),
                        )
                    } else {
                        content0.push(
                            ("application/json"@, MediaTypeView { schema: None, example: Some(c) }),
                        )
                    }
                } else {
                    content0
                }
            },
            None => content0,
        };
        Ok(ResponseView { code, description: desc, content: content1 })
    }
}

impl GoParser {
    /// Parses one response annotation value, per `spec_parse_response`.
    pub fn parse_response(&self, response_str: &str) -> (r: Result<Response, ParserError>)
        ensures
            match r {
                Ok(p) => spec_parse_response(response_str@) == Ok::<
                    ResponseView,
                    ParserErrorView,
                >(p@),
                Err(e) => spec_parse_response(response_str@) == Err::<
                    ResponseView,
                    ParserErrorView,
                >(e@),
            },
    {
        let vc = to_chars(response_str);
        let norm = collapse_ws(&vc);
        let (resp_part, example_part) = strip_example(&norm);
        let parts = split_ws(&resp_part);
        let ghost parts_v = spec_split_ws(resp_part@);
        if parts.len() == 0 {
            return Err(
                ParserError::ResponseParseError(
                    str_concat("Response needs at least a status code. Got: ", response_str),
                ),
            );
        }
        proof {
            assert(parts_v[0] == parts@[0]@);
        }
        let code = parts[0].clone();
        let mut bi: usize = 1;
        while bi < parts.len() && !is_brace_token(parts[bi].as_str())
            invariant
                1 <= bi,
                parts_v == seq_view(parts@),
                parts_v.len() == parts@.len(),
                bi <= parts@.len(),
                spec_first_brace_idx(parts_v, 1) == spec_first_brace_idx(parts_v, bi as int),
            decreases parts@.len() - bi,
        {
            proof {
                assert(parts_v[bi as int] == parts@[bi as int]@);
            }
            bi += 1;
        }
        proof {
            if bi < parts@.len() {
                assert(parts_v[bi as int] == parts@[bi as int]@);
            }
            lemma_first_brace_idx(parts_v, 1);
        }
        let found = bi < parts.len();
        let ghost s_bi = spec_first_brace_idx(parts_v, 1);
        proof {
            assert(found == (s_bi < parts_v.len()));
            if found {
                assert(bi as int == s_bi);
            }
        }
        let mut content: Vec<(String, MediaType)> = Vec::new();
        let mut desc0: String = String::new();
        if found {
            let tok = to_chars(parts[bi].as_str());
            proof {
                assert(parts_v[bi as int] == parts@[bi as int]@);
                lemma_first_eq_idx(parts_v, parts_v[bi as int]);
            }
            let mut mi: usize = 0;
            while mi < parts.len() && !str_eq(parts[mi].as_str(), parts[bi].as_str())
                invariant
                    parts_v == seq_view(parts@),
                    parts_v.len() == parts@.len(),
                    mi <= parts@.len(),
                    bi < parts@.len(),
                    spec_first_eq_idx(parts_v, parts_v[bi as int]) >= mi,
                    forall|j: int| 0 <= j < mi ==> parts_v[j] != parts_v[bi as int],
                decreases parts@.len() - mi,
            {
                proof {
                    assert(parts_v[mi as int] == parts@[mi as int]@);
                    lemma_first_eq_spec(parts_v, parts_v[bi as int], mi + 1 as int);
                }
                mi += 1;
            }
            proof {
                assert(parts_v[bi as int] == parts@[bi as int]@);
                lemma_first_eq_idx(parts_v, parts_v[bi as int]);
                if mi < parts@.len() {
                    assert(parts_v[mi as int] == parts@[mi as int]@);
                    lemma_first_eq_spec(parts_v, parts_v[bi as int], mi as int);
                }
            }
            if mi + 1 < parts.len() {
                let mtype = sub_chars(&tok, 1, tok.len() - 1);
                proof {
                    assert(parts_v[mi + 1 as int] == parts@[mi + 1 as int]@);
                }
                if str_eq(chars_to_string(&mtype).as_str(), "object") {
                    let m = MediaType {
                        schema: Some(
                            Schema::of_ref(
                                str_concat("#/components/schemas/", parts[mi + 1].as_str()),
                            ),
                        ),
                        example: None,
                    };
                    content.push(("application/json".to_owned(), m));
                    proof {
                        crate::models::lemma_pairs_view_push(
                            content@.drop_last(),
                            content@.last(),
                        );
                        assert(pairs_view(content@) =~= spec_response_content(
                            parts_v[bi as int].subrange(1, parts_v[bi as int].len() - 1),
                            parts_v[mi + 1 as int],
                        ));
                    }
                } else if str_eq(chars_to_string(&mtype).as_str(), "array") {
                    let m = MediaType {
                        schema: Some(
                            Schema::of_array(
                                Schema::of_ref(
                                    str_concat("#/components/schemas/", parts[mi + 1].as_str()),
                                ),
                            ),
                        ),
                        example: None,
                    };
                    content.push(("application/json".to_owned(), m));
                    proof {
                        crate::models::lemma_pairs_view_push(
                            content@.drop_last(),
                            content@.last(),
                        );
                        assert(pairs_view(content@) =~= spec_response_content(
                            parts_v[bi as int].subrange(1, parts_v[bi as int].len() - 1),
                            parts_v[mi + 1 as int],
                        ));
                    }
                } else {
                    proof {
                        assert(pairs_view(content@) =~= spec_response_content(
                            parts_v[bi as int].subrange(1, parts_v[bi as int].len() - 1),
                            parts_v[mi + 1 as int],
                        ));
                    }
                }
            } else {
                proof {
                    assert(pairs_view(content@) =~= Seq::<(Seq<char>, MediaTypeView)>::empty());
                }
            }
            let ghost pre_toks: Seq<Seq<char>> = if mi >= 1 {
                parts_v.subrange(1, mi as int)
            } else {
                Seq::empty()
            };
            let mut desc_toks: Vec<String> = Vec::new();
            let mut di: usize = 1;
            proof {
                assert(seq_view(desc_toks@) =~= Seq::<Seq<char>>::empty());
                if mi >= 1 {
                    assert(parts_v.subrange(1, 1) =~= Seq::<Seq<char>>::empty());
                }
            }
            while di < mi
                invariant
                    mi < parts@.len(),
                    parts_v == seq_view(parts@),
                    parts_v.len() == parts@.len(),
                    di <= parts@.len(),
                    1 <= di,
                    mi >= 1 ==> di <= mi && seq_view(desc_toks@) == parts_v.subrange(1, di as int),
                    mi < 1 ==> seq_view(desc_toks@) == Seq::<Seq<char>>::empty(),
                decreases parts@.len() - di,
            {
                let ghost before = seq_view(desc_toks@);
                desc_toks.push(parts[di].clone());
                proof {
                    crate::models::lemma_seq_view_push(desc_toks@.drop_last(), desc_toks@.last());
                    assert(parts_v[di as int] == parts@[di as int]@);
                    assert(seq_view(desc_toks@) =~= before.push(parts_v[di as int]));
                    assert(parts_v.subrange(1, di + 1 as int) =~= parts_v.subrange(
                        1,
                        di as int,
                    ).push(parts_v[di as int]));
                }
                di += 1;
            }
            proof {
                assert(seq_view(desc_toks@) == pre_toks);
            }
            if parts.len() >= 2 && mi <= parts.len() - 2 {
                let mut di2 = mi + 2;
                while di2 < parts.len()
                    invariant
                        mi + 2 <= di2 <= parts@.len(),
                        mi < parts@.len(),
                        parts_v == seq_view(parts@),
                        parts_v.len() == parts@.len(),
                        pre_toks == (if mi >= 1 {
                            parts_v.subrange(1, mi as int)
                        } else {
                            Seq::<Seq<char>>::empty()
                        }),
                        seq_view(desc_toks@) == pre_toks + parts_v.subrange(
                            mi + 2 as int,
                            di2 as int,
                        ),
                    decreases parts@.len() - di2,
                {
                    let ghost before = seq_view(desc_toks@);
                    desc_toks.push(parts[di2].clone());
                    proof {
                        crate::models::lemma_seq_view_push(
                            desc_toks@.drop_last(),
                            desc_toks@.last(),
                        );
                        assert(parts_v[di2 as int] == parts@[di2 as int]@);
                        assert(seq_view(desc_toks@) =~= before.push(parts_v[di2 as int]));
                        assert(parts_v.subrange(mi + 2 as int, di2 + 1 as int) =~= parts_v.subrange(
                            mi + 2 as int,
                            di2 as int,
                        ).push(parts_v[di2 as int]));
                        assert(seq_view(desc_toks@) =~= pre_toks + parts_v.subrange(
                            mi + 2 as int,
                            di2 + 1 as int,
                        ));
                    }
                    di2 += 1;
                }
                proof {
                    assert(parts_v.subrange(mi + 2 as int, parts_v.len() as int) =~= parts_v.skip(
                        mi + 2 as int,
                    ));
                }
            } else {
                proof {
                    assert(seq_view(desc_toks@) =~= pre_toks + Seq::<Seq<char>>::empty());
                }
            }
            proof {
                if mi + 2 <= parts_v.len() {
                    assert(parts_v.subrange(mi + 2 as int, parts_v.len() as int) =~= parts_v.skip(
                        mi + 2 as int,
                    ));
                }
            }
            desc0 = join_space(&desc_toks);
        } else {
            proof {
                assert(pairs_view(content@) =~= Seq::<(Seq<char>, MediaTypeView)>::empty());
            }
            if parts.len() > 1 {
                desc0 = join_range(&parts, 1, parts.len());
                proof {
                    assert(parts_v.subrange(1, parts_v.len() as int) =~= parts_v.skip(1));
                }
            }
        }
        let dc = to_chars(desc0.as_str());
        let description: String = if dc.len() >= 2 && dc[0] == '"' && dc[dc.len() - 1] == '"' {
            chars_to_string(&sub_chars(&dc, 1, dc.len() - 1))
        } else {
            desc0
        };
        match example_part {
            Some(ex) => {
                let c = example_content(ex);
                let cs = chars_to_string(&c);
                if json_parses(cs.as_str()) {
                    if crate::assoc::has_key(&content, "application/json") {
                        proof {
                            crate::assoc::lemma_key_idx(pairs_view(content@), "application/json"@);
                        }
                        let i = crate::assoc::key_index(&content, "application/json");
                        let ghost before = pairs_view(content@);
                        let sch = match &content[i].1.schema {
                            Some(s) => Some(s.dup()),
                            None => None,
                        };
                        let e = &mut content[i];
                        *e = ("application/json".to_owned(), MediaType { schema: sch, example: Some(cs) });
                        proof {
                            assert(pairs_view(content@) =~= before.update(
                                i as int,
                                ("application/json"@, MediaTypeView { example: pairs_view(content@)[i as int].1.example, ..before[i as int].1 }),
                            ));
                        }
                    } else {
                        content.push(
                            ("application/json".to_owned(), MediaType { schema: None, example: Some(cs) }),
                        );
                        proof {
                            crate::models::lemma_pairs_view_push(
                                content@.drop_last(),
                                content@.last(),
                            );
                        }
                    }
                }
            },
            None => {},
        }
        proof {
            lemma_pairs_view_len_generic(content@);
            let sr = spec_parse_response(response_str@);
            assert(sr is Ok);
            assert(sr->Ok_0.code == code@);
            assert(sr->Ok_0.description == description@);
            assert(sr->Ok_0.content == pairs_view(content@));
        }
        Ok(Response { code, description, content })
    }
}

/// Pair views have the length of what they view.
proof fn lemma_pairs_view_len_generic(s: Seq<(String, MediaType)>)
    ensures
        pairs_view(s).len() == s.len(),
{
}

/// The first-equal index from `i` on never points before `i` when no
/// earlier token matched.
proof fn lemma_first_eq_spec(parts: Seq<Seq<char>>, tok: Seq<char>, i: int)
    requires
        0 <= i <= parts.len(),
        forall|j: int| 0 <= j < i ==> parts[j] != tok,
    ensures
        spec_first_eq_idx(parts, tok) >= i,
    decreases i,
{
    lemma_first_eq_idx(parts, tok);
    if i > 0 {
        lemma_first_eq_rec(parts, tok, i);
    }
}

proof fn lemma_first_eq_rec(parts: Seq<Seq<char>>, tok: Seq<char>, i: int)
    requires
        0 <= i <= parts.len(),
        forall|j: int| 0 <= j < i ==> parts[j] != tok,
    ensures
        spec_first_eq_idx(parts, tok) >= i,
    decreases parts.len(),
{
    lemma_first_eq_idx(parts, tok);
    if i > 0 && parts.len() > 0 {
        assert(parts[0] != tok);
        assert forall|j: int| 0 <= j < i - 1 implies parts.drop_first()[j] != tok by {
            assert(parts.drop_first()[j] == parts[j + 1]);
        }
        lemma_first_eq_rec(parts.drop_first(), tok, i - 1);
    }
}

/// Whether the token is brace delimited, like `{object}`.
fn is_brace_token(s: &str) -> (r: bool)
    ensures
        r == (s@.len() >= 1 && s@[0] == '{' && s@.last() == '}'),
{
    let t = to_chars(s);
    t.len() >= 1 && t[0] == '{' && t[t.len() - 1] == '}'
}

/// The tokens `parts[from..to]` joined with single spaces.
fn join_range(parts: &Vec<String>, from: usize, to: usize) -> (r: String)
    requires
        from <= to <= parts@.len(),
    ensures
        r@ == spec_join_space(seq_view(parts@).subrange(from as int, to as int)),
{
    let mut slice: Vec<String> = Vec::new();
    let mut i: usize = from;
    while i < to
        invariant
            from <= i <= to <= parts@.len(),
            seq_view(parts@).len() == parts@.len(),
            seq_view(slice@) == seq_view(parts@).subrange(from as int, i as int),
        decreases to - i,
    {
        let ghost before = seq_view(slice@);
        slice.push(parts[i].clone());
        proof {
            crate::models::lemma_seq_view_push(slice@.drop_last(), slice@.last());
            assert(seq_view(parts@)[i as int] == parts@[i as int]@);
            assert(seq_view(slice@) =~= before.push(seq_view(parts@)[i as int]));
            assert(seq_view(parts@).subrange(from as int, i + 1 as int) =~= seq_view(
                parts@,
            ).subrange(from as int, i as int).push(seq_view(parts@)[i as int]));
        }
        i += 1;
    }
    join_space(&slice)
}

} // verus!
