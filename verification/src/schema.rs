//! The schema resolver: struct declarations found in source text become
//! schema nodes, seeded by the names the operations reference, closed
//! under field dependencies, and entered into a name-keyed registry under
//! both their bare names and their alias-qualified names.

use vstd::prelude::*;

use crate::assoc::{assoc_set, spec_assoc_set, spec_has_key, spec_key_idx, str_eq, has_key};
use crate::chars::{
    chars_to_string, find_char, match_at, spec_find_char, spec_is_space, spec_is_word_char,
    spec_match_at, spec_space_run_end, spec_split_char, spec_trim, spec_word_run_end, split_char,
    str_concat, str_concat3, sub_chars, to_chars, trim_chars, space_run_end, word_run_end,
};
use crate::jsontext::{json_is_valid, json_parses, json_string_of, encode_json_string};
use crate::models::{
    pairs_view, schema_pairs_view, schema_view, seq_view, spec_empty_schema, spec_ref_schema,
    spec_type_schema, spec_array_schema, MediaTypeView, ParameterView, ParsedOperation,
    ResponseView, Schema, SchemaView,
};
use crate::parser::GoParser;

verus! {

/// The lines of a text, as `str::lines` cuts them: split at every
/// newline, a final empty piece after a trailing newline dropped, and a
/// carriage return before each newline removed.
pub open spec fn spec_lines(s: Seq<char>) -> Seq<Seq<char>> {
    let ps = spec_split_char(s, '\n');
    let ps2 = if s.len() > 0 && s.last() == '\n' {
        ps.drop_last()
    } else {
        ps
    };
    ps2.map_values(
        |l: Seq<char>| if l.len() > 0 && l.last() == '\r' {
            l.take(l.len() - 1)
        } else {
            l
        },
    )
}

/// Splits a text into lines, per `spec_lines`.
pub fn lines_of(s: &str) -> (r: Vec<String>)
    ensures
        seq_view(r@) == spec_lines(s@),
{
    let sc = to_chars(s);
    let raw = split_char(&sc, '\n');
    let ghost ps = spec_split_char(s@, '\n');
    let mut upto = raw.len();
    proof {
        crate::chars::lemma_split_char_from_len(s@, '\n', 0);
    }
    if sc.len() > 0 && sc[sc.len() - 1] == '\n' {
        upto = upto - 1;
        proof {
            assert(seq_view(raw@).take(upto as int) =~= ps.drop_last());
        }
    } else {
        proof {
            assert(seq_view(raw@).take(upto as int) =~= ps);
        }
    }
    let ghost ps2 = if s@.len() > 0 && s@.last() == '\n' {
        ps.drop_last()
    } else {
        ps
    };
    let mut r: Vec<String> = Vec::new();
    let mut i: usize = 0;
    while i < upto
        invariant
            i <= upto <= raw@.len(),
            seq_view(raw@).len() == raw@.len(),
            seq_view(raw@).take(upto as int) == ps2,
            seq_view(r@) == ps2.take(i as int).map_values(
                |l: Seq<char>| if l.len() > 0 && l.last() == '\r' {
                    l.take(l.len() - 1)
                } else {
                    l
                },
            ),
        decreases upto - i,
    {
        let lc = to_chars(raw[i].as_str());
        let ghost before = seq_view(r@);
        proof {
            assert(seq_view(raw@)[i as int] == raw@[i as int]@);
            assert(ps2[i as int] == seq_view(raw@).take(upto as int)[i as int]);
        }
        if lc.len() > 0 && lc[lc.len() - 1] == '\r' {
            r.push(chars_to_string(&sub_chars(&lc, 0, lc.len() - 1)));
        } else {
            r.push(chars_to_string(&lc));
        }
        proof {
            crate::models::lemma_seq_view_push(r@.drop_last(), r@.last());
            let f = |l: Seq<char>| if l.len() > 0 && l.last() == '\r' {
                l.take(l.len() - 1)
            } else {
                l
            };
            assert(seq_view(r@) =~= before.push(f(ps2[i as int])));
            assert(ps2.take(i + 1 as int).map_values(f) =~= ps2.take(i as int).map_values(f).push(
                f(ps2[i as int]),
            ));
        }
        i += 1;
    }
    proof {
        assert(ps2.take(upto as int) =~= ps2);
        assert(seq_view(r@) =~= spec_lines(s@));
    }
    r
}

/// The schema a declared field type maps to: primitives become scalar
/// schemas; a slice becomes an array of its element's schema; a pointer
/// maps as what it points to; a dotted name, or any other name, becomes
/// a canonical reference.
pub open spec fn spec_go_type_schema(t: Seq<char>) -> SchemaView
    decreases t.len(),
{
    if t == "string"@ {
        spec_type_schema("string"@)
    } else if t == "int"@ || t == "int8"@ || t == "int16"@ || t == "int32"@ || t == "int64"@ || t
        == "uint"@ || t == "uint8"@ || t == "uint16"@ || t == "uint32"@ || t == "uint64"@ {
        spec_type_schema("integer"@)
    } else if t == "float32"@ || t == "float64"@ {
        spec_type_schema("number"@)
    } else if t == "bool"@ {
        spec_type_schema("boolean"@)
    } else if t.len() >= 2 && t[0] == '[' && t[1] == ']' {
        let item = t.skip(2);
        if spec_find_char(item, '.', 0) is Some {
            spec_array_schema(spec_ref_schema("#/components/schemas/"@ + item))
        } else {
            spec_array_schema(spec_go_type_schema(item))
        }
    } else if t.len() >= 1 && t[0] == '*' {
        spec_go_type_schema(t.skip(1))
    } else {
        spec_ref_schema("#/components/schemas/"@ + t)
    }
}

impl GoParser {
    /// The schema a declared field type maps to, per
    /// `spec_go_type_schema`.
    pub fn convert_go_type_to_schema(&self, field_type: &str) -> (r: Schema)
        ensures
            r@ == spec_go_type_schema(field_type@),
    {
        let tc = to_chars(field_type);
        go_type_schema(&tc)
    }

    /// Adds the type names a field type depends on: the element of a
    /// slice, the target of a pointer, and for a dotted name both its
    /// bare tail and the dotted name itself; names already present are
    /// not repeated.
    pub fn collect_field_dependencies(&self, field_type: &str, dependencies: &mut Vec<String>)
        ensures
            seq_view(final(dependencies)@) == spec_field_deps(
                field_type@,
                seq_view(old(dependencies)@),
            ),
    {
        let tc = to_chars(field_type);
        field_deps(&tc, dependencies)
    }
}

fn go_type_schema(t: &Vec<char>) -> (r: Schema)
    ensures
        r@ == spec_go_type_schema(t@),
    decreases t@.len(),
{
    if crate::chars::eq_str(t, "string") {
        Schema::of_type("string".to_owned())
    } else if crate::chars::eq_str(t, "int") || crate::chars::eq_str(t, "int8")
        || crate::chars::eq_str(t, "int16") || crate::chars::eq_str(t, "int32")
        || crate::chars::eq_str(t, "int64") || crate::chars::eq_str(t, "uint")
        || crate::chars::eq_str(t, "uint8") || crate::chars::eq_str(t, "uint16")
        || crate::chars::eq_str(t, "uint32") || crate::chars::eq_str(t, "uint64") {
        Schema::of_type("integer".to_owned())
    } else if crate::chars::eq_str(t, "float32") || crate::chars::eq_str(t, "float64") {
        Schema::of_type("number".to_owned())
    } else if crate::chars::eq_str(t, "bool") {
        Schema::of_type("boolean".to_owned())
    } else if t.len() >= 2 && t[0] == '[' && t[1] == ']' {
        let item = sub_chars(t, 2, t.len());
        proof {
            assert(t@.subrange(2, t@.len() as int) =~= t@.skip(2));
        }
        match find_char(&item, '.', 0) {
            Some(_) => Schema::of_array(
                Schema::of_ref(
                    str_concat("#/components/schemas/", chars_to_string(&item).as_str()),
                ),
            ),
            None => Schema::of_array(go_type_schema(&item)),
        }
    } else if t.len() >= 1 && t[0] == '*' {
        let base = sub_chars(t, 1, t.len());
        proof {
            assert(t@.subrange(1, t@.len() as int) =~= t@.skip(1));
        }
        go_type_schema(&base)
    } else {
        Schema::of_ref(str_concat("#/components/schemas/", chars_to_string(t).as_str()))
    }
}

/// A name joins the sequence only when it is not there yet.
pub open spec fn spec_name_insert(acc: Seq<Seq<char>>, n: Seq<char>) -> Seq<Seq<char>> {
    if exists|i: int| 0 <= i < acc.len() && acc[i] == n {
        acc
    } else {
        acc.push(n)
    }
}

fn name_insert(acc: &mut Vec<String>, n: String)
    ensures
        seq_view(final(acc)@) == spec_name_insert(seq_view(old(acc)@), n@),
{
    let mut i: usize = 0;
    while i < acc.len()
        invariant
            i <= acc@.len(),
            acc@ == old(acc)@,
            seq_view(acc@).len() == acc@.len(),
            forall|j: int| 0 <= j < i ==> seq_view(acc@)[j] != n@,
        decreases acc@.len() - i,
    {
        proof {
            assert(seq_view(acc@)[i as int] == acc@[i as int]@);
        }
        if str_eq(acc[i].as_str(), n.as_str()) {
            return ;
        }
        i += 1;
    }
    let ghost before = seq_view(acc@);
    acc.push(n);
    proof {
        crate::models::lemma_seq_view_push(acc@.drop_last(), acc@.last());
        assert(seq_view(acc@) =~= before.push(n@));
    }
}

/// The dependencies a field type contributes, in order of discovery.
pub open spec fn spec_field_deps(t: Seq<char>, acc: Seq<Seq<char>>) -> Seq<Seq<char>>
    decreases t.len(),
{
    if t == "string"@ || t == "int"@ || t == "int8"@ || t == "int16"@ || t == "int32"@ || t
        == "int64"@ || t == "uint"@ || t == "uint8"@ || t == "uint16"@ || t == "uint32"@ || t
        == "uint64"@ || t == "float32"@ || t == "float64"@ || t == "bool"@ {
        acc
    } else if t.len() >= 2 && t[0] == '[' && t[1] == ']' {
        spec_field_deps(t.skip(2), acc)
    } else if t.len() >= 1 && t[0] == '*' {
        spec_field_deps(t.skip(1), acc)
    } else if spec_find_char(t, '.', 0) is Some {
        let parts = spec_split_char(t, '.');
        if parts.len() == 2 {
            spec_name_insert(spec_name_insert(acc, parts[1]), t)
        } else {
            acc
        }
    } else {
        spec_name_insert(acc, t)
    }
}

fn field_deps(t: &Vec<char>, acc: &mut Vec<String>)
    ensures
        seq_view(final(acc)@) == spec_field_deps(t@, seq_view(old(acc)@)),
    decreases t@.len(),
{
    if crate::chars::eq_str(t, "string") || crate::chars::eq_str(t, "int") || crate::chars::eq_str(
        t,
        "int8",
    ) || crate::chars::eq_str(t, "int16") || crate::chars::eq_str(t, "int32")
        || crate::chars::eq_str(t, "int64") || crate::chars::eq_str(t, "uint")
        || crate::chars::eq_str(t, "uint8") || crate::chars::eq_str(t, "uint16")
        || crate::chars::eq_str(t, "uint32") || crate::chars::eq_str(t, "uint64")
        || crate::chars::eq_str(t, "float32") || crate::chars::eq_str(t, "float64")
        || crate::chars::eq_str(t, "bool") {
        return ;
    }
    if t.len() >= 2 && t[0] == '[' && t[1] == ']' {
        let rest = sub_chars(t, 2, t.len());
        proof {
            assert(t@.subrange(2, t@.len() as int) =~= t@.skip(2));
        }
        field_deps(&rest, acc);
        return ;
    }
    if t.len() >= 1 && t[0] == '*' {
        let rest = sub_chars(t, 1, t.len());
        proof {
            assert(t@.subrange(1, t@.len() as int) =~= t@.skip(1));
        }
        field_deps(&rest, acc);
        return ;
    }
    match find_char(t, '.', 0) {
        Some(_) => {
            let parts = split_char(t, '.');
            proof {
                if parts@.len() == 2 {
                    assert(seq_view(parts@)[1] == parts@[1]@);
                }
            }
            if parts.len() == 2 {
                name_insert(acc, parts[1].clone());
                name_insert(acc, chars_to_string(t));
            }
        },
        None => {
            name_insert(acc, chars_to_string(t));
        },
    }
}

/// A struct declaration on a line: the least position where `type`, a
/// name, and `struct {` follow one another, giving the name.
pub open spec fn spec_struct_decl_at(s: Seq<char>, i: int) -> Option<Seq<char>> {
    if !spec_match_at(s, "type"@, i) {
        None
    } else {
        let j = spec_space_run_end(s, i + 4);
        if !(j > i + 4) {
            None
        } else {
            let k = spec_word_run_end(s, j);
            if !(k > j) {
                None
            } else {
                let m = spec_space_run_end(s, k);
                if !(m > k && spec_match_at(s, "struct"@, m)) {
                    None
                } else {
                    let b = spec_space_run_end(s, m + 6);
                    if b < s.len() && s[b] == '{' {
                        Some(s.subrange(j, k))
                    } else {
                        None
                    }
                }
            }
        }
    }
}

pub open spec fn spec_struct_decl_from(s: Seq<char>, i: int) -> Option<Seq<char>>
    decreases s.len() - i when 0 <= i
{
    if i >= s.len() {
        None
    } else if spec_struct_decl_at(s, i) is Some {
        spec_struct_decl_at(s, i)
    } else {
        spec_struct_decl_from(s, i + 1)
    }
}

/// The struct name a line declares, when it declares one.
pub open spec fn spec_struct_decl(s: Seq<char>) -> Option<Seq<char>> {
    spec_struct_decl_from(s, 0)
}

fn try_struct_decl_at(v: &Vec<char>, i: usize) -> (r: Option<String>)
    requires
        i < v@.len(),
    ensures
        match r {
            Some(n) => spec_struct_decl_at(v@, i as int) == Some(n@),
            None => spec_struct_decl_at(v@, i as int) is None,
        },
{
    proof {
        reveal_strlit("type");
        reveal_strlit("struct");
    }
    if !match_at(v, "type", i) {
        return None;
    }
    proof {
        assert(i + 4 <= v.len());
    }
    let j = space_run_end(v, i + 4);
    if !(j > i + 4) {
        return None;
    }
    let k = word_run_end(v, j);
    if !(k > j) {
        return None;
    }
    let m = space_run_end(v, k);
    if !(m > k && match_at(v, "struct", m)) {
        return None;
    }
    proof {
        assert(m + 6 <= v.len());
    }
    let b = space_run_end(v, m + 6);
    if b < v.len() && v[b] == '{' {
        Some(chars_to_string(&sub_chars(v, j, k)))
    } else {
        None
    }
}

/// Finds a struct declaration on a line, per `spec_struct_decl`.
pub fn parse_struct_decl(v: &Vec<char>) -> (r: Option<String>)
    ensures
        match r {
            Some(n) => spec_struct_decl(v@) == Some(n@),
            None => spec_struct_decl(v@) is None,
        },
{
    let mut i: usize = 0;
    while i < v.len()
        invariant
            i <= v@.len(),
            spec_struct_decl_from(v@, 0) == spec_struct_decl_from(v@, i as int),
        decreases v@.len() - i,
    {
        let r = try_struct_decl_at(v, i);
        if r.is_some() {
            return r;
        }
        i += 1;
    }
    None
}

/// Whether the line, after leading whitespace, starts with `}`.
pub open spec fn spec_block_close(s: Seq<char>) -> bool {
    let j = spec_space_run_end(s, 0);
    j < s.len() && s[j] == '}'
}

pub fn is_block_close(v: &Vec<char>) -> (r: bool)
    ensures
        r == spec_block_close(v@),
{
    let j = space_run_end(v, 0);
    j < v.len() && v[j] == '}'
}

/// A field of a struct body: after leading whitespace, a word name, then
/// whitespace, then a type made of word characters, dots, stars and
/// brackets.
pub open spec fn spec_is_type_char(c: char) -> bool {
    spec_is_word_char(c) || c == '.' || c == '*' || c == '[' || c == ']'
}

pub open spec fn spec_type_run_end(s: Seq<char>, i: int) -> int
    decreases s.len() - i when 0 <= i <= s.len()
{
    if i == s.len() || !spec_is_type_char(s[i]) {
        i
    } else {
        spec_type_run_end(s, i + 1)
    }
}

fn is_type_char(c: char) -> (r: bool)
    ensures
        r == spec_is_type_char(c),
{
    crate::chars::is_word_char(c) || c == '.' || c == '*' || c == '[' || c == ']'
}

fn type_run_end(v: &Vec<char>, i: usize) -> (r: usize)
    requires
        i <= v@.len(),
    ensures
        r == spec_type_run_end(v@, i as int),
        i <= r <= v@.len(),
{
    let mut j: usize = i;
    while j < v.len() && is_type_char(v[j])
        invariant
            i <= j <= v@.len(),
            spec_type_run_end(v@, i as int) == spec_type_run_end(v@, j as int),
        decreases v@.len() - j,
    {
        j += 1;
    }
    j
}

/// The (name, type) of a schema field line, when the line declares one.
pub open spec fn spec_schema_field(s: Seq<char>) -> Option<(Seq<char>, Seq<char>)> {
    let a = spec_space_run_end(s, 0);
    let b = spec_word_run_end(s, a);
    if !(b > a) {
        None
    } else {
        let c = spec_space_run_end(s, b);
        if !(c > b) {
            None
        } else {
            let d = spec_type_run_end(s, c);
            if d > c {
                Some((s.subrange(a, b), s.subrange(c, d)))
            } else {
                None
            }
        }
    }
}

pub fn parse_schema_field(v: &Vec<char>) -> (r: Option<(String, String)>)
    ensures
        match r {
            Some(p) => spec_schema_field(v@) == Some((p.0@, p.1@)),
            None => spec_schema_field(v@) is None,
        },
{
    let a = space_run_end(v, 0);
    let b = word_run_end(v, a);
    if !(b > a) {
        return None;
    }
    let c = space_run_end(v, b);
    if !(c > b) {
        return None;
    }
    let d = type_run_end(v, c);
    if d > c {
        Some((chars_to_string(&sub_chars(v, a, b)), chars_to_string(&sub_chars(v, c, d))))
    } else {
        None
    }
}

} // verus!

verus! {

/// The raw example text of a field line: after the field's name and
/// type, inside the backtick-quoted tag, the text of the last
/// `example:"..."` attribute whose closing quote ends the tag.
pub open spec fn spec_example_attr_at(s: Seq<char>, p: int) -> Option<Seq<char>> {
    if !spec_match_at(s, "example:\""@, p) {
        None
    } else {
        match spec_find_char(s, '"', p + 9) {
            Some(e) => if e + 1 < s.len() && s[e + 1] == '`' {
                Some(s.subrange(p + 9, e))
            } else {
                None
            },
            None => None,
        }
    }
}

/// The greatest position at or after `from` where an example attribute
/// closes the tag.
pub open spec fn spec_last_example_attr(s: Seq<char>, from: int, best: Option<Seq<char>>) -> Option<
    Seq<char>,
>
    decreases s.len() - from when 0 <= from
{
    if from >= s.len() {
        best
    } else {
        match spec_example_attr_at(s, from) {
            Some(v) => spec_last_example_attr(s, from + 1, Some(v)),
            None => spec_last_example_attr(s, from + 1, best),
        }
    }
}

/// The (field name, raw example text) of an example field line: a field
/// line whose tag holds a closing example attribute.
pub open spec fn spec_example_field(s: Seq<char>) -> Option<(Seq<char>, Seq<char>)> {
    match spec_schema_field(s) {
        Some(nf) => {
            let d = spec_type_run_end(s, spec_space_run_end(s, spec_word_run_end(s, spec_space_run_end(s, 0))));
            let e = spec_space_run_end(s, d);
            if e > d && e < s.len() && s[e] == '`' {
                match spec_last_example_attr(s, e + 1, None) {
                    Some(v) => Some((nf.0, v)),
                    None => None,
                }
            } else {
                None
            }
        },
        None => None,
    }
}

fn example_attr_at(v: &Vec<char>, p: usize) -> (r: Option<String>)
    ensures
        match r {
            Some(t) => spec_example_attr_at(v@, p as int) == Some(t@),
            None => spec_example_attr_at(v@, p as int) is None,
        },
{
    proof {
        reveal_strlit("example:\"");
    }
    if !match_at(v, "example:\"", p) {
        return None;
    }
    proof {
        assert(p + 9 <= v.len());
    }
    match find_char(v, '"', p + 9) {
        Some(e) => {
            if e + 1 < v.len() && v[e + 1] == '`' {
                Some(chars_to_string(&sub_chars(v, p + 9, e)))
            } else {
                None
            }
        },
        None => None,
    }
}

/// Finds an example field on a line, per `spec_example_field`.
pub fn parse_example_field(v: &Vec<char>) -> (r: Option<(String, String)>)
    ensures
        match r {
            Some(p) => spec_example_field(v@) == Some((p.0@, p.1@)),
            None => spec_example_field(v@) is None,
        },
{
    let nf = match parse_schema_field(v) {
        Some(nf) => nf,
        None => {
            return None;
        },
    };
    let a = space_run_end(v, 0);
    let b = word_run_end(v, a);
    let c = space_run_end(v, b);
    let d = type_run_end(v, c);
    let e = space_run_end(v, d);
    if !(e > d && e < v.len() && v[e] == '`') {
        return None;
    }
    let mut best: Option<String> = None;
    let mut i: usize = e + 1;
    while i < v.len()
        invariant
            e + 1 <= i,
            spec_last_example_attr(v@, e + 1 as int, None) == spec_last_example_attr(
                v@,
                i as int,
                crate::models::opt_view(best),
            ),
        decreases v@.len() - i,
    {
        match example_attr_at(v, i) {
            Some(t) => {
                best = Some(t);
            },
            None => {},
        }
        i += 1;
    }
    match best {
        Some(t) => Some((nf.0, t)),
        None => None,
    }
}

/// The stored form of an example value: kept as is when it parses as
/// JSON, quoted when the quoted form parses, and written as a JSON
/// string literal otherwise.
pub open spec fn spec_example_value(v: Seq<char>) -> Seq<char> {
    if json_is_valid(v) {
        v
    } else if json_is_valid("\""@ + v + "\""@) {
        "\""@ + v + "\""@
    } else {
        json_string_of(v)
    }
}

fn example_value(v: &str) -> (r: String)
    ensures
        r@ == spec_example_value(v@),
{
    if json_parses(v) {
        return v.to_owned();
    }
    let q = str_concat3("\"", v, "\"");
    if json_parses(q.as_str()) {
        q
    } else {
        encode_json_string(v)
    }
}

impl GoParser {
    /// The struct field examples found in the given file texts, folded
    /// per `spec_examples_files`: for each struct whose body holds
    /// fields with example tags, the map from field name to stored
    /// example text (per `spec_example_value`); a later struct with the
    /// same name replaces an earlier one, and a struct with no example
    /// fields is not entered at all.
    ///
    /// Models referenced through an import resolve at lookup time: the
    /// examples lookup falls back to the bare tail of a qualified name.
    pub fn extract_struct_examples_with_imports(&self, files: &Vec<String>) -> (r: crate::opbuild::StructExamples)
        ensures
            crate::opbuild::ex_view(r@) == spec_examples_files(
                seq_view(files@),
                0,
                Seq::empty(),
            ),
    {
        let ghost filv = seq_view(files@);
        let mut out: crate::opbuild::StructExamples = Vec::new();
        proof {
            assert(crate::opbuild::ex_view(out@) =~= Seq::<
                (Seq<char>, Seq<(Seq<char>, Seq<char>)>),
            >::empty());
        }
        let mut fi: usize = 0;
        while fi < files.len()
            invariant
                fi <= files@.len(),
                filv == seq_view(files@),
                filv.len() == files@.len(),
                spec_examples_files(filv, fi as int, crate::opbuild::ex_view(out@))
                    == spec_examples_files(filv, 0, Seq::empty()),
            decreases files@.len() - fi,
        {
            proof {
                assert(filv[fi as int] == files@[fi as int]@);
            }
            let lines = lines_of(files[fi].as_str());
            let ghost lv = seq_view(lines@);
            let ghost acc0 = crate::opbuild::ex_view(out@);
            let mut li: usize = 0;
            while li < lines.len()
                invariant
                    li <= lines.len() + 1,
                    lv == seq_view(lines@),
                    lv.len() == lines@.len(),
                    spec_examples_scan(lv, li as int, crate::opbuild::ex_view(out@))
                        == spec_examples_scan(lv, 0, acc0),
                decreases lines@.len() + 1 - li,
            {
                let lv_line = to_chars(lines[li].as_str());
                proof {
                    assert(lv[li as int] == lines@[li as int]@);
                }
                match parse_struct_decl(&lv_line) {
                    Some(name) => {
                        let ghost endv = spec_block_end(lv, li + 1 as int);
                        proof {
                            lemma_block_end(lv, li + 1 as int);
                        }
                        let mut fields: Vec<(String, String)> = Vec::new();
                        proof {
                            assert(pairs_view(fields@) =~= Seq::<(Seq<char>, Seq<char>)>::empty());
                        }
                        let mut j = li + 1;
                        loop
                            invariant
                                li < j <= lines.len(),
                                lv == seq_view(lines@),
                                lv.len() == lines@.len(),
                                endv == spec_block_end(lv, li + 1 as int),
                                spec_block_end(lv, li + 1 as int) == spec_block_end(lv, j as int),
                                spec_example_fields_in(lv, j as int, endv, pairs_view(fields@))
                                    == spec_example_fields_in(lv, li + 1 as int, endv, Seq::empty()),
                            ensures
                                li < j <= lines.len(),
                                endv == j as int,
                                pairs_view(fields@) == spec_example_fields_in(
                                    lv,
                                    li + 1 as int,
                                    endv,
                                    Seq::empty(),
                                ),
                            decreases lines@.len() + 1 - j,
                        {
                            if j >= lines.len() {
                                break ;
                            }
                            let bv = to_chars(lines[j].as_str());
                            proof {
                                assert(lv[j as int] == lines@[j as int]@);
                            }
                            if is_block_close(&bv) {
                                break ;
                            }
                            proof {
                                assert(spec_block_end(lv, j as int) == spec_block_end(
                                    lv,
                                    j + 1 as int,
                                ));
                                lemma_block_end(lv, j + 1 as int);
                                assert((j as int) < endv);
                            }
                            match parse_example_field(&bv) {
                                Some((fname, raw)) => {
                                    let stored = example_value(raw.as_str());
                                    assoc_set(&mut fields, fname, stored);
                                },
                                None => {},
                            }
                            j += 1;
                        }
                        let ghost before = crate::opbuild::ex_view(out@);
                        if fields.len() > 0 {
                            ex_set(&mut out, name, fields);
                        }
                        proof {
                            assert(spec_examples_scan(lv, li as int, before) == spec_examples_scan(
                                lv,
                                if endv < lv.len() { endv + 1 } else { lv.len() as int },
                                crate::opbuild::ex_view(out@),
                            ));
                        }
                        if j < lines.len() {
                            li = j + 1;
                        } else {
                            li = lines.len();
                        }
                    },
                    None => {
                        li += 1;
                    },
                }
            }
            proof {
                assert(spec_examples_scan(lv, lines@.len() as int, crate::opbuild::ex_view(out@))
                    == crate::opbuild::ex_view(out@));
                assert(spec_examples_files(filv, fi + 1 as int, crate::opbuild::ex_view(out@))
                    == spec_examples_files(filv, fi as int, acc0));
            }
            fi += 1;
        }
        out
    }
}

/// Replaces or appends one struct's examples, per `spec_assoc_set` on
/// the char-level view.
fn ex_set(m: &mut crate::opbuild::StructExamples, k: String, v: Vec<(String, String)>)
    ensures
        crate::opbuild::ex_view(final(m)@) == spec_assoc_set(
            crate::opbuild::ex_view(old(m)@),
            k@,
            pairs_view(v@),
        ),
{
    proof {
        crate::assoc::lemma_key_idx(crate::opbuild::ex_view(m@), k@);
    }
    let mut i: usize = 0;
    while i < m.len()
        invariant
            i <= m@.len(),
            m@ == old(m)@,
            crate::opbuild::ex_view(m@).len() == m@.len(),
            forall|j: int| 0 <= j < i ==> (#[trigger] crate::opbuild::ex_view(m@)[j]).0 != k@,
            0 <= spec_key_idx(crate::opbuild::ex_view(m@), k@) <= m@.len(),
            spec_key_idx(crate::opbuild::ex_view(m@), k@) < m@.len()
                ==> crate::opbuild::ex_view(m@)[spec_key_idx(crate::opbuild::ex_view(m@), k@)].0
                == k@,
            forall|j: int|
                0 <= j < spec_key_idx(crate::opbuild::ex_view(m@), k@) ==> (
                #[trigger] crate::opbuild::ex_view(m@)[j]).0 != k@,
        decreases m@.len() - i,
    {
        proof {
            assert(crate::opbuild::ex_view(m@)[i as int].0 == m@[i as int].0@);
        }
        if str_eq(m[i].0.as_str(), k.as_str()) {
            proof {
                let s = spec_key_idx(crate::opbuild::ex_view(m@), k@);
                if s < i as int {
                    assert(crate::opbuild::ex_view(m@)[s].0 == k@);
                } else if s > i as int {
                    assert(crate::opbuild::ex_view(m@)[i as int].0 != k@);
                }
            }
            let e = &mut m[i];
            *e = (k, v);
            proof {
                assert(crate::opbuild::ex_view(m@) =~= spec_assoc_set(
                    crate::opbuild::ex_view(old(m)@),
                    k@,
                    pairs_view(v@),
                ));
            }
            return ;
        }
        i += 1;
    }
    m.push((k, v));
    proof {
        assert(crate::opbuild::ex_view(m@) =~= spec_assoc_set(
            crate::opbuild::ex_view(old(m)@),
            k@,
            pairs_view(v@),
        ));
    }
}

} // verus!

verus! {

/// Key presence survives replacement-or-append updates.
pub proof fn lemma_assoc_set_keys<V>(m: Seq<(Seq<char>, V)>, k: Seq<char>, v: V, x: Seq<char>)
    ensures
        spec_has_key(m, x) ==> spec_has_key(spec_assoc_set(m, k, v), x),
        spec_has_key(spec_assoc_set(m, k, v), k),
{
    crate::assoc::lemma_key_idx(m, k);
    let m2 = spec_assoc_set(m, k, v);
    crate::assoc::lemma_key_idx(m2, k);
    crate::assoc::lemma_key_idx(m2, x);
    crate::assoc::lemma_key_idx(m, x);
    let ki = spec_key_idx(m, k);
    if ki < m.len() {
        // replaced in place: the keys are unchanged
        assert(m2[ki].0 == k);
        let j = spec_key_idx(m2, k);
        if j > ki {
            assert(m2[ki].0 != k);
        }
        if spec_has_key(m, x) {
            let xi = spec_key_idx(m, x);
            if xi == ki {
                assert(x == k);
            } else {
                assert(m2[xi] == m[xi]);
                let xj = spec_key_idx(m2, x);
                if xj > xi {
                    assert(m2[xi].0 != x);
                }
            }
        }
    } else {
        assert(m2[m2.len() - 1].0 == k);
        let j = spec_key_idx(m2, k);
        if j > m2.len() - 1 {
            assert(m2[m2.len() - 1].0 != k);
        }
        if spec_has_key(m, x) {
            let xi = spec_key_idx(m, x);
            assert(m2[xi] == m[xi]);
            let xj = spec_key_idx(m2, x);
            if xj > xi {
                assert(m2[xi].0 != x);
            }
        }
    }
}

/// Replaces or appends one named schema, per `spec_assoc_set` on the
/// registry view.
pub fn reg_set(m: &mut Vec<(String, Schema)>, k: String, v: Schema)
    ensures
        schema_pairs_view(final(m)@) == spec_assoc_set(schema_pairs_view(old(m)@), k@, v@),
{
    proof {
        crate::assoc::lemma_key_idx(schema_pairs_view(m@), k@);
        crate::models::lemma_schema_pairs_view_len(m@);
    }
    let mut i: usize = 0;
    while i < m.len()
        invariant
            i <= m@.len(),
            m@ == old(m)@,
            schema_pairs_view(m@).len() == m@.len(),
            forall|j: int|
                0 <= j < m@.len() ==> #[trigger] schema_pairs_view(m@)[j] == (
                m@[j].0@,
                schema_view(m@[j].1),
                ),
            forall|j: int| 0 <= j < i ==> (#[trigger] schema_pairs_view(m@)[j]).0 != k@,
            0 <= spec_key_idx(schema_pairs_view(m@), k@) <= m@.len(),
            spec_key_idx(schema_pairs_view(m@), k@) < m@.len() ==> schema_pairs_view(
                m@,
            )[spec_key_idx(schema_pairs_view(m@), k@)].0 == k@,
            forall|j: int|
                0 <= j < spec_key_idx(schema_pairs_view(m@), k@) ==> (#[trigger] schema_pairs_view(
                    m@,
                )[j]).0 != k@,
        decreases m@.len() - i,
    {
        if str_eq(m[i].0.as_str(), k.as_str()) {
            proof {
                let s = spec_key_idx(schema_pairs_view(m@), k@);
                if s < i as int {
                    assert(schema_pairs_view(m@)[s].0 == k@);
                } else if s > i as int {
                    assert(schema_pairs_view(m@)[i as int].0 != k@);
                }
            }
            let ghost vv = v@;
            let e = &mut m[i];
            *e = (k, v);
            proof {
                crate::models::lemma_schema_pairs_view_len(m@);
                assert(schema_pairs_view(m@) =~= spec_assoc_set(
                    schema_pairs_view(old(m)@),
                    k@,
                    vv,
                ));
            }
            return ;
        }
        i += 1;
    }
    m.push((k, v));
    proof {
        assert(m@.drop_last() =~= old(m)@);
        assert(schema_pairs_view(m@) == schema_pairs_view(m@.drop_last()).push(
            (m@.last().0@, schema_view(m@.last().1)),
        ));
        assert(schema_pairs_view(m@) =~= spec_assoc_set(schema_pairs_view(old(m)@), k@, v@));
    }
}

/// The schema built for a struct's fields: an object whose properties
/// map each field through `spec_go_type_schema`, with every non-pointer
/// field required.
pub open spec fn spec_struct_schema_props(fields: Seq<(Seq<char>, Seq<char>)>) -> Seq<
    (Seq<char>, SchemaView),
>
    decreases fields,
{
    if fields.len() == 0 {
        Seq::empty()
    } else {
        spec_struct_schema_props(fields.drop_last()).push(
            (fields.last().0, spec_go_type_schema(fields.last().1)),
        )
    }
}

pub open spec fn spec_struct_required(fields: Seq<(Seq<char>, Seq<char>)>) -> Seq<Seq<char>>
    decreases fields,
{
    if fields.len() == 0 {
        Seq::empty()
    } else {
        let rest = spec_struct_required(fields.drop_last());
        if fields.last().1.len() >= 1 && fields.last().1[0] == '*' {
            rest
        } else {
            rest.push(fields.last().0)
        }
    }
}

pub open spec fn spec_struct_schema(fields: Seq<(Seq<char>, Seq<char>)>) -> SchemaView {
    SchemaView {
        type_: Some("object"@),
        properties: spec_struct_schema_props(fields),
        required: if spec_struct_required(fields).len() > 0 {
            Some(spec_struct_required(fields))
        } else {
            None
        },
        ..spec_empty_schema()
    }
}

/// Builds the schema of one struct's fields, per `spec_struct_schema`.
fn struct_schema(fields: &Vec<(String, String)>) -> (r: Schema)
    ensures
        r@ == spec_struct_schema(pairs_view(fields@)),
{
    let ghost fv = pairs_view(fields@);
    let mut props: Vec<(String, Schema)> = Vec::new();
    let mut required: Vec<String> = Vec::new();
    let mut i: usize = 0;
    proof {
        assert(schema_pairs_view(props@) =~= Seq::<(Seq<char>, SchemaView)>::empty());
        assert(seq_view(required@) =~= Seq::<Seq<char>>::empty());
    }
    while i < fields.len()
        invariant
            i <= fields@.len(),
            fv == pairs_view(fields@),
            fv.len() == fields@.len(),
            schema_pairs_view(props@) == spec_struct_schema_props(fv.take(i as int)),
            seq_view(required@) == spec_struct_required(fv.take(i as int)),
        decreases fields@.len() - i,
    {
        proof {
            assert(fv[i as int] == (fields@[i as int].0@, fields@[i as int].1@));
            assert(fv.take(i + 1 as int).drop_last() =~= fv.take(i as int));
        }
        let tc = to_chars(fields[i].1.as_str());
        let ghost props_before = schema_pairs_view(props@);
        let ghost props_pre_vec = props@;
        props.push((fields[i].0.clone(), go_type_schema(&tc)));
        proof {
            assert(props@.drop_last() =~= props_pre_vec);
            assert(schema_pairs_view(props@) == schema_pairs_view(props@.drop_last()).push(
                (props@.last().0@, schema_view(props@.last().1)),
            ));
            assert(schema_pairs_view(props@) =~= props_before.push(
                (fv[i as int].0, spec_go_type_schema(fv[i as int].1)),
            ));
        }
        if !(tc.len() >= 1 && tc[0] == '*') {
            let ghost req_before = seq_view(required@);
            required.push(fields[i].0.clone());
            proof {
                crate::models::lemma_seq_view_push(required@.drop_last(), required@.last());
                assert(seq_view(required@) =~= req_before.push(fv[i as int].0));
            }
        }
        i += 1;
    }
    proof {
        assert(fv.take(fv.len() as int) =~= fv);
    }
    let mut s = Schema::default();
    s.type_ = Some("object".to_owned());
    s.properties = props;
    if required.len() > 0 {
        proof {
            assert(spec_struct_required(fv).len() == seq_view(required@).len());
        }
        s.required = Some(required);
    }
    s
}

impl GoParser {
    /// The schemas of every struct declared in the given file texts,
    /// folded per `spec_schemas_files`: each declaration's object schema
    /// (`spec_struct_schema`) entered under its bare name and under each
    /// of its file's alias-qualified names, a later declaration
    /// replacing an earlier one.
    pub fn extract_struct_schemas(&self, files: &Vec<String>) -> (r: Vec<(String, Schema)>)
        ensures
            schema_pairs_view(r@) == spec_schemas_files(seq_view(files@), 0, Seq::empty()),
    {
        let ghost filv = seq_view(files@);
        let mut out: Vec<(String, Schema)> = Vec::new();
        proof {
            assert(schema_pairs_view(out@) =~= Seq::<(Seq<char>, SchemaView)>::empty());
        }
        let mut fi: usize = 0;
        while fi < files.len()
            invariant
                fi <= files@.len(),
                filv == seq_view(files@),
                filv.len() == files@.len(),
                spec_schemas_files(filv, fi as int, schema_pairs_view(out@)) == spec_schemas_files(
                    filv,
                    0,
                    Seq::empty(),
                ),
            decreases files@.len() - fi,
        {
            proof {
                assert(filv[fi as int] == files@[fi as int]@);
            }
            let lines = lines_of(files[fi].as_str());
            let aliases = collect_aliases(&lines);
            let ghost acc0 = schema_pairs_view(out@);
            scan_structs_into(&lines, &aliases, &mut out);
            proof {
                assert(spec_schemas_files(filv, fi + 1 as int, schema_pairs_view(out@))
                    == spec_schemas_files(filv, fi as int, acc0));
            }
            fi += 1;
        }
        out
    }

    /// The name-keyed registry for the referenced names, per the
    /// composition of `spec_add_commons`, `spec_schemas_files` and
    /// `spec_placeholder_pass`: the well-known response envelopes, then
    /// every declared struct's schema under its bare and qualified
    /// names, then the placeholder empty-object schema for every
    /// referenced name still missing — so no reference is left dangling.
    pub fn extract_referenced_schemas(
        &self,
        files: &Vec<String>,
        referenced_models: &Vec<String>,
    ) -> (r: Vec<(String, Schema)>)
        ensures
            schema_pairs_view(r@) == spec_placeholder_pass(
                seq_view(referenced_models@),
                0,
                spec_schemas_files(seq_view(files@), 0, spec_add_commons(Seq::empty())),
            ),
            forall|i: int|
                0 <= i < seq_view(referenced_models@).len() ==> spec_has_key(
                    schema_pairs_view(r@),
                    #[trigger] seq_view(referenced_models@)[i],
                ),
    {
        let ghost filv = seq_view(files@);
        let ghost refv = seq_view(referenced_models@);
        let mut out: Vec<(String, Schema)> = Vec::new();
        proof {
            assert(schema_pairs_view(out@) =~= Seq::<(Seq<char>, SchemaView)>::empty());
        }
        self.add_common_schemas(&mut out);
        let mut fi: usize = 0;
        while fi < files.len()
            invariant
                fi <= files@.len(),
                filv == seq_view(files@),
                filv.len() == files@.len(),
                spec_schemas_files(filv, fi as int, schema_pairs_view(out@)) == spec_schemas_files(
                    filv,
                    0,
                    spec_add_commons(Seq::empty()),
                ),
            decreases files@.len() - fi,
        {
            proof {
                assert(filv[fi as int] == files@[fi as int]@);
            }
            let lines = lines_of(files[fi].as_str());
            let aliases = collect_aliases(&lines);
            let ghost acc0 = schema_pairs_view(out@);
            scan_structs_into(&lines, &aliases, &mut out);
            proof {
                assert(spec_schemas_files(filv, fi + 1 as int, schema_pairs_view(out@))
                    == spec_schemas_files(filv, fi as int, acc0));
            }
            fi += 1;
        }
        let ghost scanned = schema_pairs_view(out@);
        // the placeholder pass: every referenced name missing from the
        // registry receives the empty-object schema
        let mut i: usize = 0;
        while i < referenced_models.len()
            invariant
                i <= referenced_models@.len(),
                refv == seq_view(referenced_models@),
                refv.len() == referenced_models@.len(),
                spec_placeholder_pass(refv, i as int, schema_pairs_view(out@))
                    == spec_placeholder_pass(refv, 0, scanned),
                forall|j: int|
                    0 <= j < i ==> spec_has_key(schema_pairs_view(out@), #[trigger] refv[j]),
            decreases referenced_models@.len() - i,
        {
            proof {
                assert(refv[i as int] == referenced_models@[i as int]@);
            }
            let name = referenced_models[i].clone();
            let ghost before = schema_pairs_view(out@);
            if !reg_has(&out, name.as_str()) {
                reg_set(&mut out, name, Schema::of_type("object".to_owned()));
            }
            proof {
                assert forall|j: int|
                    0 <= j < i + 1 implies spec_has_key(
                    schema_pairs_view(out@),
                    #[trigger] refv[j],
                ) by {
                    if before == schema_pairs_view(out@) {
                    } else {
                        lemma_assoc_set_keys(
                            before,
                            refv[i as int],
                            spec_type_schema("object"@),
                            refv[j],
                        );
                    }
                }
            }
            i += 1;
        }
        proof {
            assert(spec_placeholder_pass(refv, refv.len() as int, schema_pairs_view(out@))
                == schema_pairs_view(out@));
        }
        out
    }

    /// Enters the well-known response envelope schemas into the
    /// registry, per `spec_add_commons`: the generic, plain and open
    /// response objects with status, code, message and data members, and
    /// the error object without data.
    pub fn add_common_schemas(&self, schemas: &mut Vec<(String, Schema)>)
        ensures
            schema_pairs_view(final(schemas)@) == spec_add_commons(
                schema_pairs_view(old(schemas)@),
            ),
            spec_has_key(schema_pairs_view(final(schemas)@), "response.ApiResponse"@),
            spec_has_key(schema_pairs_view(final(schemas)@), "response.Response"@),
            spec_has_key(schema_pairs_view(final(schemas)@), "response.OpenApiResponse"@),
            spec_has_key(schema_pairs_view(final(schemas)@), "response.OpenApiErrorNonSnap"@),
    {
        let with_data = envelope_schema(true);
        let with_data2 = envelope_schema(true);
        let with_data3 = envelope_schema(true);
        let without_data = envelope_schema(false);
        reg_set(schemas, "response.ApiResponse".to_owned(), with_data);
        reg_set(schemas, "response.Response".to_owned(), with_data2);
        reg_set(schemas, "response.OpenApiResponse".to_owned(), with_data3);
        reg_set(schemas, "response.OpenApiErrorNonSnap".to_owned(), without_data);
        proof {
            let s0 = schema_pairs_view(old(schemas)@);
            let s1 = spec_assoc_set(s0, "response.ApiResponse"@, spec_envelope(true));
            let s2 = spec_assoc_set(s1, "response.Response"@, spec_envelope(true));
            let s3 = spec_assoc_set(s2, "response.OpenApiResponse"@, spec_envelope(true));
            let s4 = spec_assoc_set(s3, "response.OpenApiErrorNonSnap"@, spec_envelope(false));
            lemma_assoc_set_keys(s0, "response.ApiResponse"@, spec_envelope(true), "response.ApiResponse"@);
            lemma_assoc_set_keys(s1, "response.Response"@, spec_envelope(true), "response.ApiResponse"@);
            lemma_assoc_set_keys(s2, "response.OpenApiResponse"@, spec_envelope(true), "response.ApiResponse"@);
            lemma_assoc_set_keys(s3, "response.OpenApiErrorNonSnap"@, spec_envelope(false), "response.ApiResponse"@);
            lemma_assoc_set_keys(s1, "response.Response"@, spec_envelope(true), "response.Response"@);
            lemma_assoc_set_keys(s2, "response.OpenApiResponse"@, spec_envelope(true), "response.Response"@);
            lemma_assoc_set_keys(s3, "response.OpenApiErrorNonSnap"@, spec_envelope(false), "response.Response"@);
            lemma_assoc_set_keys(s2, "response.OpenApiResponse"@, spec_envelope(true), "response.OpenApiResponse"@);
            lemma_assoc_set_keys(s3, "response.OpenApiErrorNonSnap"@, spec_envelope(false), "response.OpenApiResponse"@);
            lemma_assoc_set_keys(s3, "response.OpenApiErrorNonSnap"@, spec_envelope(false), "response.OpenApiErrorNonSnap"@);
        }
    }
}

/// Whether the registry has an entry keyed `k`.
fn reg_has(reg: &Vec<(String, Schema)>, k: &str) -> (r: bool)
    ensures
        r == spec_has_key(schema_pairs_view(reg@), k@),
{
    proof {
        crate::assoc::lemma_key_idx(schema_pairs_view(reg@), k@);
        crate::models::lemma_schema_pairs_view_len(reg@);
    }
    let mut i: usize = 0;
    while i < reg.len()
        invariant
            i <= reg@.len(),
            schema_pairs_view(reg@).len() == reg@.len(),
            forall|j: int|
                0 <= j < reg@.len() ==> #[trigger] schema_pairs_view(reg@)[j] == (
                reg@[j].0@,
                schema_view(reg@[j].1),
                ),
            forall|j: int| 0 <= j < i ==> (#[trigger] schema_pairs_view(reg@)[j]).0 != k@,
        decreases reg@.len() - i,
    {
        if str_eq(reg[i].0.as_str(), k) {
            proof {
                crate::assoc::lemma_key_idx(schema_pairs_view(reg@), k@);
                let s = spec_key_idx(schema_pairs_view(reg@), k@);
                if s >= schema_pairs_view(reg@).len() {
                    assert(schema_pairs_view(reg@)[i as int].0 != k@);
                }
            }
            return true;
        }
        i += 1;
    }
    proof {
        crate::assoc::lemma_key_idx(schema_pairs_view(reg@), k@);
        let s = spec_key_idx(schema_pairs_view(reg@), k@);
        if s < reg@.len() {
            assert(schema_pairs_view(reg@)[s].0 == k@);
        }
    }
    false
}

/// The envelope schema of the well-known response types: status, code
/// and message strings, and, when asked, a data object.
pub open spec fn spec_envelope(with_data: bool) -> SchemaView {
    SchemaView {
        type_: Some("object"@),
        properties: if with_data {
            seq![
                ("Status"@, spec_type_schema("string"@)),
                ("Code"@, spec_type_schema("string"@)),
                ("Message"@, spec_type_schema("string"@)),
                ("Data"@, spec_type_schema("object"@)),
            ]
        } else {
            seq![
                ("Status"@, spec_type_schema("string"@)),
                ("Code"@, spec_type_schema("string"@)),
                ("Message"@, spec_type_schema("string"@)),
            ]
        },
        ..spec_empty_schema()
    }
}

fn envelope_schema(with_data: bool) -> (r: Schema)
    ensures
        r@ == spec_envelope(with_data),
{
    let mut props: Vec<(String, Schema)> = Vec::new();
    props.push(("Status".to_owned(), Schema::of_type("string".to_owned())));
    props.push(("Code".to_owned(), Schema::of_type("string".to_owned())));
    props.push(("Message".to_owned(), Schema::of_type("string".to_owned())));
    if with_data {
        props.push(("Data".to_owned(), Schema::of_type("object".to_owned())));
    }
    proof {
        crate::models::lemma_schema_pairs_view_len(props@);
        assert(schema_pairs_view(props@) =~= spec_envelope(with_data).properties);
    }
    let mut s = Schema::default();
    s.type_ = Some("object".to_owned());
    s.properties = props;
    s
}

/// The import aliases of a file's lines: the aliases of its import
/// bindings, in order.
fn collect_aliases(lines: &Vec<String>) -> (r: Vec<String>)
    ensures
        seq_view(r@) == crate::resolve::spec_aliases_of(
            crate::resolve::spec_imports_scan(seq_view(lines@), 0, false, Seq::empty()),
        ),
{
    let imports = crate::resolve::extract_imports_lines(lines);
    let ghost iv = seq_view(imports@);
    let mut r: Vec<String> = Vec::new();
    let mut i: usize = 0;
    proof {
        assert(seq_view(r@) =~= Seq::<Seq<char>>::empty());
    }
    while i < imports.len()
        invariant
            i <= imports@.len(),
            iv == seq_view(imports@),
            iv.len() == imports@.len(),
            seq_view(r@) == crate::resolve::spec_aliases_of(iv.take(i as int)),
        decreases imports@.len() - i,
    {
        let ghost before = seq_view(r@);
        r.push(imports[i].alias.clone());
        proof {
            crate::models::lemma_seq_view_push(r@.drop_last(), r@.last());
            assert(iv[i as int] == imports@[i as int]@);
            assert(seq_view(r@) =~= before.push(iv[i as int].alias));
            assert(crate::resolve::spec_aliases_of(iv.take(i + 1 as int))
                =~= crate::resolve::spec_aliases_of(iv.take(i as int)).push(iv[i as int].alias));
        }
        i += 1;
    }
    proof {
        assert(iv.take(iv.len() as int) =~= iv);
    }
    r
}

/// Scans a file's lines for struct declarations and folds each struct's
/// object schema into the registry, per `spec_structs_scan`: under every
/// alias-qualified name and then under its bare name.
fn scan_structs_into(lines: &Vec<String>, aliases: &Vec<String>, out: &mut Vec<(String, Schema)>)
    ensures
        schema_pairs_view(final(out)@) == spec_structs_scan(
            seq_view(lines@),
            seq_view(aliases@),
            0,
            schema_pairs_view(old(out)@),
        ),
{
    let ghost lv = seq_view(lines@);
    let ghost av = seq_view(aliases@);
    let ghost acc0 = schema_pairs_view(out@);
    let mut li: usize = 0;
    while li < lines.len()
        invariant
            li <= lines.len() + 1,
            lv == seq_view(lines@),
            lv.len() == lines@.len(),
            av == seq_view(aliases@),
            av.len() == aliases@.len(),
            spec_structs_scan(lv, av, li as int, schema_pairs_view(out@)) == spec_structs_scan(
                lv,
                av,
                0,
                acc0,
            ),
        decreases lines@.len() + 1 - li,
    {
        let lv_line = to_chars(lines[li].as_str());
        proof {
            assert(lv[li as int] == lines@[li as int]@);
        }
        match parse_struct_decl(&lv_line) {
            Some(name) => {
                let ghost endv = spec_block_end(lv, li + 1 as int);
                proof {
                    lemma_block_end(lv, li + 1 as int);
                }
                let mut fields: Vec<(String, String)> = Vec::new();
                proof {
                    assert(pairs_view(fields@) =~= Seq::<(Seq<char>, Seq<char>)>::empty());
                }
                let mut j = li + 1;
                loop
                    invariant
                        li < j <= lines.len(),
                        lv == seq_view(lines@),
                        lv.len() == lines@.len(),
                        endv == spec_block_end(lv, li + 1 as int),
                        spec_block_end(lv, li + 1 as int) == spec_block_end(lv, j as int),
                        pairs_view(fields@) + spec_fields_in(lv, j as int, endv) == spec_fields_in(
                            lv,
                            li + 1 as int,
                            endv,
                        ),
                    ensures
                        li < j <= lines.len(),
                        endv == j as int,
                        pairs_view(fields@) == spec_fields_in(lv, li + 1 as int, endv),
                    decreases lines@.len() + 1 - j,
                {
                    if j >= lines.len() {
                        proof {
                            assert(pairs_view(fields@) + spec_fields_in(lv, j as int, endv)
                                =~= pairs_view(fields@));
                        }
                        break ;
                    }
                    let bv = to_chars(lines[j].as_str());
                    proof {
                        assert(lv[j as int] == lines@[j as int]@);
                    }
                    if is_block_close(&bv) {
                        proof {
                            assert(pairs_view(fields@) + spec_fields_in(lv, j as int, endv)
                                =~= pairs_view(fields@));
                        }
                        break ;
                    }
                    proof {
                        assert(spec_block_end(lv, j as int) == spec_block_end(lv, j + 1 as int));
                        lemma_block_end(lv, j + 1 as int);
                        assert((j as int) < endv);
                    }
                    let ghost fields_before = pairs_view(fields@);
                    match parse_schema_field(&bv) {
                        Some((fname, ftype)) => {
                            fields.push((fname, ftype));
                            proof {
                                crate::models::lemma_pairs_view_push(
                                    fields@.drop_last(),
                                    fields@.last(),
                                );
                                let nf = (lv[j as int], spec_schema_field(lv[j as int])->0);
                                assert(pairs_view(fields@) =~= fields_before.push(
                                    spec_schema_field(lv[j as int])->0,
                                ));
                                assert(pairs_view(fields@) + spec_fields_in(lv, j + 1 as int, endv)
                                    =~= fields_before + (seq![spec_schema_field(lv[j as int])->0]
                                    + spec_fields_in(lv, j + 1 as int, endv)));
                            }
                        },
                        None => {},
                    }
                    j += 1;
                }
                let sch = struct_schema(&fields);
                let ghost schv = sch@;
                let ghost acc_at = schema_pairs_view(out@);
                let mut ai: usize = 0;
                while ai < aliases.len()
                    invariant
                        ai <= aliases@.len(),
                        av == seq_view(aliases@),
                        av.len() == aliases@.len(),
                        sch@ == schv,
                        spec_qualified_sets(
                            schema_pairs_view(out@),
                            av,
                            ai as int,
                            name@,
                            schv,
                        ) == spec_qualified_sets(acc_at, av, 0, name@, schv),
                    decreases aliases@.len() - ai,
                {
                    let qualified = crate::chars::str_concat3(
                        aliases[ai].as_str(),
                        ".",
                        name.as_str(),
                    );
                    let qsch = sch.dup();
                    proof {
                        assert(av[ai as int] == aliases@[ai as int]@);
                        assert(qualified@ == av[ai as int] + "."@ + name@);
                    }
                    reg_set(out, qualified, qsch);
                    ai += 1;
                }
                let ghost before_bare = schema_pairs_view(out@);
                reg_set(out, name, sch);
                proof {
                    assert(schema_pairs_view(out@) == spec_assoc_set(before_bare, name@, schv));
                    assert(before_bare == spec_qualified_sets(acc_at, av, 0, name@, schv));
                    assert(spec_structs_scan(lv, av, li as int, acc_at) == spec_structs_scan(
                        lv,
                        av,
                        if endv < lv.len() { endv + 1 } else { lv.len() as int },
                        schema_pairs_view(out@),
                    ));
                }
                if j < lines.len() {
                    li = j + 1;
                } else {
                    li = lines.len();
                }
            },
            None => {
                li += 1;
            },
        }
    }
    proof {
        assert(spec_structs_scan(lv, av, lv.len() as int, schema_pairs_view(out@))
            == schema_pairs_view(out@));
    }
}

} // verus!

verus! {

/// Whether the annotation run holds a router annotation.
pub open spec fn spec_has_router(anns: Seq<crate::annotation::AnnotationView>) -> bool {
    exists|i: int|
        0 <= i < anns.len() && ((#[trigger] anns[i]).annotation_type
            is Router || anns[i].annotation_type is DeprecatedRouter)
}

fn has_router(anns: &Vec<crate::annotation::Annotation>) -> (r: bool)
    ensures
        r == spec_has_router(seq_view(anns@)),
{
    let mut i: usize = 0;
    while i < anns.len()
        invariant
            i <= anns@.len(),
            seq_view(anns@).len() == anns@.len(),
            forall|j: int|
                0 <= j < i ==> !((#[trigger] seq_view(anns@)[j]).annotation_type
                    is Router || seq_view(anns@)[j].annotation_type is DeprecatedRouter),
        decreases anns@.len() - i,
    {
        proof {
            assert(seq_view(anns@)[i as int] == anns@[i as int]@);
        }
        let is_router = match &anns[i].annotation_type {
            crate::annotation::AnnotationType::Router => true,
            crate::annotation::AnnotationType::DeprecatedRouter => true,
            _ => false,
        };
        if is_router {
            return true;
        }
        i += 1;
    }
    false
}

/// Appending an operation extends the seed fold by its references.
proof fn lemma_ops_seeds_push_rec(
    ops: Seq<crate::models::ParsedOperationView>,
    p: crate::models::ParsedOperationView,
    i: int,
    acc: Seq<Seq<char>>,
)
    requires
        0 <= i <= ops.len(),
    ensures
        spec_ops_seeds(ops.push(p), i, acc) == spec_collect_op_refs(p, spec_ops_seeds(ops, i, acc)),
    decreases ops.len() - i,
{
    if i < ops.len() {
        assert(ops.push(p)[i] == ops[i]);
        lemma_ops_seeds_push_rec(ops, p, i + 1, spec_collect_op_refs(ops[i], acc));
    } else {
        assert(ops.push(p)[i] == p);
        assert(spec_ops_seeds(ops, i, acc) == acc);
        assert(spec_ops_seeds(ops.push(p), i + 1, spec_collect_op_refs(p, acc))
            == spec_collect_op_refs(p, acc));
    }
}

impl GoParser {
    /// Reads the operations of the given file texts and resolves their
    /// schema registry.
    ///
    /// Annotation runs accumulate line by line; a `func` declaration
    /// line closes the run, and a run holding a router annotation
    /// becomes one operation through the operation builder (a malformed
    /// run is skipped) — exactly `spec_ops_files` with the extracted
    /// struct examples.  The registry is the resolver's output for the
    /// operations' reference names (`spec_resolver_seeds`), with the
    /// well-known response envelopes entered on top.
    pub fn parse_operations(&self, files: &Vec<String>) -> (r: Result<
        (Vec<ParsedOperation>, Vec<(String, Schema)>),
        crate::errors::ParserError,
    >)
        ensures
            r matches Ok(pair) && {
                let filv = seq_view(files@);
                let ex = spec_examples_files(filv, 0, Seq::empty());
                let scanned = spec_ops_files(filv, 0, Seq::empty(), ex);
                &&& seq_view(pair.0@) == scanned
                &&& schema_pairs_view(pair.1@) == spec_add_commons(
                    spec_placeholder_pass(
                        spec_resolver_seeds(scanned),
                        0,
                        spec_schemas_files(filv, 0, spec_add_commons(Seq::empty())),
                    ),
                )
            },
    {
        let ghost filv = seq_view(files@);
        let struct_examples = self.extract_struct_examples_with_imports(files);
        let ghost exm_v = crate::opbuild::ex_view(struct_examples@);
        let mut operations: Vec<ParsedOperation> = Vec::new();
        let mut referenced: Vec<String> = Vec::new();
        proof {
            assert(seq_view(operations@) =~= Seq::<crate::models::ParsedOperationView>::empty());
            assert(seq_view(referenced@) =~= Seq::<Seq<char>>::empty());
        }
        let mut fi: usize = 0;
        while fi < files.len()
            invariant
                fi <= files@.len(),
                filv == seq_view(files@),
                filv.len() == files@.len(),
                exm_v == crate::opbuild::ex_view(struct_examples@),
                exm_v == spec_examples_files(filv, 0, Seq::empty()),
                spec_ops_files(filv, fi as int, seq_view(operations@), exm_v) == spec_ops_files(
                    filv,
                    0,
                    Seq::empty(),
                    exm_v,
                ),
                seq_view(referenced@) == spec_ops_seeds(seq_view(operations@), 0, Seq::empty()),
            decreases files@.len() - fi,
        {
            proof {
                assert(filv[fi as int] == files@[fi as int]@);
            }
            let lines = lines_of(files[fi].as_str());
            let ghost lv = seq_view(lines@);
            let ghost ops0 = seq_view(operations@);
            let mut current: Vec<crate::annotation::Annotation> = Vec::new();
            proof {
                assert(seq_view(current@) =~= Seq::<crate::annotation::AnnotationView>::empty());
            }
            let mut li: usize = 0;
            while li < lines.len()
                invariant
                    li <= lines@.len(),
                    lv == seq_view(lines@),
                    lv.len() == lines@.len(),
                    exm_v == crate::opbuild::ex_view(struct_examples@),
                    spec_ops_lines(lv, li as int, seq_view(current@), seq_view(operations@), exm_v)
                        == spec_ops_lines(lv, 0, Seq::empty(), ops0, exm_v),
                    seq_view(referenced@) == spec_ops_seeds(
                        seq_view(operations@),
                        0,
                        Seq::empty(),
                    ),
                decreases lines@.len() - li,
            {
                let lvl = to_chars(lines[li].as_str());
                proof {
                    assert(lv[li as int] == lines@[li as int]@);
                }
                match crate::annotation::parse_annotation_line(&lvl) {
                    Some(a) => {
                        let ghost cb = seq_view(current@);
                        current.push(a);
                        proof {
                            crate::models::lemma_seq_view_push(current@.drop_last(), current@.last());
                            assert(seq_view(current@) =~= cb.push(current@.last()@));
                        }
                    },
                    None => {
                        let t = trim_chars(&lvl);
                        proof {
                            reveal_strlit("func ");
                        }
                        if match_at(&t, "func ", 0) && current.len() > 0 {
                            if has_router(&current) {
                                match self.parse_operation_with_examples(
                                    &current,
                                    &struct_examples,
                                ) {
                                    Ok(op) => {
                                        collect_op_refs(&op, &mut referenced);
                                        let ghost opsb = seq_view(operations@);
                                        operations.push(op);
                                        proof {
                                            crate::models::lemma_seq_view_push(
                                                operations@.drop_last(),
                                                operations@.last(),
                                            );
                                            assert(seq_view(operations@) =~= opsb.push(
                                                operations@.last()@,
                                            ));
                                            lemma_ops_seeds_push_rec(
                                                opsb,
                                                operations@.last()@,
                                                0,
                                                Seq::empty(),
                                            );
                                        }
                                    },
                                    Err(_) => {},
                                }
                            }
                            current = Vec::new();
                            proof {
                                assert(seq_view(current@) =~= Seq::<
                                    crate::annotation::AnnotationView,
                                >::empty());
                            }
                        }
                    },
                }
                li += 1;
            }
            proof {
                assert(spec_ops_lines(
                    lv,
                    lv.len() as int,
                    seq_view(current@),
                    seq_view(operations@),
                    exm_v,
                ).1 == seq_view(operations@));
                assert(spec_ops_files(filv, fi + 1 as int, seq_view(operations@), exm_v)
                    == spec_ops_files(filv, fi as int, ops0, exm_v));
            }
            fi += 1;
        }
        let ghost scanned = seq_view(operations@);
        let ghost base = seq_view(referenced@);
        let orig_len = referenced.len();
        let mut k: usize = 0;
        while k < orig_len
            invariant
                k <= orig_len,
                orig_len == base.len(),
                seq_view(referenced@).len() >= base.len(),
                seq_view(referenced@).take(orig_len as int) == base,
                spec_generics_pass(base, k as int, seq_view(referenced@)) == spec_generics_pass(
                    base,
                    0,
                    base,
                ),
            decreases orig_len - k,
        {
            proof {
                assert(base[k as int] == seq_view(referenced@).take(orig_len as int)[k as int]);
                assert(base[k as int] == referenced@[k as int]@);
            }
            let m = referenced[k].clone();
            let mc = to_chars(m.as_str());
            let ghost accb = seq_view(referenced@);
            if find_char(&mc, '{', 0).is_some() && find_char(&mc, '}', 0).is_some() && find_char(
                &mc,
                '=',
                0,
            ).is_some() {
                let parts = split_char(&mc, '=');
                proof {
                    if parts@.len() >= 2 {
                        assert(seq_view(parts@)[1] == parts@[1]@);
                    }
                }
                if parts.len() >= 2 {
                    let p1 = to_chars(parts[1].as_str());
                    let trimmed = trim_chars(&p1);
                    let inner = strip_trailing(&trimmed, '}');
                    name_insert(&mut referenced, chars_to_string(&inner));
                }
            }
            proof {
                assert(seq_view(referenced@) == spec_generic_seed(accb, base[k as int]));
                assert(seq_view(referenced@).take(orig_len as int) =~= base);
            }
            k += 1;
        }
        proof {
            assert(spec_generics_pass(base, base.len() as int, seq_view(referenced@))
                == seq_view(referenced@));
        }
        name_insert(&mut referenced, "response.ApiResponse".to_owned());
        name_insert(&mut referenced, "response.Response".to_owned());
        name_insert(&mut referenced, "response.OpenApiResponse".to_owned());
        name_insert(&mut referenced, "response.OpenApiErrorNonSnap".to_owned());
        proof {
            assert(seq_view(referenced@) == spec_resolver_seeds(scanned));
        }
        let schemas = self.extract_referenced_schemas(files, &referenced);
        let mut with_commons = schemas;
        self.add_common_schemas(&mut with_commons);
        Ok((operations, with_commons))
    }
}

/// Adds the names an operation's schemas reference, per
/// `spec_collect_op_refs`.
fn collect_op_refs(op: &ParsedOperation, referenced: &mut Vec<String>)
    ensures
        seq_view(final(referenced)@) == spec_collect_op_refs(op@, seq_view(old(referenced)@)),
{
    let ghost acc0 = seq_view(referenced@);
    let ghost params_v = seq_view(op.operation.parameters@);
    let mut i: usize = 0;
    while i < op.operation.parameters.len()
        invariant
            i <= op.operation.parameters@.len(),
            params_v == seq_view(op.operation.parameters@),
            params_v.len() == op.operation.parameters@.len(),
            spec_collect_params_refs(params_v, i as int, seq_view(referenced@))
                == spec_collect_params_refs(params_v, 0, acc0),
        decreases op.operation.parameters@.len() - i,
    {
        proof {
            assert(params_v[i as int] == op.operation.parameters@[i as int]@);
        }
        match &op.operation.parameters[i].schema {
            Some(s) => {
                collect_schema_refs(s, referenced);
            },
            None => {},
        }
        i += 1;
    }
    let ghost acc1 = seq_view(referenced@);
    proof {
        assert(acc1 == spec_collect_params_refs(params_v, 0, acc0));
    }
    match &op.operation.requestBody {
        Some(rb) => {
            let ghost cv = pairs_view(rb.content@);
            let mut j: usize = 0;
            while j < rb.content.len()
                invariant
                    j <= rb.content@.len(),
                    cv == pairs_view(rb.content@),
                    cv.len() == rb.content@.len(),
                    spec_collect_content_refs(cv, j as int, seq_view(referenced@))
                        == spec_collect_content_refs(cv, 0, acc1),
                decreases rb.content@.len() - j,
            {
                proof {
                    assert(cv[j as int] == (rb.content@[j as int].0@, rb.content@[j as int].1@));
                }
                match &rb.content[j].1.schema {
                    Some(s) => {
                        collect_schema_refs(s, referenced);
                    },
                    None => {},
                }
                j += 1;
            }
        },
        None => {},
    }
    let ghost acc2 = seq_view(referenced@);
    let ghost resp_v = seq_view(op.operation.responses@);
    let mut k: usize = 0;
    while k < op.operation.responses.len()
        invariant
            k <= op.operation.responses@.len(),
            resp_v == seq_view(op.operation.responses@),
            resp_v.len() == op.operation.responses@.len(),
            spec_collect_responses_refs(resp_v, k as int, seq_view(referenced@))
                == spec_collect_responses_refs(resp_v, 0, acc2),
        decreases op.operation.responses@.len() - k,
    {
        proof {
            assert(resp_v[k as int] == op.operation.responses@[k as int]@);
        }
        let ghost acc_r = seq_view(referenced@);
        let ghost cv = pairs_view(op.operation.responses@[k as int].content@);
        let mut j: usize = 0;
        while j < op.operation.responses[k].content.len()
            invariant
                k < op.operation.responses@.len(),
                resp_v == seq_view(op.operation.responses@),
                resp_v.len() == op.operation.responses@.len(),
                j <= op.operation.responses@[k as int].content@.len(),
                cv == pairs_view(op.operation.responses@[k as int].content@),
                cv.len() == op.operation.responses@[k as int].content@.len(),
                cv == resp_v[k as int].content,
                spec_collect_content_refs(cv, j as int, seq_view(referenced@))
                    == spec_collect_content_refs(cv, 0, acc_r),
            decreases op.operation.responses@[k as int].content@.len() - j,
        {
            proof {
                assert(cv[j as int] == (
                    op.operation.responses@[k as int].content@[j as int].0@,
                    op.operation.responses@[k as int].content@[j as int].1@,
                ));
            }
            match &op.operation.responses[k].content[j].1.schema {
                Some(s) => {
                    collect_schema_refs(s, referenced);
                },
                None => {},
            }
            j += 1;
        }
        k += 1;
    }
}

/// Adds each reference name of the node and its children to the set,
/// per `spec_collect_schema_refs`.
fn collect_schema_refs(s: &Schema, referenced: &mut Vec<String>)
    ensures
        seq_view(final(referenced)@) == spec_collect_schema_refs(s@, seq_view(old(referenced)@)),
    decreases *s,
{
    proof {
        reveal_strlit("#/components/schemas/");
    }
    match &s.ref_ {
        Some(rf) => {
            let rc = to_chars(rf.as_str());
            proof {
                assert(crate::models::schema_view(*s).ref_ == crate::models::opt_view(s.ref_));
            }
            if match_at(&rc, "#/components/schemas/", 0) {
                let name = chars_to_string(&sub_chars(&rc, 21, rc.len()));
                proof {
                    assert(rc@.subrange(21, rc@.len() as int) =~= rc@.skip(21));
                }
                name_insert(referenced, name);
            } else {
                let starts_slash = rc.len() >= 1 && rc[0] == '/';
                let starts_hash = rc.len() >= 1 && rc[0] == '#';
                if !starts_slash && !starts_hash {
                    name_insert(referenced, rf.clone());
                }
            }
        },
        None => {},
    }
    let ghost a1 = seq_view(referenced@);
    match &s.items {
        Some(b) => {
            proof {
                assert(decreases_to!(*s => *s.items->0));
            }
            collect_schema_refs(&**b, referenced);
        },
        None => {},
    }
    let ghost a2 = seq_view(referenced@);
    proof {
        crate::models::lemma_schema_pairs_view_len(s.properties@);
    }
    let ghost pv = crate::models::schema_pairs_view(s.properties@);
    let mut i: usize = 0;
    proof {
        assert(pv.skip(0) =~= pv);
    }
    while i < s.properties.len()
        invariant
            i <= s.properties@.len(),
            pv == crate::models::schema_pairs_view(s.properties@),
            pv.len() == s.properties@.len(),
            forall|j: int|
                0 <= j < s.properties@.len() ==> #[trigger] pv[j] == (
                s.properties@[j].0@,
                schema_view(s.properties@[j].1),
                ),
            spec_collect_pairs_refs(pv.skip(i as int), seq_view(referenced@))
                == spec_collect_pairs_refs(pv, a2),
        decreases s.properties@.len() - i,
    {
        proof {
            assert(decreases_to!(*s => s.properties@[i as int].1));
            assert(pv.skip(i as int)[0] == pv[i as int]);
            assert(pv.skip(i as int).drop_first() =~= pv.skip(i + 1 as int));
        }
        collect_schema_refs(&s.properties[i].1, referenced);
        i += 1;
    }
    proof {
        assert(pv.skip(pv.len() as int) =~= Seq::<(Seq<char>, SchemaView)>::empty());
    }
    let ghost a3 = seq_view(referenced@);
    match &s.allOf {
        Some(v) => {
            collect_list_refs_all(s, v, referenced);
        },
        None => {},
    }
    let ghost a4 = seq_view(referenced@);
    match &s.anyOf {
        Some(v) => {
            collect_list_refs_any(s, v, referenced);
        },
        None => {},
    }
    let ghost a5 = seq_view(referenced@);
    match &s.oneOf {
        Some(v) => {
            collect_list_refs_one(s, v, referenced);
        },
        None => {},
    }
    match &s.not {
        Some(b) => {
            proof {
                assert(decreases_to!(*s => *s.not->0));
            }
            collect_schema_refs(&**b, referenced);
        },
        None => {},
    }
}

/// Collects the names of an `allOf` list, per `spec_collect_seq_refs`.
fn collect_list_refs_all(s: &Schema, v: &Vec<Schema>, referenced: &mut Vec<String>)
    requires
        s.allOf matches Some(vv) && vv@ == v@,
    ensures
        seq_view(final(referenced)@) == spec_collect_seq_refs(
            crate::models::schema_seq_view(v@),
            seq_view(old(referenced)@),
        ),
    decreases *s, 1int,
{
    let ghost a0 = seq_view(referenced@);
    let ghost sv = crate::models::schema_seq_view(v@);
    proof {
        crate::generator::lemma_schema_seq_view_index(v@);
        assert(sv.skip(0) =~= sv);
    }
    let mut i: usize = 0;
    while i < v.len()
        invariant
            i <= v@.len(),
            sv == crate::models::schema_seq_view(v@),
            sv.len() == v@.len(),
            forall|j: int| 0 <= j < v@.len() ==> #[trigger] sv[j] == schema_view(v@[j]),
            s.allOf matches Some(vv) && vv@ == v@,
            spec_collect_seq_refs(sv.skip(i as int), seq_view(referenced@))
                == spec_collect_seq_refs(sv, a0),
        decreases v@.len() - i,
    {
        proof {
            assert(decreases_to!(*s => s.allOf->0@[i as int]));
            assert(v@[i as int] == s.allOf->0@[i as int]);
            assert(sv.skip(i as int)[0] == sv[i as int]);
            assert(sv.skip(i as int).drop_first() =~= sv.skip(i + 1 as int));
        }
        collect_schema_refs(&v[i], referenced);
        i += 1;
    }
    proof {
        assert(sv.skip(sv.len() as int) =~= Seq::<SchemaView>::empty());
    }
}

/// Collects the names of an `anyOf` list, per `spec_collect_seq_refs`.
fn collect_list_refs_any(s: &Schema, v: &Vec<Schema>, referenced: &mut Vec<String>)
    requires
        s.anyOf matches Some(vv) && vv@ == v@,
    ensures
        seq_view(final(referenced)@) == spec_collect_seq_refs(
            crate::models::schema_seq_view(v@),
            seq_view(old(referenced)@),
        ),
    decreases *s, 1int,
{
    let ghost a0 = seq_view(referenced@);
    let ghost sv = crate::models::schema_seq_view(v@);
    proof {
        crate::generator::lemma_schema_seq_view_index(v@);
        assert(sv.skip(0) =~= sv);
    }
    let mut i: usize = 0;
    while i < v.len()
        invariant
            i <= v@.len(),
            sv == crate::models::schema_seq_view(v@),
            sv.len() == v@.len(),
            forall|j: int| 0 <= j < v@.len() ==> #[trigger] sv[j] == schema_view(v@[j]),
            s.anyOf matches Some(vv) && vv@ == v@,
            spec_collect_seq_refs(sv.skip(i as int), seq_view(referenced@))
                == spec_collect_seq_refs(sv, a0),
        decreases v@.len() - i,
    {
        proof {
            assert(decreases_to!(*s => s.anyOf->0@[i as int]));
            assert(v@[i as int] == s.anyOf->0@[i as int]);
            assert(sv.skip(i as int)[0] == sv[i as int]);
            assert(sv.skip(i as int).drop_first() =~= sv.skip(i + 1 as int));
        }
        collect_schema_refs(&v[i], referenced);
        i += 1;
    }
    proof {
        assert(sv.skip(sv.len() as int) =~= Seq::<SchemaView>::empty());
    }
}

/// Collects the names of a `oneOf` list, per `spec_collect_seq_refs`.
fn collect_list_refs_one(s: &Schema, v: &Vec<Schema>, referenced: &mut Vec<String>)
    requires
        s.oneOf matches Some(vv) && vv@ == v@,
    ensures
        seq_view(final(referenced)@) == spec_collect_seq_refs(
            crate::models::schema_seq_view(v@),
            seq_view(old(referenced)@),
        ),
    decreases *s, 1int,
{
    let ghost a0 = seq_view(referenced@);
    let ghost sv = crate::models::schema_seq_view(v@);
    proof {
        crate::generator::lemma_schema_seq_view_index(v@);
        assert(sv.skip(0) =~= sv);
    }
    let mut i: usize = 0;
    while i < v.len()
        invariant
            i <= v@.len(),
            sv == crate::models::schema_seq_view(v@),
            sv.len() == v@.len(),
            forall|j: int| 0 <= j < v@.len() ==> #[trigger] sv[j] == schema_view(v@[j]),
            s.oneOf matches Some(vv) && vv@ == v@,
            spec_collect_seq_refs(sv.skip(i as int), seq_view(referenced@))
                == spec_collect_seq_refs(sv, a0),
        decreases v@.len() - i,
    {
        proof {
            assert(decreases_to!(*s => s.oneOf->0@[i as int]));
            assert(v@[i as int] == s.oneOf->0@[i as int]);
            assert(sv.skip(i as int)[0] == sv[i as int]);
            assert(sv.skip(i as int).drop_first() =~= sv.skip(i + 1 as int));
        }
        collect_schema_refs(&v[i], referenced);
        i += 1;
    }
    proof {
        assert(sv.skip(sv.len() as int) =~= Seq::<SchemaView>::empty());
    }
}

} // verus!

verus! {

/// The first line at or after `i` that closes a block, or the line count.
pub open spec fn spec_block_end(lines: Seq<Seq<char>>, i: int) -> int
    decreases lines.len() - i when 0 <= i
{
    if i >= lines.len() {
        lines.len() as int
    } else if spec_block_close(lines[i]) {
        i
    } else {
        spec_block_end(lines, i + 1)
    }
}

pub proof fn lemma_block_end(lines: Seq<Seq<char>>, i: int)
    requires
        0 <= i <= lines.len(),
    ensures
        i <= spec_block_end(lines, i) <= lines.len(),
    decreases lines.len() - i,
{
    if i < lines.len() && !spec_block_close(lines[i]) {
        lemma_block_end(lines, i + 1);
    }
}

/// The schema fields declared on the lines of `[i, to)`, in order.
pub open spec fn spec_fields_in(lines: Seq<Seq<char>>, i: int, to: int) -> Seq<
    (Seq<char>, Seq<char>),
>
    decreases to - i when 0 <= i
{
    if i >= to || i >= lines.len() {
        Seq::empty()
    } else {
        match spec_schema_field(lines[i]) {
            Some(nf) => seq![nf] + spec_fields_in(lines, i + 1, to),
            None => spec_fields_in(lines, i + 1, to),
        }
    }
}

/// The example fields declared on the lines of `[i, to)`, folded into a
/// field map, a later tag for the same field replacing an earlier one;
/// values are stored per `spec_example_value`.
pub open spec fn spec_example_fields_in(
    lines: Seq<Seq<char>>,
    i: int,
    to: int,
    acc: Seq<(Seq<char>, Seq<char>)>,
) -> Seq<(Seq<char>, Seq<char>)>
    decreases to - i when 0 <= i
{
    if i >= to || i >= lines.len() {
        acc
    } else {
        match spec_example_field(lines[i]) {
            Some((n, v)) => spec_example_fields_in(
                lines,
                i + 1,
                to,
                spec_assoc_set(acc, n, spec_example_value(v)),
            ),
            None => spec_example_fields_in(lines, i + 1, to, acc),
        }
    }
}

/// One struct's schema entered under every alias-qualified name, in
/// alias order.
pub open spec fn spec_qualified_sets(
    acc: Seq<(Seq<char>, SchemaView)>,
    aliases: Seq<Seq<char>>,
    k: int,
    nm: Seq<char>,
    sch: SchemaView,
) -> Seq<(Seq<char>, SchemaView)>
    decreases aliases.len() - k when 0 <= k
{
    if k >= aliases.len() {
        acc
    } else {
        spec_qualified_sets(
            spec_assoc_set(acc, aliases[k] + "."@ + nm, sch),
            aliases,
            k + 1,
            nm,
            sch,
        )
    }
}

/// One file's struct declarations folded into the registry: each struct
/// becomes `spec_struct_schema` of the fields of its body (up to the
/// closing brace), entered under every alias-qualified name and then
/// under its bare name, a later declaration replacing an earlier one;
/// the scan resumes after the closing brace.
pub open spec fn spec_structs_scan(
    lines: Seq<Seq<char>>,
    aliases: Seq<Seq<char>>,
    i: int,
    acc: Seq<(Seq<char>, SchemaView)>,
) -> Seq<(Seq<char>, SchemaView)>
    decreases lines.len() - i when 0 <= i via spec_structs_scan_decreases
{
    if i >= lines.len() {
        acc
    } else {
        match spec_struct_decl(lines[i]) {
            Some(nm) => {
                let end = spec_block_end(lines, i + 1);
                let fields = spec_fields_in(lines, i + 1, end);
                let sch = spec_struct_schema(fields);
                let acc2 = spec_assoc_set(spec_qualified_sets(acc, aliases, 0, nm, sch), nm, sch);
                let next = if end < lines.len() {
                    end + 1
                } else {
                    lines.len() as int
                };
                spec_structs_scan(lines, aliases, next, acc2)
            },
            None => spec_structs_scan(lines, aliases, i + 1, acc),
        }
    }
}

#[via_fn]
proof fn spec_structs_scan_decreases(
    lines: Seq<Seq<char>>,
    aliases: Seq<Seq<char>>,
    i: int,
    acc: Seq<(Seq<char>, SchemaView)>,
) {
    if 0 <= i < lines.len() {
        lemma_block_end(lines, i + 1);
    }
}

/// One file's struct examples folded into the examples map: each struct
/// whose body holds example fields is entered under its bare name, a
/// later struct replacing an earlier one.
pub open spec fn spec_examples_scan(
    lines: Seq<Seq<char>>,
    i: int,
    acc: Seq<(Seq<char>, Seq<(Seq<char>, Seq<char>)>)>,
) -> Seq<(Seq<char>, Seq<(Seq<char>, Seq<char>)>)>
    decreases lines.len() - i when 0 <= i via spec_examples_scan_decreases
{
    if i >= lines.len() {
        acc
    } else {
        match spec_struct_decl(lines[i]) {
            Some(nm) => {
                let end = spec_block_end(lines, i + 1);
                let fields = spec_example_fields_in(lines, i + 1, end, Seq::empty());
                let acc2 = if fields.len() > 0 {
                    spec_assoc_set(acc, nm, fields)
                } else {
                    acc
                };
                let next = if end < lines.len() {
                    end + 1
                } else {
                    lines.len() as int
                };
                spec_examples_scan(lines, next, acc2)
            },
            None => spec_examples_scan(lines, i + 1, acc),
        }
    }
}

#[via_fn]
proof fn spec_examples_scan_decreases(
    lines: Seq<Seq<char>>,
    i: int,
    acc: Seq<(Seq<char>, Seq<(Seq<char>, Seq<char>)>)>,
) {
    if 0 <= i < lines.len() {
        lemma_block_end(lines, i + 1);
    }
}

/// Every file's structs folded into the registry, each file qualified by
/// its own import aliases.
pub open spec fn spec_schemas_files(
    files: Seq<Seq<char>>,
    i: int,
    acc: Seq<(Seq<char>, SchemaView)>,
) -> Seq<(Seq<char>, SchemaView)>
    decreases files.len() - i when 0 <= i
{
    if i >= files.len() {
        acc
    } else {
        let lines = spec_lines(files[i]);
        let aliases = crate::resolve::spec_aliases_of(
            crate::resolve::spec_imports_scan(lines, 0, false, Seq::empty()),
        );
        spec_schemas_files(files, i + 1, spec_structs_scan(lines, aliases, 0, acc))
    }
}

/// Every file's struct examples folded into the examples map.
pub open spec fn spec_examples_files(
    files: Seq<Seq<char>>,
    i: int,
    acc: Seq<(Seq<char>, Seq<(Seq<char>, Seq<char>)>)>,
) -> Seq<(Seq<char>, Seq<(Seq<char>, Seq<char>)>)>
    decreases files.len() - i when 0 <= i
{
    if i >= files.len() {
        acc
    } else {
        spec_examples_files(files, i + 1, spec_examples_scan(spec_lines(files[i]), 0, acc))
    }
}

/// Every referenced name missing from the registry receives the
/// placeholder empty-object schema, in seed order.
pub open spec fn spec_placeholder_pass(
    referenced: Seq<Seq<char>>,
    i: int,
    m: Seq<(Seq<char>, SchemaView)>,
) -> Seq<(Seq<char>, SchemaView)>
    decreases referenced.len() - i when 0 <= i
{
    if i >= referenced.len() {
        m
    } else {
        let m2 = if spec_has_key(m, referenced[i]) {
            m
        } else {
            spec_assoc_set(m, referenced[i], spec_type_schema("object"@))
        };
        spec_placeholder_pass(referenced, i + 1, m2)
    }
}

/// The well-known response envelopes entered into a registry.
pub open spec fn spec_add_commons(m: Seq<(Seq<char>, SchemaView)>) -> Seq<(Seq<char>, SchemaView)> {
    spec_assoc_set(
        spec_assoc_set(
            spec_assoc_set(
                spec_assoc_set(m, "response.ApiResponse"@, spec_envelope(true)),
                "response.Response"@,
                spec_envelope(true),
            ),
            "response.OpenApiResponse"@,
            spec_envelope(true),
        ),
        "response.OpenApiErrorNonSnap"@,
        spec_envelope(false),
    )
}

} // verus!

verus! {

/// The name one reference contributes: the name under the canonical
/// prefix, or a bare reference (no leading `/` or `#`) as itself.
pub open spec fn spec_ref_seed(acc: Seq<Seq<char>>, r: Seq<char>) -> Seq<Seq<char>> {
    if spec_match_at(r, "#/components/schemas/"@, 0) {
        spec_name_insert(acc, r.skip("#/components/schemas/"@.len() as int))
    } else if !(r.len() >= 1 && (r[0] == '/' || r[0] == '#')) {
        spec_name_insert(acc, r)
    } else {
        acc
    }
}

/// Every canonical or bare reference name of the node and its children,
/// folded into the set in traversal order.
pub open spec fn spec_collect_schema_refs(s: SchemaView, acc: Seq<Seq<char>>) -> Seq<Seq<char>>
    decreases s,
{
    let a1 = match s.ref_ {
        Some(r) => spec_ref_seed(acc, r),
        None => acc,
    };
    let a2 = match s.items {
        Some(b) => spec_collect_schema_refs(*b, a1),
        None => a1,
    };
    let a3 = spec_collect_pairs_refs(s.properties, a2);
    let a4 = match s.allOf {
        Some(v) => spec_collect_seq_refs(v, a3),
        None => a3,
    };
    let a5 = match s.anyOf {
        Some(v) => spec_collect_seq_refs(v, a4),
        None => a4,
    };
    let a6 = match s.oneOf {
        Some(v) => spec_collect_seq_refs(v, a5),
        None => a5,
    };
    match s.not {
        Some(b) => spec_collect_schema_refs(*b, a6),
        None => a6,
    }
}

pub open spec fn spec_collect_pairs_refs(
    ps: Seq<(Seq<char>, SchemaView)>,
    acc: Seq<Seq<char>>,
) -> Seq<Seq<char>>
    decreases ps,
{
    if ps.len() == 0 {
        acc
    } else {
        spec_collect_pairs_refs(ps.drop_first(), spec_collect_schema_refs(ps[0].1, acc))
    }
}

pub open spec fn spec_collect_seq_refs(ss: Seq<SchemaView>, acc: Seq<Seq<char>>) -> Seq<Seq<char>>
    decreases ss,
{
    if ss.len() == 0 {
        acc
    } else {
        spec_collect_seq_refs(ss.drop_first(), spec_collect_schema_refs(ss[0], acc))
    }
}

/// The names of an optional schema.
pub open spec fn spec_collect_opt_refs(o: Option<SchemaView>, acc: Seq<Seq<char>>) -> Seq<
    Seq<char>,
> {
    match o {
        Some(s) => spec_collect_schema_refs(s, acc),
        None => acc,
    }
}

/// The names of a parameter list's schemas, in order.
pub open spec fn spec_collect_params_refs(
    ps: Seq<ParameterView>,
    i: int,
    acc: Seq<Seq<char>>,
) -> Seq<Seq<char>>
    decreases ps.len() - i when 0 <= i
{
    if i >= ps.len() {
        acc
    } else {
        spec_collect_params_refs(ps, i + 1, spec_collect_opt_refs(ps[i].schema, acc))
    }
}

/// The names of a content list's schemas, in order.
pub open spec fn spec_collect_content_refs(
    c: Seq<(Seq<char>, MediaTypeView)>,
    i: int,
    acc: Seq<Seq<char>>,
) -> Seq<Seq<char>>
    decreases c.len() - i when 0 <= i
{
    if i >= c.len() {
        acc
    } else {
        spec_collect_content_refs(c, i + 1, spec_collect_opt_refs(c[i].1.schema, acc))
    }
}

pub open spec fn spec_collect_responses_refs(
    rs: Seq<ResponseView>,
    i: int,
    acc: Seq<Seq<char>>,
) -> Seq<Seq<char>>
    decreases rs.len() - i when 0 <= i
{
    if i >= rs.len() {
        acc
    } else {
        spec_collect_responses_refs(rs, i + 1, spec_collect_content_refs(rs[i].content, 0, acc))
    }
}

/// The names an operation's schemas reference: its parameters, its
/// request body content, and its responses' content, in that order.
pub open spec fn spec_collect_op_refs(
    op: crate::models::ParsedOperationView,
    acc: Seq<Seq<char>>,
) -> Seq<Seq<char>> {
    let a1 = spec_collect_params_refs(op.operation.parameters, 0, acc);
    let a2 = match op.operation.requestBody {
        Some(rb) => spec_collect_content_refs(rb.content, 0, a1),
        None => a1,
    };
    spec_collect_responses_refs(op.operation.responses, 0, a2)
}

/// The trailing run of `c` characters removed.
pub open spec fn spec_strip_trailing(s: Seq<char>, c: char) -> Seq<char>
    decreases s.len(),
{
    if s.len() > 0 && s.last() == c {
        spec_strip_trailing(s.drop_last(), c)
    } else {
        s
    }
}

fn strip_trailing(v: &Vec<char>, c: char) -> (r: Vec<char>)
    ensures
        r@ == spec_strip_trailing(v@, c),
{
    let mut hi = v.len();
    proof {
        assert(v@.take(v@.len() as int) =~= v@);
    }
    while hi > 0 && v[hi - 1] == c
        invariant
            hi <= v@.len(),
            spec_strip_trailing(v@, c) == spec_strip_trailing(v@.take(hi as int), c),
        decreases hi,
    {
        proof {
            assert(v@.take(hi as int).drop_last() =~= v@.take(hi - 1 as int));
        }
        hi -= 1;
    }
    let r = sub_chars(v, 0, hi);
    proof {
        if hi > 0 {
            assert(v@.take(hi as int).last() == v@[hi - 1]);
        }
        assert(spec_strip_trailing(v@.take(hi as int), c) == v@.take(hi as int));
        assert(v@.subrange(0, hi as int) =~= v@.take(hi as int));
    }
    r
}

/// One generic marker processed: a name holding braces and an equals
/// sign contributes the trimmed inner type, its trailing braces removed.
pub open spec fn spec_generic_seed(acc: Seq<Seq<char>>, m: Seq<char>) -> Seq<Seq<char>> {
    if spec_find_char(m, '{', 0) is Some && spec_find_char(m, '}', 0) is Some && spec_find_char(
        m,
        '=',
        0,
    ) is Some {
        let parts = spec_split_char(m, '=');
        if parts.len() >= 2 {
            spec_name_insert(acc, spec_strip_trailing(spec_trim(parts[1]), '}'))
        } else {
            acc
        }
    } else {
        acc
    }
}

/// The generic markers of a snapshot processed in order.
pub open spec fn spec_generics_pass(
    snapshot: Seq<Seq<char>>,
    k: int,
    acc: Seq<Seq<char>>,
) -> Seq<Seq<char>>
    decreases snapshot.len() - k when 0 <= k
{
    if k >= snapshot.len() {
        acc
    } else {
        spec_generics_pass(snapshot, k + 1, spec_generic_seed(acc, snapshot[k]))
    }
}

} // verus!

verus! {

/// What one line does to an annotation run and the operations built so
/// far: an annotation line joins the run; a `func` declaration line
/// closes a nonempty run, and a run holding a router annotation becomes
/// one operation through the builder when it succeeds.
pub open spec fn spec_ops_step(
    anns: Seq<crate::annotation::AnnotationView>,
    acc: Seq<crate::models::ParsedOperationView>,
    line: Seq<char>,
    ex: Seq<(Seq<char>, Seq<(Seq<char>, Seq<char>)>)>,
) -> (Seq<crate::annotation::AnnotationView>, Seq<crate::models::ParsedOperationView>) {
    match crate::annotation::spec_line_annotation(line) {
        Some(a) => (anns.push(a), acc),
        None => {
            let t = spec_trim(line);
            if spec_match_at(t, "func "@, 0) && anns.len() > 0 {
                let acc2 = if spec_has_router(anns) {
                    match crate::opbuild::spec_parse_operation(anns, ex) {
                        Ok(p) => acc.push(p),
                        Err(_) => acc,
                    }
                } else {
                    acc
                };
                (Seq::empty(), acc2)
            } else {
                (anns, acc)
            }
        },
    }
}

/// The lines of one file folded through `spec_ops_step`.
pub open spec fn spec_ops_lines(
    lines: Seq<Seq<char>>,
    i: int,
    anns: Seq<crate::annotation::AnnotationView>,
    acc: Seq<crate::models::ParsedOperationView>,
    ex: Seq<(Seq<char>, Seq<(Seq<char>, Seq<char>)>)>,
) -> (Seq<crate::annotation::AnnotationView>, Seq<crate::models::ParsedOperationView>)
    decreases lines.len() - i when 0 <= i
{
    if i >= lines.len() {
        (anns, acc)
    } else {
        let st = spec_ops_step(anns, acc, lines[i], ex);
        spec_ops_lines(lines, i + 1, st.0, st.1, ex)
    }
}

/// Every file's operations, in file order, each file's annotation run
/// starting afresh.
pub open spec fn spec_ops_files(
    files: Seq<Seq<char>>,
    i: int,
    acc: Seq<crate::models::ParsedOperationView>,
    ex: Seq<(Seq<char>, Seq<(Seq<char>, Seq<char>)>)>,
) -> Seq<crate::models::ParsedOperationView>
    decreases files.len() - i when 0 <= i
{
    if i >= files.len() {
        acc
    } else {
        spec_ops_files(
            files,
            i + 1,
            spec_ops_lines(spec_lines(files[i]), 0, Seq::empty(), acc, ex).1,
            ex,
        )
    }
}

/// The reference names of the operations, folded in order.
pub open spec fn spec_ops_seeds(
    ops: Seq<crate::models::ParsedOperationView>,
    i: int,
    acc: Seq<Seq<char>>,
) -> Seq<Seq<char>>
    decreases ops.len() - i when 0 <= i
{
    if i >= ops.len() {
        acc
    } else {
        spec_ops_seeds(ops, i + 1, spec_collect_op_refs(ops[i], acc))
    }
}

/// The referenced names that seed the schema resolver: the operations'
/// reference names, the inner types of generic markers among them, and
/// the well-known response envelope names.
pub open spec fn spec_resolver_seeds(ops: Seq<crate::models::ParsedOperationView>) -> Seq<
    Seq<char>,
> {
    let base = spec_ops_seeds(ops, 0, Seq::empty());
    let with_generics = spec_generics_pass(base, 0, base);
    spec_name_insert(
        spec_name_insert(
            spec_name_insert(
                spec_name_insert(with_generics, "response.ApiResponse"@),
                "response.Response"@,
            ),
            "response.OpenApiResponse"@,
        ),
        "response.OpenApiErrorNonSnap"@,
    )
}

} // verus!
