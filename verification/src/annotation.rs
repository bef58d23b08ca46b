//! The annotation classifier: recognising `@keyword[.attribute] value`
//! comment lines and classifying the keyword.

use vstd::prelude::*;

use crate::chars::{
    is_space, lower_chars, spec_back_space_run_start, spec_back_word_run_start, spec_is_space,
    spec_lower, spec_space_run_end, spec_word_dot_run_end, spec_word_run_end, sub_chars, to_chars,
    back_space_run_start, back_word_run_start, chars_to_string, eq_str, space_run_end, trim_chars,
    spec_trim, word_dot_run_end, word_run_end,
};

verus! {

/// The kind of one annotation line.  Unknown keywords are kept under
/// `Unknown`, never dropped.
#[derive(Debug, Clone, PartialEq)]
pub enum AnnotationType {
    Title,
    Version,
    Description,
    Summary,
    TermsOfService,
    Contact,
    License,
    Server,
    Host,
    BasePath,
    Accept,
    Produce,
    Schemes,
    Tag,
    SecurityDefinitions,
    SecurityScheme,
    ExternalDocs,
    Id,
    Tags,
    Router,
    DeprecatedRouter,
    Param,
    RequestBody,
    Security,
    Response,
    Header,
    Deprecated,
    Unknown(String),
}

pub ghost enum AnnotationTypeView {
    Title,
    Version,
    Description,
    Summary,
    TermsOfService,
    Contact,
    License,
    Server,
    Host,
    BasePath,
    Accept,
    Produce,
    Schemes,
    Tag,
    SecurityDefinitions,
    SecurityScheme,
    ExternalDocs,
    Id,
    Tags,
    Router,
    DeprecatedRouter,
    Param,
    RequestBody,
    Security,
    Response,
    Header,
    Deprecated,
    Unknown(Seq<char>),
}

impl View for AnnotationType {
    type V = AnnotationTypeView;

    open spec fn view(&self) -> AnnotationTypeView {
        match self {
            AnnotationType::Title => AnnotationTypeView::Title,
            AnnotationType::Version => AnnotationTypeView::Version,
            AnnotationType::Description => AnnotationTypeView::Description,
            AnnotationType::Summary => AnnotationTypeView::Summary,
            AnnotationType::TermsOfService => AnnotationTypeView::TermsOfService,
            AnnotationType::Contact => AnnotationTypeView::Contact,
            AnnotationType::License => AnnotationTypeView::License,
            AnnotationType::Server => AnnotationTypeView::Server,
            AnnotationType::Host => AnnotationTypeView::Host,
            AnnotationType::BasePath => AnnotationTypeView::BasePath,
            AnnotationType::Accept => AnnotationTypeView::Accept,
            AnnotationType::Produce => AnnotationTypeView::Produce,
            AnnotationType::Schemes => AnnotationTypeView::Schemes,
            AnnotationType::Tag => AnnotationTypeView::Tag,
            AnnotationType::SecurityDefinitions => AnnotationTypeView::SecurityDefinitions,
            AnnotationType::SecurityScheme => AnnotationTypeView::SecurityScheme,
            AnnotationType::ExternalDocs => AnnotationTypeView::ExternalDocs,
            AnnotationType::Id => AnnotationTypeView::Id,
            AnnotationType::Tags => AnnotationTypeView::Tags,
            AnnotationType::Router => AnnotationTypeView::Router,
            AnnotationType::DeprecatedRouter => AnnotationTypeView::DeprecatedRouter,
            AnnotationType::Param => AnnotationTypeView::Param,
            AnnotationType::RequestBody => AnnotationTypeView::RequestBody,
            AnnotationType::Security => AnnotationTypeView::Security,
            AnnotationType::Response => AnnotationTypeView::Response,
            AnnotationType::Header => AnnotationTypeView::Header,
            AnnotationType::Deprecated => AnnotationTypeView::Deprecated,
            AnnotationType::Unknown(s) => AnnotationTypeView::Unknown(s@),
        }
    }
}

/// Classification of a keyword, case-insensitively.  The legacy
/// `success` and `failure` keywords classify as `Response`.
pub open spec fn spec_classify(s: Seq<char>) -> AnnotationTypeView {
    let l = spec_lower(s);
    if l == "title"@ { AnnotationTypeView::Title }
    else if l == "version"@ { AnnotationTypeView::Version }
    else if l == "description"@ { AnnotationTypeView::Description }
    else if l == "summary"@ { AnnotationTypeView::Summary }
    else if l == "termsofservice"@ { AnnotationTypeView::TermsOfService }
    else if l == "contact"@ { AnnotationTypeView::Contact }
    else if l == "license"@ { AnnotationTypeView::License }
    else if l == "server"@ { AnnotationTypeView::Server }
    else if l == "host"@ { AnnotationTypeView::Host }
    else if l == "basepath"@ { AnnotationTypeView::BasePath }
    else if l == "accept"@ { AnnotationTypeView::Accept }
    else if l == "produce"@ { AnnotationTypeView::Produce }
    else if l == "schemes"@ { AnnotationTypeView::Schemes }
    else if l == "tag"@ { AnnotationTypeView::Tag }
    else if l == "securitydefinitions"@ { AnnotationTypeView::SecurityDefinitions }
    else if l == "securityscheme"@ { AnnotationTypeView::SecurityScheme }
    else if l == "externaldocs"@ { AnnotationTypeView::ExternalDocs }
    else if l == "id"@ { AnnotationTypeView::Id }
    else if l == "tags"@ { AnnotationTypeView::Tags }
    else if l == "router"@ { AnnotationTypeView::Router }
    else if l == "deprecatedrouter"@ { AnnotationTypeView::DeprecatedRouter }
    else if l == "param"@ { AnnotationTypeView::Param }
    else if l == "requestbody"@ { AnnotationTypeView::RequestBody }
    else if l == "security"@ { AnnotationTypeView::Security }
    else if l == "response"@ { AnnotationTypeView::Response }
    else if l == "success"@ { AnnotationTypeView::Response }
    else if l == "failure"@ { AnnotationTypeView::Response }
    else if l == "header"@ { AnnotationTypeView::Header }
    else if l == "deprecated"@ { AnnotationTypeView::Deprecated }
    else { AnnotationTypeView::Unknown(s) }
}

impl AnnotationType {
    /// Classifies a keyword, case-insensitively.
    pub fn from(s: &str) -> (r: AnnotationType)
        ensures
            r@ == spec_classify(s@),
    {
        let cs = to_chars(s);
        let l = lower_chars(&cs);
        if eq_str(&l, "title") { AnnotationType::Title }
        else if eq_str(&l, "version") { AnnotationType::Version }
        else if eq_str(&l, "description") { AnnotationType::Description }
        else if eq_str(&l, "summary") { AnnotationType::Summary }
        else if eq_str(&l, "termsofservice") { AnnotationType::TermsOfService }
        else if eq_str(&l, "contact") { AnnotationType::Contact }
        else if eq_str(&l, "license") { AnnotationType::License }
        else if eq_str(&l, "server") { AnnotationType::Server }
        else if eq_str(&l, "host") { AnnotationType::Host }
        else if eq_str(&l, "basepath") { AnnotationType::BasePath }
        else if eq_str(&l, "accept") { AnnotationType::Accept }
        else if eq_str(&l, "produce") { AnnotationType::Produce }
        else if eq_str(&l, "schemes") { AnnotationType::Schemes }
        else if eq_str(&l, "tag") { AnnotationType::Tag }
        else if eq_str(&l, "securitydefinitions") { AnnotationType::SecurityDefinitions }
        else if eq_str(&l, "securityscheme") { AnnotationType::SecurityScheme }
        else if eq_str(&l, "externaldocs") { AnnotationType::ExternalDocs }
        else if eq_str(&l, "id") { AnnotationType::Id }
        else if eq_str(&l, "tags") { AnnotationType::Tags }
        else if eq_str(&l, "router") { AnnotationType::Router }
        else if eq_str(&l, "deprecatedrouter") { AnnotationType::DeprecatedRouter }
        else if eq_str(&l, "param") { AnnotationType::Param }
        else if eq_str(&l, "requestbody") { AnnotationType::RequestBody }
        else if eq_str(&l, "security") { AnnotationType::Security }
        else if eq_str(&l, "response") { AnnotationType::Response }
        else if eq_str(&l, "success") { AnnotationType::Response }
        else if eq_str(&l, "failure") { AnnotationType::Response }
        else if eq_str(&l, "header") { AnnotationType::Header }
        else if eq_str(&l, "deprecated") { AnnotationType::Deprecated }
        else { AnnotationType::Unknown(s.to_owned()) }
    }
}

/// One recognised annotation line.
#[derive(Debug, Clone, PartialEq)]
pub struct Annotation {
    pub annotation_type: AnnotationType,
    pub attribute: Option<String>,
    pub value: String,
}

pub ghost struct AnnotationView {
    pub annotation_type: AnnotationTypeView,
    pub attribute: Option<Seq<char>>,
    pub value: Seq<char>,
}

impl View for Annotation {
    type V = AnnotationView;

    open spec fn view(&self) -> AnnotationView {
        AnnotationView {
            annotation_type: self.annotation_type@,
            attribute: crate::models::opt_view(self.attribute),
            value: self.value@,
        }
    }
}

/// The raw pieces of an annotation match beginning at position `i` of a
/// line: the keyword, the optional dotted attribute, and the value text.
///
/// The match asks for `//`, optional whitespace, `@`, a nonempty keyword
/// of word characters, optionally `.` followed by a nonempty run of
/// word-or-dot characters, at least one whitespace character, and a
/// value that begins at the first character after that whitespace run.
pub open spec fn spec_annotation_at(s: Seq<char>, i: int) -> Option<(Seq<char>, Option<Seq<char>>, Seq<char>)> {
    if !(0 <= i && i + 2 <= s.len() && s[i] == '/' && s[i + 1] == '/') {
        None
    } else {
        let j = spec_space_run_end(s, i + 2);
        if !(j < s.len() && s[j] == '@') {
            None
        } else {
            let k = spec_word_run_end(s, j + 1);
            if !(k > j + 1) {
                None
            } else {
                if k < s.len() && s[k] == '.' {
                    let m = spec_word_dot_run_end(s, k + 1);
                    if !(m > k + 1) {
                        None
                    } else {
                        let sp = spec_space_run_end(s, m);
                        if sp > m && sp < s.len() {
                            Some((s.subrange(j + 1, k), Some(s.subrange(k + 1, m)), s.subrange(sp, s.len() as int)))
                        } else {
                            None
                        }
                    }
                } else {
                    let sp = spec_space_run_end(s, k);
                    if sp > k && sp < s.len() {
                        Some((s.subrange(j + 1, k), None, s.subrange(sp, s.len() as int)))
                    } else {
                        None
                    }
                }
            }
        }
    }
}

/// The annotation recognised on a line: the match at the least position
/// where one begins.
pub open spec fn spec_annotation_search(s: Seq<char>, i: int) -> Option<(Seq<char>, Option<Seq<char>>, Seq<char>)>
    decreases s.len() - i when 0 <= i
{
    if i + 2 > s.len() {
        None
    } else if spec_annotation_at(s, i) is Some {
        spec_annotation_at(s, i)
    } else {
        spec_annotation_search(s, i + 1)
    }
}

pub open spec fn spec_parse_annotation_line(s: Seq<char>) -> Option<(Seq<char>, Option<Seq<char>>, Seq<char>)> {
    spec_annotation_search(s, 0)
}

/// The annotation value of a recognised line, with the keyword already
/// classified.
pub open spec fn spec_line_annotation(s: Seq<char>) -> Option<AnnotationView> {
    match spec_parse_annotation_line(s) {
        Some((kw, attr, val)) => Some(AnnotationView {
            annotation_type: spec_classify(kw),
            attribute: attr,
            value: val,
        }),
        None => None,
    }
}

fn try_annotation_at(v: &Vec<char>, i: usize) -> (r: Option<Annotation>)
    requires
        i + 2 <= v.len(),
    ensures
        match r {
            Some(a) => spec_annotation_at(v@, i as int) matches Some(p) && a@
                == (AnnotationView { annotation_type: spec_classify(p.0), attribute: p.1, value: p.2 }),
            None => spec_annotation_at(v@, i as int) is None,
        },
{
    if !(v[i] == '/' && v[i + 1] == '/') {
        return None;
    }
    let j = space_run_end(v, i + 2);
    if !(j < v.len() && v[j] == '@') {
        return None;
    }
    let k = word_run_end(v, j + 1);
    if !(k > j + 1) {
        return None;
    }
    let keyword = sub_chars(v, j + 1, k);
    let mut attr_end: usize = k;
    let mut attribute: Option<String> = None;
    if k < v.len() && v[k] == '.' {
        let m = word_dot_run_end(v, k + 1);
        if !(m > k + 1) {
            return None;
        }
        attribute = Some(chars_to_string(&sub_chars(v, k + 1, m)));
        attr_end = m;
    }
    let sp = space_run_end(v, attr_end);
    if sp > attr_end && sp < v.len() {
        let value = chars_to_string(&sub_chars(v, sp, v.len()));
        let kw_string = chars_to_string(&keyword);
        Some(Annotation {
            annotation_type: AnnotationType::from(kw_string.as_str()),
            attribute,
            value,
        })
    } else {
        None
    }
}

/// Recognises one annotation line, or nothing.
pub fn parse_annotation_line(v: &Vec<char>) -> (r: Option<Annotation>)
    ensures
        match r {
            Some(a) => spec_line_annotation(v@) == Some(a@),
            None => spec_line_annotation(v@) is None,
        },
{
    let mut i: usize = 0;
    while v.len() >= 2 && i <= v.len() - 2
        invariant
            spec_annotation_search(v@, 0) == spec_annotation_search(v@, i as int),
            i <= v@.len(),
        decreases v@.len() - i,
    {
        let r = try_annotation_at(v, i);
        if r.is_some() {
            return r;
        }
        i += 1;
    }
    None
}

/// The continuation text of a comment line: everything after the first
/// `//`, trimmed of whitespace; nothing when the line has no `//` or
/// nothing follows it.
pub open spec fn spec_comment_text_search(s: Seq<char>, i: int) -> Option<Seq<char>>
    decreases s.len() - i when 0 <= i
{
    if i + 2 >= s.len() {
        None
    } else if s[i] == '/' && s[i + 1] == '/' {
        Some(spec_trim(s.subrange(i + 2, s.len() as int)))
    } else {
        spec_comment_text_search(s, i + 1)
    }
}

pub open spec fn spec_comment_text(s: Seq<char>) -> Option<Seq<char>> {
    spec_comment_text_search(s, 0)
}

/// The continuation text of a comment line, per `spec_comment_text`.
pub fn parse_comment_text(v: &Vec<char>) -> (r: Option<String>)
    ensures
        match r {
            Some(t) => spec_comment_text(v@) == Some(t@),
            None => spec_comment_text(v@) is None,
        },
{
    let mut i: usize = 0;
    while v.len() > 2 && i < v.len() - 2
        invariant
            spec_comment_text_search(v@, 0) == spec_comment_text_search(v@, i as int),
            i <= v@.len(),
        decreases v@.len() - i,
    {
        if v[i] == '/' && v[i + 1] == '/' {
            let rest = sub_chars(v, i + 2, v.len());
            let t = trim_chars(&rest);
            return Some(chars_to_string(&t));
        }
        i += 1;
    }
    None
}

/// A router annotation value, split into path and method.
///
/// The value must end in `[method]` where the method is a nonempty run
/// of word characters, preceded by at least one whitespace character;
/// the path runs from the first feasible `/` up to that whitespace.
/// The method is reported lower-cased.
pub open spec fn spec_parse_router(v: Seq<char>) -> Option<(Seq<char>, Seq<char>)> {
    if !(v.len() >= 1 && v.last() == ']') {
        None
    } else {
        let mstart = spec_back_word_run_start(v, v.len() - 1);
        if !(mstart < v.len() - 1 && mstart >= 1 && v[mstart - 1] == '[') {
            None
        } else {
            let bracket = mstart - 1;
            let wstart = spec_back_space_run_start(v, bracket);
            match spec_router_path(v, 0, wstart, bracket) {
                Some(p) => Some((p, spec_lower(v.subrange(mstart, v.len() - 1)))),
                None => None,
            }
        }
    }
}

/// The path of a router value: from the first `/` at or after `from`
/// that leaves one whitespace character before the bracket, up to the
/// start of that whitespace run.
pub open spec fn spec_router_path(v: Seq<char>, from: int, wstart: int, bracket: int) -> Option<Seq<char>>
    decreases v.len() - from when 0 <= from
{
    if from >= v.len() {
        None
    } else if v[from] == '/' {
        let q = if wstart > from + 2 { wstart } else { from + 2 };
        if q < bracket && from + 1 < q {
            Some(v.subrange(from, q))
        } else {
            spec_router_path(v, from + 1, wstart, bracket)
        }
    } else {
        spec_router_path(v, from + 1, wstart, bracket)
    }
}

/// Parses a router annotation value, per `spec_parse_router`.
pub fn parse_router_value(v: &Vec<char>) -> (r: Option<(String, String)>)
    ensures
        match r {
            Some(pm) => spec_parse_router(v@) == Some((pm.0@, pm.1@)),
            None => spec_parse_router(v@) is None,
        },
{
    if !(v.len() >= 1 && v[v.len() - 1] == ']') {
        return None;
    }
    let mstart = back_word_run_start(v, v.len() - 1);
    if !(mstart < v.len() - 1 && mstart >= 1 && v[mstart - 1] == '[') {
        return None;
    }
    let bracket = mstart - 1;
    let wstart = back_space_run_start(v, bracket);
    let mut from: usize = 0;
    while from < v.len()
        invariant
            spec_router_path(v@, 0, wstart as int, bracket as int) == spec_router_path(
                v@,
                from as int,
                wstart as int,
                bracket as int,
            ),
            from <= v@.len(),
            wstart <= bracket < v@.len(),
            1 <= mstart < v@.len() - 1,
            bracket == mstart - 1,
            v@.len() >= 1,
            v@.last() == ']',
            mstart == spec_back_word_run_start(v@, v@.len() - 1),
            v@[mstart - 1] == '[',
            wstart == spec_back_space_run_start(v@, bracket as int),
        decreases v@.len() - from,
    {
        if v[from] == '/' && from < bracket {
            let q: usize = if wstart > from + 2 { wstart } else { from + 2 };
            if q < bracket && from + 1 < q {
                let path = chars_to_string(&sub_chars(v, from, q));
                let method = chars_to_string(&lower_chars(&sub_chars(v, mstart, v.len() - 1)));
                return Some((path, method));
            }
        }
        from += 1;
    }
    None
}

} // verus!
