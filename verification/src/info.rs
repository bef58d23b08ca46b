//! The document info builder: the ordered annotation stream of the entry
//! file is folded, line by line, into the general API metadata.
//!
//! The scan keeps two pending accumulators — a partially built server and
//! the name of the tag currently being described — because servers and
//! tags are written as consecutive attribute lines with no terminator.

use vstd::prelude::*;

use crate::annotation::{
    parse_annotation_line, parse_comment_text, spec_comment_text, spec_line_annotation, Annotation,
    AnnotationType, AnnotationTypeView, AnnotationView,
};
use crate::assoc::{spec_has_key, spec_key_idx, str_eq, lemma_key_idx, key_index};
use crate::chars::{
    back_space_run_start, chars_to_string, space_run_end, spec_back_space_run_start,
    spec_space_run_end, spec_split_first, spec_split_ws, spec_trim, split_first, split_ws,
    to_chars, trim_chars,
};
use crate::errors::{ParserError, ParserErrorView};
use crate::models::{
    lemma_pairs_view_push, lemma_seq_view_add, lemma_seq_view_push, opt_view, pairs_view, seq_view,
    spec_empty_api_info, spec_server_of_url, Contact, ContactView, ExternalDocs, ExternalDocsView,
    License, LicenseView, ParsedApiInfo, ParsedApiInfoView, SecurityRequirement,
    SecurityRequirementView, SecurityScheme, SecuritySchemeView, Server, ServerView, Tag, TagView,
};
use crate::parser::{spec_normalize_mime, GoParser};
use crate::security::spec_security_def;

verus! {

/// The first index of a tag named `name`, or the length when none is.
pub open spec fn spec_tag_idx(tags: Seq<TagView>, name: Seq<char>) -> int
    decreases tags.len(),
{
    if tags.len() == 0 {
        0
    } else if tags[0].name == name {
        0
    } else {
        1 + spec_tag_idx(tags.drop_first(), name)
    }
}

pub proof fn lemma_tag_idx(tags: Seq<TagView>, name: Seq<char>)
    ensures
        0 <= spec_tag_idx(tags, name) <= tags.len(),
        spec_tag_idx(tags, name) < tags.len() ==> tags[spec_tag_idx(tags, name)].name == name,
        forall|j: int| 0 <= j < spec_tag_idx(tags, name) ==> (#[trigger] tags[j]).name != name,
    decreases tags.len(),
{
    if tags.len() > 0 && tags[0].name != name {
        lemma_tag_idx(tags.drop_first(), name);
        assert forall|j: int| 0 <= j < spec_tag_idx(tags, name) implies (#[trigger] tags[j]).name
            != name by {
            if j >= 1 {
                assert(tags.drop_first()[j - 1] == tags[j]);
            }
        }
    }
}

/// The first index of a tag named `name`, per `spec_tag_idx`.
fn tag_index(tags: &Vec<Tag>, name: &str) -> (r: usize)
    ensures
        r as int == spec_tag_idx(seq_view(tags@), name@),
{
    proof {
        lemma_tag_idx(seq_view(tags@), name@);
    }
    let mut i: usize = 0;
    while i < tags.len()
        invariant
            i <= tags@.len(),
            seq_view(tags@).len() == tags@.len(),
            forall|j: int| 0 <= j < i ==> (#[trigger] seq_view(tags@)[j]).name != name@,
            0 <= spec_tag_idx(seq_view(tags@), name@) <= tags@.len(),
            spec_tag_idx(seq_view(tags@), name@) < tags@.len() ==> seq_view(
                tags@,
            )[spec_tag_idx(seq_view(tags@), name@)].name == name@,
            forall|j: int|
                0 <= j < spec_tag_idx(seq_view(tags@), name@) ==> (#[trigger] seq_view(
                    tags@,
                )[j]).name != name@,
        decreases tags@.len() - i,
    {
        if str_eq(tags[i].name.as_str(), name) {
            proof {
                assert(seq_view(tags@)[i as int].name == tags@[i as int].name@);
                let s = spec_tag_idx(seq_view(tags@), name@);
                if s < i as int {
                    assert(seq_view(tags@)[s].name == name@);
                } else if s > i as int {
                    assert(seq_view(tags@)[i as int].name != name@);
                }
            }
            return i;
        }
        proof {
            assert(seq_view(tags@)[i as int].name == tags@[i as int].name@);
        }
        i += 1;
    }
    i
}

/// Whether the line, after leading whitespace, opens a block comment.
pub open spec fn spec_starts_doc(s: Seq<char>) -> bool {
    let j = spec_space_run_end(s, 0);
    j + 2 <= s.len() && s[j] == '/' && s[j + 1] == '*'
}

fn starts_doc(v: &Vec<char>) -> (r: bool)
    ensures
        r == spec_starts_doc(v@),
{
    let j = space_run_end(v, 0);
    j < v.len() && j + 1 < v.len() && v[j] == '/' && v[j + 1] == '*'
}

/// Whether the line, before trailing whitespace, closes a block comment.
pub open spec fn spec_ends_doc(s: Seq<char>) -> bool {
    let e = spec_back_space_run_start(s, s.len() as int);
    e >= 2 && s[e - 2] == '*' && s[e - 1] == '/'
}

fn ends_doc(v: &Vec<char>) -> (r: bool)
    ensures
        r == spec_ends_doc(v@),
{
    let e = back_space_run_start(v, v.len());
    e >= 2 && v[e - 2] == '*' && v[e - 1] == '/'
}

/// The state threaded through the info scan.
pub struct InfoScan {
    pub api: ParsedApiInfo,
    pub contact: Contact,
    pub license: License,
    pub in_doc: bool,
    pub buffer: Vec<char>,
    pub cur_server: Option<Server>,
    pub cur_tag: Option<String>,
}

pub ghost struct InfoScanView {
    pub api: ParsedApiInfoView,
    pub contact: ContactView,
    pub license: LicenseView,
    pub in_doc: bool,
    pub buffer: Seq<char>,
    pub cur_server: Option<ServerView>,
    pub cur_tag: Option<Seq<char>>,
}

impl View for InfoScan {
    type V = InfoScanView;

    open spec fn view(&self) -> InfoScanView {
        InfoScanView {
            api: self.api@,
            contact: self.contact@,
            license: self.license@,
            in_doc: self.in_doc,
            buffer: self.buffer@,
            cur_server: opt_view(self.cur_server),
            cur_tag: opt_view(self.cur_tag),
        }
    }
}

/// The scan's starting state: everything empty, outside a block comment.
pub open spec fn spec_info_init() -> InfoScanView {
    InfoScanView {
        api: spec_empty_api_info(),
        contact: ContactView { name: None, url: None, email: None },
        license: LicenseView { name: Seq::empty(), url: None, identifier: None },
        in_doc: false,
        buffer: Seq::empty(),
        cur_server: None,
        cur_tag: None,
    }
}

fn info_scan_init() -> (r: InfoScan)
    ensures
        r@ == spec_info_init(),
{
    InfoScan {
        api: ParsedApiInfo::new(),
        contact: Contact::new(),
        license: License::new(),
        in_doc: false,
        buffer: Vec::new(),
        cur_server: None,
        cur_tag: None,
    }
}

/// What one recognised annotation does to the scan state.
pub open spec fn spec_apply_annotation(st: InfoScanView, a: AnnotationView) -> Result<
    InfoScanView,
    ParserErrorView,
> {
    let api = st.api;
    match a.annotation_type {
        AnnotationTypeView::Title => Ok(
            InfoScanView { api: ParsedApiInfoView { info: InfoViewWith::title(api.info, a.value), ..api }, ..st },
        ),
        AnnotationTypeView::Version => Ok(
            InfoScanView { api: ParsedApiInfoView { info: InfoViewWith::version(api.info, a.value), ..api }, ..st },
        ),
        AnnotationTypeView::Description => if !st.in_doc {
            Ok(
                InfoScanView {
                    api: ParsedApiInfoView {
                        info: InfoViewWith::description(api.info, Some(a.value)),
                        ..api
                    },
                    ..st
                },
            )
        } else {
            Ok(InfoScanView { buffer: st.buffer + a.value + seq!['\n'], ..st })
        },
        AnnotationTypeView::Summary => Ok(
            InfoScanView {
                api: ParsedApiInfoView { info: InfoViewWith::summary(api.info, Some(a.value)), ..api },
                ..st
            },
        ),
        AnnotationTypeView::TermsOfService => Ok(
            InfoScanView {
                api: ParsedApiInfoView { info: InfoViewWith::terms(api.info, Some(a.value)), ..api },
                ..st
            },
        ),
        AnnotationTypeView::Contact => match a.attribute {
            Some(attr) => if attr == "name"@ {
                Ok(InfoScanView { contact: ContactView { name: Some(a.value), ..st.contact }, ..st })
            } else if attr == "url"@ {
                Ok(InfoScanView { contact: ContactView { url: Some(a.value), ..st.contact }, ..st })
            } else if attr == "email"@ {
                Ok(InfoScanView { contact: ContactView { email: Some(a.value), ..st.contact }, ..st })
            } else {
                Ok(st)
            },
            None => Ok(st),
        },
        AnnotationTypeView::License => match a.attribute {
            Some(attr) => if attr == "name"@ {
                Ok(InfoScanView { license: LicenseView { name: a.value, ..st.license }, ..st })
            } else if attr == "url"@ {
                Ok(InfoScanView { license: LicenseView { url: Some(a.value), ..st.license }, ..st })
            } else if attr == "identifier"@ {
                Ok(
                    InfoScanView {
                        license: LicenseView { identifier: Some(a.value), ..st.license },
                        ..st
                    },
                )
            } else {
                Ok(st)
            },
            None => Ok(st),
        },
        AnnotationTypeView::Server => match a.attribute {
            Some(attr) => if attr == "url"@ {
                match st.cur_server {
                    None => Ok(InfoScanView { cur_server: Some(spec_server_of_url(a.value)), ..st }),
                    Some(sv) => Ok(
                        InfoScanView { cur_server: Some(ServerView { url: a.value, ..sv }), ..st },
                    ),
                }
            } else if attr == "description"@ {
                match st.cur_server {
                    Some(sv) => Ok(
                        InfoScanView {
                            api: ParsedApiInfoView {
                                servers: api.servers.push(
                                    ServerView { description: Some(a.value), ..sv },
                                ),
                                ..api
                            },
                            cur_server: None,
                            ..st
                        },
                    ),
                    None => Ok(
                        InfoScanView {
                            cur_server: Some(
                                ServerView {
                                    url: Seq::empty(),
                                    description: Some(a.value),
                                    variables: Seq::empty(),
                                },
                            ),
                            ..st
                        },
                    ),
                }
            } else {
                Ok(st)
            },
            None => Err(
                ParserErrorView::ServerParseError("Server annotation requires an attribute"@),
            ),
        },
        AnnotationTypeView::Host => Ok(
            InfoScanView { api: ParsedApiInfoView { host: Some(a.value), ..api }, ..st },
        ),
        AnnotationTypeView::BasePath => Ok(
            InfoScanView { api: ParsedApiInfoView { base_path: Some(a.value), ..api }, ..st },
        ),
        AnnotationTypeView::Accept => Ok(
            InfoScanView {
                api: ParsedApiInfoView {
                    consumes: api.consumes.push(spec_normalize_mime(a.value)),
                    ..api
                },
                ..st
            },
        ),
        AnnotationTypeView::Produce => Ok(
            InfoScanView {
                api: ParsedApiInfoView {
                    produces: api.produces.push(spec_normalize_mime(a.value)),
                    ..api
                },
                ..st
            },
        ),
        AnnotationTypeView::Schemes => Ok(
            InfoScanView {
                api: ParsedApiInfoView { schemes: api.schemes + spec_split_ws(a.value), ..api },
                ..st
            },
        ),
        AnnotationTypeView::Tag => match a.attribute {
            Some(attr) => if attr == "name"@ {
                let tags2 = if spec_tag_idx(api.tags, a.value) < api.tags.len() {
                    api.tags
                } else {
                    api.tags.push(TagView { name: a.value, description: None, externalDocs: None })
                };
                Ok(
                    InfoScanView {
                        api: ParsedApiInfoView { tags: tags2, ..api },
                        cur_tag: Some(a.value),
                        ..st
                    },
                )
            } else if attr == "description"@ {
                match st.cur_tag {
                    Some(nm) => if spec_tag_idx(api.tags, nm) < api.tags.len() {
                        let i = spec_tag_idx(api.tags, nm);
                        Ok(
                            InfoScanView {
                                api: ParsedApiInfoView {
                                    tags: api.tags.update(
                                        i,
                                        TagView { description: Some(a.value), ..api.tags[i] },
                                    ),
                                    ..api
                                },
                                ..st
                            },
                        )
                    } else {
                        Ok(st)
                    },
                    None => Ok(st),
                }
            } else {
                Ok(st)
            },
            None => Ok(
                InfoScanView {
                    api: ParsedApiInfoView {
                        tags: api.tags.push(
                            TagView { name: a.value, description: None, externalDocs: None },
                        ),
                        ..api
                    },
                    ..st
                },
            ),
        },
        AnnotationTypeView::SecurityDefinitions => match a.attribute {
            Some(attr) => match spec_security_def(api.security_definitions, attr, a.value) {
                Ok(d) => Ok(
                    InfoScanView {
                        api: ParsedApiInfoView { security_definitions: d, ..api },
                        ..st
                    },
                ),
                Err(e) => Err(e),
            },
            None => Err(
                ParserErrorView::SecurityParseError(
                    "SecurityDefinitions annotation requires an attribute"@,
                ),
            ),
        },
        AnnotationTypeView::SecurityScheme => match a.attribute {
            Some(attr) => {
                let parts = crate::chars::spec_split_char(attr, '.');
                if parts.len() >= 2 {
                    let sname = parts[0];
                    let prop = parts[1];
                    if spec_has_key(api.security_definitions, sname) {
                        let i = spec_key_idx(api.security_definitions, sname);
                        let sch = api.security_definitions[i].1;
                        if prop == "description"@ {
                            Ok(
                                InfoScanView {
                                    api: ParsedApiInfoView {
                                        security_definitions: api.security_definitions.update(
                                            i,
                                            (
                                                sname,
                                                SecuritySchemeView {
                                                    description: Some(a.value),
                                                    ..sch
                                                },
                                            ),
                                        ),
                                        ..api
                                    },
                                    ..st
                                },
                            )
                        } else if prop == "in"@ {
                            Ok(
                                InfoScanView {
                                    api: ParsedApiInfoView {
                                        security_definitions: api.security_definitions.update(
                                            i,
                                            (
                                                sname,
                                                SecuritySchemeView { in_type: Some(a.value), ..sch },
                                            ),
                                        ),
                                        ..api
                                    },
                                    ..st
                                },
                            )
                        } else if prop == "name"@ {
                            Ok(
                                InfoScanView {
                                    api: ParsedApiInfoView {
                                        security_definitions: api.security_definitions.update(
                                            i,
                                            (
                                                sname,
                                                SecuritySchemeView { name: Some(a.value), ..sch },
                                            ),
                                        ),
                                        ..api
                                    },
                                    ..st
                                },
                            )
                        } else {
                            Ok(st)
                        }
                    } else {
                        Ok(st)
                    }
                } else {
                    Ok(st)
                }
            },
            None => Ok(st),
        },
        AnnotationTypeView::Security => {
            let sp = spec_split_first(a.value, ' ');
            let scopes = match sp.1 {
                Some(rest) => spec_split_ws(rest),
                None => Seq::empty(),
            };
            Ok(
                InfoScanView {
                    api: ParsedApiInfoView {
                        security: api.security.push(
                            SecurityRequirementView { name: sp.0, scopes },
                        ),
                        ..api
                    },
                    ..st
                },
            )
        },
        AnnotationTypeView::ExternalDocs => match a.attribute {
            Some(attr) => if attr == "description"@ {
                let d2 = match api.external_docs {
                    Some(d) => ExternalDocsView { description: Some(a.value), ..d },
                    None => ExternalDocsView { description: Some(a.value), url: Seq::empty() },
                };
                Ok(
                    InfoScanView {
                        api: ParsedApiInfoView { external_docs: Some(d2), ..api },
                        ..st
                    },
                )
            } else if attr == "url"@ {
                let d2 = match api.external_docs {
                    Some(d) => ExternalDocsView { url: a.value, ..d },
                    None => ExternalDocsView { description: None, url: a.value },
                };
                Ok(
                    InfoScanView {
                        api: ParsedApiInfoView { external_docs: Some(d2), ..api },
                        ..st
                    },
                )
            } else {
                Ok(st)
            },
            None => Ok(st),
        },
        _ => Ok(st),
    }
}

/// Field updates on an info view, named for readability of the step
/// function.
pub ghost struct InfoViewWith {}

impl InfoViewWith {
    pub open spec fn title(i: crate::models::InfoView, v: Seq<char>) -> crate::models::InfoView {
        crate::models::InfoView { title: v, ..i }
    }

    pub open spec fn version(i: crate::models::InfoView, v: Seq<char>) -> crate::models::InfoView {
        crate::models::InfoView { version: v, ..i }
    }

    pub open spec fn description(i: crate::models::InfoView, v: Option<Seq<char>>) -> crate::models::InfoView {
        crate::models::InfoView { description: v, ..i }
    }

    pub open spec fn summary(i: crate::models::InfoView, v: Option<Seq<char>>) -> crate::models::InfoView {
        crate::models::InfoView { summary: v, ..i }
    }

    pub open spec fn terms(i: crate::models::InfoView, v: Option<Seq<char>>) -> crate::models::InfoView {
        crate::models::InfoView { termsOfService: v, ..i }
    }
}

/// What one line does to the scan state: a recognised annotation is
/// applied; otherwise comment continuation text feeds the description
/// buffer; block comment delimiters open and close the buffer.
pub open spec fn spec_info_line_step(st: InfoScanView, line: Seq<char>) -> Result<
    InfoScanView,
    ParserErrorView,
> {
    let r1 = match spec_line_annotation(line) {
        Some(a) => spec_apply_annotation(st, a),
        None => match spec_comment_text(line) {
            Some(t) => if st.in_doc {
                Ok(InfoScanView { buffer: st.buffer + t + seq!['\n'], ..st })
            } else {
                Ok(st)
            },
            None => if st.in_doc && st.buffer.len() > 0 {
                Ok(
                    InfoScanView {
                        api: ParsedApiInfoView {
                            info: InfoViewWith::description(
                                st.api.info,
                                Some(spec_trim(st.buffer)),
                            ),
                            ..st.api
                        },
                        buffer: Seq::empty(),
                        in_doc: false,
                        ..st
                    },
                )
            } else {
                Ok(st)
            },
        },
    };
    match r1 {
        Ok(s1) => {
            let s2 = if spec_starts_doc(line) {
                InfoScanView { in_doc: true, buffer: Seq::empty(), ..s1 }
            } else {
                s1
            };
            let s3 = if spec_ends_doc(line) {
                if s2.buffer.len() > 0 {
                    InfoScanView {
                        api: ParsedApiInfoView {
                            info: InfoViewWith::description(
                                s2.api.info,
                                Some(spec_trim(s2.buffer)),
                            ),
                            ..s2.api
                        },
                        buffer: Seq::empty(),
                        in_doc: false,
                        ..s2
                    }
                } else {
                    InfoScanView { in_doc: false, ..s2 }
                }
            } else {
                s2
            };
            Ok(s3)
        },
        Err(e) => Err(e),
    }
}

/// The scan folded over all lines, stopping at the first error.
pub open spec fn spec_info_scan(lines: Seq<Seq<char>>) -> Result<InfoScanView, ParserErrorView>
    decreases lines.len(),
{
    if lines.len() == 0 {
        Ok(spec_info_init())
    } else {
        match spec_info_scan(lines.drop_last()) {
            Ok(st) => spec_info_line_step(st, lines.last()),
            Err(e) => Err(e),
        }
    }
}

/// The final assembly: contact and license attach when any of their
/// fields were seen; a pending server with a url commits; and when no
/// server was declared at all, one is synthesised per legacy scheme as
/// `scheme://host/basePath`.
pub open spec fn spec_info_finish(st: InfoScanView) -> ParsedApiInfoView {
    let api = st.api;
    let api1 = if st.contact.name is Some || st.contact.url is Some || st.contact.email is Some {
        ParsedApiInfoView {
            info: crate::models::InfoView { contact: Some(st.contact), ..api.info },
            ..api
        }
    } else {
        api
    };
    let api2 = if st.license.name.len() > 0 {
        ParsedApiInfoView {
            info: crate::models::InfoView { license: Some(st.license), ..api1.info },
            ..api1
        }
    } else {
        api1
    };
    let api3 = match st.cur_server {
        Some(sv) => if sv.url.len() > 0 {
            ParsedApiInfoView { servers: api2.servers.push(sv), ..api2 }
        } else {
            api2
        },
        None => api2,
    };
    if api3.servers.len() == 0 && api3.host is Some {
        let bp = match api3.base_path {
            Some(b) => b,
            None => Seq::empty(),
        };
        ParsedApiInfoView {
            servers: spec_legacy_servers(api3.schemes, api3.host->0, bp),
            ..api3
        }
    } else {
        api3
    }
}

/// One synthesised server per legacy scheme.
pub open spec fn spec_legacy_servers(
    schemes: Seq<Seq<char>>,
    host: Seq<char>,
    bp: Seq<char>,
) -> Seq<ServerView> {
    schemes.map_values(|sch: Seq<char>| spec_server_of_url(sch + "://"@ + host + bp))
}

/// The general API info read from the ordered lines of the entry file.
pub open spec fn spec_parse_general_api_info(lines: Seq<Seq<char>>) -> Result<
    ParsedApiInfoView,
    ParserErrorView,
> {
    match spec_info_scan(lines) {
        Ok(st) => Ok(spec_info_finish(st)),
        Err(e) => Err(e),
    }
}

/// A scan error in a prefix is the scan's outcome for the whole.
proof fn lemma_info_scan_err(lines: Seq<Seq<char>>, j: int, e: ParserErrorView)
    requires
        0 <= j <= lines.len(),
        spec_info_scan(lines.take(j)) == Err::<InfoScanView, ParserErrorView>(e),
    ensures
        spec_info_scan(lines) == Err::<InfoScanView, ParserErrorView>(e),
    decreases lines.len() - j,
{
    if j == lines.len() {
        assert(lines.take(j) =~= lines);
    } else {
        assert(lines.take(j + 1).drop_last() =~= lines.take(j));
        lemma_info_scan_err(lines, j + 1, e);
    }
}

fn apply_annotation(st: InfoScan, a: Annotation) -> (r: Result<InfoScan, ParserError>)
    ensures
        match r {
            Ok(s2) => spec_apply_annotation(st@, a@) == Ok::<InfoScanView, ParserErrorView>(s2@),
            Err(e) => spec_apply_annotation(st@, a@) == Err::<InfoScanView, ParserErrorView>(e@),
        },
{
    let mut st = st;
    let Annotation { annotation_type, attribute, value } = a;
    match annotation_type {
        AnnotationType::Title => {
            st.api.info.title = value;
            Ok(st)
        },
        AnnotationType::Version => {
            st.api.info.version = value;
            Ok(st)
        },
        AnnotationType::Description => {
            if !st.in_doc {
                st.api.info.description = Some(value);
            } else {
                let ghost before_buf = st.buffer@;
                let mut tc = to_chars(value.as_str());
                st.buffer.append(&mut tc);
                st.buffer.push('\n');
                proof {
                    assert(st.buffer@ =~= before_buf + value@ + seq!['\n']);
                }
            }
            Ok(st)
        },
        AnnotationType::Summary => {
            st.api.info.summary = Some(value);
            Ok(st)
        },
        AnnotationType::TermsOfService => {
            st.api.info.termsOfService = Some(value);
            Ok(st)
        },
        AnnotationType::Contact => {
            match attribute {
                Some(attr) => {
                    if str_eq(attr.as_str(), "name") {
                        st.contact.name = Some(value);
                    } else if str_eq(attr.as_str(), "url") {
                        st.contact.url = Some(value);
                    } else if str_eq(attr.as_str(), "email") {
                        st.contact.email = Some(value);
                    }
                },
                None => {},
            }
            Ok(st)
        },
        AnnotationType::License => {
            match attribute {
                Some(attr) => {
                    if str_eq(attr.as_str(), "name") {
                        st.license.name = value;
                    } else if str_eq(attr.as_str(), "url") {
                        st.license.url = Some(value);
                    } else if str_eq(attr.as_str(), "identifier") {
                        st.license.identifier = Some(value);
                    }
                },
                None => {},
            }
            Ok(st)
        },
        AnnotationType::Server => {
            match attribute {
                Some(attr) => {
                    if str_eq(attr.as_str(), "url") {
                        match st.cur_server {
                            None => {
                                st.cur_server = Some(Server::of_url(value));
                            },
                            Some(mut sv) => {
                                sv.url = value;
                                st.cur_server = Some(sv);
                            },
                        }
                    } else if str_eq(attr.as_str(), "description") {
                        match st.cur_server {
                            Some(mut sv) => {
                                sv.description = Some(value);
                                let ghost before = st.api.servers@;
                                st.api.servers.push(sv);
                                st.cur_server = None;
                                proof {
                                    lemma_seq_view_push(before, st.api.servers@.last());
                                }
                            },
                            None => {
                                let mut sv = Server::of_url(String::new());
                                sv.description = Some(value);
                                st.cur_server = Some(sv);
                            },
                        }
                    }
                    Ok(st)
                },
                None => Err(
                    ParserError::ServerParseError(
                        "Server annotation requires an attribute".to_owned(),
                    ),
                ),
            }
        },
        AnnotationType::Host => {
            st.api.host = Some(value);
            Ok(st)
        },
        AnnotationType::BasePath => {
            st.api.base_path = Some(value);
            Ok(st)
        },
        AnnotationType::Accept => {
            let m = crate::parser::normalize_mime(value.as_str());
            let ghost before = st.api.consumes@;
            st.api.consumes.push(m);
            proof {
                lemma_seq_view_push(before, st.api.consumes@.last());
            }
            Ok(st)
        },
        AnnotationType::Produce => {
            let m = crate::parser::normalize_mime(value.as_str());
            let ghost before = st.api.produces@;
            st.api.produces.push(m);
            proof {
                lemma_seq_view_push(before, st.api.produces@.last());
            }
            Ok(st)
        },
        AnnotationType::Schemes => {
            let vc = to_chars(value.as_str());
            let mut toks = split_ws(&vc);
            let ghost before = st.api.schemes@;
            let ghost toks_v = toks@;
            st.api.schemes.append(&mut toks);
            proof {
                lemma_seq_view_add(before, toks_v);
            }
            Ok(st)
        },
        AnnotationType::Tag => {
            match attribute {
                Some(attr) => {
                    if str_eq(attr.as_str(), "name") {
                        st.cur_tag = Some(value.clone());
                        let i = tag_index(&st.api.tags, value.as_str());
                        if i >= st.api.tags.len() {
                            let ghost before = st.api.tags@;
                            st.api.tags.push(
                                Tag { name: value, description: None, externalDocs: None },
                            );
                            proof {
                                lemma_seq_view_push(before, st.api.tags@.last());
                            }
                        }
                        Ok(st)
                    } else if str_eq(attr.as_str(), "description") {
                        match &st.cur_tag {
                            Some(nm) => {
                                proof {
                                    lemma_tag_idx(seq_view(st.api.tags@), nm@);
                                }
                                let i = tag_index(&st.api.tags, nm.as_str());
                                if i < st.api.tags.len() {
                                    let ghost before = st.api.tags@;
                                    let e = &mut st.api.tags[i];
                                    e.description = Some(value);
                                    proof {
                                        assert(seq_view(st.api.tags@) =~= seq_view(before).update(
                                            i as int,
                                            TagView {
                                                description: seq_view(st.api.tags@)[i as int].description,
                                                ..seq_view(before)[i as int]
                                            },
                                        ));
                                    }
                                }
                                Ok(st)
                            },
                            None => Ok(st),
                        }
                    } else {
                        Ok(st)
                    }
                },
                None => {
                    let ghost before = st.api.tags@;
                    st.api.tags.push(Tag { name: value, description: None, externalDocs: None });
                    proof {
                        lemma_seq_view_push(before, st.api.tags@.last());
                    }
                    Ok(st)
                },
            }
        },
        AnnotationType::SecurityDefinitions => {
            match attribute {
                Some(attr) => {
                    let p = GoParser;
                    match p.parse_security_definition(&mut st.api, attr.as_str(), value.as_str()) {
                        Ok(_) => Ok(st),
                        Err(e) => Err(e),
                    }
                },
                None => Err(
                    ParserError::SecurityParseError(
                        "SecurityDefinitions annotation requires an attribute".to_owned(),
                    ),
                ),
            }
        },
        AnnotationType::SecurityScheme => {
            match attribute {
                Some(attr) => {
                    let ac = to_chars(attr.as_str());
                    let parts = crate::chars::split_char(&ac, '.');
                    if parts.len() >= 2 {
                        let sname = parts[0].as_str();
                        proof {
                            lemma_key_idx(pairs_view(st.api.security_definitions@), sname@);
                            assert(seq_view(parts@)[0] == parts@[0]@);
                            assert(seq_view(parts@)[1] == parts@[1]@);
                        }
                        let i = key_index(&st.api.security_definitions, sname);
                        if i < st.api.security_definitions.len() {
                            let prop = parts[1].as_str();
                            if str_eq(prop, "description") {
                                let mut sch = st.api.security_definitions[i].1.dup();
                                sch.description = Some(value);
                                let ghost before = st.api.security_definitions@;
                                let e = &mut st.api.security_definitions[i];
                                *e = (chars_to_string(&to_chars(sname)), sch);
                                proof {
                                    assert(pairs_view(st.api.security_definitions@) =~= pairs_view(
                                        before,
                                    ).update(
                                        i as int,
                                        (
                                            sname@,
                                            pairs_view(st.api.security_definitions@)[i as int].1,
                                        ),
                                    ));
                                }
                                Ok(st)
                            } else if str_eq(prop, "in") {
                                let mut sch = st.api.security_definitions[i].1.dup();
                                sch.in_type = Some(value);
                                let ghost before = st.api.security_definitions@;
                                let e = &mut st.api.security_definitions[i];
                                *e = (chars_to_string(&to_chars(sname)), sch);
                                proof {
                                    assert(pairs_view(st.api.security_definitions@) =~= pairs_view(
                                        before,
                                    ).update(
                                        i as int,
                                        (
                                            sname@,
                                            pairs_view(st.api.security_definitions@)[i as int].1,
                                        ),
                                    ));
                                }
                                Ok(st)
                            } else if str_eq(prop, "name") {
                                let mut sch = st.api.security_definitions[i].1.dup();
                                sch.name = Some(value);
                                let ghost before = st.api.security_definitions@;
                                let e = &mut st.api.security_definitions[i];
                                *e = (chars_to_string(&to_chars(sname)), sch);
                                proof {
                                    assert(pairs_view(st.api.security_definitions@) =~= pairs_view(
                                        before,
                                    ).update(
                                        i as int,
                                        (
                                            sname@,
                                            pairs_view(st.api.security_definitions@)[i as int].1,
                                        ),
                                    ));
                                }
                                Ok(st)
                            } else {
                                Ok(st)
                            }
                        } else {
                            Ok(st)
                        }
                    } else {
                        Ok(st)
                    }
                },
                None => Ok(st),
            }
        },
        AnnotationType::Security => {
            let vc = to_chars(value.as_str());
            let (name, rest) = split_first(&vc, ' ');
            let scopes: Vec<String> = match rest {
                Some(r) => {
                    let rc = to_chars(r.as_str());
                    split_ws(&rc)
                },
                None => Vec::new(),
            };
            let ghost before = st.api.security@;
            st.api.security.push(SecurityRequirement { name, scopes });
            proof {
                lemma_seq_view_push(before, st.api.security@.last());
                assert(seq_view(Seq::<String>::empty()) =~= Seq::<Seq<char>>::empty());
            }
            Ok(st)
        },
        AnnotationType::ExternalDocs => {
            match attribute {
                Some(attr) => {
                    if str_eq(attr.as_str(), "description") {
                        match st.api.external_docs {
                            Some(mut d) => {
                                d.description = Some(value);
                                st.api.external_docs = Some(d);
                            },
                            None => {
                                st.api.external_docs = Some(
                                    ExternalDocs { description: Some(value), url: String::new() },
                                );
                            },
                        }
                    } else if str_eq(attr.as_str(), "url") {
                        match st.api.external_docs {
                            Some(mut d) => {
                                d.url = value;
                                st.api.external_docs = Some(d);
                            },
                            None => {
                                st.api.external_docs = Some(
                                    ExternalDocs { description: None, url: value },
                                );
                            },
                        }
                    }
                    Ok(st)
                },
                None => Ok(st),
            }
        },
        _ => Ok(st),
    }
}

fn info_line_step(st: InfoScan, line: &Vec<char>) -> (r: Result<InfoScan, ParserError>)
    ensures
        match r {
            Ok(s2) => spec_info_line_step(st@, line@) == Ok::<InfoScanView, ParserErrorView>(s2@),
            Err(e) => spec_info_line_step(st@, line@) == Err::<InfoScanView, ParserErrorView>(e@),
        },
{
    let in_doc0 = st.in_doc;
    let r1: Result<InfoScan, ParserError> = match parse_annotation_line(line) {
        Some(a) => apply_annotation(st, a),
        None => {
            let mut st = st;
            match parse_comment_text(line) {
                Some(t) => {
                    if st.in_doc {
                        let ghost before_buf = st.buffer@;
                        let mut tc = to_chars(t.as_str());
                        st.buffer.append(&mut tc);
                        st.buffer.push('\n');
                        proof {
                            assert(st.buffer@ =~= before_buf + t@ + seq!['\n']);
                        }
                    }
                    Ok(st)
                },
                None => {
                    if st.in_doc && st.buffer.len() > 0 {
                        let tb = trim_chars(&st.buffer);
                        st.api.info.description = Some(chars_to_string(&tb));
                        st.buffer = Vec::new();
                        st.in_doc = false;
                    }
                    Ok(st)
                },
            }
        },
    };
    let mut s1 = match r1 {
        Ok(s) => s,
        Err(e) => {
            return Err(e);
        },
    };
    if starts_doc(line) {
        s1.in_doc = true;
        s1.buffer = Vec::new();
    }
    if ends_doc(line) {
        if s1.buffer.len() > 0 {
            let tb = trim_chars(&s1.buffer);
            s1.api.info.description = Some(chars_to_string(&tb));
            s1.buffer = Vec::new();
        }
        s1.in_doc = false;
    }
    Ok(s1)
}

fn info_scan_finish(st: InfoScan) -> (r: ParsedApiInfo)
    ensures
        r@ == spec_info_finish(st@),
{
    let InfoScan { mut api, contact, license, in_doc: _, buffer: _, cur_server, cur_tag: _ } = st;
    if contact.name.is_some() || contact.url.is_some() || contact.email.is_some() {
        api.info.contact = Some(contact);
    }
    if !license.name.as_str().is_empty() {
        api.info.license = Some(license);
    }
    match cur_server {
        Some(sv) => {
            if !sv.url.as_str().is_empty() {
                let ghost before = api.servers@;
                api.servers.push(sv);
                proof {
                    lemma_seq_view_push(before, api.servers@.last());
                }
            }
        },
        None => {},
    }
    if api.servers.len() == 0 {
        let has_host = api.host.is_some();
        if has_host {
            let host: String = match &api.host {
                Some(h) => h.clone(),
                None => String::new(),
            };
            let bp: String = match &api.base_path {
                Some(b) => b.clone(),
                None => String::new(),
            };
            let ghost schemes_v = seq_view(api.schemes@);
            let mut servers: Vec<Server> = Vec::new();
            let mut i: usize = 0;
            while i < api.schemes.len()
                invariant
                    i <= api.schemes@.len(),
                    schemes_v == seq_view(api.schemes@),
                    schemes_v.len() == api.schemes@.len(),
                    seq_view(servers@) == spec_legacy_servers(
                        schemes_v.take(i as int),
                        host@,
                        bp@,
                    ),
                decreases api.schemes@.len() - i,
            {
                let mut u = api.schemes[i].clone();
                u.append("://");
                u.append(host.as_str());
                u.append(bp.as_str());
                let ghost before = servers@;
                servers.push(Server::of_url(u));
                proof {
                    lemma_seq_view_push(before, servers@.last());
                    assert(seq_view(api.schemes@)[i as int] == api.schemes@[i as int]@);
                    assert(spec_legacy_servers(schemes_v.take(i + 1 as int), host@, bp@)
                        =~= spec_legacy_servers(schemes_v.take(i as int), host@, bp@).push(
                        spec_server_of_url(schemes_v[i as int] + "://"@ + host@ + bp@),
                    ));
                }
                i += 1;
            }
            proof {
                assert(schemes_v.take(schemes_v.len() as int) =~= schemes_v);
            }
            api.servers = servers;
        }
    }
    api
}

impl GoParser {
    /// Reads the general API info from the ordered lines of the entry
    /// file, per `spec_parse_general_api_info`.
    pub fn parse_general_api_info(&self, lines: &Vec<String>) -> (r: Result<
        ParsedApiInfo,
        ParserError,
    >)
        ensures
            match r {
                Ok(a) => spec_parse_general_api_info(seq_view(lines@)) == Ok::<
                    ParsedApiInfoView,
                    ParserErrorView,
                >(a@),
                Err(e) => spec_parse_general_api_info(seq_view(lines@)) == Err::<
                    ParsedApiInfoView,
                    ParserErrorView,
                >(e@),
            },
    {
        let ghost lv = seq_view(lines@);
        let mut st = info_scan_init();
        let mut i: usize = 0;
        assert(lv.take(0) =~= Seq::<Seq<char>>::empty());
        while i < lines.len()
            invariant
                i <= lines@.len(),
                lv == seq_view(lines@),
                lv.len() == lines@.len(),
                spec_info_scan(lv.take(i as int)) == Ok::<InfoScanView, ParserErrorView>(st@),
            decreases lines@.len() - i,
        {
            let line = to_chars(lines[i].as_str());
            proof {
                assert(lv[i as int] == lines@[i as int]@);
                assert(lv.take(i + 1 as int).drop_last() =~= lv.take(i as int));
                assert(lv.take(i + 1 as int).last() == lv[i as int]);
            }
            match info_line_step(st, &line) {
                Ok(s2) => {
                    st = s2;
                },
                Err(e) => {
                    proof {
                        lemma_info_scan_err(lv, i + 1, e@);
                    }
                    return Err(e);
                },
            }
            i += 1;
        }
        proof {
            assert(lv.take(lv.len() as int) =~= lv);
        }
        let api = info_scan_finish(st);
        Ok(api)
    }
}

} // verus!
