//! Security definition building: `@securityDefinitions.<attribute> value`
//! annotations grow and update the named security schemes.

use vstd::prelude::*;

use crate::assoc::{
    has_key, key_index, lemma_key_idx, spec_assoc_set, spec_has_key, spec_key_idx, spec_key_value,
    str_eq, assoc_set,
};
use crate::chars::{chars_to_string, lower_chars, spec_lower, spec_split_char, split_char, to_chars, str_concat};
use crate::errors::{ParserError, ParserErrorView};
use crate::models::{
    pairs_view, seq_view, spec_empty_flow, spec_empty_flows, spec_scheme_of_type, OAuthFlow,
    OAuthFlowView, OAuthFlows, OAuthFlowsView, ParsedApiInfo, ParsedApiInfoView, SecurityScheme,
    SecuritySchemeView,
};
use crate::parser::GoParser;

verus! {

/// Shorthand for the view of a security definitions map.
pub type DefsView = Seq<(Seq<char>, SecuritySchemeView)>;

/// A flow with one URL field set from the annotation value, or the
/// scope map grown by one entry; nothing when the property does not
/// address this flow.
pub open spec fn spec_flows_update(
    fl: OAuthFlowsView,
    parts: Seq<Seq<char>>,
    value: Seq<char>,
) -> Option<OAuthFlowsView>
    recommends
        parts.len() >= 3,
{
    let flow_type = parts[1];
    let property = parts[2];
    if property == "authorizationUrl"@ {
        if flow_type == "implicit"@ && fl.implicit is Some {
            Some(OAuthFlowsView {
                implicit: Some(OAuthFlowView { authorizationUrl: Some(value), ..fl.implicit->0 }),
                ..fl
            })
        } else {
            None
        }
    } else if property == "tokenUrl"@ {
        if flow_type == "password"@ && fl.password is Some {
            Some(OAuthFlowsView {
                password: Some(OAuthFlowView { tokenUrl: Some(value), ..fl.password->0 }),
                ..fl
            })
        } else if (flow_type == "clientcredentials"@ || flow_type == "application"@)
            && fl.clientCredentials is Some {
            Some(OAuthFlowsView {
                clientCredentials: Some(
                    OAuthFlowView { tokenUrl: Some(value), ..fl.clientCredentials->0 },
                ),
                ..fl
            })
        } else if (flow_type == "authorizationcode"@ || flow_type == "accesscode"@)
            && fl.authorizationCode is Some {
            Some(OAuthFlowsView {
                authorizationCode: Some(
                    OAuthFlowView { tokenUrl: Some(value), ..fl.authorizationCode->0 },
                ),
                ..fl
            })
        } else {
            None
        }
    } else if property == "refreshUrl"@ {
        if flow_type == "implicit"@ && fl.implicit is Some {
            Some(OAuthFlowsView {
                implicit: Some(OAuthFlowView { refreshUrl: Some(value), ..fl.implicit->0 }),
                ..fl
            })
        } else if flow_type == "password"@ && fl.password is Some {
            Some(OAuthFlowsView {
                password: Some(OAuthFlowView { refreshUrl: Some(value), ..fl.password->0 }),
                ..fl
            })
        } else if (flow_type == "clientcredentials"@ || flow_type == "application"@)
            && fl.clientCredentials is Some {
            Some(OAuthFlowsView {
                clientCredentials: Some(
                    OAuthFlowView { refreshUrl: Some(value), ..fl.clientCredentials->0 },
                ),
                ..fl
            })
        } else if (flow_type == "authorizationcode"@ || flow_type == "accesscode"@)
            && fl.authorizationCode is Some {
            Some(OAuthFlowsView {
                authorizationCode: Some(
                    OAuthFlowView { refreshUrl: Some(value), ..fl.authorizationCode->0 },
                ),
                ..fl
            })
        } else {
            None
        }
    } else if property == "scopes"@ {
        if parts.len() >= 4 {
            let scope_name = parts[3];
            if flow_type == "implicit"@ && fl.implicit is Some {
                Some(OAuthFlowsView {
                    implicit: Some(
                        OAuthFlowView {
                            scopes: spec_assoc_set((fl.implicit->0).scopes, scope_name, value),
                            ..fl.implicit->0
                        },
                    ),
                    ..fl
                })
            } else if flow_type == "password"@ && fl.password is Some {
                Some(OAuthFlowsView {
                    password: Some(
                        OAuthFlowView {
                            scopes: spec_assoc_set((fl.password->0).scopes, scope_name, value),
                            ..fl.password->0
                        },
                    ),
                    ..fl
                })
            } else if (flow_type == "clientcredentials"@ || flow_type == "application"@)
                && fl.clientCredentials is Some {
                Some(OAuthFlowsView {
                    clientCredentials: Some(
                        OAuthFlowView {
                            scopes: spec_assoc_set(
                                (fl.clientCredentials->0).scopes,
                                scope_name,
                                value,
                            ),
                            ..fl.clientCredentials->0
                        },
                    ),
                    ..fl
                })
            } else if (flow_type == "authorizationcode"@ || flow_type == "accesscode"@)
                && fl.authorizationCode is Some {
                Some(OAuthFlowsView {
                    authorizationCode: Some(
                        OAuthFlowView {
                            scopes: spec_assoc_set(
                                (fl.authorizationCode->0).scopes,
                                scope_name,
                                value,
                            ),
                            ..fl.authorizationCode->0
                        },
                    ),
                    ..fl
                })
            } else {
                None
            }
        } else {
            None
        }
    } else {
        None
    }
}

/// The scheme with its flows updated per `spec_flows_update`; nothing
/// when it has no flows or the property does not apply.
pub open spec fn spec_scheme_flows_apply(
    sch: SecuritySchemeView,
    parts: Seq<Seq<char>>,
    value: Seq<char>,
) -> Option<SecuritySchemeView> {
    match sch.flows {
        Some(fl) => match spec_flows_update(fl, parts, value) {
            Some(f2) => Some(SecuritySchemeView { flows: Some(f2), ..sch }),
            None => None,
        },
        None => None,
    }
}

/// The definitions with the scheme under `key` updated per
/// `spec_scheme_flows_apply`.
pub open spec fn spec_oauth_update(
    defs: DefsView,
    key: Seq<char>,
    parts: Seq<Seq<char>>,
    value: Seq<char>,
) -> Option<DefsView>
    recommends
        spec_has_key(defs, key),
{
    match spec_scheme_flows_apply(spec_key_value(defs, key), parts, value) {
        Some(s2) => Some(defs.update(spec_key_idx(defs, key), (key, s2))),
        None => None,
    }
}

/// The in-place updates that a dotted security attribute makes on an
/// existing scheme; nothing when no existing scheme is addressed, so
/// that the annotation defines a scheme instead.
pub open spec fn spec_secdef_update(
    defs: DefsView,
    parts: Seq<Seq<char>>,
    value: Seq<char>,
) -> Option<Result<DefsView, ParserErrorView>> {
    if parts.len() < 2 {
        None
    } else {
        let security_type = spec_lower(parts[0]);
        let sub = parts[1];
        if security_type == "apikey"@ && spec_has_key(defs, value) {
            let i = spec_key_idx(defs, value);
            if sub == "in"@ {
                Some(
                    Ok(
                        defs.update(
                            i,
                            (value, SecuritySchemeView { in_type: Some(sub), ..defs[i].1 }),
                        ),
                    ),
                )
            } else if sub == "name"@ {
                Some(
                    Ok(defs.update(i, (value, SecuritySchemeView { name: Some(sub), ..defs[i].1 }))),
                )
            } else if sub == "description"@ {
                Some(
                    Ok(
                        defs.update(
                            i,
                            (value, SecuritySchemeView { description: Some(sub), ..defs[i].1 }),
                        ),
                    ),
                )
            } else {
                None
            }
        } else if security_type == "apikey"@ {
            if spec_has_key(defs, "ApiKeyAuth"@) {
                let i = spec_key_idx(defs, "ApiKeyAuth"@);
                if sub == "in"@ {
                    Some(
                        Ok(
                            defs.update(
                                i,
                                (
                                    "ApiKeyAuth"@,
                                    SecuritySchemeView { in_type: Some(value), ..defs[i].1 },
                                ),
                            ),
                        ),
                    )
                } else if sub == "name"@ {
                    Some(
                        Ok(
                            defs.update(
                                i,
                                (
                                    "ApiKeyAuth"@,
                                    SecuritySchemeView { name: Some(value), ..defs[i].1 },
                                ),
                            ),
                        ),
                    )
                } else if sub == "description"@ {
                    Some(
                        Ok(
                            defs.update(
                                i,
                                (
                                    "ApiKeyAuth"@,
                                    SecuritySchemeView { description: Some(value), ..defs[i].1 },
                                ),
                            ),
                        ),
                    )
                } else {
                    None
                }
            } else {
                None
            }
        } else if security_type == "oauth2"@ && parts.len() >= 3 {
            if spec_has_key(defs, "OAuth2"@) {
                match spec_oauth_update(defs, "OAuth2"@, parts, value) {
                    Some(d2) => Some(Ok(d2)),
                    None => None,
                }
            } else if spec_has_key(defs, value) {
                match spec_oauth_update(defs, value, parts, value) {
                    Some(d2) => Some(Ok(d2)),
                    None => None,
                }
            } else {
                None
            }
        } else {
            None
        }
    }
}

/// The scheme that a direct security definition inserts, and the errors
/// a malformed one raises.
pub open spec fn spec_secdef_define(
    defs: DefsView,
    parts: Seq<Seq<char>>,
    attribute: Seq<char>,
    value: Seq<char>,
) -> Result<DefsView, ParserErrorView>
    recommends
        parts.len() >= 1,
{
    let first_part = spec_lower(parts[0]);
    if first_part == "apikey"@ {
        Ok(spec_assoc_set(defs, value, spec_scheme_of_type("apiKey"@)))
    } else if first_part == "basic"@ {
        Ok(
            spec_assoc_set(
                defs,
                value,
                SecuritySchemeView { scheme: Some("basic"@), ..spec_scheme_of_type("http"@) },
            ),
        )
    } else if first_part == "bearer"@ || first_part == "jwt"@ {
        Ok(
            spec_assoc_set(
                defs,
                value,
                SecuritySchemeView {
                    scheme: Some("bearer"@),
                    bearerFormat: if first_part == "jwt"@ {
                        Some("JWT"@)
                    } else {
                        None
                    },
                    ..spec_scheme_of_type("http"@)
                },
            ),
        )
    } else if first_part == "oauth2"@ {
        if parts.len() >= 2 {
            let flow_type = parts[1];
            let flows = if flow_type == "implicit"@ {
                Some(OAuthFlowsView { implicit: Some(spec_empty_flow()), ..spec_empty_flows() })
            } else if flow_type == "password"@ {
                Some(OAuthFlowsView { password: Some(spec_empty_flow()), ..spec_empty_flows() })
            } else if flow_type == "clientcredentials"@ || flow_type == "application"@ {
                Some(
                    OAuthFlowsView {
                        clientCredentials: Some(spec_empty_flow()),
                        ..spec_empty_flows()
                    },
                )
            } else if flow_type == "authorizationcode"@ || flow_type == "accesscode"@ {
                Some(
                    OAuthFlowsView {
                        authorizationCode: Some(spec_empty_flow()),
                        ..spec_empty_flows()
                    },
                )
            } else {
                None
            };
            match flows {
                Some(f) => Ok(
                    spec_assoc_set(
                        defs,
                        value,
                        SecuritySchemeView { flows: Some(f), ..spec_scheme_of_type("oauth2"@) },
                    ),
                ),
                None => Err(
                    ParserErrorView::SecurityParseError("Unknown OAuth2 flow type: "@ + flow_type),
                ),
            }
        } else {
            Err(ParserErrorView::SecurityParseError("OAuth2 requires a flow type: "@ + attribute))
        }
    } else if first_part == "openidconnect"@ {
        Ok(
            spec_assoc_set(
                defs,
                value,
                SecuritySchemeView {
                    openIdConnectUrl: Some(
                        if parts.len() >= 2 {
                            parts[1]
                        } else {
                            Seq::empty()
                        },
                    ),
                    ..spec_scheme_of_type("openIdConnect"@)
                },
            ),
        )
    } else if parts.len() < 2 {
        Err(
            ParserErrorView::SecurityParseError(
                "Invalid security definition attribute: "@ + attribute,
            ),
        )
    } else {
        Ok(defs)
    }
}

/// What one security definition annotation makes of the definitions map:
/// either an in-place update of an existing scheme, or the definition of
/// a new one, or an error that leaves the map as it was.
pub open spec fn spec_security_def(
    defs: DefsView,
    attribute: Seq<char>,
    value: Seq<char>,
) -> Result<DefsView, ParserErrorView> {
    let parts = spec_split_char(attribute, '.');
    match spec_secdef_update(defs, parts, value) {
        Some(r) => r,
        None => spec_secdef_define(defs, parts, attribute, value),
    }
}

/// The flows rebuilt with one field updated, per `spec_flows_update`.
fn flows_update(fl: OAuthFlows, parts: &Vec<String>, value: &str) -> (r: (OAuthFlows, bool))
    requires
        parts@.len() >= 3,
    ensures
        match spec_flows_update(fl@, seq_view(parts@), value@) {
            Some(f2) => r.1 && r.0@ == f2,
            None => !r.1 && r.0@ == fl@,
        },
{
    proof {
        reveal_strlit("implicit");
        reveal_strlit("password");
        reveal_strlit("clientcredentials");
        reveal_strlit("application");
        reveal_strlit("authorizationcode");
        reveal_strlit("accesscode");
        reveal_strlit("authorizationUrl");
        reveal_strlit("tokenUrl");
        reveal_strlit("refreshUrl");
        reveal_strlit("scopes");
        assert("clientcredentials"@[0] == 'c' && "authorizationcode"@[0] == 'a');
        assert("implicit"@[0] == 'i' && "password"@[0] == 'p');
        assert(seq_view(parts@).len() == parts@.len());
        assert(seq_view(parts@)[1] == parts@[1]@);
        assert(seq_view(parts@)[2] == parts@[2]@);
        if parts@.len() >= 4 {
            assert(seq_view(parts@)[3] == parts@[3]@);
        }
    }
    let OAuthFlows { implicit, password, clientCredentials, authorizationCode } = fl;
    let ft = parts[1].as_str();
    let prop = parts[2].as_str();
    if str_eq(prop, "authorizationUrl") {
        if str_eq(ft, "implicit") {
            match implicit {
                Some(f) => {
                    let f2 = OAuthFlow { authorizationUrl: Some(value.to_owned()), ..f };
                    return (
                        OAuthFlows { implicit: Some(f2), password, clientCredentials, authorizationCode },
                        true,
                    );
                },
                None => {
                    return (
                        OAuthFlows { implicit: None, password, clientCredentials, authorizationCode },
                        false,
                    );
                },
            }
        }
    } else if str_eq(prop, "tokenUrl") {
        if str_eq(ft, "password") {
            match password {
                Some(f) => {
                    let f2 = OAuthFlow { tokenUrl: Some(value.to_owned()), ..f };
                    return (
                        OAuthFlows { implicit, password: Some(f2), clientCredentials, authorizationCode },
                        true,
                    );
                },
                None => {
                    return (
                        OAuthFlows { implicit, password: None, clientCredentials, authorizationCode },
                        false,
                    );
                },
            }
        } else if str_eq(ft, "clientcredentials") || str_eq(ft, "application") {
            match clientCredentials {
                Some(f) => {
                    let f2 = OAuthFlow { tokenUrl: Some(value.to_owned()), ..f };
                    return (
                        OAuthFlows { implicit, password, clientCredentials: Some(f2), authorizationCode },
                        true,
                    );
                },
                None => {
                    return (
                        OAuthFlows { implicit, password, clientCredentials: None, authorizationCode },
                        false,
                    );
                },
            }
        } else if str_eq(ft, "authorizationcode") || str_eq(ft, "accesscode") {
            match authorizationCode {
                Some(f) => {
                    let f2 = OAuthFlow { tokenUrl: Some(value.to_owned()), ..f };
                    return (
                        OAuthFlows { implicit, password, clientCredentials, authorizationCode: Some(f2) },
                        true,
                    );
                },
                None => {
                    return (
                        OAuthFlows { implicit, password, clientCredentials, authorizationCode: None },
                        false,
                    );
                },
            }
        }
    } else if str_eq(prop, "refreshUrl") {
        if str_eq(ft, "implicit") {
            match implicit {
                Some(f) => {
                    let f2 = OAuthFlow { refreshUrl: Some(value.to_owned()), ..f };
                    return (
                        OAuthFlows { implicit: Some(f2), password, clientCredentials, authorizationCode },
                        true,
                    );
                },
                None => {
                    return (
                        OAuthFlows { implicit: None, password, clientCredentials, authorizationCode },
                        false,
                    );
                },
            }
        } else if str_eq(ft, "password") {
            match password {
                Some(f) => {
                    let f2 = OAuthFlow { refreshUrl: Some(value.to_owned()), ..f };
                    return (
                        OAuthFlows { implicit, password: Some(f2), clientCredentials, authorizationCode },
                        true,
                    );
                },
                None => {
                    return (
                        OAuthFlows { implicit, password: None, clientCredentials, authorizationCode },
                        false,
                    );
                },
            }
        } else if str_eq(ft, "clientcredentials") || str_eq(ft, "application") {
            match clientCredentials {
                Some(f) => {
                    let f2 = OAuthFlow { refreshUrl: Some(value.to_owned()), ..f };
                    return (
                        OAuthFlows { implicit, password, clientCredentials: Some(f2), authorizationCode },
                        true,
                    );
                },
                None => {
                    return (
                        OAuthFlows { implicit, password, clientCredentials: None, authorizationCode },
                        false,
                    );
                },
            }
        } else if str_eq(ft, "authorizationcode") || str_eq(ft, "accesscode") {
            match authorizationCode {
                Some(f) => {
                    let f2 = OAuthFlow { refreshUrl: Some(value.to_owned()), ..f };
                    return (
                        OAuthFlows { implicit, password, clientCredentials, authorizationCode: Some(f2) },
                        true,
                    );
                },
                None => {
                    return (
                        OAuthFlows { implicit, password, clientCredentials, authorizationCode: None },
                        false,
                    );
                },
            }
        }
    } else if str_eq(prop, "scopes") {
        if parts.len() >= 4 {
            if str_eq(ft, "implicit") {
                match implicit {
                    Some(f) => {
                        let mut f2 = f;
                        assoc_set(&mut f2.scopes, parts[3].clone(), value.to_owned());
                        return (
                            OAuthFlows { implicit: Some(f2), password, clientCredentials, authorizationCode },
                            true,
                        );
                    },
                    None => {
                        return (
                            OAuthFlows { implicit: None, password, clientCredentials, authorizationCode },
                            false,
                        );
                    },
                }
            } else if str_eq(ft, "password") {
                match password {
                    Some(f) => {
                        let mut f2 = f;
                        assoc_set(&mut f2.scopes, parts[3].clone(), value.to_owned());
                        return (
                            OAuthFlows { implicit, password: Some(f2), clientCredentials, authorizationCode },
                            true,
                        );
                    },
                    None => {
                        return (
                            OAuthFlows { implicit, password: None, clientCredentials, authorizationCode },
                            false,
                        );
                    },
                }
            } else if str_eq(ft, "clientcredentials") || str_eq(ft, "application") {
                match clientCredentials {
                    Some(f) => {
                        let mut f2 = f;
                        assoc_set(&mut f2.scopes, parts[3].clone(), value.to_owned());
                        return (
                            OAuthFlows { implicit, password, clientCredentials: Some(f2), authorizationCode },
                            true,
                        );
                    },
                    None => {
                        return (
                            OAuthFlows { implicit, password, clientCredentials: None, authorizationCode },
                            false,
                        );
                    },
                }
            } else if str_eq(ft, "authorizationcode") || str_eq(ft, "accesscode") {
                match authorizationCode {
                    Some(f) => {
                        let mut f2 = f;
                        assoc_set(&mut f2.scopes, parts[3].clone(), value.to_owned());
                        return (
                            OAuthFlows { implicit, password, clientCredentials, authorizationCode: Some(f2) },
                            true,
                        );
                    },
                    None => {
                        return (
                            OAuthFlows { implicit, password, clientCredentials, authorizationCode: None },
                            false,
                        );
                    },
                }
            }
        }
    }
    (OAuthFlows { implicit, password, clientCredentials, authorizationCode }, false)
}

/// The scheme rebuilt with its flows updated, per
/// `spec_scheme_flows_apply`.
fn scheme_flows_apply(sch: SecurityScheme, parts: &Vec<String>, value: &str) -> (r: (
    SecurityScheme,
    bool,
))
    requires
        parts@.len() >= 3,
    ensures
        match spec_scheme_flows_apply(sch@, seq_view(parts@), value@) {
            Some(s2) => r.1 && r.0@ == s2,
            None => !r.1 && r.0@ == sch@,
        },
{
    let SecurityScheme {
        type_,
        description,
        name,
        in_type,
        scheme,
        bearerFormat,
        flows,
        openIdConnectUrl,
    } = sch;
    match flows {
        Some(fl) => {
            let (f2, applied) = flows_update(fl, parts, value);
            (
                SecurityScheme {
                    type_,
                    description,
                    name,
                    in_type,
                    scheme,
                    bearerFormat,
                    flows: Some(f2),
                    openIdConnectUrl,
                },
                applied,
            )
        },
        None => (
            SecurityScheme {
                type_,
                description,
                name,
                in_type,
                scheme,
                bearerFormat,
                flows: None,
                openIdConnectUrl,
            },
            false,
        ),
    }
}

/// Updates the scheme under `key` in place, per `spec_oauth_update`;
/// reports whether the property applied.
fn oauth_apply(
    defs: &mut Vec<(String, SecurityScheme)>,
    key: &str,
    parts: &Vec<String>,
    value: &str,
) -> (r: bool)
    requires
        spec_has_key(pairs_view(old(defs)@), key@),
        parts@.len() >= 3,
    ensures
        match spec_oauth_update(pairs_view(old(defs)@), key@, seq_view(parts@), value@) {
            Some(d2) => r && pairs_view(final(defs)@) == d2,
            None => !r && pairs_view(final(defs)@) == pairs_view(old(defs)@),
        },
{
    proof {
        lemma_key_idx(pairs_view(defs@), key@);
    }
    let i = key_index(defs, key);
    let sch = defs[i].1.dup();
    let (sch2, applied) = scheme_flows_apply(sch, parts, value);
    if applied {
        let e = &mut defs[i];
        *e = (key.to_owned(), sch2);
        proof {
            assert(pairs_view(defs@) =~= spec_oauth_update(
                pairs_view(old(defs)@),
                key@,
                seq_view(parts@),
                value@,
            )->0);
        }
        true
    } else {
        false
    }
}

/// Replaces the whole scheme under `key`, which must be present.
fn sd_replace(defs: &mut Vec<(String, SecurityScheme)>, key: &str, sch: SecurityScheme)
    requires
        spec_has_key(pairs_view(old(defs)@), key@),
    ensures
        pairs_view(final(defs)@) == pairs_view(old(defs)@).update(
            spec_key_idx(pairs_view(old(defs)@), key@),
            (key@, sch@),
        ),
{
    proof {
        lemma_key_idx(pairs_view(defs@), key@);
    }
    let i = key_index(defs, key);
    let e = &mut defs[i];
    *e = (key.to_owned(), sch);
    proof {
        assert(pairs_view(defs@) =~= pairs_view(old(defs)@).update(
            spec_key_idx(pairs_view(old(defs)@), key@),
            (key@, sch@),
        ));
    }
}

impl GoParser {
    /// Applies one security definition annotation to the map of named
    /// security schemes, per `spec_security_def`; nothing else of the
    /// API info changes, and on an error nothing changes at all.
    pub fn parse_security_definition(
        &self,
        api_info: &mut ParsedApiInfo,
        attribute: &str,
        value: &str,
    ) -> (r: Result<(), ParserError>)
        ensures
            match r {
                Ok(_) => spec_security_def(
                    pairs_view(old(api_info).security_definitions@),
                    attribute@,
                    value@,
                ) == Ok::<DefsView, ParserErrorView>(pairs_view(final(api_info).security_definitions@)),
                Err(e) => spec_security_def(
                    pairs_view(old(api_info).security_definitions@),
                    attribute@,
                    value@,
                ) == Err::<DefsView, ParserErrorView>(e@) && pairs_view(
                    final(api_info).security_definitions@,
                ) == pairs_view(old(api_info).security_definitions@),
            },
            final(api_info).info == old(api_info).info,
            final(api_info).servers == old(api_info).servers,
            final(api_info).security == old(api_info).security,
            final(api_info).tags == old(api_info).tags,
            final(api_info).external_docs == old(api_info).external_docs,
            final(api_info).host == old(api_info).host,
            final(api_info).base_path == old(api_info).base_path,
            final(api_info).schemes == old(api_info).schemes,
            final(api_info).consumes == old(api_info).consumes,
            final(api_info).produces == old(api_info).produces,
    {
        let attr_chars = to_chars(attribute);
        let parts = split_char(&attr_chars, '.');
        let ghost parts_v = spec_split_char(attribute@, '.');
        proof {
            crate::chars::lemma_split_char_from_len(attribute@, '.', 0);
            reveal_strlit("apikey");
            reveal_strlit("oauth2");
            reveal_strlit("basic");
            reveal_strlit("bearer");
            reveal_strlit("jwt");
            reveal_strlit("openidconnect");
            assert("apikey"@[0] == 'a' && "oauth2"@[0] == 'o' && "bearer"@[0] == 'b');
            assert(seq_view(parts@) == parts_v);
            assert(parts_v[0] == parts@[0]@);
            if parts_v.len() >= 2 {
                assert(parts_v[1] == parts@[1]@);
            }
        }
        let defs = &mut api_info.security_definitions;
        if parts.len() >= 2 {
            let st_l = chars_to_string(&lower_chars(&to_chars(parts[0].as_str())));
            if str_eq(st_l.as_str(), "apikey") && has_key(defs, value) {
                let sub = parts[1].as_str();
                if str_eq(sub, "in") {
                    let i = key_index(defs, value);
                    proof {
                        lemma_key_idx(pairs_view(defs@), value@);
                    }
                    let mut sch = defs[i].1.dup();
                    sch.in_type = Some(parts[1].clone());
                    sd_replace(defs, value, sch);
                    return Ok(());
                } else if str_eq(sub, "name") {
                    let i = key_index(defs, value);
                    proof {
                        lemma_key_idx(pairs_view(defs@), value@);
                    }
                    let mut sch = defs[i].1.dup();
                    sch.name = Some(parts[1].clone());
                    sd_replace(defs, value, sch);
                    return Ok(());
                } else if str_eq(sub, "description") {
                    let i = key_index(defs, value);
                    proof {
                        lemma_key_idx(pairs_view(defs@), value@);
                    }
                    let mut sch = defs[i].1.dup();
                    sch.description = Some(parts[1].clone());
                    sd_replace(defs, value, sch);
                    return Ok(());
                }
            } else if str_eq(st_l.as_str(), "apikey") {
                if has_key(defs, "ApiKeyAuth") {
                    let sub = parts[1].as_str();
                    if str_eq(sub, "in") {
                        let i = key_index(defs, "ApiKeyAuth");
                        proof {
                            lemma_key_idx(pairs_view(defs@), "ApiKeyAuth"@);
                        }
                        let mut sch = defs[i].1.dup();
                        sch.in_type = Some(value.to_owned());
                        sd_replace(defs, "ApiKeyAuth", sch);
                        return Ok(());
                    } else if str_eq(sub, "name") {
                        let i = key_index(defs, "ApiKeyAuth");
                        proof {
                            lemma_key_idx(pairs_view(defs@), "ApiKeyAuth"@);
                        }
                        let mut sch = defs[i].1.dup();
                        sch.name = Some(value.to_owned());
                        sd_replace(defs, "ApiKeyAuth", sch);
                        return Ok(());
                    } else if str_eq(sub, "description") {
                        let i = key_index(defs, "ApiKeyAuth");
                        proof {
                            lemma_key_idx(pairs_view(defs@), "ApiKeyAuth"@);
                        }
                        let mut sch = defs[i].1.dup();
                        sch.description = Some(value.to_owned());
                        sd_replace(defs, "ApiKeyAuth", sch);
                        return Ok(());
                    }
                }
            } else if str_eq(st_l.as_str(), "oauth2") && parts.len() >= 3 {
                if has_key(defs, "OAuth2") {
                    if oauth_apply(defs, "OAuth2", &parts, value) {
                        return Ok(());
                    }
                } else if has_key(defs, value) {
                    if oauth_apply(defs, value, &parts, value) {
                        return Ok(());
                    }
                }
            }
        }
        let first_part = chars_to_string(&lower_chars(&to_chars(parts[0].as_str())));
        if str_eq(first_part.as_str(), "apikey") {
            assoc_set(defs, value.to_owned(), SecurityScheme::of_type("apiKey".to_owned()));
            Ok(())
        } else if str_eq(first_part.as_str(), "basic") {
            let mut sch = SecurityScheme::of_type("http".to_owned());
            sch.scheme = Some("basic".to_owned());
            assoc_set(defs, value.to_owned(), sch);
            Ok(())
        } else if str_eq(first_part.as_str(), "bearer") || str_eq(first_part.as_str(), "jwt") {
            let mut sch = SecurityScheme::of_type("http".to_owned());
            sch.scheme = Some("bearer".to_owned());
            if str_eq(first_part.as_str(), "jwt") {
                sch.bearerFormat = Some("JWT".to_owned());
            }
            assoc_set(defs, value.to_owned(), sch);
            Ok(())
        } else if str_eq(first_part.as_str(), "oauth2") {
            if parts.len() >= 2 {
                let ft = parts[1].as_str();
                let mut flows = OAuthFlows::new();
                if str_eq(ft, "implicit") {
                    flows.implicit = Some(OAuthFlow::new());
                } else if str_eq(ft, "password") {
                    flows.password = Some(OAuthFlow::new());
                } else if str_eq(ft, "clientcredentials") || str_eq(ft, "application") {
                    flows.clientCredentials = Some(OAuthFlow::new());
                } else if str_eq(ft, "authorizationcode") || str_eq(ft, "accesscode") {
                    flows.authorizationCode = Some(OAuthFlow::new());
                } else {
                    return Err(ParserError::SecurityParseError(
                        str_concat("Unknown OAuth2 flow type: ", ft),
                    ));
                }
                let mut sch = SecurityScheme::of_type("oauth2".to_owned());
                sch.flows = Some(flows);
                assoc_set(defs, value.to_owned(), sch);
                Ok(())
            } else {
                Err(ParserError::SecurityParseError(
                    str_concat("OAuth2 requires a flow type: ", attribute),
                ))
            }
        } else if str_eq(first_part.as_str(), "openidconnect") {
            let mut sch = SecurityScheme::of_type("openIdConnect".to_owned());
            if parts.len() >= 2 {
                sch.openIdConnectUrl = Some(parts[1].clone());
            } else {
                sch.openIdConnectUrl = Some(String::new());
            }
            assoc_set(defs, value.to_owned(), sch);
            Ok(())
        } else if parts.len() < 2 {
            Err(ParserError::SecurityParseError(
                str_concat("Invalid security definition attribute: ", attribute),
            ))
        } else {
            Ok(())
        }
    }
}

} // verus!
