//! The document model: API metadata, operations, and the recursive schema
//! node, together with the ghost views that all contracts are stated over.

#![allow(non_snake_case)]

use vstd::prelude::*;

verus! {

/// View of an optional viewable value.
pub open spec fn opt_view<T: View>(o: Option<T>) -> Option<T::V> {
    match o {
        Some(x) => Some(x@),
        None => None,
    }
}

/// Views of a sequence of viewable values.
pub open spec fn seq_view<T: View>(s: Seq<T>) -> Seq<T::V> {
    s.map_values(|x: T| x@)
}

/// Views of a name-keyed association sequence.
pub open spec fn pairs_view<T: View>(s: Seq<(String, T)>) -> Seq<(Seq<char>, T::V)> {
    s.map_values(|p: (String, T)| (p.0@, p.1@))
}

/// Contact information for the API.
#[derive(Debug, Clone)]
pub struct Contact {
    pub name: Option<String>,
    pub url: Option<String>,
    pub email: Option<String>,
}

pub ghost struct ContactView {
    pub name: Option<Seq<char>>,
    pub url: Option<Seq<char>>,
    pub email: Option<Seq<char>>,
}

impl View for Contact {
    type V = ContactView;

    open spec fn view(&self) -> ContactView {
        ContactView { name: opt_view(self.name), url: opt_view(self.url), email: opt_view(self.email) }
    }
}

impl Contact {
    /// A contact with no field set.
    pub fn new() -> (r: Contact)
        ensures
            r@ == (ContactView { name: None::<Seq<char>>, url: None::<Seq<char>>, email: None::<Seq<char>> }),
    {
        Contact { name: None, url: None, email: None }
    }
}

/// License information for the API.
#[derive(Debug, Clone)]
pub struct License {
    pub name: String,
    pub url: Option<String>,
    pub identifier: Option<String>,
}

pub ghost struct LicenseView {
    pub name: Seq<char>,
    pub url: Option<Seq<char>>,
    pub identifier: Option<Seq<char>>,
}

impl View for License {
    type V = LicenseView;

    open spec fn view(&self) -> LicenseView {
        LicenseView { name: self.name@, url: opt_view(self.url), identifier: opt_view(self.identifier) }
    }
}

impl License {
    /// A license with an empty name and no other field set.
    pub fn new() -> (r: License)
        ensures
            r@ == (LicenseView { name: Seq::<char>::empty(), url: None::<Seq<char>>, identifier: None::<Seq<char>> }),
    {
        License { name: String::new(), url: None, identifier: None }
    }
}

/// Information about the API.
#[derive(Debug, Clone)]
pub struct Info {
    pub title: String,
    pub version: String,
    pub description: Option<String>,
    pub termsOfService: Option<String>,
    pub contact: Option<Contact>,
    pub license: Option<License>,
    pub summary: Option<String>,
}

pub ghost struct InfoView {
    pub title: Seq<char>,
    pub version: Seq<char>,
    pub description: Option<Seq<char>>,
    pub termsOfService: Option<Seq<char>>,
    pub contact: Option<ContactView>,
    pub license: Option<LicenseView>,
    pub summary: Option<Seq<char>>,
}

impl View for Info {
    type V = InfoView;

    open spec fn view(&self) -> InfoView {
        InfoView {
            title: self.title@,
            version: self.version@,
            description: opt_view(self.description),
            termsOfService: opt_view(self.termsOfService),
            contact: opt_view(self.contact),
            license: opt_view(self.license),
            summary: opt_view(self.summary),
        }
    }
}

/// The empty API info value.
pub open spec fn spec_empty_info() -> InfoView {
    InfoView {
        title: Seq::<char>::empty(),
        version: Seq::<char>::empty(),
        description: None,
        termsOfService: None,
        contact: None,
        license: None,
        summary: None,
    }
}

/// External documentation link.
#[derive(Debug, Clone)]
pub struct ExternalDocs {
    pub description: Option<String>,
    pub url: String,
}

pub ghost struct ExternalDocsView {
    pub description: Option<Seq<char>>,
    pub url: Seq<char>,
}

impl View for ExternalDocs {
    type V = ExternalDocsView;

    open spec fn view(&self) -> ExternalDocsView {
        ExternalDocsView { description: opt_view(self.description), url: self.url@ }
    }
}

/// Tag information for API operations.
#[derive(Debug, Clone)]
pub struct Tag {
    pub name: String,
    pub description: Option<String>,
    pub externalDocs: Option<ExternalDocs>,
}

pub ghost struct TagView {
    pub name: Seq<char>,
    pub description: Option<Seq<char>>,
    pub externalDocs: Option<ExternalDocsView>,
}

impl View for Tag {
    type V = TagView;

    open spec fn view(&self) -> TagView {
        TagView {
            name: self.name@,
            description: opt_view(self.description),
            externalDocs: opt_view(self.externalDocs),
        }
    }
}

/// Server variable for templated server URLs.
#[derive(Debug, Clone)]
pub struct ServerVariable {
    pub enum_values: Option<Vec<String>>,
    pub default: String,
    pub description: Option<String>,
}

pub ghost struct ServerVariableView {
    pub enum_values: Option<Seq<Seq<char>>>,
    pub default: Seq<char>,
    pub description: Option<Seq<char>>,
}

impl View for ServerVariable {
    type V = ServerVariableView;

    open spec fn view(&self) -> ServerVariableView {
        ServerVariableView {
            enum_values: match self.enum_values {
                Some(v) => Some(seq_view(v@)),
                None => None,
            },
            default: self.default@,
            description: opt_view(self.description),
        }
    }
}

/// Server object for an API endpoint.
#[derive(Debug, Clone)]
pub struct Server {
    pub url: String,
    pub description: Option<String>,
    pub variables: Vec<(String, ServerVariable)>,
}

pub ghost struct ServerView {
    pub url: Seq<char>,
    pub description: Option<Seq<char>>,
    pub variables: Seq<(Seq<char>, ServerVariableView)>,
}

impl View for Server {
    type V = ServerView;

    open spec fn view(&self) -> ServerView {
        ServerView {
            url: self.url@,
            description: opt_view(self.description),
            variables: pairs_view(self.variables@),
        }
    }
}

/// A server with the given url, no description and no variables.
pub open spec fn spec_server_of_url(url: Seq<char>) -> ServerView {
    ServerView { url: url, description: None, variables: Seq::empty() }
}

impl Server {
    pub fn of_url(url: String) -> (r: Server)
        ensures
            r@ == spec_server_of_url(url@),
    {
        let r = Server { url, description: None, variables: Vec::new() };
        proof {
            assert(r@.variables =~= Seq::<(Seq<char>, ServerVariableView)>::empty());
        }
        r
    }
}

/// One OAuth flow.
#[derive(Debug, Clone)]
pub struct OAuthFlow {
    pub authorizationUrl: Option<String>,
    pub tokenUrl: Option<String>,
    pub refreshUrl: Option<String>,
    pub scopes: Vec<(String, String)>,
}

pub ghost struct OAuthFlowView {
    pub authorizationUrl: Option<Seq<char>>,
    pub tokenUrl: Option<Seq<char>>,
    pub refreshUrl: Option<Seq<char>>,
    pub scopes: Seq<(Seq<char>, Seq<char>)>,
}

impl View for OAuthFlow {
    type V = OAuthFlowView;

    open spec fn view(&self) -> OAuthFlowView {
        OAuthFlowView {
            authorizationUrl: opt_view(self.authorizationUrl),
            tokenUrl: opt_view(self.tokenUrl),
            refreshUrl: opt_view(self.refreshUrl),
            scopes: pairs_view(self.scopes@),
        }
    }
}

/// The OAuth flow with nothing set and no scopes.
pub open spec fn spec_empty_flow() -> OAuthFlowView {
    OAuthFlowView { authorizationUrl: None, tokenUrl: None, refreshUrl: None, scopes: Seq::empty() }
}

impl OAuthFlow {
    pub fn new() -> (r: OAuthFlow)
        ensures
            r@ == spec_empty_flow(),
    {
        let r = OAuthFlow { authorizationUrl: None, tokenUrl: None, refreshUrl: None, scopes: Vec::new() };
        proof {
            assert(r@.scopes =~= Seq::<(Seq<char>, Seq<char>)>::empty());
        }
        r
    }
}

/// The OAuth flows object.
#[derive(Debug, Clone)]
pub struct OAuthFlows {
    pub implicit: Option<OAuthFlow>,
    pub password: Option<OAuthFlow>,
    pub clientCredentials: Option<OAuthFlow>,
    pub authorizationCode: Option<OAuthFlow>,
}

pub ghost struct OAuthFlowsView {
    pub implicit: Option<OAuthFlowView>,
    pub password: Option<OAuthFlowView>,
    pub clientCredentials: Option<OAuthFlowView>,
    pub authorizationCode: Option<OAuthFlowView>,
}

impl View for OAuthFlows {
    type V = OAuthFlowsView;

    open spec fn view(&self) -> OAuthFlowsView {
        OAuthFlowsView {
            implicit: opt_view(self.implicit),
            password: opt_view(self.password),
            clientCredentials: opt_view(self.clientCredentials),
            authorizationCode: opt_view(self.authorizationCode),
        }
    }
}

pub open spec fn spec_empty_flows() -> OAuthFlowsView {
    OAuthFlowsView { implicit: None, password: None, clientCredentials: None, authorizationCode: None }
}

impl OAuthFlows {
    pub fn new() -> (r: OAuthFlows)
        ensures
            r@ == spec_empty_flows(),
    {
        OAuthFlows { implicit: None, password: None, clientCredentials: None, authorizationCode: None }
    }
}

/// A security scheme descriptor.
#[derive(Debug, Clone)]
pub struct SecurityScheme {
    pub type_: String,
    pub description: Option<String>,
    pub name: Option<String>,
    pub in_type: Option<String>,
    pub scheme: Option<String>,
    pub bearerFormat: Option<String>,
    pub flows: Option<OAuthFlows>,
    pub openIdConnectUrl: Option<String>,
}

pub ghost struct SecuritySchemeView {
    pub type_: Seq<char>,
    pub description: Option<Seq<char>>,
    pub name: Option<Seq<char>>,
    pub in_type: Option<Seq<char>>,
    pub scheme: Option<Seq<char>>,
    pub bearerFormat: Option<Seq<char>>,
    pub flows: Option<OAuthFlowsView>,
    pub openIdConnectUrl: Option<Seq<char>>,
}

impl View for SecurityScheme {
    type V = SecuritySchemeView;

    open spec fn view(&self) -> SecuritySchemeView {
        SecuritySchemeView {
            type_: self.type_@,
            description: opt_view(self.description),
            name: opt_view(self.name),
            in_type: opt_view(self.in_type),
            scheme: opt_view(self.scheme),
            bearerFormat: opt_view(self.bearerFormat),
            flows: opt_view(self.flows),
            openIdConnectUrl: opt_view(self.openIdConnectUrl),
        }
    }
}

/// A security scheme of the given type with nothing else set.
pub open spec fn spec_scheme_of_type(t: Seq<char>) -> SecuritySchemeView {
    SecuritySchemeView {
        type_: t,
        description: None,
        name: None,
        in_type: None,
        scheme: None,
        bearerFormat: None,
        flows: None,
        openIdConnectUrl: None,
    }
}

/// One security requirement: a scheme name and the scopes asked of it.
#[derive(Debug, Clone)]
pub struct SecurityRequirement {
    pub name: String,
    pub scopes: Vec<String>,
}

pub ghost struct SecurityRequirementView {
    pub name: Seq<char>,
    pub scopes: Seq<Seq<char>>,
}

impl View for SecurityRequirement {
    type V = SecurityRequirementView;

    open spec fn view(&self) -> SecurityRequirementView {
        SecurityRequirementView { name: self.name@, scopes: seq_view(self.scopes@) }
    }
}

/// XML serialisation hints for a schema node.
#[derive(Debug, Clone)]
pub struct Xml {
    pub name: Option<String>,
    pub namespace: Option<String>,
    pub prefix: Option<String>,
    pub attribute: Option<bool>,
    pub wrapped: Option<bool>,
}

pub ghost struct XmlView {
    pub name: Option<Seq<char>>,
    pub namespace: Option<Seq<char>>,
    pub prefix: Option<Seq<char>>,
    pub attribute: Option<bool>,
    pub wrapped: Option<bool>,
}

impl View for Xml {
    type V = XmlView;

    open spec fn view(&self) -> XmlView {
        XmlView {
            name: opt_view(self.name),
            namespace: opt_view(self.namespace),
            prefix: opt_view(self.prefix),
            attribute: self.attribute,
            wrapped: self.wrapped,
        }
    }
}

/// Discriminator object for schema composition.
#[derive(Debug, Clone)]
pub struct Discriminator {
    pub propertyName: String,
    pub mapping: Vec<(String, String)>,
}

pub ghost struct DiscriminatorView {
    pub propertyName: Seq<char>,
    pub mapping: Seq<(Seq<char>, Seq<char>)>,
}

impl View for Discriminator {
    type V = DiscriminatorView;

    open spec fn view(&self) -> DiscriminatorView {
        DiscriminatorView { propertyName: self.propertyName@, mapping: pairs_view(self.mapping@) }
    }
}

/// A JSON-Schema-shaped type descriptor.  `default` and `example` hold raw
/// JSON text; the `type_` field holds the scalar type name.
#[derive(Debug)]
pub struct Schema {
    pub ref_: Option<String>,
    pub type_: Option<String>,
    pub format: Option<String>,
    pub default: Option<String>,
    pub example: Option<String>,
    pub enum_values: Option<Vec<String>>,
    pub required: Option<Vec<String>>,
    pub properties: Vec<(String, Schema)>,
    pub items: Option<Box<Schema>>,
    pub allOf: Option<Vec<Schema>>,
    pub anyOf: Option<Vec<Schema>>,
    pub oneOf: Option<Vec<Schema>>,
    pub not: Option<Box<Schema>>,
    pub additionalProperties: Option<Box<Schema>>,
}

pub ghost struct SchemaView {
    pub ref_: Option<Seq<char>>,
    pub type_: Option<Seq<char>>,
    pub format: Option<Seq<char>>,
    pub default: Option<Seq<char>>,
    pub example: Option<Seq<char>>,
    pub enum_values: Option<Seq<Seq<char>>>,
    pub required: Option<Seq<Seq<char>>>,
    pub properties: Seq<(Seq<char>, SchemaView)>,
    pub items: Option<Box<SchemaView>>,
    pub allOf: Option<Seq<SchemaView>>,
    pub anyOf: Option<Seq<SchemaView>>,
    pub oneOf: Option<Seq<SchemaView>>,
    pub not: Option<Box<SchemaView>>,
    pub additionalProperties: Option<Box<SchemaView>>,
}

/// The view of a schema node, built structurally.
pub open spec fn schema_view(s: Schema) -> SchemaView
    decreases s,
{
    SchemaView {
        ref_: opt_view(s.ref_),
        type_: opt_view(s.type_),
        format: opt_view(s.format),
        default: opt_view(s.default),
        example: opt_view(s.example),
        enum_values: match s.enum_values {
            Some(v) => Some(seq_view(v@)),
            None => None,
        },
        required: match s.required {
            Some(v) => Some(seq_view(v@)),
            None => None,
        },
        properties: schema_pairs_view(s.properties@),
        items: match s.items {
            Some(b) => Some(Box::new(schema_view(*b))),
            None => None,
        },
        allOf: match s.allOf {
            Some(v) => Some(schema_seq_view(v@)),
            None => None,
        },
        anyOf: match s.anyOf {
            Some(v) => Some(schema_seq_view(v@)),
            None => None,
        },
        oneOf: match s.oneOf {
            Some(v) => Some(schema_seq_view(v@)),
            None => None,
        },
        not: match s.not {
            Some(b) => Some(Box::new(schema_view(*b))),
            None => None,
        },
        additionalProperties: match s.additionalProperties {
            Some(b) => Some(Box::new(schema_view(*b))),
            None => None,
        },
    }
}

/// The views of a sequence of named schema nodes.
pub open spec fn schema_pairs_view(ps: Seq<(String, Schema)>) -> Seq<(Seq<char>, SchemaView)>
    decreases ps,
{
    if ps.len() == 0 {
        Seq::empty()
    } else {
        schema_pairs_view(ps.drop_last()).push((ps.last().0@, schema_view(ps.last().1)))
    }
}

/// The views of a sequence of schema nodes.
pub open spec fn schema_seq_view(ss: Seq<Schema>) -> Seq<SchemaView>
    decreases ss,
{
    if ss.len() == 0 {
        Seq::empty()
    } else {
        schema_seq_view(ss.drop_last()).push(schema_view(ss.last()))
    }
}

impl View for Schema {
    type V = SchemaView;

    open spec fn view(&self) -> SchemaView {
        schema_view(*self)
    }
}

/// The empty schema node (everything unset).
pub open spec fn spec_empty_schema() -> SchemaView {
    SchemaView {
        ref_: None,
        type_: None,
        format: None,
        default: None,
        example: None,
        enum_values: None,
        required: None,
        properties: Seq::empty(),
        items: None,
        allOf: None,
        anyOf: None,
        oneOf: None,
        not: None,
        additionalProperties: None,
    }
}

/// A schema holding only a `$ref`.
pub open spec fn spec_ref_schema(r: Seq<char>) -> SchemaView {
    SchemaView { ref_: Some(r), ..spec_empty_schema() }
}

/// A schema holding only a scalar type name.
pub open spec fn spec_type_schema(t: Seq<char>) -> SchemaView {
    SchemaView { type_: Some(t), ..spec_empty_schema() }
}

/// An array schema with the given item schema.
pub open spec fn spec_array_schema(item: SchemaView) -> SchemaView {
    SchemaView { type_: Some("array"@), items: Some(Box::new(item)), ..spec_empty_schema() }
}

impl Default for Schema {
    /// The empty schema node.
    fn default() -> (r: Schema)
        ensures
            r@ == spec_empty_schema(),
    {
        let r = Schema {
            ref_: None,
            type_: None,
            format: None,
            default: None,
            example: None,
            enum_values: None,
            required: None,
            properties: Vec::new(),
            items: None,
            allOf: None,
            anyOf: None,
            oneOf: None,
            not: None,
            additionalProperties: None,
        };
        proof {
            assert(schema_pairs_view(r.properties@) =~= Seq::<(Seq<char>, SchemaView)>::empty());
        }
        r
    }
}

impl Schema {
    /// A schema holding only the given `$ref`.
    pub fn of_ref(r: String) -> (s: Schema)
        ensures
            s@ == spec_ref_schema(r@),
    {
        let mut s = Schema::default();
        s.ref_ = Some(r);
        s
    }

    /// A schema holding only the given scalar type name.
    pub fn of_type(t: String) -> (s: Schema)
        ensures
            s@ == spec_type_schema(t@),
    {
        let mut s = Schema::default();
        s.type_ = Some(t);
        s
    }

    /// An array schema with the given item schema.
    pub fn of_array(item: Schema) -> (s: Schema)
        ensures
            s@ == spec_array_schema(item@),
    {
        let mut s = Schema::default();
        s.type_ = Some("array".to_owned());
        s.items = Some(Box::new(item));
        s
    }
}

} // verus!

verus! {

/// A clone of an optional string, by value.
pub fn dup_opt_string(o: &Option<String>) -> (r: Option<String>)
    ensures
        opt_view(r) == opt_view(*o),
{
    match o {
        Some(s) => Some(s.clone()),
        None => None,
    }
}

/// A clone of a vector of strings.
pub fn dup_string_vec(v: &Vec<String>) -> (r: Vec<String>)
    ensures
        r@ == v@,
{
    let mut r: Vec<String> = Vec::new();
    let mut i: usize = 0;
    while i < v.len()
        invariant
            i <= v@.len(),
            r@ == v@.take(i as int),
        decreases v@.len() - i,
    {
        r.push(v[i].clone());
        assert(v@.take(i + 1 as int) =~= v@.take(i as int).push(v@[i as int]));
        i += 1;
    }
    assert(v@.take(v@.len() as int) =~= v@);
    r
}

impl Schema {
    /// A deep copy whose view equals this node's view.
    pub fn dup(&self) -> (r: Schema)
        ensures
            r@ == self@,
        decreases *self,
    {
        let mut properties: Vec<(String, Schema)> = Vec::new();
        let mut i: usize = 0;
        while i < self.properties.len()
            invariant
                i <= self.properties@.len(),
                schema_pairs_view(properties@) == schema_pairs_view(self.properties@.take(i as int)),
            decreases self.properties@.len() - i,
        {
            let ghost before = properties@;
            proof {
                assert(decreases_to!(*self => self.properties@[i as int].1));
            }
            let p = &self.properties[i];
            properties.push((p.0.clone(), p.1.dup()));
            proof {
                let t1 = self.properties@.take(i + 1 as int);
                assert(t1.drop_last() =~= self.properties@.take(i as int));
                assert(properties@.drop_last() =~= before);
                assert(schema_pairs_view(properties@) == schema_pairs_view(before).push(
                    (p.0@, schema_view(self.properties@[i as int].1)),
                ));
            }
            i += 1;
        }
        assert(self.properties@.take(self.properties@.len() as int) =~= self.properties@);
        let items: Option<Box<Schema>> = match &self.items {
            Some(b) => {
                proof {
                    assert(decreases_to!(*self => *self.items->0));
                }
                Some(Box::new((**b).dup()))
            },
            None => None,
        };
        let not: Option<Box<Schema>> = match &self.not {
            Some(b) => {
                proof {
                    assert(decreases_to!(*self => *self.not->0));
                }
                Some(Box::new((**b).dup()))
            },
            None => None,
        };
        let additionalProperties: Option<Box<Schema>> = match &self.additionalProperties {
            Some(b) => {
                proof {
                    assert(decreases_to!(*self => *self.additionalProperties->0));
                }
                Some(Box::new((**b).dup()))
            },
            None => None,
        };
        let allOf: Option<Vec<Schema>> = match &self.allOf {
            Some(v) => Some(dup_schema_list(v)),
            None => None,
        };
        let anyOf: Option<Vec<Schema>> = match &self.anyOf {
            Some(v) => Some(dup_schema_list(v)),
            None => None,
        };
        let oneOf: Option<Vec<Schema>> = match &self.oneOf {
            Some(v) => Some(dup_schema_list(v)),
            None => None,
        };
        let r = Schema {
            ref_: dup_opt_string(&self.ref_),
            type_: dup_opt_string(&self.type_),
            format: dup_opt_string(&self.format),
            default: dup_opt_string(&self.default),
            example: dup_opt_string(&self.example),
            enum_values: match &self.enum_values {
                Some(v) => Some(dup_string_vec(v)),
                None => None,
            },
            required: match &self.required {
                Some(v) => Some(dup_string_vec(v)),
                None => None,
            },
            properties,
            items,
            allOf,
            anyOf,
            oneOf,
            not,
            additionalProperties,
        };
        r
    }
}

/// A deep copy of a schema list, element by element.
pub fn dup_schema_list(v: &Vec<Schema>) -> (r: Vec<Schema>)
    ensures
        schema_seq_view(r@) == schema_seq_view(v@),
    decreases v@,
{
    let mut r: Vec<Schema> = Vec::new();
    let mut i: usize = 0;
    while i < v.len()
        invariant
            i <= v@.len(),
            schema_seq_view(r@) == schema_seq_view(v@.take(i as int)),
        decreases v@.len() - i,
    {
        let ghost before = r@;
        proof {
            assert(decreases_to!(v@ => v@[i as int]));
        }
        r.push(v[i].dup());
        proof {
            let t1 = v@.take(i + 1 as int);
            assert(t1.drop_last() =~= v@.take(i as int));
            assert(r@.drop_last() =~= before);
            assert(schema_seq_view(r@) == schema_seq_view(before).push(schema_view(v@[i as int])));
        }
        i += 1;
    }
    assert(v@.take(v@.len() as int) =~= v@);
    r
}

/// One media type entry: a schema and a raw-JSON example.
#[derive(Debug)]
pub struct MediaType {
    pub schema: Option<Schema>,
    pub example: Option<String>,
}

pub ghost struct MediaTypeView {
    pub schema: Option<SchemaView>,
    pub example: Option<Seq<char>>,
}

impl View for MediaType {
    type V = MediaTypeView;

    open spec fn view(&self) -> MediaTypeView {
        MediaTypeView { schema: opt_view(self.schema), example: opt_view(self.example) }
    }
}

pub open spec fn spec_empty_media() -> MediaTypeView {
    MediaTypeView { schema: None, example: None }
}

impl Default for MediaType {
    /// The empty media type entry.
    fn default() -> (r: MediaType)
        ensures
            r@ == spec_empty_media(),
    {
        MediaType { schema: None, example: None }
    }
}

/// A request body: description, required flag, and content keyed by
/// media type.
#[derive(Debug)]
pub struct RequestBody {
    pub description: Option<String>,
    pub content: Vec<(String, MediaType)>,
    pub required: Option<bool>,
}

pub ghost struct RequestBodyView {
    pub description: Option<Seq<char>>,
    pub content: Seq<(Seq<char>, MediaTypeView)>,
    pub required: Option<bool>,
}

impl View for RequestBody {
    type V = RequestBodyView;

    open spec fn view(&self) -> RequestBodyView {
        RequestBodyView {
            description: opt_view(self.description),
            content: pairs_view(self.content@),
            required: self.required,
        }
    }
}

/// An API response: status code, description, and content keyed by
/// media type.
#[derive(Debug)]
pub struct Response {
    pub code: String,
    pub description: String,
    pub content: Vec<(String, MediaType)>,
}

pub ghost struct ResponseView {
    pub code: Seq<char>,
    pub description: Seq<char>,
    pub content: Seq<(Seq<char>, MediaTypeView)>,
}

impl View for Response {
    type V = ResponseView;

    open spec fn view(&self) -> ResponseView {
        ResponseView {
            code: self.code@,
            description: self.description@,
            content: pairs_view(self.content@),
        }
    }
}

/// A parameter of an operation.  The location (`in_type`) is one of
/// `path`, `query`, `header` or `cookie`; a `body` location never reaches
/// the final model.  `example` holds raw JSON text.
#[derive(Debug)]
pub struct Parameter {
    pub name: String,
    pub in_type: String,
    pub description: Option<String>,
    pub required: Option<bool>,
    pub schema: Option<Schema>,
    pub example: Option<String>,
}

pub ghost struct ParameterView {
    pub name: Seq<char>,
    pub in_type: Seq<char>,
    pub description: Option<Seq<char>>,
    pub required: Option<bool>,
    pub schema: Option<SchemaView>,
    pub example: Option<Seq<char>>,
}

impl View for Parameter {
    type V = ParameterView;

    open spec fn view(&self) -> ParameterView {
        ParameterView {
            name: self.name@,
            in_type: self.in_type@,
            description: opt_view(self.description),
            required: self.required,
            schema: opt_view(self.schema),
            example: opt_view(self.example),
        }
    }
}

impl Parameter {
    /// A deep copy whose view equals this parameter's view.
    pub fn dup(&self) -> (r: Parameter)
        ensures
            r@ == self@,
    {
        Parameter {
            name: self.name.clone(),
            in_type: self.in_type.clone(),
            description: dup_opt_string(&self.description),
            required: self.required,
            schema: match &self.schema {
                Some(s) => Some(s.dup()),
                None => None,
            },
            example: dup_opt_string(&self.example),
        }
    }
}

/// An operation (endpoint) of the API.  `consumes` and `produces` carry
/// the declared media types while the operation is being built.
#[derive(Debug)]
pub struct Operation {
    pub tags: Vec<String>,
    pub summary: Option<String>,
    pub description: Option<String>,
    pub operationId: Option<String>,
    pub parameters: Vec<Parameter>,
    pub requestBody: Option<RequestBody>,
    pub responses: Vec<Response>,
    pub deprecated: Option<bool>,
    pub security: Vec<SecurityRequirement>,
    pub consumes: Vec<String>,
    pub produces: Vec<String>,
}

pub ghost struct OperationView {
    pub tags: Seq<Seq<char>>,
    pub summary: Option<Seq<char>>,
    pub description: Option<Seq<char>>,
    pub operationId: Option<Seq<char>>,
    pub parameters: Seq<ParameterView>,
    pub requestBody: Option<RequestBodyView>,
    pub responses: Seq<ResponseView>,
    pub deprecated: Option<bool>,
    pub security: Seq<SecurityRequirementView>,
    pub consumes: Seq<Seq<char>>,
    pub produces: Seq<Seq<char>>,
}

impl View for Operation {
    type V = OperationView;

    open spec fn view(&self) -> OperationView {
        OperationView {
            tags: seq_view(self.tags@),
            summary: opt_view(self.summary),
            description: opt_view(self.description),
            operationId: opt_view(self.operationId),
            parameters: seq_view(self.parameters@),
            requestBody: opt_view(self.requestBody),
            responses: seq_view(self.responses@),
            deprecated: self.deprecated,
            security: seq_view(self.security@),
            consumes: seq_view(self.consumes@),
            produces: seq_view(self.produces@),
        }
    }
}

/// The operation with nothing set.
pub open spec fn spec_empty_operation() -> OperationView {
    OperationView {
        tags: Seq::empty(),
        summary: None,
        description: None,
        operationId: None,
        parameters: Seq::empty(),
        requestBody: None,
        responses: Seq::empty(),
        deprecated: None,
        security: Seq::empty(),
        consumes: Seq::empty(),
        produces: Seq::empty(),
    }
}

impl Operation {
    pub fn new() -> (r: Operation)
        ensures
            r@ == spec_empty_operation(),
    {
        let r = Operation {
            tags: Vec::new(),
            summary: None,
            description: None,
            operationId: None,
            parameters: Vec::new(),
            requestBody: None,
            responses: Vec::new(),
            deprecated: None,
            security: Vec::new(),
            consumes: Vec::new(),
            produces: Vec::new(),
        };
        proof {
            assert(r@.tags =~= Seq::<Seq<char>>::empty());
            assert(r@.parameters =~= Seq::<ParameterView>::empty());
            assert(r@.responses =~= Seq::<ResponseView>::empty());
            assert(r@.security =~= Seq::<SecurityRequirementView>::empty());
            assert(r@.consumes =~= Seq::<Seq<char>>::empty());
            assert(r@.produces =~= Seq::<Seq<char>>::empty());
        }
        r
    }
}

/// A parsed API operation: the path, the method, and the operation body.
#[derive(Debug)]
pub struct ParsedOperation {
    pub path: String,
    pub method: String,
    pub operation: Operation,
}

pub ghost struct ParsedOperationView {
    pub path: Seq<char>,
    pub method: Seq<char>,
    pub operation: OperationView,
}

impl View for ParsedOperation {
    type V = ParsedOperationView;

    open spec fn view(&self) -> ParsedOperationView {
        ParsedOperationView { path: self.path@, method: self.method@, operation: self.operation@ }
    }
}

/// A single path item with its operations keyed by HTTP method.
#[derive(Debug)]
pub struct PathItem {
    pub summary: Option<String>,
    pub description: Option<String>,
    pub get: Option<Operation>,
    pub post: Option<Operation>,
    pub put: Option<Operation>,
    pub delete: Option<Operation>,
    pub options: Option<Operation>,
    pub head: Option<Operation>,
    pub patch: Option<Operation>,
    pub trace: Option<Operation>,
    pub parameters: Vec<Parameter>,
}

pub ghost struct PathItemView {
    pub summary: Option<Seq<char>>,
    pub description: Option<Seq<char>>,
    pub get: Option<OperationView>,
    pub post: Option<OperationView>,
    pub put: Option<OperationView>,
    pub delete: Option<OperationView>,
    pub options: Option<OperationView>,
    pub head: Option<OperationView>,
    pub patch: Option<OperationView>,
    pub trace: Option<OperationView>,
    pub parameters: Seq<ParameterView>,
}

impl View for PathItem {
    type V = PathItemView;

    open spec fn view(&self) -> PathItemView {
        PathItemView {
            summary: opt_view(self.summary),
            description: opt_view(self.description),
            get: opt_view(self.get),
            post: opt_view(self.post),
            put: opt_view(self.put),
            delete: opt_view(self.delete),
            options: opt_view(self.options),
            head: opt_view(self.head),
            patch: opt_view(self.patch),
            trace: opt_view(self.trace),
            parameters: seq_view(self.parameters@),
        }
    }
}

/// The path item with nothing set.
pub open spec fn spec_empty_path_item() -> PathItemView {
    PathItemView {
        summary: None,
        description: None,
        get: None,
        post: None,
        put: None,
        delete: None,
        options: None,
        head: None,
        patch: None,
        trace: None,
        parameters: Seq::empty(),
    }
}

impl Default for PathItem {
    /// The path item with nothing set.
    fn default() -> (r: PathItem)
        ensures
            r@ == spec_empty_path_item(),
    {
        let r = PathItem {
            summary: None,
            description: None,
            get: None,
            post: None,
            put: None,
            delete: None,
            options: None,
            head: None,
            patch: None,
            trace: None,
            parameters: Vec::new(),
        };
        proof {
            assert(r@.parameters =~= Seq::<ParameterView>::empty());
        }
        r
    }
}

/// Reusable components: the schema registry and the security schemes.
///
/// Both are name-keyed association lists; a later entry with the same key
/// stands for the earlier one (the last writer wins).
#[derive(Debug)]
pub struct Components {
    pub schemas: Vec<(String, Schema)>,
    pub securitySchemes: Vec<(String, SecurityScheme)>,
}

pub ghost struct ComponentsView {
    pub schemas: Seq<(Seq<char>, SchemaView)>,
    pub securitySchemes: Seq<(Seq<char>, SecuritySchemeView)>,
}

impl View for Components {
    type V = ComponentsView;

    open spec fn view(&self) -> ComponentsView {
        ComponentsView {
            schemas: schema_pairs_view(self.schemas@),
            securitySchemes: pairs_view(self.securitySchemes@),
        }
    }
}

impl Components {
    /// Makes sure the schema registry serialises even when nothing was
    /// resolved: an empty registry receives one empty `Empty` schema.
    pub fn ensure_schemas_exists(&mut self)
        ensures
            final(self)@.securitySchemes == old(self)@.securitySchemes,
            old(self)@.schemas.len() == 0 ==> final(self)@.schemas =~= seq![
                ("Empty"@, spec_empty_schema()),
            ],
            old(self)@.schemas.len() > 0 ==> final(self)@.schemas == old(self)@.schemas,
    {
        proof {
            lemma_schema_pairs_view_len(self.schemas@);
        }
        if self.schemas.len() == 0 {
            let s = Schema::default();
            self.schemas.push(("Empty".to_owned(), s));
            proof {
                assert(self.schemas@.len() == 1);
                assert(self.schemas@.drop_last() =~= Seq::<(String, Schema)>::empty());
                assert(schema_pairs_view(self.schemas@) == schema_pairs_view(
                    self.schemas@.drop_last(),
                ).push((self.schemas@.last().0@, schema_view(self.schemas@.last().1))));
                assert(self.schemas@.last().1 == s);
                assert(schema_view(s) == spec_empty_schema());
                assert(schema_pairs_view(self.schemas@) =~= seq![("Empty"@, spec_empty_schema())]);
            }
        }
    }
}

/// The view of a schema association list has the same length, and each
/// entry is the view of the entry beneath it.
pub proof fn lemma_schema_pairs_view_len(ps: Seq<(String, Schema)>)
    ensures
        schema_pairs_view(ps).len() == ps.len(),
        forall|i: int|
            0 <= i < ps.len() ==> #[trigger] schema_pairs_view(ps)[i] == (
            ps[i].0@,
            schema_view(ps[i].1),
            ),
    decreases ps,
{
    if ps.len() > 0 {
        lemma_schema_pairs_view_len(ps.drop_last());
        assert(forall|i: int|
            0 <= i < ps.len() - 1 ==> #[trigger] ps.drop_last()[i] == ps[i]);
    }
}

/// The complete OpenAPI document.
#[derive(Debug)]
pub struct OpenAPI {
    pub openapi: String,
    pub info: Info,
    pub servers: Option<Vec<Server>>,
    pub paths: Vec<(String, PathItem)>,
    pub components: Option<Components>,
    pub security: Vec<SecurityRequirement>,
    pub tags: Vec<Tag>,
    pub externalDocs: Option<ExternalDocs>,
}

pub ghost struct OpenAPIView {
    pub openapi: Seq<char>,
    pub info: InfoView,
    pub servers: Option<Seq<ServerView>>,
    pub paths: Seq<(Seq<char>, PathItemView)>,
    pub components: Option<ComponentsView>,
    pub security: Seq<SecurityRequirementView>,
    pub tags: Seq<TagView>,
    pub externalDocs: Option<ExternalDocsView>,
}

impl View for OpenAPI {
    type V = OpenAPIView;

    open spec fn view(&self) -> OpenAPIView {
        OpenAPIView {
            openapi: self.openapi@,
            info: self.info@,
            servers: match self.servers {
                Some(v) => Some(seq_view(v@)),
                None => None,
            },
            paths: pairs_view(self.paths@),
            components: opt_view(self.components),
            security: seq_view(self.security@),
            tags: seq_view(self.tags@),
            externalDocs: opt_view(self.externalDocs),
        }
    }
}

/// Parsed general API info: metadata plus the legacy host / base path /
/// schemes / accepts / produces fields kept for conversion.
#[derive(Debug)]
pub struct ParsedApiInfo {
    pub info: Info,
    pub servers: Vec<Server>,
    pub security: Vec<SecurityRequirement>,
    pub security_definitions: Vec<(String, SecurityScheme)>,
    pub tags: Vec<Tag>,
    pub external_docs: Option<ExternalDocs>,
    pub host: Option<String>,
    pub base_path: Option<String>,
    pub schemes: Vec<String>,
    pub consumes: Vec<String>,
    pub produces: Vec<String>,
}

pub ghost struct ParsedApiInfoView {
    pub info: InfoView,
    pub servers: Seq<ServerView>,
    pub security: Seq<SecurityRequirementView>,
    pub security_definitions: Seq<(Seq<char>, SecuritySchemeView)>,
    pub tags: Seq<TagView>,
    pub external_docs: Option<ExternalDocsView>,
    pub host: Option<Seq<char>>,
    pub base_path: Option<Seq<char>>,
    pub schemes: Seq<Seq<char>>,
    pub consumes: Seq<Seq<char>>,
    pub produces: Seq<Seq<char>>,
}

impl View for ParsedApiInfo {
    type V = ParsedApiInfoView;

    open spec fn view(&self) -> ParsedApiInfoView {
        ParsedApiInfoView {
            info: self.info@,
            servers: seq_view(self.servers@),
            security: seq_view(self.security@),
            security_definitions: pairs_view(self.security_definitions@),
            tags: seq_view(self.tags@),
            external_docs: opt_view(self.external_docs),
            host: opt_view(self.host),
            base_path: opt_view(self.base_path),
            schemes: seq_view(self.schemes@),
            consumes: seq_view(self.consumes@),
            produces: seq_view(self.produces@),
        }
    }
}

/// The parsed API info with nothing set.
pub open spec fn spec_empty_api_info() -> ParsedApiInfoView {
    ParsedApiInfoView {
        info: spec_empty_info(),
        servers: Seq::empty(),
        security: Seq::empty(),
        security_definitions: Seq::empty(),
        tags: Seq::empty(),
        external_docs: None,
        host: None,
        base_path: None,
        schemes: Seq::empty(),
        consumes: Seq::empty(),
        produces: Seq::empty(),
    }
}

impl ParsedApiInfo {
    /// The parsed API info with nothing set.
    pub fn new() -> (r: ParsedApiInfo)
        ensures
            r@ == spec_empty_api_info(),
    {
        let r = ParsedApiInfo {
            info: Info {
                title: String::new(),
                version: String::new(),
                description: None,
                termsOfService: None,
                contact: None,
                license: None,
                summary: None,
            },
            servers: Vec::new(),
            security: Vec::new(),
            security_definitions: Vec::new(),
            tags: Vec::new(),
            external_docs: None,
            host: None,
            base_path: None,
            schemes: Vec::new(),
            consumes: Vec::new(),
            produces: Vec::new(),
        };
        proof {
            assert(r@.servers =~= Seq::<ServerView>::empty());
            assert(r@.security =~= Seq::<SecurityRequirementView>::empty());
            assert(r@.security_definitions =~= Seq::<(Seq<char>, SecuritySchemeView)>::empty());
            assert(r@.tags =~= Seq::<TagView>::empty());
            assert(r@.schemes =~= Seq::<Seq<char>>::empty());
            assert(r@.consumes =~= Seq::<Seq<char>>::empty());
            assert(r@.produces =~= Seq::<Seq<char>>::empty());
        }
        r
    }
}

impl Default for ParsedApiInfo {
    /// The parsed API info with nothing set.
    fn default() -> (r: ParsedApiInfo)
        ensures
            r@ == spec_empty_api_info(),
    {
        ParsedApiInfo::new()
    }
}

/// The value stored under key `k` in a name-keyed association sequence:
/// the payload of the last entry named `k`, the last writer winning.
pub open spec fn assoc_lookup<V>(entries: Seq<(Seq<char>, V)>, k: Seq<char>) -> Option<V>
    decreases entries.len(),
{
    if entries.len() == 0 {
        None
    } else if entries.last().0 == k {
        Some(entries.last().1)
    } else {
        assoc_lookup(entries.drop_last(), k)
    }
}

/// Whether some entry of a name-keyed association sequence is named `k`.
pub open spec fn assoc_contains<V>(entries: Seq<(Seq<char>, V)>, k: Seq<char>) -> bool {
    exists|i: int| 0 <= i < entries.len() && entries[i].0 == k
}

/// A lookup succeeds exactly when the key is present.
pub proof fn lemma_assoc_lookup_contains<V>(entries: Seq<(Seq<char>, V)>, k: Seq<char>)
    ensures
        assoc_lookup(entries, k) is Some <==> assoc_contains(entries, k),
    decreases entries.len(),
{
    if entries.len() > 0 {
        lemma_assoc_lookup_contains(entries.drop_last(), k)
;
        if entries.last().0 == k {
            assert(entries[entries.len() - 1].0 == k);
        } else {
            assert(forall|i: int|
                0 <= i < entries.len() - 1 ==> #[trigger] entries.drop_last()[i] == entries[i]);
            if assoc_contains(entries, k) {
                let i = choose|i: int| 0 <= i < entries.len() && entries[i].0 == k;
                assert(entries.drop_last()[i] == entries[i]);
            }
        }
    }
}

} // verus!

verus! {

/// A clone of a vector of string pairs.
pub fn dup_string_pairs(v: &Vec<(String, String)>) -> (r: Vec<(String, String)>)
    ensures
        r@ == v@,
{
    let mut r: Vec<(String, String)> = Vec::new();
    let mut i: usize = 0;
    while i < v.len()
        invariant
            i <= v@.len(),
            r@ == v@.take(i as int),
        decreases v@.len() - i,
    {
        r.push((v[i].0.clone(), v[i].1.clone()));
        proof {
            assert(v@[i as int] == (v@[i as int].0, v@[i as int].1));
            assert(v@.take(i + 1 as int) =~= v@.take(i as int).push(v@[i as int]));
        }
        i += 1;
    }
    assert(v@.take(v@.len() as int) =~= v@);
    r
}

impl OAuthFlow {
    /// A deep copy whose view equals this flow's view.
    pub fn dup(&self) -> (r: OAuthFlow)
        ensures
            r@ == self@,
    {
        OAuthFlow {
            authorizationUrl: dup_opt_string(&self.authorizationUrl),
            tokenUrl: dup_opt_string(&self.tokenUrl),
            refreshUrl: dup_opt_string(&self.refreshUrl),
            scopes: dup_string_pairs(&self.scopes),
        }
    }
}

impl OAuthFlows {
    /// A deep copy whose view equals this object's view.
    pub fn dup(&self) -> (r: OAuthFlows)
        ensures
            r@ == self@,
    {
        OAuthFlows {
            implicit: match &self.implicit {
                Some(f) => Some(f.dup()),
                None => None,
            },
            password: match &self.password {
                Some(f) => Some(f.dup()),
                None => None,
            },
            clientCredentials: match &self.clientCredentials {
                Some(f) => Some(f.dup()),
                None => None,
            },
            authorizationCode: match &self.authorizationCode {
                Some(f) => Some(f.dup()),
                None => None,
            },
        }
    }
}

impl SecurityScheme {
    /// A deep copy whose view equals this scheme's view.
    pub fn dup(&self) -> (r: SecurityScheme)
        ensures
            r@ == self@,
    {
        SecurityScheme {
            type_: self.type_.clone(),
            description: dup_opt_string(&self.description),
            name: dup_opt_string(&self.name),
            in_type: dup_opt_string(&self.in_type),
            scheme: dup_opt_string(&self.scheme),
            bearerFormat: dup_opt_string(&self.bearerFormat),
            flows: match &self.flows {
                Some(f) => Some(f.dup()),
                None => None,
            },
            openIdConnectUrl: dup_opt_string(&self.openIdConnectUrl),
        }
    }

    /// A scheme of the given type with nothing else set.
    pub fn of_type(t: String) -> (r: SecurityScheme)
        ensures
            r@ == spec_scheme_of_type(t@),
    {
        SecurityScheme {
            type_: t,
            description: None,
            name: None,
            in_type: None,
            scheme: None,
            bearerFormat: None,
            flows: None,
            openIdConnectUrl: None,
        }
    }
}

} // verus!

verus! {

/// Views distribute over push.
pub proof fn lemma_seq_view_push<T: View>(s: Seq<T>, x: T)
    ensures
        seq_view(s.push(x)) =~= seq_view(s).push(x@),
{
}

/// Views distribute over concatenation.
pub proof fn lemma_seq_view_add<T: View>(s: Seq<T>, t: Seq<T>)
    ensures
        seq_view(s + t) =~= seq_view(s) + seq_view(t),
{
}

/// Pair views distribute over push.
pub proof fn lemma_pairs_view_push<T: View>(s: Seq<(String, T)>, x: (String, T))
    ensures
        pairs_view(s.push(x)) =~= pairs_view(s).push((x.0@, x.1@)),
{
}

} // verus!

verus! {

impl MediaType {
    /// A deep copy whose view equals this entry's view.
    pub fn dup(&self) -> (r: MediaType)
        ensures
            r@ == self@,
    {
        MediaType {
            schema: match &self.schema {
                Some(s) => Some(s.dup()),
                None => None,
            },
            example: dup_opt_string(&self.example),
        }
    }
}

} // verus!
