use goswag::annotation::{Annotation, AnnotationType};
use goswag::generator::{normalize_openapi, Generator};
use goswag::models::{OpenAPI, ParsedApiInfo, Schema};
use goswag::parser::GoParser;

fn lines(text: &str) -> Vec<String> {
    text.lines().map(|l| l.to_string()).collect()
}

fn reg_get<'a>(reg: &'a [(String, Schema)], key: &str) -> Option<&'a Schema> {
    reg.iter().rev().find(|(k, _)| k == key).map(|(_, v)| v)
}

#[test]
fn test_parse_general_api_info() {
    let content = r#"
package main

// @title Swagger Example API
// @version 1.0
// @description This is a sample server.
// @termsOfService http://swagger.io/terms/

// @contact.name API Support
// @contact.url http://www.swagger.io/support
// @contact.email support@swagger.io

// @license.name Apache 2.0
// @license.url http://www.apache.org/licenses/LICENSE-2.0.html

// @host petstore.swagger.io
// @BasePath /v2
// @accept json
// @produce json
// @schemes http https

func main() {
    // ...
}
        "#;
    let parser = GoParser::new();
    let api_info = parser.parse_general_api_info(&lines(content)).unwrap();

    assert_eq!(api_info.info.title, "Swagger Example API");
    assert_eq!(api_info.info.version, "1.0");
    assert_eq!(
        api_info.info.description,
        Some("This is a sample server.".to_string())
    );
    assert_eq!(
        api_info.info.termsOfService,
        Some("http://swagger.io/terms/".to_string())
    );

    assert!(api_info.info.contact.is_some());
    let contact = api_info.info.contact.unwrap();
    assert_eq!(contact.name, Some("API Support".to_string()));
    assert_eq!(
        contact.url,
        Some("http://www.swagger.io/support".to_string())
    );
    assert_eq!(contact.email, Some("support@swagger.io".to_string()));

    assert!(api_info.info.license.is_some());
    let license = api_info.info.license.unwrap();
    assert_eq!(license.name, "Apache 2.0");
    assert_eq!(
        license.url,
        Some("http://www.apache.org/licenses/LICENSE-2.0.html".to_string())
    );

    assert_eq!(api_info.host, Some("petstore.swagger.io".to_string()));
    assert_eq!(api_info.base_path, Some("/v2".to_string()));
    assert_eq!(api_info.consumes, vec!["application/json"]);
    assert_eq!(api_info.produces, vec!["application/json"]);
    assert_eq!(api_info.schemes, vec!["http", "https"]);
}

#[test]
fn test_parse_operations() {
    let mut content = String::new();
    content.push_str("package main\n\n");
    content.push_str("// @summary Test endpoint\n");
    content.push_str("// @description Test description\n");
    content.push_str("// @tags test\n");
    content.push_str("// @produce application/json\n");
    content.push_str("// @router /test [get]\n");
    content.push_str("func test() {}\n");

    let parser = GoParser::new();
    let (operations, _schemas) = parser.parse_operations(&vec![content]).unwrap();

    assert_eq!(operations.len(), 1);

    let op = operations.iter().next().unwrap();
    assert_eq!(op.path, "/test");
    assert_eq!(op.operation.summary, Some("Test endpoint".to_string()));
    assert_eq!(
        op.operation.description,
        Some("Test description".to_string())
    );
    assert_eq!(op.operation.produces, vec!["application/json"]);
    assert_eq!(op.operation.parameters.len(), 0);
    assert_eq!(op.operation.tags, vec!["test"]);
}

#[test]
fn legacy_host_lines_become_one_server() {
    let content = "// @title Demo API\n// @version 1.0\n// @host example.com\n// @BasePath /v1\n// @schemes https\n";
    let parser = GoParser::new();
    let api = parser.parse_general_api_info(&lines(content)).unwrap();
    assert_eq!(api.info.title, "Demo API");
    assert_eq!(api.info.version, "1.0");
    assert_eq!(api.servers.len(), 1);
    assert_eq!(api.servers[0].url, "https://example.com/v1");
}

#[test]
fn parameter_text_maps_to_parameter() {
    let parser = GoParser::new();
    let p = parser.parse_parameter("id path int true \"User ID\"").unwrap();
    assert_eq!(p.name, "id");
    assert_eq!(p.in_type, "path");
    assert_eq!(p.required, Some(true));
    assert_eq!(p.description, Some("User ID".to_string()));
    let schema = p.schema.unwrap();
    assert_eq!(schema.type_, Some("integer".to_string()));
}

#[test]
fn response_text_maps_to_response() {
    let parser = GoParser::new();
    let r = parser.parse_response("200 {object} User \"OK\"").unwrap();
    assert_eq!(r.code, "200");
    assert_eq!(r.description, "OK");
    assert_eq!(r.content.len(), 1);
    assert_eq!(r.content[0].0, "application/json");
    let schema = r.content[0].1.schema.as_ref().unwrap();
    assert_eq!(schema.ref_, Some("#/components/schemas/User".to_string()));
}

#[test]
fn router_without_id_synthesizes_one() {
    let parser = GoParser::new();
    let annotations = vec![Annotation {
        annotation_type: AnnotationType::Router,
        attribute: None,
        value: "/users/{id} [get]".to_string(),
    }];
    let examples = Vec::new();
    let op = parser
        .parse_operation_with_examples(&annotations, &examples)
        .unwrap();
    assert_eq!(op.path, "/users/{id}");
    assert_eq!(op.method, "get");
    assert_eq!(
        op.operation.operationId,
        Some("get_users_{id}".to_string())
    );
}

#[test]
fn colliding_bare_names_stay_reachable_qualified() {
    let file_a = "import pkgA \"mod/pkgA\"\n\ntype Address struct {\n    Street string\n}\n";
    let file_b = "import pkgB \"mod/pkgB\"\n\ntype Address struct {\n    City string\n}\n";
    let parser = GoParser::new();
    let reg = parser.extract_struct_schemas(&vec![file_a.to_string(), file_b.to_string()]);

    let a = reg_get(&reg, "pkgA.Address").expect("pkgA.Address present");
    assert!(a.properties.iter().any(|(n, _)| n == "Street"));
    let b = reg_get(&reg, "pkgB.Address").expect("pkgB.Address present");
    assert!(b.properties.iter().any(|(n, _)| n == "City"));
    // the bare key holds whichever declaration was processed last
    let bare = reg_get(&reg, "Address").expect("Address present");
    assert!(bare.properties.iter().any(|(n, _)| n == "City"));
    assert!(!bare.properties.iter().any(|(n, _)| n == "Street"));
}

#[test]
fn field_mapping_table() {
    let parser = GoParser::new();
    let s = parser.convert_go_type_to_schema("string");
    assert_eq!(s.type_, Some("string".to_string()));
    let s = parser.convert_go_type_to_schema("int64");
    assert_eq!(s.type_, Some("integer".to_string()));
    let s = parser.convert_go_type_to_schema("float64");
    assert_eq!(s.type_, Some("number".to_string()));
    let s = parser.convert_go_type_to_schema("bool");
    assert_eq!(s.type_, Some("boolean".to_string()));
    let s = parser.convert_go_type_to_schema("[]string");
    assert_eq!(s.type_, Some("array".to_string()));
    assert_eq!(
        s.items.as_ref().unwrap().type_,
        Some("string".to_string())
    );
    let s = parser.convert_go_type_to_schema("*User");
    assert_eq!(s.ref_, Some("#/components/schemas/User".to_string()));
}

#[test]
fn pointer_fields_are_not_required() {
    let content =
        "type User struct {\n    Name string\n    Nick *string\n    Friend *User\n}\n";
    let parser = GoParser::new();
    let reg = parser.extract_struct_schemas(&vec![content.to_string()]);
    let user = reg_get(&reg, "User").expect("User present");
    let required = user.required.as_ref().expect("required list");
    assert_eq!(required, &vec!["Name".to_string()]);
    assert_eq!(
        user.properties.iter().find(|(n, _)| n == "Friend").unwrap().1.ref_,
        Some("#/components/schemas/User".to_string())
    );
}

#[test]
fn normalizer_rewrites_and_closes_refs() {
    let parser = GoParser::new();
    let mut api_info = ParsedApiInfo::new();
    api_info.info.title = "T".to_string();
    api_info.info.version = "1".to_string();

    let mut schemas: Vec<(String, Schema)> = Vec::new();
    let mut holder = Schema::default();
    holder.ref_ = Some("User".to_string());
    schemas.push(("Holder".to_string(), holder));

    let annotations = vec![Annotation {
        annotation_type: AnnotationType::Router,
        attribute: None,
        value: "/x [get]".to_string(),
    }];
    let op = parser
        .parse_operation_with_examples(&annotations, &Vec::new())
        .unwrap();

    let gen = Generator::new(api_info, vec![op], schemas, "3.1.1".to_string());
    let doc = gen.build_openapi_doc();
    let comps = doc.components.as_ref().unwrap();
    // the bare reference was made canonical
    let holder = reg_get(&comps.schemas, "Holder").unwrap();
    assert_eq!(holder.ref_, Some("#/components/schemas/User".to_string()));
    // and its target received a placeholder: the registry is closed
    assert!(reg_get(&comps.schemas, "User").is_some());
}

#[test]
fn normalizing_twice_changes_nothing() {
    let parser = GoParser::new();
    let mut api_info = ParsedApiInfo::new();
    api_info.info.title = "T".to_string();
    api_info.info.version = "1".to_string();
    let mut schemas: Vec<(String, Schema)> = Vec::new();
    let mut holder = Schema::default();
    holder.ref_ = Some("a/b/User".to_string());
    schemas.push(("Holder".to_string(), holder));
    let gen = Generator::new(api_info, Vec::new(), schemas, "3.1.1".to_string());
    let doc: OpenAPI = gen.build_openapi_doc();
    let once = format!("{:?}", doc);
    let doc2 = normalize_openapi(doc);
    let twice = format!("{:?}", doc2);
    assert_eq!(once, twice);
}

#[test]
fn unknown_oauth_flow_is_an_error() {
    let parser = GoParser::new();
    let mut api = ParsedApiInfo::new();
    let r = parser.parse_security_definition(&mut api, "oauth2.dance", "OAuth2");
    assert!(r.is_err());
    let ok = parser.parse_security_definition(&mut api, "oauth2.implicit", "OAuth2");
    assert!(ok.is_ok());
    assert_eq!(api.security_definitions.len(), 1);
    assert_eq!(api.security_definitions[0].0, "OAuth2");
    assert!(api.security_definitions[0].1.flows.as_ref().unwrap().implicit.is_some());
}

#[test]
fn invalid_router_fails_the_operation() {
    let parser = GoParser::new();
    let annotations = vec![Annotation {
        annotation_type: AnnotationType::Router,
        attribute: None,
        value: "no brackets here".to_string(),
    }];
    let r = parser.parse_operation_with_examples(&annotations, &Vec::new());
    assert!(r.is_err());
}

#[test]
fn short_parameter_text_is_an_error() {
    let parser = GoParser::new();
    let r = parser.parse_parameter("id path int");
    assert!(r.is_err());
}

#[test]
fn mime_shorthands_expand() {
    let parser = GoParser::new();
    assert_eq!(parser.normalize_mime_type("json"), "application/json");
    assert_eq!(parser.normalize_mime_type("XML"), "application/xml");
    assert_eq!(parser.normalize_mime_type("text/html"), "text/html");
    assert_eq!(parser.normalize_mime_type("custom"), "application/custom");
}

#[test]
fn struct_examples_become_json_objects() {
    let content = "type User struct {\n    Name string `json:\"name\" example:\"Ada\"`\n    Age int `example:\"36\"`\n}\n";
    let parser = GoParser::new();
    let examples = parser.extract_struct_examples_with_imports(&vec![content.to_string()]);
    assert_eq!(examples.len(), 1);
    assert_eq!(examples[0].0, "User");
    let fields = &examples[0].1;
    assert_eq!(fields.len(), 2);
    assert_eq!(fields[0].0, "Name");
    assert_eq!(fields[0].1, "\"Ada\"");
    assert_eq!(fields[1].0, "Age");
    assert_eq!(fields[1].1, "36");
}

#[test]
fn response_description_joins_both_sides() {
    let parser = GoParser::new();
    let r = parser.parse_response("200 Fetched {object} User with care").unwrap();
    assert_eq!(r.code, "200");
    assert_eq!(r.description, "Fetched with care");
    let schema = r.content[0].1.schema.as_ref().unwrap();
    assert_eq!(schema.ref_, Some("#/components/schemas/User".to_string()));
}

#[test]
fn response_before_produce_gets_the_produce_type() {
    let parser = GoParser::new();
    let annotations = vec![
        Annotation {
            annotation_type: AnnotationType::Response,
            attribute: None,
            value: "404 Not Found".to_string(),
        },
        Annotation {
            annotation_type: AnnotationType::Produce,
            attribute: None,
            value: "xml".to_string(),
        },
        Annotation {
            annotation_type: AnnotationType::Router,
            attribute: None,
            value: "/x [get]".to_string(),
        },
    ];
    let op = parser
        .parse_operation_with_examples(&annotations, &Vec::new())
        .unwrap();
    let resp = op.operation.responses.iter().find(|r| r.code == "404").unwrap();
    assert_eq!(resp.content.len(), 1);
    assert_eq!(resp.content[0].0, "application/xml");
}

#[test]
fn parameter_example_tolerates_whitespace_runs() {
    let parser = GoParser::new();
    let a = parser
        .parse_parameter("u body User true \"the user\" {example={\"x\":  1}}")
        .unwrap();
    let b = parser
        .parse_parameter("u body User true \"the user\" {example={\"x\": 1}}")
        .unwrap();
    assert_eq!(a.example, b.example);
}

#[test]
fn unmatched_referenced_names_get_object_placeholders() {
    let parser = GoParser::new();
    let reg = parser.extract_referenced_schemas(&Vec::new(), &vec!["Ghostly".to_string()]);
    let ph = reg_get(&reg, "Ghostly").expect("placeholder present");
    assert_eq!(ph.type_, Some("object".to_string()));
    assert!(ph.properties.is_empty());
}

#[test]
fn imports_are_extracted_with_aliases() {
    let parser = GoParser::new();
    let content = "package x\n\nimport (\n    m \"mod/models\"\n    \"mod/pkg/other\"\n)\n";
    let imports = parser.extract_imports(content);
    assert_eq!(imports.len(), 2);
    assert_eq!(imports[0].alias, "m");
    assert_eq!(imports[0].path, "mod/models");
    assert_eq!(imports[1].alias, "other");
    assert_eq!(imports[1].path, "mod/pkg/other");
    assert!(imports.iter().all(|i| i.file_path.is_none()));
}
