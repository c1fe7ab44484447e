use schema_annotations::annotations::{
    bind_node_type, bind_permission,
    dispatch_node, find_global_id_fields, find_node_binding, find_permission_binding,
    resolve_permission, Annotation, FilterPermission, InputAnnotation, ModelFilterArgument,
    ModelInputAnnotation, ModelOrderByDirection, ModelSource, NamespaceAnnotation,
    NodeDispatchError, NodeFieldTypeNameMapping, NodeIdBinding, NodeTypeBinding, OutputAnnotation,
    RootFieldAnnotation, RootFieldKind, TypePermissionBinding,
};
use schema_annotations::global_id::{DecodeError, GlobalID};
use schema_annotations::names::{FieldName, Qualified, TypeName};
use schema_annotations::node::{resolve_node, NodeFieldError};

fn name(s: &str) -> TypeName {
    TypeName::new(s.as_bytes().to_vec()).unwrap()
}

fn qualified(local: &str) -> Qualified {
    Qualified { subgraph: b"default".to_vec(), name: local.as_bytes().to_vec() }
}

fn source(collection: &str) -> ModelSource {
    ModelSource { data_connector: qualified("pg"), collection: collection.as_bytes().to_vec() }
}

fn binding(typename: &str, model_source: Option<ModelSource>) -> NodeTypeBinding {
    NodeTypeBinding {
        typename: name(typename),
        mapping: NodeFieldTypeNameMapping { generated_name: qualified(typename), model_source },
    }
}

fn author_text() -> Vec<u8> {
    let mut g = GlobalID::new(1, name("Author"));
    g.insert(FieldName { text: b"author_id".to_vec() }, b"42".to_vec());
    g.encode()
}

#[test]
fn node_dispatch_finds_the_bound_type() {
    let decoded = GlobalID::decode(&author_text()).unwrap();
    let bindings =
        vec![binding("Article", Some(source("articles"))), binding("Author", Some(source("authors")))];
    assert_eq!(dispatch_node(&bindings, decoded.typename()), Ok(1));
    assert_eq!(find_node_binding(&bindings, decoded.typename()), Some(1));
    assert_eq!(
        bindings[1].mapping.model_source.as_ref().unwrap().collection,
        b"authors".to_vec()
    );
}

#[test]
fn node_dispatch_answers_an_absent_type_as_unknown() {
    let decoded = GlobalID::decode(&author_text()).unwrap();
    assert_eq!(dispatch_node(&vec![], decoded.typename()), Err(NodeDispatchError::UnknownType));
    let others = vec![binding("Article", Some(source("articles")))];
    assert_eq!(dispatch_node(&others, decoded.typename()), Err(NodeDispatchError::UnknownType));
    assert_eq!(find_node_binding(&others, decoded.typename()), None);
}

#[test]
fn node_dispatch_answers_a_type_without_source_as_not_executable() {
    let bindings = vec![binding("Author", None)];
    assert_eq!(dispatch_node(&bindings, &name("Author")), Err(NodeDispatchError::NotExecutable));
}

#[test]
fn node_dispatch_takes_the_first_binding_of_a_name() {
    let bindings = vec![binding("Author", None), binding("Author", Some(source("authors")))];
    assert_eq!(find_node_binding(&bindings, &name("Author")), Some(0));
    assert_eq!(dispatch_node(&bindings, &name("Author")), Err(NodeDispatchError::NotExecutable));
}

#[test]
fn global_id_fields_are_found_by_the_name_of_the_type() {
    let bindings = vec![
        NodeIdBinding {
            typename: name("Article"),
            global_id_fields: vec![FieldName { text: b"article_id".to_vec() }],
        },
        NodeIdBinding {
            typename: name("Author"),
            global_id_fields: vec![
                FieldName { text: b"author_id".to_vec() },
                FieldName { text: b"region".to_vec() },
            ],
        },
    ];
    let found = find_global_id_fields(&bindings, &name("Author")).unwrap();
    assert_eq!(found.len(), 2);
    assert_eq!(found[0].text, b"author_id".to_vec());
    assert_eq!(found[1].text, b"region".to_vec());
    assert!(find_global_id_fields(&bindings, &name("Editor")).is_none());
}

#[test]
fn a_plain_filter_applies_to_every_type() {
    let restricted = NamespaceAnnotation::Filter(FilterPermission::Filter {
        predicate: b"author_id = x-user-id".to_vec(),
    });
    assert_eq!(
        resolve_permission(&restricted, &qualified("Author")),
        Some(&FilterPermission::Filter { predicate: b"author_id = x-user-id".to_vec() })
    );
    let open = NamespaceAnnotation::Filter(FilterPermission::AllowAll);
    assert_eq!(resolve_permission(&open, &qualified("Anything")), Some(&FilterPermission::AllowAll));
}

#[test]
fn a_type_without_binding_has_no_access() {
    let per_type = NamespaceAnnotation::NodeFieldTypeMappings(vec![TypePermissionBinding {
        gds_type: qualified("Article"),
        permission: FilterPermission::AllowAll,
    }]);
    let absent = resolve_permission(&per_type, &qualified("Author"));
    assert_eq!(absent, None);
    assert_ne!(absent, Some(&FilterPermission::AllowAll));
    assert_eq!(
        resolve_permission(&per_type, &qualified("Article")),
        Some(&FilterPermission::AllowAll)
    );
    let nothing = NamespaceAnnotation::NodeFieldTypeMappings(vec![]);
    assert_eq!(resolve_permission(&nothing, &qualified("Article")), None);
}

#[test]
fn permission_bindings_are_keyed_by_subgraph_and_name() {
    let bindings = vec![
        TypePermissionBinding {
            gds_type: Qualified { subgraph: b"a".to_vec(), name: b"Author".to_vec() },
            permission: FilterPermission::AllowAll,
        },
        TypePermissionBinding {
            gds_type: Qualified { subgraph: b"b".to_vec(), name: b"Author".to_vec() },
            permission: FilterPermission::Filter { predicate: b"p".to_vec() },
        },
    ];
    let key = Qualified { subgraph: b"b".to_vec(), name: b"Author".to_vec() };
    assert_eq!(find_permission_binding(&bindings, &key), Some(1));
    assert_eq!(find_permission_binding(&bindings, &qualified("Author")), None);
}

#[test]
fn annotations_compare_structurally() {
    let model = RootFieldAnnotation::Model {
        data_type: qualified("Author"),
        source: None,
        kind: RootFieldKind::SelectOne,
        name: qualified("authors"),
    };
    let a = Annotation::Output(OutputAnnotation::RootField(model.clone()));
    assert_eq!(a, Annotation::Output(OutputAnnotation::RootField(model)));
    let asc = Annotation::Input(InputAnnotation::Model(ModelInputAnnotation::ModelOrderByDirection {
        direction: ModelOrderByDirection::Asc,
    }));
    let desc = Annotation::Input(InputAnnotation::Model(ModelInputAnnotation::ModelOrderByDirection {
        direction: ModelOrderByDirection::Desc,
    }));
    assert_ne!(asc, desc);
    assert_ne!(RootFieldKind::SelectOne, RootFieldKind::SelectMany);
    assert_ne!(
        ModelFilterArgument::AndOp,
        ModelFilterArgument::Field { ndc_column: b"id".to_vec() }
    );
}

#[test]
fn variant_labels_are_the_variant_names() {
    assert_eq!(RootFieldAnnotation::Introspection.label(), "Introspection");
    assert_eq!(RootFieldAnnotation::RelayNode { typename_mappings: vec![] }.label(), "RelayNode");
    let model = RootFieldAnnotation::Model {
        data_type: qualified("Author"),
        source: None,
        kind: RootFieldKind::SelectMany,
        name: qualified("authors"),
    };
    assert_eq!(model.label(), "Model");
    let command = RootFieldAnnotation::Command {
        name: qualified("publish"),
        underlying_object_typename: None,
        source: None,
    };
    assert_eq!(command.label(), "Command");
    let field = OutputAnnotation::Field { name: FieldName { text: b"id".to_vec() } };
    assert_eq!(field.label(), "Field");
    assert_eq!(OutputAnnotation::RootField(model).label(), "RootField");
    assert_eq!(OutputAnnotation::GlobalIDField { global_id_fields: vec![] }.label(), "GlobalIDField");
    assert_eq!(
        OutputAnnotation::RelayNodeInterfaceID { typename_mappings: vec![] }.label(),
        "RelayNodeInterfaceID"
    );
    assert_eq!(ModelInputAnnotation::ModelLimitArgument.label(), "ModelLimitArgument");
    assert_eq!(ModelInputAnnotation::ModelOffsetArgument.label(), "ModelOffsetArgument");
    assert_eq!(
        ModelInputAnnotation::ModelOrderByArgument { ndc_column: b"id".to_vec() }.label(),
        "ModelOrderByArgument"
    );
    let input = InputAnnotation::Model(ModelInputAnnotation::ModelFilterExpression);
    assert_eq!(input.label(), "Model");
    assert_eq!(Annotation::Input(input).label(), "Input");
    assert_eq!(Annotation::Output(field).label(), "Output");
    assert_eq!(NamespaceAnnotation::Filter(FilterPermission::AllowAll).label(), "Filter");
    assert_eq!(
        NamespaceAnnotation::NodeFieldTypeMappings(vec![]).label(),
        "NodeFieldTypeMappings"
    );
}

#[test]
fn a_root_field_without_source_is_not_executable() {
    let unbound = RootFieldAnnotation::Model {
        data_type: qualified("Author"),
        source: None,
        kind: RootFieldKind::SelectOne,
        name: qualified("authors"),
    };
    assert!(!unbound.is_executable());
    let bound = RootFieldAnnotation::Model {
        data_type: qualified("Author"),
        source: Some(source("authors")),
        kind: RootFieldKind::SelectOne,
        name: qualified("authors"),
    };
    assert!(bound.is_executable());
    let command = RootFieldAnnotation::Command {
        name: qualified("publish"),
        underlying_object_typename: Some(qualified("Article")),
        source: None,
    };
    assert!(!command.is_executable());
    assert!(RootFieldAnnotation::Introspection.is_executable());
}

#[test]
fn resolve_node_dispatches_the_author_identifier() {
    let bindings = vec![binding("Author", Some(source("authors")))];
    let (decoded, index) = resolve_node(&bindings, &author_text()).unwrap();
    assert_eq!(index, 0);
    assert_eq!(decoded.typename().text, b"Author".to_vec());
    assert_eq!(decoded.field(0).value, b"42".to_vec());
}

#[test]
fn resolve_node_tells_a_bad_identifier_from_an_unknown_type() {
    let none: Vec<NodeTypeBinding> = vec![];
    assert_eq!(resolve_node(&none, &author_text()).unwrap_err(), NodeFieldError::UnknownType);
    assert_eq!(
        resolve_node(&none, &b"not an id".to_vec()).unwrap_err(),
        NodeFieldError::Decode(DecodeError::MalformedEncoding)
    );
    let unbound = vec![binding("Author", None)];
    assert_eq!(resolve_node(&unbound, &author_text()).unwrap_err(), NodeFieldError::NotExecutable);
    assert_eq!(
        resolve_node(&unbound, &b"0300".to_vec()).unwrap_err(),
        NodeFieldError::Decode(DecodeError::UnsupportedVersion)
    );
}

#[test]
fn binding_a_type_name_twice_replaces_the_first_binding() {
    let mut bindings: Vec<NodeTypeBinding> = vec![];
    assert!(!bind_node_type(&mut bindings, binding("Author", None)));
    assert!(!bind_node_type(&mut bindings, binding("Article", Some(source("articles")))));
    assert!(bind_node_type(&mut bindings, binding("Author", Some(source("authors")))));
    assert_eq!(bindings.len(), 2);
    assert_eq!(bindings[0], binding("Author", Some(source("authors"))));
    assert_eq!(dispatch_node(&bindings, &name("Author")), Ok(0));
    assert_eq!(dispatch_node(&bindings, &name("Article")), Ok(1));
}

#[test]
fn binding_a_permission_twice_replaces_the_first_binding() {
    let mut bindings: Vec<TypePermissionBinding> = vec![];
    let open = TypePermissionBinding {
        gds_type: qualified("Author"),
        permission: FilterPermission::AllowAll,
    };
    let narrow = TypePermissionBinding {
        gds_type: qualified("Author"),
        permission: FilterPermission::Filter { predicate: b"id = 1".to_vec() },
    };
    assert!(!bind_permission(&mut bindings, open));
    assert!(bind_permission(&mut bindings, narrow.clone()));
    assert_eq!(bindings, vec![narrow]);
    let annotation = NamespaceAnnotation::NodeFieldTypeMappings(bindings);
    assert_eq!(
        resolve_permission(&annotation, &qualified("Author")),
        Some(&FilterPermission::Filter { predicate: b"id = 1".to_vec() })
    );
}
