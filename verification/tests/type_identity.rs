use schema_annotations::names::{
    bytes_clone, bytes_eq, check_name_token, FieldName, Qualified, QualifiedTypeReference, TypeName,
};
use schema_annotations::type_id::{operators_same, ComparisonOperator, TypeId};
use std::collections::hash_map::DefaultHasher;
use std::hash::{Hash, Hasher};

fn name(s: &str) -> TypeName {
    TypeName::new(s.as_bytes().to_vec()).unwrap()
}

fn qualified(subgraph: &str, local: &str) -> Qualified {
    Qualified { subgraph: subgraph.as_bytes().to_vec(), name: local.as_bytes().to_vec() }
}

fn reference(local: &str, nullable: bool) -> QualifiedTypeReference {
    QualifiedTypeReference {
        base: qualified("default", local),
        base_nullable: nullable,
        list_nullable: vec![],
    }
}

fn operator(op: &str, argument: &str) -> ComparisonOperator {
    ComparisonOperator { name: op.as_bytes().to_vec(), argument_type: reference(argument, false) }
}

fn comparison(operators: Vec<ComparisonOperator>) -> TypeId {
    TypeId::ScalarTypeComparisonExpression {
        scalar_type_name: b"Int".to_vec(),
        graphql_type_name: name("Int_comparison"),
        operators,
    }
}

fn hash_of(t: &TypeId) -> u64 {
    let mut h = DefaultHasher::new();
    t.hash(&mut h);
    h.finish()
}

#[test]
fn singleton_identities_have_fixed_names() {
    assert_eq!(TypeId::QueryRoot.to_type_name().text, b"Query".to_vec());
    assert_eq!(TypeId::MutationRoot.to_type_name().text, b"Mutation".to_vec());
    assert_eq!(TypeId::NodeRoot.to_type_name().text, b"Node".to_vec());
    assert_eq!(TypeId::OrderByEnumType.to_type_name().text, b"order_by".to_vec());
    assert_eq!(TypeId::OrderByEnumType.describe(), b"order_by".to_vec());
}

#[test]
fn parametrized_identities_carry_their_names() {
    let owner = qualified("default", "author");
    let ids = vec![
        TypeId::OutputType { gds_type_name: owner.clone(), graphql_type_name: name("Author") },
        TypeId::ScalarType { gds_type_name: owner.clone(), graphql_type_name: name("Author") },
        TypeId::InputObjectType { gds_type_name: owner.clone(), graphql_type_name: name("Author") },
        TypeId::ModelArgumentsInput { model_name: owner.clone(), generated_name: name("Author") },
        TypeId::ModelBooleanExpression { model_name: owner.clone(), graphql_type_name: name("Author") },
        TypeId::ModelOrderByExpression { model_name: owner.clone(), graphql_type_name: name("Author") },
    ];
    for id in ids.iter() {
        assert_eq!(id.to_type_name(), name("Author"));
    }
    assert_eq!(comparison(vec![]).to_type_name(), name("Int_comparison"));
}

#[test]
fn identities_with_equal_fields_are_equal_and_hash_equal() {
    let a = comparison(vec![operator("_eq", "Int"), operator("_lt", "Int")]);
    let b = comparison(vec![operator("_eq", "Int"), operator("_lt", "Int")]);
    assert!(a.same(&b));
    assert_eq!(a, b);
    assert_eq!(hash_of(&a), hash_of(&b));
    assert!(TypeId::QueryRoot.same(&TypeId::QueryRoot));
}

#[test]
fn identities_that_differ_in_a_field_are_unequal() {
    let a = comparison(vec![operator("_eq", "Int"), operator("_lt", "Int")]);
    assert!(!a.same(&comparison(vec![operator("_eq", "Int")])));
    assert!(!a.same(&comparison(vec![operator("_lt", "Int"), operator("_eq", "Int")])));
    assert!(!a.same(&comparison(vec![operator("_eq", "Int"), operator("_lt", "Float")])));
    assert_ne!(a, comparison(vec![operator("_eq", "Int")]));
    let x = TypeId::OutputType {
        gds_type_name: qualified("default", "author"),
        graphql_type_name: name("Author"),
    };
    let y = TypeId::OutputType {
        gds_type_name: qualified("other", "author"),
        graphql_type_name: name("Author"),
    };
    let z = TypeId::ScalarType {
        gds_type_name: qualified("default", "author"),
        graphql_type_name: name("Author"),
    };
    assert!(!x.same(&y));
    assert!(!x.same(&z));
    assert!(!TypeId::QueryRoot.same(&TypeId::MutationRoot));
    assert!(!TypeId::NodeRoot.same(&x));
}

#[test]
fn operators_same_compares_in_order() {
    assert!(operators_same(&vec![], &vec![]));
    assert!(operators_same(&vec![operator("_eq", "Int")], &vec![operator("_eq", "Int")]));
    assert!(!operators_same(&vec![operator("_eq", "Int")], &vec![]));
    assert!(!operators_same(&vec![operator("_eq", "Int")], &vec![operator("_neq", "Int")]));
}

#[test]
fn type_references_compare_by_every_part() {
    let a = QualifiedTypeReference {
        base: qualified("default", "Int"),
        base_nullable: false,
        list_nullable: vec![true, false],
    };
    let mut b = a.clone();
    assert!(a.same(&b));
    b.list_nullable = vec![true, true];
    assert!(!a.same(&b));
    b.list_nullable = vec![true];
    assert!(!a.same(&b));
    assert!(!reference("Int", true).same(&reference("Int", false)));
    assert!(!reference("Int", true).same(&reference("Float", true)));
}

#[test]
fn names_follow_the_graphql_grammar() {
    assert!(check_name_token(&b"Author".to_vec()));
    assert!(check_name_token(&b"_a9".to_vec()));
    assert!(check_name_token(&b"order_by".to_vec()));
    assert!(!check_name_token(&b"".to_vec()));
    assert!(!check_name_token(&b"9a".to_vec()));
    assert!(!check_name_token(&b"a-b".to_vec()));
    assert!(!check_name_token(&b"a b".to_vec()));
    assert!(TypeName::new(b"1x".to_vec()).is_none());
    assert_eq!(TypeName::new(b"Author".to_vec()).unwrap().text, b"Author".to_vec());
}

#[test]
fn byte_strings_compare_and_copy() {
    assert!(bytes_eq(&b"abc".to_vec(), &b"abc".to_vec()));
    assert!(!bytes_eq(&b"abc".to_vec(), &b"abd".to_vec()));
    assert!(!bytes_eq(&b"abc".to_vec(), &b"ab".to_vec()));
    assert_eq!(bytes_clone(&b"abc".to_vec()), b"abc".to_vec());
    let f = FieldName { text: b"author_id".to_vec() };
    assert!(f.same(&f.duplicate()));
    assert!(!f.same(&FieldName { text: b"id".to_vec() }));
    assert!(name("A").same(&name("A").duplicate()));
    assert!(qualified("a", "b").same(&qualified("a", "b")));
    assert!(!qualified("a", "b").same(&qualified("b", "a")));
}
