//! Identity of generated GraphQL types: the key under which a schema build
//! deduplicates types, and the name each identity is published under.
use crate::names::{bytes_eq, Qualified, QualifiedTypeReference, TypeName};
use vstd::prelude::*;

verus! {

/// A comparison operator that a scalar type supports, with the type of its argument.
#[derive(Clone, Debug, PartialEq, Eq, Hash)]
pub struct ComparisonOperator {
    pub name: Vec<u8>,
    pub argument_type: QualifiedTypeReference,
}

impl View for ComparisonOperator {
    type V = (Seq<u8>, ((Seq<u8>, Seq<u8>), bool, Seq<bool>));

    open spec fn view(&self) -> (Seq<u8>, ((Seq<u8>, Seq<u8>), bool, Seq<bool>)) {
        (self.name@, self.argument_type@)
    }
}

impl ComparisonOperator {
    pub fn same(&self, other: &ComparisonOperator) -> (r: bool)
        ensures
            r == (self@ == other@),
    {
        bytes_eq(&self.name, &other.name) && self.argument_type.same(&other.argument_type)
    }
}

/// The operators of a list, each by its view, in order.
pub open spec fn operators_view(ops: Seq<ComparisonOperator>) -> Seq<
    (Seq<u8>, ((Seq<u8>, Seq<u8>), bool, Seq<bool>)),
> {
    ops.map_values(|o: ComparisonOperator| o@)
}

/// Which generated GraphQL type a piece of schema belongs to.
#[derive(Clone, Debug, PartialEq, Eq, Hash)]
pub enum TypeId {
    QueryRoot,
    MutationRoot,
    OutputType { gds_type_name: Qualified, graphql_type_name: TypeName },
    ScalarType { gds_type_name: Qualified, graphql_type_name: TypeName },
    InputObjectType { gds_type_name: Qualified, graphql_type_name: TypeName },
    NodeRoot,
    ModelArgumentsInput { model_name: Qualified, generated_name: TypeName },
    ModelBooleanExpression { model_name: Qualified, graphql_type_name: TypeName },
    ModelOrderByExpression { model_name: Qualified, graphql_type_name: TypeName },
    ScalarTypeComparisonExpression {
        scalar_type_name: Vec<u8>,
        graphql_type_name: TypeName,
        operators: Vec<ComparisonOperator>,
    },
    OrderByEnumType,
}

/// The mathematical value of a `TypeId`: its variant and every discriminating field.
pub enum TypeIdView {
    QueryRoot,
    MutationRoot,
    OutputType { owner: (Seq<u8>, Seq<u8>), generated: Seq<u8> },
    ScalarType { owner: (Seq<u8>, Seq<u8>), generated: Seq<u8> },
    InputObjectType { owner: (Seq<u8>, Seq<u8>), generated: Seq<u8> },
    NodeRoot,
    ModelArgumentsInput { owner: (Seq<u8>, Seq<u8>), generated: Seq<u8> },
    ModelBooleanExpression { owner: (Seq<u8>, Seq<u8>), generated: Seq<u8> },
    ModelOrderByExpression { owner: (Seq<u8>, Seq<u8>), generated: Seq<u8> },
    ScalarTypeComparisonExpression {
        scalar: Seq<u8>,
        generated: Seq<u8>,
        operators: Seq<(Seq<u8>, ((Seq<u8>, Seq<u8>), bool, Seq<bool>))>,
    },
    OrderByEnumType,
}

/// The bytes of `Query`.
pub open spec fn query_root_name() -> Seq<u8> {
    seq![81u8, 117u8, 101u8, 114u8, 121u8]
}

/// The bytes of `Mutation`.
pub open spec fn mutation_root_name() -> Seq<u8> {
    seq![77u8, 117u8, 116u8, 97u8, 116u8, 105u8, 111u8, 110u8]
}

/// The bytes of `Node`.
pub open spec fn node_root_name() -> Seq<u8> {
    seq![78u8, 111u8, 100u8, 101u8]
}

/// The bytes of `order_by`.
pub open spec fn order_by_enum_name() -> Seq<u8> {
    seq![111u8, 114u8, 100u8, 101u8, 114u8, 95u8, 98u8, 121u8]
}

impl TypeIdView {
    /// The GraphQL type name of an identity: a fixed literal for the singleton
    /// variants, the carried generated name for all others.
    pub open spec fn published_name(self) -> Seq<u8> {
        match self {
            TypeIdView::QueryRoot => query_root_name(),
            TypeIdView::MutationRoot => mutation_root_name(),
            TypeIdView::OutputType { generated, .. } => generated,
            TypeIdView::ScalarType { generated, .. } => generated,
            TypeIdView::InputObjectType { generated, .. } => generated,
            TypeIdView::NodeRoot => node_root_name(),
            TypeIdView::ModelArgumentsInput { generated, .. } => generated,
            TypeIdView::ModelBooleanExpression { generated, .. } => generated,
            TypeIdView::ModelOrderByExpression { generated, .. } => generated,
            TypeIdView::ScalarTypeComparisonExpression { generated, .. } => generated,
            TypeIdView::OrderByEnumType => order_by_enum_name(),
        }
    }
}

impl View for TypeId {
    type V = TypeIdView;

    open spec fn view(&self) -> TypeIdView {
        match self {
            TypeId::QueryRoot => TypeIdView::QueryRoot,
            TypeId::MutationRoot => TypeIdView::MutationRoot,
            TypeId::OutputType { gds_type_name, graphql_type_name } => TypeIdView::OutputType {
                owner: gds_type_name@,
                generated: graphql_type_name@,
            },
            TypeId::ScalarType { gds_type_name, graphql_type_name } => TypeIdView::ScalarType {
                owner: gds_type_name@,
                generated: graphql_type_name@,
            },
            TypeId::InputObjectType {
                gds_type_name,
                graphql_type_name,
            } => TypeIdView::InputObjectType {
                owner: gds_type_name@,
                generated: graphql_type_name@,
            },
            TypeId::NodeRoot => TypeIdView::NodeRoot,
            TypeId::ModelArgumentsInput { model_name, generated_name } => TypeIdView::ModelArgumentsInput {
                owner: model_name@,
                generated: generated_name@,
            },
            TypeId::ModelBooleanExpression {
                model_name,
                graphql_type_name,
            } => TypeIdView::ModelBooleanExpression {
                owner: model_name@,
                generated: graphql_type_name@,
            },
            TypeId::ModelOrderByExpression {
                model_name,
                graphql_type_name,
            } => TypeIdView::ModelOrderByExpression {
                owner: model_name@,
                generated: graphql_type_name@,
            },
            TypeId::ScalarTypeComparisonExpression {
                scalar_type_name,
                graphql_type_name,
                operators,
            } => TypeIdView::ScalarTypeComparisonExpression {
                scalar: scalar_type_name@,
                generated: graphql_type_name@,
                operators: operators_view(operators@),
            },
            TypeId::OrderByEnumType => TypeIdView::OrderByEnumType,
        }
    }
}

/// Whether two operator lists hold equal operators in the same order.
pub fn operators_same(a: &Vec<ComparisonOperator>, b: &Vec<ComparisonOperator>) -> (r: bool)
    ensures
        r == (operators_view(a@) == operators_view(b@)),
{
    if a.len() != b.len() {
        proof {
            assert(operators_view(a@).len() != operators_view(b@).len());
        }
        return false;
    }
    let mut i: usize = 0;
    while i < a.len()
        invariant
            i <= a.len(),
            a.len() == b.len(),
            forall|k: int| 0 <= k < i ==> a@[k]@ == b@[k]@,
        decreases a.len() - i,
    {
        if !a[i].same(&b[i]) {
            proof {
                assert(operators_view(a@)[i as int] == a@[i as int]@);
                assert(operators_view(b@)[i as int] == b@[i as int]@);
            }
            return false;
        }
        i += 1;
    }
    proof {
        assert(operators_view(a@) =~= operators_view(b@));
    }
    true
}

fn fixed_query() -> (r: TypeName)
    ensures
        r@ == query_root_name(),
{
    let mut v: Vec<u8> = Vec::new();
    v.push(81u8);
    v.push(117u8);
    v.push(101u8);
    v.push(114u8);
    v.push(121u8);
    proof {
        assert(v@ =~= query_root_name());
    }
    TypeName { text: v }
}

fn fixed_mutation() -> (r: TypeName)
    ensures
        r@ == mutation_root_name(),
{
    let mut v: Vec<u8> = Vec::new();
    v.push(77u8);
    v.push(117u8);
    v.push(116u8);
    v.push(97u8);
    v.push(116u8);
    v.push(105u8);
    v.push(111u8);
    v.push(110u8);
    proof {
        assert(v@ =~= mutation_root_name());
    }
    TypeName { text: v }
}

fn fixed_node() -> (r: TypeName)
    ensures
        r@ == node_root_name(),
{
    let mut v: Vec<u8> = Vec::new();
    v.push(78u8);
    v.push(111u8);
    v.push(100u8);
    v.push(101u8);
    proof {
        assert(v@ =~= node_root_name());
    }
    TypeName { text: v }
}

fn fixed_order_by() -> (r: TypeName)
    ensures
        r@ == order_by_enum_name(),
{
    let mut v: Vec<u8> = Vec::new();
    v.push(111u8);
    v.push(114u8);
    v.push(100u8);
    v.push(101u8);
    v.push(114u8);
    v.push(95u8);
    v.push(98u8);
    v.push(121u8);
    proof {
        assert(v@ =~= order_by_enum_name());
    }
    TypeName { text: v }
}

impl TypeId {
    /// The GraphQL type name this identity is published under.
    pub fn to_type_name(&self) -> (r: TypeName)
        ensures
            r@ == self@.published_name(),
    {
        match self {
            TypeId::QueryRoot => fixed_query(),
            TypeId::MutationRoot => fixed_mutation(),
            TypeId::OutputType { graphql_type_name, .. } => graphql_type_name.duplicate(),
            TypeId::ScalarType { graphql_type_name, .. } => graphql_type_name.duplicate(),
            TypeId::InputObjectType { graphql_type_name, .. } => graphql_type_name.duplicate(),
            TypeId::NodeRoot => fixed_node(),
            TypeId::ModelArgumentsInput { generated_name, .. } => generated_name.duplicate(),
            TypeId::ModelBooleanExpression { graphql_type_name, .. } => graphql_type_name.duplicate(),
            TypeId::ScalarTypeComparisonExpression {
                graphql_type_name,
                ..
            } => graphql_type_name.duplicate(),
            TypeId::ModelOrderByExpression { graphql_type_name, .. } => graphql_type_name.duplicate(),
            TypeId::OrderByEnumType => fixed_order_by(),
        }
    }

    /// The name as text, for diagnostics.
    pub fn describe(&self) -> (r: Vec<u8>)
        ensures
            r@ == self@.published_name(),
    {
        self.to_type_name().text
    }

    /// Equality of identities: the same variant with every discriminating
    /// field equal, the operator list included.
    pub fn same(&self, other: &TypeId) -> (r: bool)
        ensures
            r == (self@ == other@),
    {
        match self {
            TypeId::QueryRoot => matches!(other, TypeId::QueryRoot),
            TypeId::MutationRoot => matches!(other, TypeId::MutationRoot),
            TypeId::NodeRoot => matches!(other, TypeId::NodeRoot),
            TypeId::OrderByEnumType => matches!(other, TypeId::OrderByEnumType),
            TypeId::OutputType { gds_type_name: a, graphql_type_name: n } => match other {
                TypeId::OutputType { gds_type_name: b, graphql_type_name: m } => a.same(b) && n.same(m),
                _ => false,
            },
            TypeId::ScalarType { gds_type_name: a, graphql_type_name: n } => match other {
                TypeId::ScalarType { gds_type_name: b, graphql_type_name: m } => a.same(b) && n.same(m),
                _ => false,
            },
            TypeId::InputObjectType { gds_type_name: a, graphql_type_name: n } => match other {
                TypeId::InputObjectType { gds_type_name: b, graphql_type_name: m } => a.same(b)
                    && n.same(m),
                _ => false,
            },
            TypeId::ModelArgumentsInput { model_name: a, generated_name: n } => match other {
                TypeId::ModelArgumentsInput { model_name: b, generated_name: m } => a.same(b) && n.same(m),
                _ => false,
            },
            TypeId::ModelBooleanExpression { model_name: a, graphql_type_name: n } => match other {
                TypeId::ModelBooleanExpression { model_name: b, graphql_type_name: m } => a.same(b)
                    && n.same(m),
                _ => false,
            },
            TypeId::ModelOrderByExpression { model_name: a, graphql_type_name: n } => match other {
                TypeId::ModelOrderByExpression { model_name: b, graphql_type_name: m } => a.same(b)
                    && n.same(m),
                _ => false,
            },
            TypeId::ScalarTypeComparisonExpression {
                scalar_type_name: a,
                graphql_type_name: n,
                operators: x,
            } => match other {
                TypeId::ScalarTypeComparisonExpression {
                    scalar_type_name: b,
                    graphql_type_name: m,
                    operators: y,
                } => bytes_eq(a, b) && n.same(m) && operators_same(x, y),
                _ => false,
            },
        }
    }
}

/// Equal identities are published under one name, and two scalar comparison
/// identities that differ in their operator lists are different identities,
/// whatever their names.
pub proof fn lemma_identity_by_fields(a: TypeId, b: TypeId)
    ensures
        a@ == b@ ==> a@.published_name() == b@.published_name(),
        (a matches TypeId::ScalarTypeComparisonExpression { operators: x, .. }
            && b matches TypeId::ScalarTypeComparisonExpression { operators: y, .. }
            && operators_view(x@) != operators_view(y@)) ==> a@ != b@,
{
}

} // verus!
