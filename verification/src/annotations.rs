//! The annotations that a schema build attaches to generated types and
//! fields, and the lookups that request execution makes in them.
use crate::names::{FieldName, Qualified, QualifiedTypeReference, TypeName};
use vstd::prelude::*;

verus! {

/// Whether a root field selects a single row or many.
#[derive(Clone, Copy, Debug, PartialEq, Eq, Structural)]
pub enum RootFieldKind {
    SelectOne,
    SelectMany,
}

/// The role of one argument of a boolean expression.
#[derive(Clone, Debug, PartialEq, Eq)]
pub enum ModelFilterArgument {
    AndOp,
    OrOp,
    NotOp,
    Field { ndc_column: Vec<u8> },
}

/// The direction of one ordering criterion.
#[derive(Clone, Copy, Debug, PartialEq, Eq, Structural)]
pub enum ModelOrderByDirection {
    Asc,
    Desc,
}

/// Where the rows of a model come from.
#[derive(Clone, Debug, PartialEq, Eq)]
pub struct ModelSource {
    pub data_connector: Qualified,
    pub collection: Vec<u8>,
}

/// Where a command is carried out.
#[derive(Clone, Debug, PartialEq, Eq)]
pub struct CommandSource {
    pub data_connector: Qualified,
    pub operation: Vec<u8>,
}

/// What a role may see of a model: every row, or the rows that pass a
/// predicate, kept here as the compiler of permissions wrote it.
#[derive(Clone, Debug, PartialEq, Eq)]
pub enum FilterPermission {
    AllowAll,
    Filter { predicate: Vec<u8> },
}

/// What is needed to follow a relationship into another model.
#[derive(Clone, Debug, PartialEq, Eq)]
pub struct ModelRelationshipAnnotation {
    pub source_type: Qualified,
    pub relationship_name: Vec<u8>,
    pub model_name: Qualified,
    pub target_source: Option<ModelSource>,
    pub target_type: Qualified,
}

/// How the `node` root field resolves one concrete type.
#[derive(Clone, Debug, PartialEq, Eq)]
pub struct NodeFieldTypeNameMapping {
    pub generated_name: Qualified,
    pub model_source: Option<ModelSource>,
}

/// One binding of a type name in the `node` root field.
#[derive(Clone, Debug, PartialEq, Eq)]
pub struct NodeTypeBinding {
    pub typename: TypeName,
    pub mapping: NodeFieldTypeNameMapping,
}

/// One binding of a type name on the `Node` interface: the fields, in
/// order, from which that type's global identifier is built.
#[derive(Clone, Debug, PartialEq, Eq)]
pub struct NodeIdBinding {
    pub typename: TypeName,
    pub global_id_fields: Vec<FieldName>,
}

/// One binding of a concrete type to what a role may see of it.
#[derive(Clone, Debug, PartialEq, Eq)]
pub struct TypePermissionBinding {
    pub gds_type: Qualified,
    pub permission: FilterPermission,
}

/// Annotations of the GraphQL root fields.
#[allow(inconsistent_fields)]
#[derive(Clone, Debug, PartialEq, Eq)]
pub enum RootFieldAnnotation {
    Introspection,
    RelayNode { typename_mappings: Vec<NodeTypeBinding> },
    Model { data_type: Qualified, source: Option<ModelSource>, kind: RootFieldKind, name: Qualified },
    Command {
        name: Qualified,
        underlying_object_typename: Option<Qualified>,
        source: Option<CommandSource>,
    },
}

/// Annotations of the GraphQL output fields and types.
#[derive(Clone, Debug, PartialEq, Eq)]
pub enum OutputAnnotation {
    RootField(RootFieldAnnotation),
    Field { name: FieldName },
    GlobalIDField { global_id_fields: Vec<FieldName> },
    RelationshipToModel(ModelRelationshipAnnotation),
    RelayNodeInterfaceID { typename_mappings: Vec<NodeIdBinding> },
}

/// Annotations of the input types and fields that belong to models.
#[derive(Clone, Debug, PartialEq, Eq)]
pub enum ModelInputAnnotation {
    ModelArgumentsExpression,
    ModelArgument { argument_type: QualifiedTypeReference, ndc_table_argument: Option<Vec<u8>> },
    ModelFilterExpression,
    ModelFilterArgument { field: ModelFilterArgument },
    ModelFilterScalarExpression,
    ModelOrderByExpression,
    ModelOrderByArgument { ndc_column: Vec<u8> },
    ModelOrderByDirection { direction: ModelOrderByDirection },
    ModelLimitArgument,
    ModelOffsetArgument,
    ModelUniqueIdentifierArgument { field_name: FieldName },
}

/// Annotations of GraphQL input arguments and types.
#[derive(Clone, Debug, PartialEq, Eq)]
pub enum InputAnnotation {
    Model(ModelInputAnnotation),
    InputObjectField { field_name: FieldName, field_type: QualifiedTypeReference },
    CommandArgument { argument_type: QualifiedTypeReference, ndc_func_proc_argument: Option<Vec<u8>> },
}

/// What a schema node carries for the executor.
#[derive(Clone, Debug, PartialEq, Eq)]
pub enum Annotation {
    Output(OutputAnnotation),
    Input(InputAnnotation),
}

/// What a role may see, attached to a field or a type outside the base schema.
#[derive(Clone, Debug, PartialEq, Eq)]
pub enum NamespaceAnnotation {
    Filter(FilterPermission),
    NodeFieldTypeMappings(Vec<TypePermissionBinding>),
}

impl RootFieldAnnotation {
    /// The variant's name.
    pub open spec fn label_spec(&self) -> Seq<char> {
        match self {
            RootFieldAnnotation::Introspection => "Introspection"@,
            RootFieldAnnotation::RelayNode { .. } => "RelayNode"@,
            RootFieldAnnotation::Model { .. } => "Model"@,
            RootFieldAnnotation::Command { .. } => "Command"@,
        }
    }

    /// The variant's name, for diagnostics.
    pub fn label(&self) -> (r: &'static str)
        ensures
            r@ == self.label_spec(),
    {
        match self {
            RootFieldAnnotation::Introspection => "Introspection",
            RootFieldAnnotation::RelayNode { .. } => "RelayNode",
            RootFieldAnnotation::Model { .. } => "Model",
            RootFieldAnnotation::Command { .. } => "Command",
        }
    }

    /// Whether the field can be executed. Introspection and the `node` field
    /// always can; a model or a command only when it is bound to a source.
    pub fn is_executable(&self) -> (r: bool)
        ensures
            r == match *self {
                RootFieldAnnotation::Introspection => true,
                RootFieldAnnotation::RelayNode { .. } => true,
                RootFieldAnnotation::Model { source, .. } => source is Some,
                RootFieldAnnotation::Command { source, .. } => source is Some,
            },
    {
        match self {
            RootFieldAnnotation::Introspection => true,
            RootFieldAnnotation::RelayNode { .. } => true,
            RootFieldAnnotation::Model { source, .. } => source.is_some(),
            RootFieldAnnotation::Command { source, .. } => source.is_some(),
        }
    }
}

impl OutputAnnotation {
    /// The variant's name.
    pub open spec fn label_spec(&self) -> Seq<char> {
        match self {
            OutputAnnotation::RootField(_) => "RootField"@,
            OutputAnnotation::Field { .. } => "Field"@,
            OutputAnnotation::GlobalIDField { .. } => "GlobalIDField"@,
            OutputAnnotation::RelationshipToModel(_) => "RelationshipToModel"@,
            OutputAnnotation::RelayNodeInterfaceID { .. } => "RelayNodeInterfaceID"@,
        }
    }

    /// The variant's name, for diagnostics.
    pub fn label(&self) -> (r: &'static str)
        ensures
            r@ == self.label_spec(),
    {
        match self {
            OutputAnnotation::RootField(_) => "RootField",
            OutputAnnotation::Field { .. } => "Field",
            OutputAnnotation::GlobalIDField { .. } => "GlobalIDField",
            OutputAnnotation::RelationshipToModel(_) => "RelationshipToModel",
            OutputAnnotation::RelayNodeInterfaceID { .. } => "RelayNodeInterfaceID",
        }
    }
}

impl ModelInputAnnotation {
    /// The variant's name.
    pub open spec fn label_spec(&self) -> Seq<char> {
        match self {
            ModelInputAnnotation::ModelArgumentsExpression => "ModelArgumentsExpression"@,
            ModelInputAnnotation::ModelArgument { .. } => "ModelArgument"@,
            ModelInputAnnotation::ModelFilterExpression => "ModelFilterExpression"@,
            ModelInputAnnotation::ModelFilterArgument { .. } => "ModelFilterArgument"@,
            ModelInputAnnotation::ModelFilterScalarExpression => "ModelFilterScalarExpression"@,
            ModelInputAnnotation::ModelOrderByExpression => "ModelOrderByExpression"@,
            ModelInputAnnotation::ModelOrderByArgument { .. } => "ModelOrderByArgument"@,
            ModelInputAnnotation::ModelOrderByDirection { .. } => "ModelOrderByDirection"@,
            ModelInputAnnotation::ModelLimitArgument => "ModelLimitArgument"@,
            ModelInputAnnotation::ModelOffsetArgument => "ModelOffsetArgument"@,
            ModelInputAnnotation::ModelUniqueIdentifierArgument { .. } => "ModelUniqueIdentifierArgument"@,
        }
    }

    /// The variant's name, for diagnostics.
    pub fn label(&self) -> (r: &'static str)
        ensures
            r@ == self.label_spec(),
    {
        match self {
            ModelInputAnnotation::ModelArgumentsExpression => "ModelArgumentsExpression",
            ModelInputAnnotation::ModelArgument { .. } => "ModelArgument",
            ModelInputAnnotation::ModelFilterExpression => "ModelFilterExpression",
            ModelInputAnnotation::ModelFilterArgument { .. } => "ModelFilterArgument",
            ModelInputAnnotation::ModelFilterScalarExpression => "ModelFilterScalarExpression",
            ModelInputAnnotation::ModelOrderByExpression => "ModelOrderByExpression",
            ModelInputAnnotation::ModelOrderByArgument { .. } => "ModelOrderByArgument",
            ModelInputAnnotation::ModelOrderByDirection { .. } => "ModelOrderByDirection",
            ModelInputAnnotation::ModelLimitArgument => "ModelLimitArgument",
            ModelInputAnnotation::ModelOffsetArgument => "ModelOffsetArgument",
            ModelInputAnnotation::ModelUniqueIdentifierArgument { .. } => "ModelUniqueIdentifierArgument",
        }
    }
}

impl InputAnnotation {
    /// The variant's name.
    pub open spec fn label_spec(&self) -> Seq<char> {
        match self {
            InputAnnotation::Model(_) => "Model"@,
            InputAnnotation::InputObjectField { .. } => "InputObjectField"@,
            InputAnnotation::CommandArgument { .. } => "CommandArgument"@,
        }
    }

    /// The variant's name, for diagnostics.
    pub fn label(&self) -> (r: &'static str)
        ensures
            r@ == self.label_spec(),
    {
        match self {
            InputAnnotation::Model(_) => "Model",
            InputAnnotation::InputObjectField { .. } => "InputObjectField",
            InputAnnotation::CommandArgument { .. } => "CommandArgument",
        }
    }
}

impl Annotation {
    /// The variant's name.
    pub open spec fn label_spec(&self) -> Seq<char> {
        match self {
            Annotation::Output(_) => "Output"@,
            Annotation::Input(_) => "Input"@,
        }
    }

    /// The variant's name, for diagnostics.
    pub fn label(&self) -> (r: &'static str)
        ensures
            r@ == self.label_spec(),
    {
        match self {
            Annotation::Output(_) => "Output",
            Annotation::Input(_) => "Input",
        }
    }
}

impl NamespaceAnnotation {
    /// The variant's name.
    pub open spec fn label_spec(&self) -> Seq<char> {
        match self {
            NamespaceAnnotation::Filter(_) => "Filter"@,
            NamespaceAnnotation::NodeFieldTypeMappings(_) => "NodeFieldTypeMappings"@,
        }
    }

    /// The variant's name, for diagnostics.
    pub fn label(&self) -> (r: &'static str)
        ensures
            r@ == self.label_spec(),
    {
        match self {
            NamespaceAnnotation::Filter(_) => "Filter",
            NamespaceAnnotation::NodeFieldTypeMappings(_) => "NodeFieldTypeMappings",
        }
    }
}

/// Why the `node` root field cannot be dispatched for a decoded identifier.
#[derive(Clone, Copy, Debug, PartialEq, Eq, Structural)]
pub enum NodeDispatchError {
    /// No binding carries the identifier's type name.
    UnknownType,
    /// The type is bound, but to no source.
    NotExecutable,
}

/// Whether `i` is the first binding of `typename`.
pub open spec fn is_first_node_binding(
    bindings: Seq<NodeTypeBinding>,
    typename: Seq<u8>,
    i: int,
) -> bool {
    &&& 0 <= i < bindings.len()
    &&& bindings[i].typename@ == typename
    &&& forall|j: int| 0 <= j < i ==> (#[trigger] bindings[j]).typename@ != typename
}

/// Whether no binding carries `typename`.
pub open spec fn no_node_binding(bindings: Seq<NodeTypeBinding>, typename: Seq<u8>) -> bool {
    forall|j: int| 0 <= j < bindings.len() ==> (#[trigger] bindings[j]).typename@ != typename
}

/// Whether `i` is the first binding of `gds_type`.
pub open spec fn is_first_permission_binding(
    bindings: Seq<TypePermissionBinding>,
    gds_type: (Seq<u8>, Seq<u8>),
    i: int,
) -> bool {
    &&& 0 <= i < bindings.len()
    &&& bindings[i].gds_type@ == gds_type
    &&& forall|j: int| 0 <= j < i ==> (#[trigger] bindings[j]).gds_type@ != gds_type
}

/// Whether no binding carries `gds_type`.
pub open spec fn no_permission_binding(
    bindings: Seq<TypePermissionBinding>,
    gds_type: (Seq<u8>, Seq<u8>),
) -> bool {
    forall|j: int| 0 <= j < bindings.len() ==> (#[trigger] bindings[j]).gds_type@ != gds_type
}

/// Finds the binding of a type name among those of the `node` root field.
pub fn find_node_binding(bindings: &Vec<NodeTypeBinding>, typename: &TypeName) -> (r: Option<usize>)
    ensures
        match r {
            Some(i) => is_first_node_binding(bindings@, typename@, i as int),
            None => no_node_binding(bindings@, typename@),
        },
{
    let mut i: usize = 0;
    while i < bindings.len()
        invariant
            i <= bindings.len(),
            forall|j: int| 0 <= j < i ==> (#[trigger] bindings@[j]).typename@ != typename@,
        decreases bindings.len() - i,
    {
        if bindings[i].typename.same(typename) {
            return Some(i);
        }
        i += 1;
    }
    None
}

/// Dispatches the `node` root field for a decoded type name: the index of
/// the binding to execute. A type name that no binding carries is an unknown
/// type; a binding without a source is not executable. Neither is ever
/// answered with a binding.
pub fn dispatch_node(bindings: &Vec<NodeTypeBinding>, typename: &TypeName) -> (r: Result<
    usize,
    NodeDispatchError,
>)
    ensures
        match r {
            Ok(i) => is_first_node_binding(bindings@, typename@, i as int)
                && bindings@[i as int].mapping.model_source is Some,
            Err(NodeDispatchError::UnknownType) => no_node_binding(bindings@, typename@),
            Err(NodeDispatchError::NotExecutable) => exists|i: int|
                is_first_node_binding(bindings@, typename@, i)
                    && bindings@[i].mapping.model_source is None,
        },
{
    match find_node_binding(bindings, typename) {
        None => Err(NodeDispatchError::UnknownType),
        Some(i) => {
            if bindings[i].mapping.model_source.is_some() {
                Ok(i)
            } else {
                proof {
                    assert(is_first_node_binding(bindings@, typename@, i as int));
                }
                Err(NodeDispatchError::NotExecutable)
            }
        },
    }
}

/// Finds the fields from which the global identifier of a type is built.
pub fn find_global_id_fields<'a>(
    bindings: &'a Vec<NodeIdBinding>,
    typename: &TypeName,
) -> (r: Option<&'a Vec<FieldName>>)
    ensures
        match r {
            Some(fields) => exists|i: int|
                0 <= i < bindings.len() && bindings@[i].typename@ == typename@ && *fields
                    == bindings@[i].global_id_fields && forall|j: int|
                    0 <= j < i ==> (#[trigger] bindings@[j]).typename@ != typename@,
            None => forall|j: int|
                0 <= j < bindings.len() ==> (#[trigger] bindings@[j]).typename@ != typename@,
        },
{
    let mut i: usize = 0;
    while i < bindings.len()
        invariant
            i <= bindings.len(),
            forall|j: int| 0 <= j < i ==> (#[trigger] bindings@[j]).typename@ != typename@,
        decreases bindings.len() - i,
    {
        if bindings[i].typename.same(typename) {
            return Some(&bindings[i].global_id_fields);
        }
        i += 1;
    }
    None
}

/// Finds the binding of a concrete type among per-type permissions.
pub fn find_permission_binding(
    bindings: &Vec<TypePermissionBinding>,
    gds_type: &Qualified,
) -> (r: Option<usize>)
    ensures
        match r {
            Some(i) => is_first_permission_binding(bindings@, gds_type@, i as int),
            None => no_permission_binding(bindings@, gds_type@),
        },
{
    let mut i: usize = 0;
    while i < bindings.len()
        invariant
            i <= bindings.len(),
            forall|j: int| 0 <= j < i ==> (#[trigger] bindings@[j]).gds_type@ != gds_type@,
        decreases bindings.len() - i,
    {
        if bindings[i].gds_type.same(gds_type) {
            return Some(i);
        }
        i += 1;
    }
    None
}

/// What a role may see of the concrete type `gds_type` under a namespace
/// annotation. A plain filter applies to every type. Among per-type bindings
/// a type without a binding has no access: the answer is then `None`, which
/// no permission equals, the unrestricted one included.
pub fn resolve_permission<'a>(
    annotation: &'a NamespaceAnnotation,
    gds_type: &Qualified,
) -> (r: Option<&'a FilterPermission>)
    ensures
        match *annotation {
            NamespaceAnnotation::Filter(p) => r == Some(&p),
            NamespaceAnnotation::NodeFieldTypeMappings(m) => match r {
                Some(p) => exists|i: int|
                    is_first_permission_binding(m@, gds_type@, i) && *p == m@[i].permission,
                None => no_permission_binding(m@, gds_type@),
            },
        },
{
    match annotation {
        NamespaceAnnotation::Filter(p) => Some(p),
        NamespaceAnnotation::NodeFieldTypeMappings(m) => match find_permission_binding(
            m,
            gds_type,
        ) {
            Some(i) => Some(&m[i].permission),
            None => None,
        },
    }
}

/// Whether no two bindings carry the same type name, as in a map keyed by it.
pub open spec fn node_bindings_distinct(bindings: Seq<NodeTypeBinding>) -> bool {
    forall|i: int, j: int|
        0 <= i < j < bindings.len() ==> (#[trigger] bindings[i]).typename@ != (
        #[trigger] bindings[j]).typename@
}

/// Whether no two bindings carry the same concrete type, as in a map keyed by it.
pub open spec fn permission_bindings_distinct(bindings: Seq<TypePermissionBinding>) -> bool {
    forall|i: int, j: int|
        0 <= i < j < bindings.len() ==> (#[trigger] bindings[i]).gds_type@ != (
        #[trigger] bindings[j]).gds_type@
}

/// Binds a type name for the `node` root field: in place of the binding of
/// that name, if there is one, else as a new last binding. The answer tells
/// whether a binding was replaced.
pub fn bind_node_type(
    bindings: &mut Vec<NodeTypeBinding>,
    binding: NodeTypeBinding,
) -> (replaced: bool)
    requires
        node_bindings_distinct(old(bindings)@),
    ensures
        node_bindings_distinct(final(bindings)@),
        replaced ==> exists|i: int|
            is_first_node_binding(old(bindings)@, binding.typename@, i) && final(bindings)@ == old(
                bindings,
            )@.update(i, binding),
        !replaced ==> no_node_binding(old(bindings)@, binding.typename@) && final(bindings)@ == old(
            bindings,
        )@.push(binding),
{
    match find_node_binding(bindings, &binding.typename) {
        Some(i) => {
            proof {
                assert(is_first_node_binding(old(bindings)@, binding.typename@, i as int));
            }
            bindings.set(i, binding);
            true
        },
        None => {
            bindings.push(binding);
            false
        },
    }
}

/// Binds a concrete type to what a role may see of it: in place of the
/// binding of that type, if there is one, else as a new last binding. The
/// answer tells whether a binding was replaced.
pub fn bind_permission(
    bindings: &mut Vec<TypePermissionBinding>,
    binding: TypePermissionBinding,
) -> (replaced: bool)
    requires
        permission_bindings_distinct(old(bindings)@),
    ensures
        permission_bindings_distinct(final(bindings)@),
        replaced ==> exists|i: int|
            is_first_permission_binding(old(bindings)@, binding.gds_type@, i) && final(bindings)@
                == old(bindings)@.update(i, binding),
        !replaced ==> no_permission_binding(old(bindings)@, binding.gds_type@) && final(bindings)@
            == old(bindings)@.push(binding),
{
    match find_permission_binding(bindings, &binding.gds_type) {
        Some(i) => {
            proof {
                assert(is_first_permission_binding(old(bindings)@, binding.gds_type@, i as int));
            }
            bindings.set(i, binding);
            true
        },
        None => {
            bindings.push(binding);
            false
        },
    }
}

/// Among distinct bindings the binding of a type name is the only one: no
/// other place carries that name.
pub proof fn lemma_node_binding_unique(bindings: Seq<NodeTypeBinding>, typename: Seq<u8>, i: int)
    requires
        node_bindings_distinct(bindings),
        is_first_node_binding(bindings, typename, i),
    ensures
        forall|j: int|
            0 <= j < bindings.len() && j != i ==> (#[trigger] bindings[j]).typename@ != typename,
{
    assert forall|j: int| 0 <= j < bindings.len() && j != i implies (#[trigger] bindings[j]).typename@
        != typename by {
        if j > i {
            assert(bindings[i].typename@ != bindings[j].typename@);
        }
    }
}

/// A type that no per-type binding carries is resolved to no access, never
/// to a permission.
pub proof fn lemma_absent_type_has_no_access(
    bindings: Seq<TypePermissionBinding>,
    gds_type: (Seq<u8>, Seq<u8>),
)
    requires
        no_permission_binding(bindings, gds_type),
    ensures
        forall|i: int| !is_first_permission_binding(bindings, gds_type, i),
{
}

/// A type name that no binding carries has no first binding, so that
/// dispatch can only answer it as an unknown type.
pub proof fn lemma_absent_typename_is_unknown(bindings: Seq<NodeTypeBinding>, typename: Seq<u8>)
    requires
        no_node_binding(bindings, typename),
    ensures
        forall|i: int| !is_first_node_binding(bindings, typename, i),
{
}

} // verus!
