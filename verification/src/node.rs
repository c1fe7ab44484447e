//! Resolution of the `node` root field: from the opaque identifier that a
//! client sent to the binding that executes it.
use crate::annotations::{
    dispatch_node, is_first_node_binding, no_node_binding, NodeDispatchError, NodeTypeBinding,
};
use crate::global_id::{decode_spec, DecodeError, GlobalID, GlobalIDView};
use vstd::prelude::*;

verus! {

/// Why the `node` root field fails for an identifier. Each is an error of
/// that field alone.
#[derive(Clone, Copy, Debug, PartialEq, Eq, Structural)]
pub enum NodeFieldError {
    /// The text is no identifier.
    Decode(DecodeError),
    /// The identifier is sound, but no binding carries its type name.
    UnknownType,
    /// The type is bound, but to no source.
    NotExecutable,
}

/// Resolves the `node` root field: decodes the identifier, finds the binding
/// of its type name and requires a source of it. The answer is the decoded
/// identifier and the index of the binding to execute.
pub fn resolve_node(bindings: &Vec<NodeTypeBinding>, id_text: &Vec<u8>) -> (r: Result<
    (GlobalID, usize),
    NodeFieldError,
>)
    ensures
        match r {
            Ok((g, i)) => g.wf() && decode_spec(id_text@) == Ok::<GlobalIDView, DecodeError>(g@)
                && is_first_node_binding(bindings@, g@.typename, i as int)
                && bindings@[i as int].mapping.model_source is Some,
            Err(NodeFieldError::Decode(e)) => decode_spec(id_text@) == Err::<
                GlobalIDView,
                DecodeError,
            >(e),
            Err(NodeFieldError::UnknownType) => decode_spec(id_text@) is Ok && no_node_binding(
                bindings@,
                decode_spec(id_text@).unwrap().typename,
            ),
            Err(NodeFieldError::NotExecutable) => decode_spec(id_text@) is Ok && exists|i: int|
                is_first_node_binding(bindings@, decode_spec(id_text@).unwrap().typename, i)
                    && bindings@[i].mapping.model_source is None,
        },
{
    match GlobalID::decode(id_text) {
        Err(e) => Err(NodeFieldError::Decode(e)),
        Ok(g) => {
            let found = dispatch_node(bindings, g.typename());
            proof {
                assert(decode_spec(id_text@).unwrap().typename == g@.typename);
                if found == Err::<usize, NodeDispatchError>(NodeDispatchError::NotExecutable) {
                    let i = choose|i: int|
                        is_first_node_binding(bindings@, g@.typename, i)
                            && bindings@[i].mapping.model_source is None;
                    assert(is_first_node_binding(bindings@, g@.typename, i));
                }
            }
            match found {
                Ok(i) => Ok((g, i)),
                Err(NodeDispatchError::UnknownType) => Err(NodeFieldError::UnknownType),
                Err(NodeDispatchError::NotExecutable) => Err(NodeFieldError::NotExecutable),
            }
        },
    }
}

} // verus!
