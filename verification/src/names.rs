//! Byte-string names: GraphQL type names, field names and qualified metadata names.
use vstd::prelude::*;

verus! {

/// Whether `c` may start a GraphQL name token: an ASCII letter or an underscore.
pub open spec fn is_name_start(c: u8) -> bool {
    c == 95 || (65 <= c <= 90) || (97 <= c <= 122)
}

/// Whether `c` may continue a GraphQL name token: a name start or an ASCII digit.
pub open spec fn is_name_continue(c: u8) -> bool {
    is_name_start(c) || (48 <= c <= 57)
}

/// The GraphQL name-token grammar: a start character followed by continue characters.
pub open spec fn is_name_token(s: Seq<u8>) -> bool {
    &&& s.len() > 0
    &&& is_name_start(s[0])
    &&& forall|i: int| 0 <= i < s.len() ==> is_name_continue(#[trigger] s[i])
}

/// Executable test of the GraphQL name-token grammar.
pub fn check_name_token(s: &Vec<u8>) -> (r: bool)
    ensures
        r == is_name_token(s@),
{
    if s.len() == 0 {
        return false;
    }
    let first: u8 = s[0];
    if !(first == 95 || (65 <= first && first <= 90) || (97 <= first && first <= 122)) {
        return false;
    }
    let mut i: usize = 1;
    while i < s.len()
        invariant
            1 <= i <= s.len(),
            is_name_start(s@[0]),
            forall|k: int| 0 <= k < i ==> is_name_continue(#[trigger] s@[k]),
        decreases s.len() - i,
    {
        let c: u8 = s[i];
        if !(c == 95 || (65 <= c && c <= 90) || (97 <= c && c <= 122) || (48 <= c && c <= 57)) {
            return false;
        }
        i += 1;
    }
    true
}

/// Byte-wise equality of two byte strings.
pub fn bytes_eq(a: &Vec<u8>, b: &Vec<u8>) -> (r: bool)
    ensures
        r == (a@ == b@),
{
    if a.len() != b.len() {
        return false;
    }
    let mut i: usize = 0;
    while i < a.len()
        invariant
            i <= a.len(),
            a.len() == b.len(),
            forall|k: int| 0 <= k < i ==> a@[k] == b@[k],
        decreases a.len() - i,
    {
        if a[i] != b[i] {
            return false;
        }
        i += 1;
    }
    proof {
        assert(a@ =~= b@);
    }
    true
}

/// A copy of a byte string.
pub fn bytes_clone(a: &Vec<u8>) -> (r: Vec<u8>)
    ensures
        r@ == a@,
{
    let mut out: Vec<u8> = Vec::new();
    let mut i: usize = 0;
    while i < a.len()
        invariant
            i <= a.len(),
            out@ == a@.take(i as int),
        decreases a.len() - i,
    {
        out.push(a[i]);
        proof {
            assert(out@ =~= a@.take(i + 1));
        }
        i += 1;
    }
    proof {
        assert(a@.take(a.len() as int) =~= a@);
    }
    out
}

/// The name of a generated GraphQL type, as ASCII bytes.
#[derive(Clone, Debug, PartialEq, Eq, Hash)]
pub struct TypeName {
    pub text: Vec<u8>,
}

impl View for TypeName {
    type V = Seq<u8>;

    open spec fn view(&self) -> Seq<u8> {
        self.text@
    }
}

impl TypeName {
    /// A type name is well formed when it is a GraphQL name token.
    pub open spec fn wf(&self) -> bool {
        is_name_token(self@)
    }

    /// Accepts `text` exactly when it is a GraphQL name token.
    pub fn new(text: Vec<u8>) -> (r: Option<TypeName>)
        ensures
            r.is_some() == is_name_token(text@),
            r matches Some(n) ==> n@ == text@ && n.wf(),
    {
        if check_name_token(&text) {
            Some(TypeName { text })
        } else {
            None
        }
    }

    pub fn same(&self, other: &TypeName) -> (r: bool)
        ensures
            r == (self@ == other@),
    {
        bytes_eq(&self.text, &other.text)
    }

    pub fn duplicate(&self) -> (r: TypeName)
        ensures
            r@ == self@,
    {
        TypeName { text: bytes_clone(&self.text) }
    }
}

/// The name of a field of a metadata object type.
#[derive(Clone, Debug, PartialEq, Eq, Hash)]
pub struct FieldName {
    pub text: Vec<u8>,
}

impl View for FieldName {
    type V = Seq<u8>;

    open spec fn view(&self) -> Seq<u8> {
        self.text@
    }
}

impl FieldName {
    pub fn same(&self, other: &FieldName) -> (r: bool)
        ensures
            r == (self@ == other@),
    {
        bytes_eq(&self.text, &other.text)
    }

    pub fn duplicate(&self) -> (r: FieldName)
        ensures
            r@ == self@,
    {
        FieldName { text: bytes_clone(&self.text) }
    }
}

/// A name scoped by the subgraph that declares it. It identifies a metadata
/// entity (a custom type, a model or a command) across all subgraphs.
#[derive(Clone, Debug, PartialEq, Eq, Hash)]
pub struct Qualified {
    pub subgraph: Vec<u8>,
    pub name: Vec<u8>,
}

impl View for Qualified {
    type V = (Seq<u8>, Seq<u8>);

    open spec fn view(&self) -> (Seq<u8>, Seq<u8>) {
        (self.subgraph@, self.name@)
    }
}

impl Qualified {
    /// Structural equality: the same subgraph and the same local name.
    pub fn same(&self, other: &Qualified) -> (r: bool)
        ensures
            r == (self@ == other@),
    {
        bytes_eq(&self.subgraph, &other.subgraph) && bytes_eq(&self.name, &other.name)
    }
}

/// A reference to a metadata type: a named base type, wrapped in zero or more
/// list layers, each layer and the base with its own nullability.
#[derive(Clone, Debug, PartialEq, Eq, Hash)]
pub struct QualifiedTypeReference {
    pub base: Qualified,
    pub base_nullable: bool,
    /// Nullability of each enclosing list layer, innermost first.
    pub list_nullable: Vec<bool>,
}

impl View for QualifiedTypeReference {
    type V = ((Seq<u8>, Seq<u8>), bool, Seq<bool>);

    open spec fn view(&self) -> ((Seq<u8>, Seq<u8>), bool, Seq<bool>) {
        (self.base@, self.base_nullable, self.list_nullable@)
    }
}

impl QualifiedTypeReference {
    pub fn same(&self, other: &QualifiedTypeReference) -> (r: bool)
        ensures
            r == (self@ == other@),
    {
        if !self.base.same(&other.base) || self.base_nullable != other.base_nullable {
            return false;
        }
        if self.list_nullable.len() != other.list_nullable.len() {
            return false;
        }
        let mut i: usize = 0;
        while i < self.list_nullable.len()
            invariant
                i <= self.list_nullable.len(),
                self.list_nullable.len() == other.list_nullable.len(),
                forall|k: int| 0 <= k < i ==> self.list_nullable@[k] == other.list_nullable@[k],
            decreases self.list_nullable.len() - i,
        {
            if self.list_nullable[i] != other.list_nullable[i] {
                return false;
            }
            i += 1;
        }
        proof {
            assert(self.list_nullable@ =~= other.list_nullable@);
        }
        true
    }
}

} // verus!
