//! What the code generator decides about the members of a struct before
//! it writes any code.

use vstd::prelude::*;
use crate::ast::{Struct, StructMember, Type, AST};

verus! {

/// What a struct member becomes in the generated struct.
#[derive(Debug, Clone, Copy, PartialEq, Eq, Structural)]
pub enum MemberKind {
    /// A header: a member that counts in size and serialization.
    Header,
    /// A `bit<N>`: a bit vector field.
    Bits(usize),
    /// A `bool` field.
    Bool,
    /// A named type that is no header of the program.
    Undefined,
    /// A type that a struct member cannot have.
    Unsupported,
}

/// Whether the program declares a header of that name.
pub open spec fn declares_header(ast: &AST, name: Seq<char>) -> bool {
    exists|i: int| 0 <= i < ast.headers@.len() && (#[trigger] ast.headers@[i]).name@ == name
}

/// What a member of that type becomes.
pub open spec fn kind_of(ast: &AST, ty: Type) -> MemberKind {
    match ty {
        Type::UserDefined(name) => if declares_header(ast, name@) {
            MemberKind::Header
        } else {
            MemberKind::Undefined
        },
        Type::Bit(size) => MemberKind::Bits(size),
        Type::Bool => MemberKind::Bool,
        _ => MemberKind::Unsupported,
    }
}

/// What the member becomes in the generated struct.
pub fn member_kind(ast: &AST, member: &StructMember) -> (r: MemberKind)
    ensures
        r == kind_of(ast, member.ty),
{
    match &member.ty {
        Type::UserDefined(typename) => {
            match ast.get_header(typename.as_str()) {
                Some(_) => {
                    assert(declares_header(ast, typename@)) by {
                        let i = choose|i: int| ast.is_first_header(typename@, i);
                        assert(ast.headers@[i].name@ == typename@);
                    }
                    MemberKind::Header
                },
                None => MemberKind::Undefined,
            }
        },
        Type::Bit(size) => MemberKind::Bits(*size),
        Type::Bool => MemberKind::Bool,
        _ => MemberKind::Unsupported,
    }
}

/// Whether some member of the struct is a header, so that the struct
/// gets its size and serialization functions.
pub open spec fn has_header_member(ast: &AST, s: &Struct) -> bool {
    exists|i: int|
        0 <= i < s.members@.len() && kind_of(ast, (#[trigger] s.members@[i]).ty)
            == MemberKind::Header
}

/// Whether the generated struct gets its size and serialization
/// functions.
pub fn serializes(ast: &AST, s: &Struct) -> (r: bool)
    ensures
        r == has_header_member(ast, s),
{
    let mut i: usize = 0;
    while i < s.members.len()
        invariant
            i <= s.members@.len(),
            forall|j: int|
                0 <= j < i ==> kind_of(ast, (#[trigger] s.members@[j]).ty) != MemberKind::Header,
        decreases s.members@.len() - i,
    {
        match member_kind(ast, &s.members[i]) {
            MemberKind::Header => {
                return true;
            },
            _ => {},
        }
        i += 1;
    }
    false
}

} // verus!
