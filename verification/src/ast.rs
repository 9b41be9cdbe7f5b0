//! The values that a successful parse produces, and the error of a failed one.

use crate::grammar::is_identifier;
use vstd::prelude::*;

verus! {

/// Why a rule did not match: the token that it required and did not find.
#[derive(Debug, Clone, Copy, PartialEq, Eq, Structural)]
pub enum ParseError {
    /// The text does not begin with the keyword `type`.
    Keyword,
    /// The text does not begin, after blanks, with an identifier.
    Identifier,
    /// The name of the type is not followed by `{`.
    OpenBrace,
    /// The list of fields is not followed by `}`.
    CloseBrace,
}

/// One entry of a type definition: a name and, where it was given, the name
/// of its type. Both are owned copies of the matched text.
#[derive(Debug)]
pub struct Field {
    pub name: String,
    pub typ: Option<String>,
}

/// One `type Name { ... }` declaration. The fields stand in the order of the
/// text; a name may occur more than once.
#[derive(Debug)]
pub struct TypeDef {
    pub name: String,
    pub fields: Vec<Field>,
}

/// What a [`Field`] holds, as sequences of characters.
pub ghost struct FieldView {
    pub name: Seq<char>,
    pub typ: Option<Seq<char>>,
}

/// What a [`TypeDef`] holds, as sequences of characters.
pub ghost struct TypeDefView {
    pub name: Seq<char>,
    pub fields: Seq<FieldView>,
}

impl FieldView {
    /// The name is an identifier, and so is the type where there is one.
    pub open spec fn wf(self) -> bool {
        &&& is_identifier(self.name)
        &&& self.typ matches Some(t) ==> is_identifier(t)
    }
}

impl TypeDefView {
    /// The name is an identifier and every field is well formed.
    pub open spec fn wf(self) -> bool {
        &&& is_identifier(self.name)
        &&& forall|i: int| 0 <= i < self.fields.len() ==> (#[trigger] self.fields[i]).wf()
    }
}

impl View for Field {
    type V = FieldView;

    open spec fn view(&self) -> FieldView {
        FieldView {
            name: self.name@,
            typ: match self.typ {
                Some(t) => Some(t@),
                None => None,
            },
        }
    }
}

impl View for TypeDef {
    type V = TypeDefView;

    open spec fn view(&self) -> TypeDefView {
        TypeDefView { name: self.name@, fields: self.fields@.map_values(|f: Field| f@) }
    }
}

} // verus!
