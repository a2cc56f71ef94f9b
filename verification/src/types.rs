//! A small static type lattice for type annotations (gradual typing).
//!
//! Types are compile-time metadata only; nothing here reaches the VM.

use vstd::prelude::*;
use vstd::string::*;

verus! {

/// A static type.
#[derive(Debug)]
pub enum Type {
    /// Dynamic / unknown: assignable to and from anything.
    Any,
    Nil,
    Boolean,
    /// Integers and floats alike (`type()` says `number` for both).
    Number,
    String,
    Table,
    Function,
    /// `T?`: a value of `T` or `nil`.
    Optional(Box<Type>),
    /// A named type that is not resolved yet; treated as `Any`.
    Named(String),
}

/// The view of a [`Type`]: names are seen as their characters.
pub enum TypeView {
    Any,
    Nil,
    Boolean,
    Number,
    String,
    Table,
    Function,
    Optional(Box<TypeView>),
    Named(Seq<char>),
}

impl View for Type {
    type V = TypeView;

    open spec fn view(&self) -> TypeView
        decreases self,
    {
        match self {
            Type::Any => TypeView::Any,
            Type::Nil => TypeView::Nil,
            Type::Boolean => TypeView::Boolean,
            Type::Number => TypeView::Number,
            Type::String => TypeView::String,
            Type::Table => TypeView::Table,
            Type::Function => TypeView::Function,
            Type::Optional(t) => TypeView::Optional(Box::new((**t).view())),
            Type::Named(n) => TypeView::Named(n@),
        }
    }
}

impl Default for Type {
    fn default() -> (t: Self)
        ensures
            t@ == TypeView::Any,
    {
        Type::Any
    }
}

/// The type a type-name spells (`any`, `nil`, `boolean`/`bool`, `number`,
/// `string`, `table`, `function`); any other name stays a named type.
pub open spec fn spec_from_name(name: Seq<char>) -> TypeView {
    if name == "any"@ { TypeView::Any }
    else if name == "nil"@ { TypeView::Nil }
    else if name == "boolean"@ || name == "bool"@ { TypeView::Boolean }
    else if name == "number"@ { TypeView::Number }
    else if name == "string"@ { TypeView::String }
    else if name == "table"@ { TypeView::Table }
    else if name == "function"@ { TypeView::Function }
    else { TypeView::Named(name) }
}

fn str_eq(a: &str, b: &str) -> (r: bool)
    ensures
        r == (a@ == b@),
{
    let n = a.unicode_len();
    if n != b.unicode_len() {
        return false;
    }
    let mut i: usize = 0;
    while i < n
        invariant
            n == a@.len(),
            n == b@.len(),
            i <= n,
            forall|j: int| 0 <= j < i ==> a@[j] == b@[j],
        decreases n - i,
    {
        if a.get_char(i) != b.get_char(i) {
            return false;
        }
        i += 1;
    }
    proof {
        assert(a@ =~= b@);
    }
    true
}

impl Type {
    /// Map a type name to its type.
    pub fn from_name(name: &str) -> (t: Type)
        ensures
            t@ == spec_from_name(name@),
    {
        if str_eq(name, "any") { Type::Any }
        else if str_eq(name, "nil") { Type::Nil }
        else if str_eq(name, "boolean") || str_eq(name, "bool") { Type::Boolean }
        else if str_eq(name, "number") { Type::Number }
        else if str_eq(name, "string") { Type::String }
        else if str_eq(name, "table") { Type::Table }
        else if str_eq(name, "function") { Type::Function }
        else { Type::Named(String::from_str(name)) }
    }
}

/// Is a value of type `value` assignable to a slot of type `target`?
///
/// Lenient by design: `Any` and unresolved named types fit everything; `nil` fits
/// any optional; an optional target takes its base type; an optional value fits a
/// target its base type fits; otherwise the two types must be equal.
pub open spec fn spec_assignable(target: TypeView, value: TypeView) -> bool
    decreases target, value,
{
    if target is Any || value is Any {
        true
    } else if target is Named || value is Named {
        true
    } else if target is Optional && value is Nil {
        true
    } else if target is Optional {
        spec_assignable(*target->Optional_0, value)
    } else if value is Optional {
        spec_assignable(target, *value->Optional_0)
    } else {
        target == value
    }
}

/// The same kind of type, for types that carry nothing.
fn same_simple(a: &Type, b: &Type) -> (r: bool)
    requires
        !(a is Optional || a is Named || b is Optional || b is Named),
    ensures
        r == (a@ == b@),
{
    match (a, b) {
        (Type::Any, Type::Any) => true,
        (Type::Nil, Type::Nil) => true,
        (Type::Boolean, Type::Boolean) => true,
        (Type::Number, Type::Number) => true,
        (Type::String, Type::String) => true,
        (Type::Table, Type::Table) => true,
        (Type::Function, Type::Function) => true,
        _ => false,
    }
}

/// Is a value of type `value` assignable to a slot of type `target`?
pub fn assignable(target: &Type, value: &Type) -> (r: bool)
    ensures
        r == spec_assignable(target@, value@),
    decreases target, value,
{
    match (target, value) {
        (Type::Any, _) | (_, Type::Any) => true,
        (Type::Named(_), _) | (_, Type::Named(_)) => true,
        (Type::Optional(_), Type::Nil) => true,
        (Type::Optional(t), v) => assignable(t, v),
        (t, Type::Optional(v)) => assignable(t, v),
        (a, b) => same_simple(a, b),
    }
}

} // verus!
