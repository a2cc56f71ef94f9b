//! Snippets: a function captured out of one VM as plain data — its bytecode
//! tree and constants — so that another VM can run it.

use vstd::prelude::*;
use vstd::string::*;
use crate::code::OpCode;
use crate::text::{decimal, usize_to_decimal};
use crate::value::Value;

verus! {

/// Why a function could not be captured as a snippet.
#[derive(Debug, Clone, Copy, PartialEq, Eq, Structural)]
pub enum SnippetError {
    /// The value was not a function or closure.
    NotAFunction,
    /// A captured upvalue is a reference and cannot be copied; its slot.
    EscapingReference(usize),
    /// A constant in the bytecode is a reference that cannot be copied.
    NonConstantConstant,
    /// The function captures upvalues, which snippets do not carry yet.
    UpvaluesNotYetSupported,
}

/// The message of a snippet error.
pub open spec fn snippet_error_text(e: SnippetError) -> Seq<char> {
    match e {
        SnippetError::NotAFunction => "value is not a function"@,
        SnippetError::EscapingReference(i) => "captured upvalue #"@ + decimal(i as nat)
            + " is a reference and cannot be cloned into a snippet"@,
        SnippetError::NonConstantConstant => "a bytecode constant is a non-serializable reference"@,
        SnippetError::UpvaluesNotYetSupported => "snippet captures upvalues (not supported yet)"@,
    }
}

impl SnippetError {
    /// The error's message.
    pub fn to_string(&self) -> (r: String)
        ensures
            r@ == snippet_error_text(*self),
    {
        match self {
            SnippetError::NotAFunction => String::from_str("value is not a function"),
            SnippetError::EscapingReference(i) => {
                let mut r = String::from_str("captured upvalue #");
                let d = usize_to_decimal(*i);
                r.append(d.as_str());
                r.append(" is a reference and cannot be cloned into a snippet");
                r
            },
            SnippetError::NonConstantConstant => String::from_str(
                "a bytecode constant is a non-serializable reference",
            ),
            SnippetError::UpvaluesNotYetSupported => String::from_str(
                "snippet captures upvalues (not supported yet)",
            ),
        }
    }
}

/// A function prototype as plain data: bytecode, constants and shape.
pub struct SnippetProto {
    pub code: Vec<OpCode>,
    pub constants: Vec<SnippetConst>,
    pub arity: u8,
    pub upvalue_count: u8,
    pub is_variadic: bool,
    pub varidic_index: u8,
    pub name: Option<String>,
}

/// A constant of a snippet: a value, or a nested function prototype.
pub enum SnippetConst {
    Value(Value),
    Proto(SnippetProto),
}

/// A captured function: its prototype tree, the upvalues it carries, the
/// value-typed globals it read (with their values), and the reference-typed
/// globals it resolves in the VM that runs it.
pub struct Snippet {
    pub proto: SnippetProto,
    pub upvalues: Vec<Value>,
    pub value_globals: Vec<(String, Value)>,
    pub ref_globals: Vec<String>,
}

/// The global name instruction `op` refers to, when it reads, writes or defines
/// a global whose name constant is a string.
pub open spec fn op_global(op: OpCode, consts: Seq<SnippetConst>) -> Option<Seq<char>> {
    let c: int = match op {
        OpCode::GET_GLOBAL { constant } => constant as int,
        OpCode::SET_GLOBAL { constant } => constant as int,
        OpCode::DEFINE_GLOBAL { constant } => constant as int,
        _ => -1,
    };
    if 0 <= c < consts.len() {
        match consts[c] {
            SnippetConst::Value(Value::String(s)) => Some(s@),
            _ => None,
        }
    } else {
        None
    }
}

/// `out` with `name` appended unless already there.
pub open spec fn with_name(out: Seq<Seq<char>>, name: Seq<char>) -> Seq<Seq<char>> {
    if out.contains(name) { out } else { out.push(name) }
}

/// `out` after the global names of the first `n` instructions of `p`.
pub open spec fn code_names(p: SnippetProto, n: int, out: Seq<Seq<char>>) -> Seq<Seq<char>>
    decreases n,
{
    if n <= 0 {
        out
    } else {
        let before = code_names(p, n - 1, out);
        match op_global(p.code@[n - 1], p.constants@) {
            Some(name) => with_name(before, name),
            None => before,
        }
    }
}

/// `out` after the names of `p`'s code and then of its nested prototypes, in
/// constant order: the distinct global names the prototype tree refers to.
pub open spec fn proto_names(p: SnippetProto, out: Seq<Seq<char>>) -> Seq<Seq<char>>
    decreases p, 1int,
{
    nested_names(p, p.constants@.len() as int, code_names(p, p.code@.len() as int, out))
}

/// `out` after the names of the nested prototypes among the first `n`
/// constants of `p`.
pub open spec fn nested_names(p: SnippetProto, n: int, out: Seq<Seq<char>>) -> Seq<Seq<char>>
    decreases p, 0int, n,
{
    if n <= 0 || n > p.constants@.len() {
        out
    } else {
        let before = nested_names(p, n - 1, out);
        match p.constants@[n - 1] {
            SnippetConst::Proto(q) => {
                proof {
                    assert(decreases_to!(p => p.constants));
                    assert(decreases_to!(p.constants => p.constants@));
                    assert(decreases_to!(p.constants@ => p.constants@[n - 1]));
                }
                proto_names(q, before)
            },
            _ => before,
        }
    }
}


/// The names held by a list of strings.
pub open spec fn names_of(v: Seq<String>) -> Seq<Seq<char>> {
    v.map_values(|s: String| s@)
}

/// Appends `name` to `out` unless it is there already.
fn add_name(out: &mut Vec<String>, name: &String)
    ensures
        names_of(final(out)@) == with_name(names_of(old(out)@), name@),
{
    let ghost before = names_of(out@);
    let mut k: usize = 0;
    while k < out.len()
        invariant
            k <= out@.len(),
            names_of(out@) == before,
            forall|j: int| 0 <= j < k ==> before[j] != name@,
        decreases out@.len() - k,
    {
        if out[k].eq(name) {
            assert(before[k as int] == name@);
            return;
        }
        k += 1;
    }
    out.push(name.clone());
    assert(names_of(out@) =~= before.push(name@));
}

/// The name constant instruction `op` refers to, as [`op_global`] reads it.
fn op_global_exec<'a>(op: &OpCode, consts: &'a Vec<SnippetConst>) -> (r: Option<&'a String>)
    ensures
        match op_global(*op, consts@) {
            Some(n) => r matches Some(s) && s@ == n,
            None => r is None,
        },
{
    let c: usize = match op {
        OpCode::GET_GLOBAL { constant } => *constant as usize,
        OpCode::SET_GLOBAL { constant } => *constant as usize,
        OpCode::DEFINE_GLOBAL { constant } => *constant as usize,
        _ => return None,
    };
    if c < consts.len() {
        match &consts[c] {
            SnippetConst::Value(Value::String(s)) => Some(s),
            _ => None,
        }
    } else {
        None
    }
}

/// Appends to `out` the distinct global names the prototype tree reads, writes
/// or defines that `out` does not hold yet: first those of `proto`'s own code,
/// in instruction order, then those of its nested prototypes, in constant order.
pub fn collect_global_names(proto: &SnippetProto, out: &mut Vec<String>)
    ensures
        names_of(final(out)@) == proto_names(*proto, names_of(old(out)@)),
    decreases proto,
{
    let ghost start = names_of(out@);
    let mut i: usize = 0;
    while i < proto.code.len()
        invariant
            i <= proto.code@.len(),
            names_of(out@) == code_names(*proto, i as int, start),
        decreases proto.code@.len() - i,
    {
        match op_global_exec(&proto.code[i], &proto.constants) {
            Some(name) => add_name(out, name),
            None => {},
        }
        i += 1;
    }
    let ghost mid = names_of(out@);
    let mut c: usize = 0;
    while c < proto.constants.len()
        invariant
            c <= proto.constants@.len(),
            mid == code_names(*proto, proto.code@.len() as int, start),
            names_of(out@) == nested_names(*proto, c as int, mid),
        decreases proto.constants@.len() - c,
    {
        match &proto.constants[c] {
            SnippetConst::Proto(q) => {
                proof {
                    assert(decreases_to!(*proto => proto.constants));
                    assert(decreases_to!(proto.constants => proto.constants@));
                    assert(decreases_to!(proto.constants@ => proto.constants@[c as int]));
                }
                collect_global_names(q, out);
            },
            _ => {},
        }
        c += 1;
    }
}

/// No name occurs twice in `names`.
pub open spec fn distinct_names(names: Seq<Seq<char>>) -> bool {
    forall|i: int, j: int| 0 <= i < j < names.len() ==> names[i] != names[j]
}

proof fn lemma_with_name_distinct(out: Seq<Seq<char>>, name: Seq<char>)
    requires
        distinct_names(out),
    ensures
        distinct_names(with_name(out, name)),
        forall|k: int| 0 <= k < out.len() ==> with_name(out, name)[k] == out[k],
        with_name(out, name).len() >= out.len(),
{
    if !out.contains(name) {
        let o2 = out.push(name);
        assert forall|i: int, j: int| 0 <= i < j < o2.len() implies o2[i] != o2[j] by {
            if j == out.len() {
                assert(o2[i] == out[i]);
            }
        }
    }
}

proof fn lemma_code_names_distinct(p: SnippetProto, n: int, out: Seq<Seq<char>>)
    requires
        distinct_names(out),
    ensures
        distinct_names(code_names(p, n, out)),
    decreases n,
{
    if n > 0 {
        lemma_code_names_distinct(p, n - 1, out);
        match op_global(p.code@[n - 1], p.constants@) {
            Some(name) => lemma_with_name_distinct(code_names(p, n - 1, out), name),
            None => {},
        }
    }
}

/// The names gathered from a prototype tree are distinct when the list they are
/// added to was: each global is listed once.
pub proof fn law_names_distinct(p: SnippetProto, out: Seq<Seq<char>>)
    requires
        distinct_names(out),
    ensures
        distinct_names(proto_names(p, out)),
    decreases p, 1int,
{
    lemma_code_names_distinct(p, p.code@.len() as int, out);
    lemma_nested_names_distinct(p, p.constants@.len() as int, code_names(p, p.code@.len() as int, out));
}

proof fn lemma_nested_names_distinct(p: SnippetProto, n: int, out: Seq<Seq<char>>)
    requires
        distinct_names(out),
    ensures
        distinct_names(nested_names(p, n, out)),
    decreases p, 0int, n,
{
    if 0 < n <= p.constants@.len() {
        lemma_nested_names_distinct(p, n - 1, out);
        match p.constants@[n - 1] {
            SnippetConst::Proto(q) => {
                assert(decreases_to!(p => p.constants));
                assert(decreases_to!(p.constants => p.constants@));
                assert(decreases_to!(p.constants@ => p.constants@[n - 1]));
                law_names_distinct(q, nested_names(p, n - 1, out));
            },
            _ => {},
        }
    }
}

} // verus!
