//! Metamethod names and the handles that the VM keeps for host-provided userdata.

use vstd::prelude::*;
use crate::text::{decimal, usize_to_decimal};
use vstd::string::*;

verus! {

/// Metamethods that a table's metatable or a userdata type can implement.
#[derive(Debug, Clone, Copy, PartialEq, Eq, Structural)]
pub enum MetaMethod {
    Add,
    Sub,
    Mul,
    Div,
    Mod,
    Pow,
    Unm,
    IDiv,
    BAnd,
    BOr,
    BXor,
    BNot,
    Shl,
    Shr,
    Concat,
    Len,
    Eq,
    Lt,
    Le,
    Gt,
    Ge,
    Index,
    NewIndex,
    Call,
    ToString,
    Pairs,
    IPairs,
}

/// The metatable key under which a metamethod is stored (`__add`, `__index`, ...).
pub open spec fn spec_table_key(m: MetaMethod) -> Seq<char> {
    match m {
        MetaMethod::Add => "__add"@,
        MetaMethod::Sub => "__sub"@,
        MetaMethod::Mul => "__mul"@,
        MetaMethod::Div => "__div"@,
        MetaMethod::Mod => "__mod"@,
        MetaMethod::Pow => "__pow"@,
        MetaMethod::Unm => "__unm"@,
        MetaMethod::IDiv => "__idiv"@,
        MetaMethod::BAnd => "__band"@,
        MetaMethod::BOr => "__bor"@,
        MetaMethod::BXor => "__bxor"@,
        MetaMethod::BNot => "__bnot"@,
        MetaMethod::Shl => "__shl"@,
        MetaMethod::Shr => "__shr"@,
        MetaMethod::Concat => "__concat"@,
        MetaMethod::Len => "__len"@,
        MetaMethod::Eq => "__eq"@,
        MetaMethod::Lt => "__lt"@,
        MetaMethod::Le => "__le"@,
        MetaMethod::Gt => "__gt"@,
        MetaMethod::Ge => "__ge"@,
        MetaMethod::Index => "__index"@,
        MetaMethod::NewIndex => "__newindex"@,
        MetaMethod::Call => "__call"@,
        MetaMethod::ToString => "__tostring"@,
        MetaMethod::Pairs => "__pairs"@,
        MetaMethod::IPairs => "__ipairs"@,
    }
}

impl MetaMethod {
    /// The metatable key of this metamethod.
    pub fn as_table_key(&self) -> (key: &'static str)
        ensures
            key@ == spec_table_key(*self),
    {
        match self {
            MetaMethod::Add => "__add",
            MetaMethod::Sub => "__sub",
            MetaMethod::Mul => "__mul",
            MetaMethod::Div => "__div",
            MetaMethod::Mod => "__mod",
            MetaMethod::Pow => "__pow",
            MetaMethod::Unm => "__unm",
            MetaMethod::IDiv => "__idiv",
            MetaMethod::BAnd => "__band",
            MetaMethod::BOr => "__bor",
            MetaMethod::BXor => "__bxor",
            MetaMethod::BNot => "__bnot",
            MetaMethod::Shl => "__shl",
            MetaMethod::Shr => "__shr",
            MetaMethod::Concat => "__concat",
            MetaMethod::Len => "__len",
            MetaMethod::Eq => "__eq",
            MetaMethod::Lt => "__lt",
            MetaMethod::Le => "__le",
            MetaMethod::Gt => "__gt",
            MetaMethod::Ge => "__ge",
            MetaMethod::Index => "__index",
            MetaMethod::NewIndex => "__newindex",
            MetaMethod::Call => "__call",
            MetaMethod::ToString => "__tostring",
            MetaMethod::Pairs => "__pairs",
            MetaMethod::IPairs => "__ipairs",
        }
    }
}


/// How a metamethod is written in messages (its operator, or its name).
pub open spec fn meta_text(m: MetaMethod) -> Seq<char> {
    match m {
        MetaMethod::Add => "+"@,
        MetaMethod::Sub => "-"@,
        MetaMethod::Mul => "*"@,
        MetaMethod::Div => "/"@,
        MetaMethod::Mod => "%"@,
        MetaMethod::Pow => "^"@,
        MetaMethod::Unm => "-"@,
        MetaMethod::IDiv => "//"@,
        MetaMethod::BAnd => "&"@,
        MetaMethod::BOr => "|"@,
        MetaMethod::BXor => "~"@,
        MetaMethod::BNot => "~"@,
        MetaMethod::Shl => "<<"@,
        MetaMethod::Shr => ">>"@,
        MetaMethod::Concat => ".."@,
        MetaMethod::Len => "#"@,
        MetaMethod::Eq => "=="@,
        MetaMethod::Lt => "<"@,
        MetaMethod::Le => "<="@,
        MetaMethod::Gt => ">"@,
        MetaMethod::Ge => ">="@,
        MetaMethod::Index => "[]"@,
        MetaMethod::NewIndex => "[]="@,
        MetaMethod::Call => "()"@,
        MetaMethod::ToString => "tostring"@,
        MetaMethod::Pairs => "pairs"@,
        MetaMethod::IPairs => "ipairs"@,
    }
}

impl MetaMethod {
    /// The metamethod as written in messages.
    pub fn to_string(&self) -> (r: String)
        ensures
            r@ == meta_text(*self),
    {
        let s: &str = match self {
            MetaMethod::Add => "+",
            MetaMethod::Sub => "-",
            MetaMethod::Mul => "*",
            MetaMethod::Div => "/",
            MetaMethod::Mod => "%",
            MetaMethod::Pow => "^",
            MetaMethod::Unm => "-",
            MetaMethod::IDiv => "//",
            MetaMethod::BAnd => "&",
            MetaMethod::BOr => "|",
            MetaMethod::BXor => "~",
            MetaMethod::BNot => "~",
            MetaMethod::Shl => "<<",
            MetaMethod::Shr => ">>",
            MetaMethod::Concat => "..",
            MetaMethod::Len => "#",
            MetaMethod::Eq => "==",
            MetaMethod::Lt => "<",
            MetaMethod::Le => "<=",
            MetaMethod::Gt => ">",
            MetaMethod::Ge => ">=",
            MetaMethod::Index => "[]",
            MetaMethod::NewIndex => "[]=",
            MetaMethod::Call => "()",
            MetaMethod::ToString => "tostring",
            MetaMethod::Pairs => "pairs",
            MetaMethod::IPairs => "ipairs",
        };
        String::from_str(s)
    }
}



/// Host data of any type, shared between the VM and the host behind a lock
/// (`Arc<Mutex<Box<dyn Any>>>`). Verus does not accept `dyn Any`, so the handle
/// is kept behind this opaque struct; only the functions below touch it.
#[verifier::external_body]
pub struct SharedData {
    handle: std::sync::Arc<std::sync::Mutex<Box<dyn std::any::Any>>>,
}

/// A weak handle on [`SharedData`] (`std::sync::Weak`), opaque for the same
/// reason; only [`downgrade`] makes one and only [`upgrade_weak`] reads it.
#[verifier::external_body]
pub struct WeakData {
    handle: std::sync::Weak<std::sync::Mutex<Box<dyn std::any::Any>>>,
}

/// A Rust type the host exposes to scripts as userdata.
pub trait UserData: Sized + 'static {
    /// The name scripts see for this type.
    fn type_label() -> &'static str;

    /// The id of this instance.
    fn get_id(&self) -> usize;
}

/// Host data in a box of its own (`Box<dyn Any>`), opaque for the reason
/// given at [`SharedData`]; only [`boxed`] makes one.
#[verifier::external_body]
pub struct BoxedData {
    inner: Box<dyn std::any::Any>,
}

/// Boxed host data behind a lock (`Mutex<Box<dyn Any>>`), opaque likewise;
/// only [`locked`] makes one.
#[verifier::external_body]
pub struct LockedData {
    inner: std::sync::Mutex<Box<dyn std::any::Any>>,
}

/// Boxes host data (`Box::new`).
#[verifier::external_body]
fn boxed<T: 'static>(data: T) -> BoxedData {
    BoxedData { inner: Box::new(data) }
}

/// Puts boxed data behind a lock (`Mutex::new`).
#[verifier::external_body]
fn locked(data: BoxedData) -> LockedData {
    LockedData { inner: std::sync::Mutex::new(data.inner) }
}

/// Makes the first owning handle on locked data (`Arc::new`).
#[verifier::external_body]
fn shared(data: LockedData) -> SharedData {
    SharedData { handle: std::sync::Arc::new(data.inner) }
}

/// Puts host data behind a shared lock: boxed, locked, then shared.
fn share<T: 'static>(data: T) -> SharedData {
    shared(locked(boxed(data)))
}

/// Another owning handle on the same shared data (`Arc::clone`).
#[verifier::external_body]
fn share_again(data: &SharedData) -> SharedData {
    SharedData { handle: std::sync::Arc::clone(&data.handle) }
}

/// A weak handle on shared data (`Arc::downgrade`).
#[verifier::external_body]
fn downgrade(data: &SharedData) -> WeakData {
    WeakData { handle: std::sync::Arc::downgrade(&data.handle) }
}

/// The shared data of a weak handle while an owning handle is alive, else
/// `None` (`Weak::upgrade`). Which of the two comes back depends on the other
/// handles' lifetimes, so nothing is stated of it.
#[verifier::external_body]
fn upgrade_weak(data: &WeakData) -> Option<SharedData> {
    match data.handle.upgrade() {
        Some(handle) => Some(SharedData { handle }),
        None => None,
    }
}

/// How a userdata handle is shown: `<type> userdata (id: <id>)`.
pub open spec fn userdata_text(type_label: Seq<char>, id: usize) -> Seq<char> {
    type_label + " userdata (id: "@ + decimal(id as nat) + ")"@
}

/// How a weak userdata handle is shown: `<type> weak userdata (id: <id>)`.
pub open spec fn weak_userdata_text(type_label: Seq<char>, id: usize) -> Seq<char> {
    type_label + " weak userdata (id: "@ + decimal(id as nat) + ")"@
}

/// An owning handle on host-provided userdata, with the slot it holds in the
/// VM's userdata stack once placed there.
pub struct UserDataWrapper {
    data: SharedData,
    id: usize,
    type_label: &'static str,
    stack_index: Option<usize>,
}

/// A handle on userdata that does not keep it alive.
pub struct WeakWrapper {
    data: WeakData,
    id: usize,
    type_label: &'static str,
    stack_index: Option<usize>,
}

impl UserDataWrapper {
    /// The instance's id.
    pub closed spec fn spec_id(&self) -> usize {
        self.id
    }

    /// The instance's type name.
    pub closed spec fn spec_type_label(&self) -> Seq<char> {
        self.type_label@
    }

    /// The instance's slot in the VM's userdata stack, if placed.
    pub closed spec fn spec_stack_index(&self) -> Option<usize> {
        self.stack_index
    }

    /// Wraps host data; it has no stack slot yet.
    pub fn new<T: UserData>(data: T) -> (w: Self)
        ensures
            w.spec_stack_index() == None::<usize>,
    {
        let type_label = T::type_label();
        let id = data.get_id();
        UserDataWrapper { data: share(data), id, type_label, stack_index: None }
    }

    /// The instance's id.
    pub fn id(&self) -> (r: usize)
        ensures
            r == self.spec_id(),
    {
        self.id
    }

    /// The instance's type name.
    pub fn type_label(&self) -> (r: &'static str)
        ensures
            r@ == self.spec_type_label(),
    {
        self.type_label
    }

    /// Records the instance's slot in the VM's userdata stack.
    pub fn set_stack_index(&mut self, index: usize)
        ensures
            final(self).spec_stack_index() == Some(index),
            final(self).spec_id() == old(self).spec_id(),
            final(self).spec_type_label() == old(self).spec_type_label(),
    {
        self.stack_index = Some(index);
    }

    /// The instance's slot in the VM's userdata stack, if placed.
    pub fn stack_index(&self) -> (r: Option<usize>)
        ensures
            r == self.spec_stack_index(),
    {
        self.stack_index
    }

    /// `<type> userdata (id: <id>)`.
    pub fn to_string(&self) -> (r: String)
        ensures
            r@ == userdata_text(self.spec_type_label(), self.spec_id()),
    {
        let mut r = String::from_str(self.type_label);
        r.append(" userdata (id: ");
        let d = usize_to_decimal(self.id);
        r.append(d.as_str());
        r.append(")");
        r
    }
}

impl Clone for UserDataWrapper {
    /// Another handle on the same data.
    fn clone(&self) -> (r: Self)
        ensures
            r.spec_id() == self.spec_id(),
            r.spec_type_label() == self.spec_type_label(),
            r.spec_stack_index() == self.spec_stack_index(),
    {
        UserDataWrapper {
            data: share_again(&self.data),
            id: self.id,
            type_label: self.type_label,
            stack_index: self.stack_index,
        }
    }
}

impl WeakWrapper {
    /// The instance's id.
    pub closed spec fn spec_id(&self) -> usize {
        self.id
    }

    /// The instance's type name.
    pub closed spec fn spec_type_label(&self) -> Seq<char> {
        self.type_label@
    }

    /// The instance's slot in the VM's userdata stack, if placed.
    pub closed spec fn spec_stack_index(&self) -> Option<usize> {
        self.stack_index
    }

    /// A weak handle on the same userdata as `wrapper`.
    pub fn from_wrapper(wrapper: &UserDataWrapper) -> (w: Self)
        ensures
            w.spec_id() == wrapper.spec_id(),
            w.spec_type_label() == wrapper.spec_type_label(),
            w.spec_stack_index() == wrapper.spec_stack_index(),
    {
        WeakWrapper {
            data: downgrade(&wrapper.data),
            id: wrapper.id,
            type_label: wrapper.type_label,
            stack_index: wrapper.stack_index,
        }
    }

    /// The instance's id.
    pub fn id(&self) -> (r: usize)
        ensures
            r == self.spec_id(),
    {
        self.id
    }

    /// The instance's type name.
    pub fn type_label(&self) -> (r: &'static str)
        ensures
            r@ == self.spec_type_label(),
    {
        self.type_label
    }

    /// An owning handle again, while the userdata is alive; `None` once every
    /// owning handle is gone.
    pub fn upgrade(&self) -> (r: Option<UserDataWrapper>)
        ensures
            r matches Some(w) ==> {
                &&& w.spec_id() == self.spec_id()
                &&& w.spec_type_label() == self.spec_type_label()
                &&& w.spec_stack_index() == self.spec_stack_index()
            },
    {
        match upgrade_weak(&self.data) {
            Some(data) => Some(UserDataWrapper {
                data,
                id: self.id,
                type_label: self.type_label,
                stack_index: self.stack_index,
            }),
            None => None,
        }
    }

    /// Whether every owning handle is gone.
    pub fn is_dropped(&self) -> (b: bool) {
        upgrade_weak(&self.data).is_none()
    }

    /// `<type> weak userdata (id: <id>)`.
    pub fn to_string(&self) -> (r: String)
        ensures
            r@ == weak_userdata_text(self.spec_type_label(), self.spec_id()),
    {
        let mut r = String::from_str(self.type_label);
        r.append(" weak userdata (id: ");
        let d = usize_to_decimal(self.id);
        r.append(d.as_str());
        r.append(")");
        r
    }
}

} // verus!
