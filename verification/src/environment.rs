//! Variable scopes and global-name registers of the tree-walking interpreter.
//!
//! Scopes are shared: a closure keeps the scopes it was created in and sees later
//! writes to them. The environment therefore owns every scope in a store and refers
//! to a scope by its handle, its index in that store.

use vstd::prelude::*;
use std::collections::HashMap;
use crate::value::Value;

verus! {

broadcast use vstd::std_specs::hash::group_hash_axioms;

/// The handle of a scope in an environment's store.
pub type Scope = usize;

/// A resolved variable: its register and the depth of the scope holding it.
pub type Ident = (usize, usize);

/// The native-function id of `clock`.
pub const NATIVE_CLOCK: usize = 0;

/// The native-function id of `print`.
pub const NATIVE_PRINT: usize = 1;

/// Scopes of variables, innermost last, and the table that turns global names
/// into registers.
pub struct Environment {
    store: Vec<HashMap<usize, Value>>,
    variables: Vec<Scope>,
    depth: usize,
    implicit_global: bool,
    strict: bool,
    free_registers: Vec<usize>,
    next_register: usize,
    names: Vec<(String, usize)>,
}

impl Environment {
    /// The contents of every scope in the store, by handle.
    pub closed spec fn spec_store(&self) -> Seq<Map<usize, Value>> {
        self.store@.map_values(|m: HashMap<usize, Value>| m@)
    }

    /// The handles of the scopes in reach, outermost first.
    pub closed spec fn spec_variables(&self) -> Seq<Scope> {
        self.variables@
    }

    /// The global names that have a register; register `r` belongs to the `r`-th.
    pub closed spec fn spec_names(&self) -> Seq<Seq<char>> {
        self.names@.map_values(|p: (String, usize)| p.0@)
    }

    /// Whether undeclared variables are rejected.
    pub closed spec fn spec_strict(&self) -> bool {
        self.strict
    }

    /// The environment's invariant: every scope handle in reach is in the store,
    /// the innermost scope is at `depth`, and registers are handed out in order to
    /// distinct names.
    pub closed spec fn wf(&self) -> bool {
        &&& self.variables@.len() == self.depth + 1
        &&& forall|i: int| 0 <= i < self.variables@.len() ==> #[trigger] self.variables@[i] < self.store@.len()
        &&& self.free_registers@.len() == 0
        &&& self.next_register == self.names@.len()
        &&& forall|i: int| 0 <= i < self.names@.len() ==> (#[trigger] self.names@[i]).1 == i
        &&& forall|i: int, j: int| 0 <= i < j < self.names@.len() ==> self.names@[i].0@ != self.names@[j].0@
    }

    /// What the invariant gives callers: at least one scope in reach, every one
    /// of them a scope of the store.
    pub proof fn lemma_wf(&self)
        requires
            self.wf(),
        ensures
            self.spec_variables().len() >= 1,
            self.valid_handles(self.spec_variables()),
    {
    }

    /// Whether `handles` are all handles of scopes in the store.
    pub open spec fn valid_handles(&self, handles: Seq<Scope>) -> bool {
        forall|i: int| 0 <= i < handles.len() ==> #[trigger] handles[i] < self.spec_store().len()
    }

    /// The value of register `reg` in the scope at `depth`, `Nil` when unset.
    pub open spec fn lookup(&self, reg: usize, depth: int) -> Value {
        scope_value(self.spec_store(), self.spec_variables(), reg, depth)
    }

    /// One global scope, no names.
    pub fn new() -> (env: Self)
        ensures
            env.wf(),
            env.spec_store() == seq![Map::<usize, Value>::empty()],
            env.spec_variables() == seq![0usize],
            env.spec_names() == Seq::<Seq<char>>::empty(),
            !env.spec_strict(),
    {
        let mut store: Vec<HashMap<usize, Value>> = Vec::new();
        store.push(HashMap::new());
        let mut variables: Vec<Scope> = Vec::new();
        variables.push(0);
        let env = Environment {
            store,
            variables,
            depth: 0,
            implicit_global: true,
            strict: false,
            free_registers: Vec::new(),
            next_register: 0,
            names: Vec::new(),
        };
        assert(env.spec_store() =~= seq![Map::<usize, Value>::empty()]);
        assert(env.spec_variables() =~= seq![0usize]);
        assert(env.spec_names() =~= Seq::<Seq<char>>::empty());
        env
    }

    /// A new environment with the standard natives `clock` (register 0) and
    /// `print` (register 1) declared as globals.
    pub fn new_with_std() -> (env: Self)
        ensures
            env.wf(),
            env.spec_names() == seq!["clock"@, "print"@],
            env.spec_variables() == seq![0usize],
            env.spec_store() == seq![Map::<usize, Value>::empty()
                .insert(0, Value::NativeFunction(NATIVE_CLOCK))
                .insert(1, Value::NativeFunction(NATIVE_PRINT))],
            !env.spec_strict(),
    {
        let mut env = Environment::new();
        env.load_standard_library();
        proof {
            reveal_strlit("clock");
            reveal_strlit("print");
            let e = Seq::<Seq<char>>::empty();
            lemma_name_index_absent(e, "clock"@);
            assert(names_with(e, "clock"@) =~= seq!["clock"@]);
            let n1 = seq!["clock"@];
            assert("clock"@ != "print"@) by {
                assert("clock"@[0] != "print"@[0]);
            }
            lemma_name_index_absent(n1, "print"@);
            assert(names_with(n1, "print"@) =~= seq!["clock"@, "print"@]);
        }
        env
    }

    /// Declares the standard natives `clock` and `print` as globals, in the
    /// outermost scope in reach.
    pub fn load_standard_library(&mut self)
        requires
            old(self).wf(),
            old(self).spec_names().len() + 2 < usize::MAX,
        ensures
            final(self).wf(),
            final(self).spec_variables() == old(self).spec_variables(),
            final(self).spec_strict() == old(self).spec_strict(),
            final(self).spec_names() == names_with(names_with(old(self).spec_names(), "clock"@), "print"@),
            final(self).spec_store() == store_set(
                store_set(
                    old(self).spec_store(),
                    old(self).spec_variables(),
                    name_index(old(self).spec_names(), "clock"@) as usize,
                    0,
                    Value::NativeFunction(NATIVE_CLOCK),
                ),
                old(self).spec_variables(),
                name_index(names_with(old(self).spec_names(), "clock"@), "print"@) as usize,
                0,
                Value::NativeFunction(NATIVE_PRINT),
            ),
    {
        self.register_std("clock", NATIVE_CLOCK);
        self.register_std("print", NATIVE_PRINT);
    }

    /// Gives `name` a register and declares it as a global holding the native
    /// function `native`; returns the register.
    fn register_std(&mut self, name: &str, native: usize) -> (u: usize)
        requires
            old(self).wf(),
            old(self).spec_names().len() + 1 < usize::MAX,
        ensures
            final(self).wf(),
            u == name_index(old(self).spec_names(), name@),
            final(self).spec_names() == names_with(old(self).spec_names(), name@),
            final(self).spec_variables() == old(self).spec_variables(),
            final(self).spec_strict() == old(self).spec_strict(),
            final(self).spec_store() == store_set(
                old(self).spec_store(), old(self).spec_variables(), u, 0, Value::NativeFunction(native)),
    {
        let u = self.to_register(name);
        self.declare_global((u, 0), Value::NativeFunction(native));
        u
    }

    /// Sets a variable, declaring it (global form).
    pub fn declare_global(&mut self, ident: Ident, value: Value)
        requires
            old(self).wf(),
            ident.1 < old(self).spec_variables().len(),
        ensures
            final(self).wf(),
            final(self).spec_store() == store_set(old(self).spec_store(), old(self).spec_variables(), ident.0, ident.1 as int, value),
            final(self).spec_variables() == old(self).spec_variables(),
            final(self).spec_names() == old(self).spec_names(),
            final(self).spec_strict() == old(self).spec_strict(),
    {
        self.set(ident, value, true, false);
    }

    /// Sets a variable, declaring it (local form).
    pub fn declare_local(&mut self, ident: Ident, value: Value)
        requires
            old(self).wf(),
            ident.1 < old(self).spec_variables().len(),
        ensures
            final(self).wf(),
            final(self).spec_store() == store_set(old(self).spec_store(), old(self).spec_variables(), ident.0, ident.1 as int, value),
            final(self).spec_variables() == old(self).spec_variables(),
            final(self).spec_names() == old(self).spec_names(),
            final(self).spec_strict() == old(self).spec_strict(),
    {
        self.set(ident, value, true, true);
    }

    /// Sets register `ident` in the innermost scope.
    pub fn set_in_scope(&mut self, ident: usize, value: Value)
        requires
            old(self).wf(),
        ensures
            final(self).wf(),
            final(self).spec_store() == store_set(
                old(self).spec_store(), old(self).spec_variables(), ident,
                old(self).spec_variables().len() - 1, value),
            final(self).spec_variables() == old(self).spec_variables(),
            final(self).spec_names() == old(self).spec_names(),
            final(self).spec_strict() == old(self).spec_strict(),
    {
        let d = self.depth;
        self.set((ident, d), value, true, true);
    }

    /// Assigns an existing variable.
    pub fn assign_local(&mut self, ident: Ident, value: Value)
        requires
            old(self).wf(),
            ident.1 < old(self).spec_variables().len(),
        ensures
            final(self).wf(),
            final(self).spec_store() == store_set(old(self).spec_store(), old(self).spec_variables(), ident.0, ident.1 as int, value),
            final(self).spec_variables() == old(self).spec_variables(),
            final(self).spec_names() == old(self).spec_names(),
            final(self).spec_strict() == old(self).spec_strict(),
    {
        self.set(ident, value, false, true);
    }

    /// Sets register `ident.0` in the scope at depth `ident.1`. Resolution has
    /// already placed the variable, so whether it is declared or local does not
    /// change where it is written.
    pub fn set(&mut self, ident: Ident, value: Value, declare: bool, local: bool)
        requires
            old(self).wf(),
            ident.1 < old(self).spec_variables().len(),
        ensures
            final(self).wf(),
            final(self).spec_store() == store_set(old(self).spec_store(), old(self).spec_variables(), ident.0, ident.1 as int, value),
            final(self).spec_variables() == old(self).spec_variables(),
            final(self).spec_names() == old(self).spec_names(),
            final(self).spec_strict() == old(self).spec_strict(),
    {
        let h = self.variables[ident.1];
        let ghost before = self.store@;
        self.store[h].insert(ident.0, value);
        proof {
            assert(self.spec_store() =~= store_set(old(self).spec_store(), old(self).spec_variables(), ident.0, ident.1 as int, value));
        }
    }

    /// The value of a variable, `Nil` when unset.
    pub fn get(&self, ident: &Ident) -> (v: Value)
        requires
            self.wf(),
            ident.1 < self.spec_variables().len(),
        ensures
            v == self.lookup(ident.0, ident.1 as int),
    {
        let h = self.variables[ident.1];
        match self.store[h].get(&ident.0) {
            Some(val) => val.clone(),
            None => Value::Nil,
        }
    }

    /// Opens a new innermost scope.
    pub fn new_scope(&mut self)
        requires
            old(self).wf(),
            old(self).spec_store().len() < usize::MAX,
            old(self).spec_variables().len() < usize::MAX,
        ensures
            final(self).wf(),
            final(self).spec_store() == old(self).spec_store().push(Map::<usize, Value>::empty()),
            final(self).spec_variables() == old(self).spec_variables().push(old(self).spec_store().len() as usize),
            final(self).spec_names() == old(self).spec_names(),
            final(self).spec_strict() == old(self).spec_strict(),
    {
        let ghost before = self.store@;
        let h = self.store.len();
        self.store.push(HashMap::new());
        self.variables.push(h);
        self.depth += 1;
        assert(self.spec_store() =~= old(self).spec_store().push(Map::<usize, Value>::empty()));
    }

    /// Closes the innermost scope.
    pub fn pop_scope(&mut self)
        requires
            old(self).wf(),
            old(self).spec_variables().len() > 1,
        ensures
            final(self).wf(),
            final(self).spec_store() == old(self).spec_store(),
            final(self).spec_variables() == old(self).spec_variables().drop_last(),
            final(self).spec_names() == old(self).spec_names(),
            final(self).spec_strict() == old(self).spec_strict(),
    {
        self.variables.pop();
        self.depth -= 1;
    }

    /// Hands out the next register.
    fn get_register(&mut self) -> (r: usize)
        requires
            old(self).free_registers@.len() == 0,
            old(self).next_register < usize::MAX,
        ensures
            r == old(self).next_register,
            final(self).next_register == old(self).next_register + 1,
            final(self).free_registers@.len() == 0,
            final(self).names == old(self).names,
            final(self).store == old(self).store,
            final(self).variables == old(self).variables,
            final(self).depth == old(self).depth,
            final(self).strict == old(self).strict,
    {
        match self.free_registers.pop() {
            Some(reg) => reg,
            None => {
                let reg = self.next_register;
                self.next_register += 1;
                reg
            },
        }
    }

    /// The scopes in reach, innermost first.
    pub fn get_current_scope(&self) -> (r: Vec<Scope>)
        requires
            self.wf(),
        ensures
            r@ == self.spec_variables().reverse(),
    {
        let n = self.variables.len();
        let mut r: Vec<Scope> = Vec::new();
        let mut k: usize = 0;
        while k <= self.depth
            invariant
                n == self.variables@.len() == self.depth + 1,
                k <= n,
                r@ == self.variables@.reverse().take(k as int),
            decreases n - k,
        {
            r.push(self.variables[n - 1 - k]);
            k += 1;
            assert(r@ =~= self.variables@.reverse().take(k as int));
        }
        assert(self.variables@.reverse().take(n as int) =~= self.variables@.reverse());
        r
    }

    /// Puts `scope` (innermost first) in reach in place of the current scopes,
    /// which are returned outermost first.
    pub fn swap_scope(&mut self, scope: &Vec<Scope>) -> (r: Vec<Scope>)
        requires
            old(self).wf(),
            scope@.len() > 0,
            old(self).valid_handles(scope@),
        ensures
            final(self).wf(),
            r@ == old(self).spec_variables(),
            r@.len() >= 1,
            final(self).valid_handles(r@),
            final(self).spec_variables() == scope@.reverse(),
            final(self).spec_store() == old(self).spec_store(),
            final(self).spec_names() == old(self).spec_names(),
            final(self).spec_strict() == old(self).spec_strict(),
    {
        let n = scope.len();
        let mut fresh: Vec<Scope> = Vec::new();
        let mut k: usize = 0;
        while k < n
            invariant
                n == scope@.len(),
                k <= n,
                fresh@ == scope@.reverse().take(k as int),
            decreases n - k,
        {
            fresh.push(scope[n - 1 - k]);
            k += 1;
            assert(fresh@ =~= scope@.reverse().take(k as int));
        }
        assert(scope@.reverse().take(n as int) =~= scope@.reverse());
        let mut temp = fresh;
        std::mem::swap(&mut temp, &mut self.variables);
        self.depth = n - 1;
        proof {
            assert forall|i: int| 0 <= i < self.variables@.len() implies #[trigger] self.variables@[i] < self.store@.len() by {
                assert(self.variables@[i] == scope@[n - 1 - i]);
            }
        }
        temp
    }

    /// Puts `scope` (outermost first) in reach in place of the current scopes.
    pub fn replace_scope(&mut self, scope: Vec<Scope>)
        requires
            old(self).wf(),
            scope@.len() > 0,
            old(self).valid_handles(scope@),
        ensures
            final(self).wf(),
            final(self).spec_variables() == scope@,
            final(self).spec_store() == old(self).spec_store(),
            final(self).spec_names() == old(self).spec_names(),
            final(self).spec_strict() == old(self).spec_strict(),
    {
        let n = scope.len();
        self.variables = scope;
        self.depth = n - 1;
    }

    /// Records where a local resolved to; the tree-walking interpreter keeps no
    /// such table, so nothing changes.
    pub fn resolve_local(&mut self, ident: usize, depth: usize)
        ensures
            *final(self) == *old(self),
    {
    }

    /// The register of global `name`, given on first use.
    pub fn to_register(&mut self, name: &str) -> (r: usize)
        requires
            old(self).wf(),
            old(self).spec_names().len() + 1 < usize::MAX,
        ensures
            final(self).wf(),
            r == name_index(old(self).spec_names(), name@),
            final(self).spec_names() == names_with(old(self).spec_names(), name@),
            final(self).spec_store() == old(self).spec_store(),
            final(self).spec_variables() == old(self).spec_variables(),
            final(self).spec_strict() == old(self).spec_strict(),
    {
        let key = name.to_owned();
        let n = self.names.len();
        let mut k: usize = 0;
        while k < n
            invariant
                n == self.names@.len(),
                k <= n,
                key@ == name@,
                self.wf(),
                *self == *old(self),
                forall|j: int| 0 <= j < k ==> self.names@[j].0@ != name@,
            decreases n - k,
        {
            if self.names[k].0.eq(&key) {
                proof {
                    assert(self.spec_names()[k as int] == name@);
                    lemma_name_index_found(self.spec_names(), name@, k as int);
                }
                return self.names[k].1;
            }
            k += 1;
        }
        proof {
            assert forall|j: int| 0 <= j < self.spec_names().len() implies self.spec_names()[j] != name@ by {
                assert(self.spec_names()[j] == self.names@[j].0@);
            }
            lemma_name_index_absent(self.spec_names(), name@);
        }
        let reg = self.get_register();
        let ghost before = self.names@;
        self.names.push((key, reg));
        proof {
            assert(self.spec_names() =~= old(self).spec_names().push(name@));
            assert forall|i: int, j: int| 0 <= i < j < self.names@.len() implies self.names@[i].0@ != self.names@[j].0@ by {
                if j == n {
                    assert(self.names@[i] == before[i]);
                }
            }
        }
        reg
    }

    /// The global name that holds register `reg`, `"unknown"` when none does.
    pub fn from_register(&self, reg: usize) -> (r: &str)
        requires
            self.wf(),
        ensures
            r@ == (if reg < self.spec_names().len() { self.spec_names()[reg as int] } else { "unknown"@ }),
    {
        let n = self.names.len();
        let mut k: usize = 0;
        while k < n
            invariant
                n == self.names@.len(),
                k <= n,
                self.wf(),
                forall|j: int| 0 <= j < k ==> self.names@[j].1 != reg,
            decreases n - k,
        {
            if self.names[k].1 == reg {
                return self.names[k].0.as_str();
            }
            k += 1;
        }
        "unknown"
    }

    /// Whether undeclared variables are rejected.
    pub fn is_strict(&self) -> (b: bool)
        ensures
            b == self.spec_strict(),
    {
        self.strict
    }
}

/// The value of register `reg` in the scope at `depth`, `Nil` when unset.
pub open spec fn scope_value(store: Seq<Map<usize, Value>>, variables: Seq<Scope>, reg: usize, depth: int) -> Value {
    let m = store[variables[depth] as int];
    if m.contains_key(reg) { m[reg] } else { Value::Nil }
}

/// The store after register `reg` of the scope at `depth` is set to `value`.
pub open spec fn store_set(store: Seq<Map<usize, Value>>, variables: Seq<Scope>, reg: usize, depth: int, value: Value) -> Seq<Map<usize, Value>> {
    let h = variables[depth] as int;
    store.update(h, store[h].insert(reg, value))
}

/// The register of `name`: its first position among `names`, or the next one.
pub open spec fn name_index(names: Seq<Seq<char>>, name: Seq<char>) -> int
    decreases names.len(),
{
    if names.len() == 0 {
        0
    } else if names[0] == name {
        0
    } else {
        1 + name_index(names.drop_first(), name)
    }
}

/// `names` with `name` added at the end unless it is there already.
pub open spec fn names_with(names: Seq<Seq<char>>, name: Seq<char>) -> Seq<Seq<char>> {
    if name_index(names, name) < names.len() { names } else { names.push(name) }
}

/// Opening a scope and closing it again leaves the scopes in reach as they were.
pub proof fn law_scope_round_trip(vars: Seq<Scope>, h: Scope)
    ensures
        vars.push(h).drop_last() == vars,
{
    assert(vars.push(h).drop_last() =~= vars);
}

/// Asking twice for the register of a name gives the same register, and the
/// second request adds no name; the name at that register is the name asked for.
pub proof fn law_register_stable(names: Seq<Seq<char>>, name: Seq<char>)
    ensures
        name_index(names_with(names, name), name) == name_index(names, name),
        names_with(names_with(names, name), name) == names_with(names, name),
        0 <= name_index(names, name) < names_with(names, name).len(),
        names_with(names, name)[name_index(names, name)] == name,
    decreases names.len(),
{
    lemma_name_index_bounds(names, name);
    if name_index(names, name) < names.len() {
        lemma_name_index_first(names, name);
        lemma_name_index_found(names, name, name_index(names, name));
    } else {
        let n2 = names.push(name);
        assert forall|j: int| 0 <= j < names.len() implies n2[j] != name by {
            lemma_name_index_first(names, name);
        }
        lemma_name_index_found(n2, name, names.len() as int);
    }
}

/// A write to a variable is seen by every read of the same scope, whichever
/// list of scopes in reach the read goes through: closures that captured a
/// scope see writes made through the current one.
pub proof fn law_shared_scope(
    store: Seq<Map<usize, Value>>,
    writer: Seq<Scope>,
    d: int,
    reader: Seq<Scope>,
    e: int,
    reg: usize,
    value: Value,
)
    requires
        0 <= d < writer.len(),
        0 <= e < reader.len(),
        writer[d] == reader[e],
        writer[d] < store.len(),
    ensures
        scope_value(store_set(store, writer, reg, d, value), reader, reg, e) == value,
{
}

/// A write to one variable leaves every other variable, in any scope, as it was.
pub proof fn law_set_leaves_others(
    store: Seq<Map<usize, Value>>,
    vars: Seq<Scope>,
    d: int,
    reg: usize,
    value: Value,
    e: int,
    other: usize,
)
    requires
        0 <= d < vars.len(),
        0 <= e < vars.len(),
        vars[d] < store.len(),
        vars[e] < store.len(),
        other != reg || vars[e] != vars[d],
    ensures
        scope_value(store_set(store, vars, reg, d, value), vars, other, e) == scope_value(store, vars, other, e),
{
}

proof fn lemma_name_index_bounds(names: Seq<Seq<char>>, name: Seq<char>)
    ensures
        0 <= name_index(names, name) <= names.len(),
        name_index(names, name) < names.len() ==> names[name_index(names, name)] == name,
    decreases names.len(),
{
    if names.len() > 0 && names[0] != name {
        lemma_name_index_bounds(names.drop_first(), name);
    }
}

proof fn lemma_name_index_first(names: Seq<Seq<char>>, name: Seq<char>)
    ensures
        forall|j: int| 0 <= j < name_index(names, name) && j < names.len() ==> names[j] != name,
    decreases names.len(),
{
    if names.len() > 0 && names[0] != name {
        let t = names.drop_first();
        lemma_name_index_first(t, name);
        assert forall|j: int| 0 <= j < name_index(names, name) && j < names.len() implies names[j] != name by {
            if j > 0 {
                assert(names[j] == t[j - 1]);
            }
        }
    }
}

proof fn lemma_name_index_found(names: Seq<Seq<char>>, name: Seq<char>, k: int)
    requires
        0 <= k < names.len(),
        names[k] == name,
        forall|j: int| 0 <= j < k ==> names[j] != name,
    ensures
        name_index(names, name) == k,
        names_with(names, name) == names,
    decreases names.len(),
{
    if k > 0 {
        let t = names.drop_first();
        assert forall|j: int| 0 <= j < k - 1 implies t[j] != name by {
            assert(t[j] == names[j + 1]);
        }
        lemma_name_index_found(t, name, k - 1);
    }
}

proof fn lemma_name_index_absent(names: Seq<Seq<char>>, name: Seq<char>)
    requires
        forall|j: int| 0 <= j < names.len() ==> names[j] != name,
    ensures
        name_index(names, name) == names.len(),
        names_with(names, name) == names.push(name),
    decreases names.len(),
{
    if names.len() > 0 {
        let t = names.drop_first();
        assert forall|j: int| 0 <= j < t.len() implies t[j] != name by {
            assert(t[j] == names[j + 1]);
        }
        lemma_name_index_absent(t, name);
    }
}

} // verus!
