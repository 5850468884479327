//! The chain of scopes: each scope maps names to values and marks some of
//! them constant; a name is looked for from the current scope outwards.

use vstd::prelude::*;
use crate::error::{EvalError, EvalFault};
use crate::runtime::value_types::{RuntimeValue, ValueModel};

verus! {

/// The model of one scope.
pub struct FrameModel {
    pub variables: Map<Seq<char>, ValueModel>,
    pub constants: Set<Seq<char>>,
}

/// A scope and, through `parent`, the scopes around it.
#[derive(Debug)]
pub struct Environment {
    parent: Option<Box<Environment>>,
    variables: Vec<(String, RuntimeValue)>,
    constants: Vec<String>,
}

/// A scope without bindings.
pub open spec fn empty_frame() -> FrameModel {
    FrameModel { variables: Map::empty(), constants: Set::empty() }
}

/// The map that a list of bindings stands for: a later binding of a name
/// hides an earlier one.
pub open spec fn variables_of(entries: Seq<(String, RuntimeValue)>) -> Map<Seq<char>, ValueModel>
    decreases entries.len(),
{
    if entries.len() == 0 {
        Map::empty()
    } else {
        variables_of(entries.drop_last()).insert(entries.last().0@, entries.last().1@)
    }
}

/// The set that a list of names stands for.
pub open spec fn names_of(names: Seq<String>) -> Set<Seq<char>> {
    Set::new(|name: Seq<char>| exists|i: int| 0 <= i < names.len() && #[trigger] names[i]@ == name)
}

/// The index of the first scope of `chain` that holds `name`.
pub open spec fn spec_resolve(chain: Seq<FrameModel>, name: Seq<char>) -> Option<int>
    decreases chain.len(),
{
    if chain.len() == 0 {
        None
    } else if chain[0].variables.contains_key(name) {
        Some(0)
    } else {
        match spec_resolve(chain.skip(1), name) {
            Some(i) => Some(i + 1),
            None => None,
        }
    }
}

/// The value of `name` in the first scope that holds it.
pub open spec fn spec_lookup(chain: Seq<FrameModel>, name: Seq<char>) -> Result<ValueModel, EvalFault> {
    match spec_resolve(chain, name) {
        Some(i) => Ok(chain[i].variables[name]),
        None => Err(EvalFault::UnresolvedVariable(name)),
    }
}

/// `chain` after `name` is declared in its first scope.
pub open spec fn spec_declare(chain: Seq<FrameModel>, name: Seq<char>, value: ValueModel, constant: bool) -> Result<
    Seq<FrameModel>,
    EvalFault,
> {
    if chain[0].variables.contains_key(name) {
        Err(EvalFault::DuplicateDeclaration(name))
    } else {
        Ok(
            chain.update(
                0,
                FrameModel {
                    variables: chain[0].variables.insert(name, value),
                    constants: if constant {
                        chain[0].constants.insert(name)
                    } else {
                        chain[0].constants
                    },
                },
            ),
        )
    }
}

/// `chain` after `value` is assigned to `name` in the first scope that
/// holds it.
pub open spec fn spec_assign(chain: Seq<FrameModel>, name: Seq<char>, value: ValueModel) -> Result<
    Seq<FrameModel>,
    EvalFault,
> {
    match spec_resolve(chain, name) {
        None => Err(EvalFault::UnresolvedVariable(name)),
        Some(i) => if chain[i].constants.contains(name) {
            Err(EvalFault::ConstantReassignment(name))
        } else {
            Ok(
                chain.update(
                    i,
                    FrameModel { variables: chain[i].variables.insert(name, value), constants: chain[i].constants },
                ),
            )
        },
    }
}

/// Where `name` resolves, the scope at that index holds it and none before
/// it does.
pub proof fn lemma_resolve(chain: Seq<FrameModel>, name: Seq<char>)
    ensures
        match spec_resolve(chain, name) {
            Some(i) => 0 <= i < chain.len() && chain[i].variables.contains_key(name) && forall|j: int|
                0 <= j < i ==> !(#[trigger] chain[j]).variables.contains_key(name),
            None => forall|j: int| 0 <= j < chain.len() ==> !(#[trigger] chain[j]).variables.contains_key(name),
        },
    decreases chain.len(),
{
    if chain.len() > 0 && !chain[0].variables.contains_key(name) {
        let rest = chain.skip(1);
        lemma_resolve(rest, name);
        match spec_resolve(rest, name) {
            Some(i) => {
                assert(rest[i] == chain[i + 1]);
                assert forall|j: int| 0 <= j < i + 1 implies !(#[trigger] chain[j]).variables.contains_key(
                    name,
                ) by {
                    if j > 0 {
                        assert(rest[j - 1] == chain[j]);
                    }
                }
            },
            None => {
                assert forall|j: int| 0 <= j < chain.len() implies !(#[trigger] chain[j]).variables.contains_key(
                    name,
                ) by {
                    if j > 0 {
                        assert(rest[j - 1] == chain[j]);
                    }
                }
            },
        }
    }
}

/// The index of the last binding of `name` in `entries`.
fn position(entries: &Vec<(String, RuntimeValue)>, name: &String) -> (r: Option<usize>)
    ensures
        (match r {
            Some(i) => i < entries.len() && entries[i as int].0@ == name@ && forall|j: int|
                i < j < entries.len() ==> (#[trigger] entries[j]).0@ != name@,
            None => forall|j: int| 0 <= j < entries.len() ==> (#[trigger] entries[j]).0@ != name@,
        }),
{
    let mut i: usize = entries.len();
    while i > 0
        invariant
            i <= entries.len(),
            forall|j: int| i <= j < entries.len() ==> (#[trigger] entries[j]).0@ != name@,
        decreases i,
    {
        i = i - 1;
        if entries[i].0 == *name {
            return Some(i);
        }
    }
    None
}

/// Whether `names` holds `name`.
fn holds(names: &Vec<String>, name: &String) -> (b: bool)
    ensures
        b == names_of(names@).contains(name@),
{
    let mut i: usize = 0;
    while i < names.len()
        invariant
            i <= names.len(),
            forall|j: int| 0 <= j < i ==> (#[trigger] names[j])@ != name@,
        decreases names.len() - i,
    {
        if names[i] == *name {
            return true;
        }
        i = i + 1;
    }
    false
}

/// What the map of `entries` holds for `name`, by where `name` is bound
/// last.
proof fn lemma_variables_of(entries: Seq<(String, RuntimeValue)>, name: Seq<char>)
    ensures
        variables_of(entries).contains_key(name) <==> exists|j: int|
            0 <= j < entries.len() && (#[trigger] entries[j]).0@ == name,
        forall|i: int|
            0 <= i < entries.len() && entries[i].0@ == name && (forall|j: int|
                i < j < entries.len() ==> (#[trigger] entries[j]).0@ != name) ==> variables_of(entries)[name]
                == entries[i].1@,
    decreases entries.len(),
{
    if entries.len() > 0 {
        let front = entries.drop_last();
        lemma_variables_of(front, name);
        if entries.last().0@ == name {
            assert(entries[entries.len() - 1].0@ == name);
        } else {
            if variables_of(front).contains_key(name) {
                let j = choose|j: int| 0 <= j < front.len() && (#[trigger] front[j]).0@ == name;
                assert(entries[j].0@ == name);
            }
            if exists|j: int| 0 <= j < entries.len() && (#[trigger] entries[j]).0@ == name {
                let j = choose|j: int| 0 <= j < entries.len() && (#[trigger] entries[j]).0@ == name;
                assert(front[j].0@ == name);
            }
            assert forall|i: int|
                0 <= i < entries.len() && entries[i].0@ == name && (forall|j: int|
                    i < j < entries.len() ==> (#[trigger] entries[j]).0@ != name) implies variables_of(
                entries,
            )[name] == entries[i].1@ by {
                assert(front[i] == entries[i]);
                assert forall|j: int| i < j < front.len() implies (#[trigger] front[j]).0@ != name by {
                    assert(front[j] == entries[j]);
                }
            }
        }
    }
}

impl Environment {
    /// That no scope of the chain binds a name twice or marks one constant
    /// twice. `new` gives such a chain where it is given one, and the other
    /// operations keep it so.
    pub closed spec fn well_formed(&self) -> bool
        decreases self,
    {
        &&& forall|i: int, j: int|
            #![trigger self.variables[i], self.variables[j]]
            0 <= i < j < self.variables.len() ==> self.variables[i].0@ != self.variables[j].0@
        &&& forall|i: int, j: int|
            #![trigger self.constants[i], self.constants[j]]
            0 <= i < j < self.constants.len() ==> self.constants[i]@ != self.constants[j]@
        &&& match self.parent {
            Some(parent) => parent.well_formed(),
            None => true,
        }
    }

    /// The scope itself, without the scopes around it.
    pub closed spec fn frame(&self) -> FrameModel {
        FrameModel { variables: variables_of(self.variables@), constants: names_of(self.constants@) }
    }

    /// The chain of scopes, the current one first.
    pub closed spec fn chain(&self) -> Seq<FrameModel>
        decreases self,
    {
        match self.parent {
            Some(parent) => seq![self.frame()] + parent.chain(),
            None => seq![self.frame()],
        }
    }

    /// The scopes around this one.
    pub closed spec fn outer(&self) -> Seq<FrameModel> {
        match self.parent {
            Some(parent) => parent.chain(),
            None => Seq::empty(),
        }
    }
}

/// Binding a name that `entries` does not hold, at the end.
proof fn lemma_variables_of_push(entries: Seq<(String, RuntimeValue)>, entry: (String, RuntimeValue))
    ensures
        variables_of(entries.push(entry)) == variables_of(entries).insert(entry.0@, entry.1@),
{
    assert(entries.push(entry).drop_last() =~= entries);
}

/// Binding a name anew where `entries` binds it last.
proof fn lemma_variables_of_update(entries: Seq<(String, RuntimeValue)>, i: int, entry: (String, RuntimeValue))
    requires
        0 <= i < entries.len(),
        entries[i].0@ == entry.0@,
        forall|j: int| i < j < entries.len() ==> (#[trigger] entries[j]).0@ != entry.0@,
    ensures
        variables_of(entries.update(i, entry)) == variables_of(entries).insert(entry.0@, entry.1@),
    decreases entries.len(),
{
    let after = entries.update(i, entry);
    if i == entries.len() - 1 {
        assert(after.drop_last() =~= entries.drop_last());
        assert(variables_of(entries.drop_last()).insert(entry.0@, entries[i].1@).insert(entry.0@, entry.1@)
            =~= variables_of(entries.drop_last()).insert(entry.0@, entry.1@));
    } else {
        let front = entries.drop_last();
        assert forall|j: int| i < j < front.len() implies (#[trigger] front[j]).0@ != entry.0@ by {
            assert(front[j] == entries[j]);
        }
        lemma_variables_of_update(front, i, entry);
        assert(after.drop_last() =~= front.update(i, entry));
        assert(after.last() == entries.last());
        assert(entries[entries.len() - 1].0@ != entry.0@);
        assert(variables_of(front).insert(entry.0@, entry.1@).insert(entries.last().0@, entries.last().1@)
            =~= variables_of(front).insert(entries.last().0@, entries.last().1@).insert(
            entry.0@,
            entry.1@,
        ));
    }
}

impl Environment {
    /// A scope with no bindings, inside `parent` if there is one.
    pub fn new(parent: Option<Box<Environment>>) -> (env: Self)
        ensures
            env@ == seq![empty_frame()] + (match parent {
                Some(p) => p@,
                None => Seq::empty(),
            }),
            (parent matches Some(p) ==> p.well_formed()) ==> env.well_formed(),
    {
        let env = Self { parent, variables: Vec::new(), constants: Vec::new() };
        proof {
            assert(names_of(env.constants@) =~= Set::empty());
            assert(env.chain() =~= seq![env.frame()] + env.outer());
        }
        env
    }

    /// The first scope, from this one outwards, that holds `name`.
    pub fn resolve(&self, name: String) -> (r: Result<&Environment, EvalError>)
        ensures
            (match r {
                Ok(scope) => spec_resolve(self@, name@) matches Some(i) && 0 <= i < self@.len() && scope@
                    == self@.skip(i),
                Err(e) => spec_resolve(self@, name@) is None && e@ == EvalFault::UnresolvedVariable(name@),
            }),
        decreases self,
    {
        proof {
            lemma_variables_of(self.variables@, name@);
            assert(self.chain() =~= seq![self.frame()] + self.outer());
            assert(self.chain().skip(1) =~= self.outer());
            assert(self.chain().skip(0) =~= self.chain());
            assert(self.chain()[0] == self.frame());
        }
        match position(&self.variables, &name) {
            Some(at) => {
                proof {
                    assert(self.variables@[at as int].0@ == name@);
                }
                Ok(self)
            },
            None => match &self.parent {
                Some(parent) => {
                    proof {
                        lemma_resolve(parent@, name@);
                    }
                    match parent.resolve(name) {
                        Ok(scope) => {
                            proof {
                                let i = spec_resolve(parent@, name@).unwrap();
                                assert(self@.skip(i + 1) =~= parent@.skip(i));
                            }
                            Ok(scope)
                        },
                        Err(e) => Err(e),
                    }
                },
                None => {
                    proof {
                        assert(self.chain().skip(1).len() == 0);
                    }
                    Err(EvalError::UnresolvedVariable(name))
                },
            },
        }
    }

    /// A copy of the value of `name` in the first scope that holds it.
    pub fn lookup_var(&self, name: String) -> (r: Result<RuntimeValue, EvalError>)
        ensures
            (match r {
                Ok(v) => spec_lookup(self@, name@) == Ok::<_, EvalFault>(v@),
                Err(e) => spec_lookup(self@, name@) == Err::<ValueModel, _>(e@),
            }),
    {
        let scope = match self.resolve(name.clone()) {
            Ok(scope) => scope,
            Err(e) => {
                return Err(e);
            },
        };
        proof {
            lemma_variables_of(scope.variables@, name@);
            lemma_resolve(self@, name@);
            assert(scope.chain() =~= seq![scope.frame()] + scope.outer());
            let i = spec_resolve(self@, name@).unwrap();
            assert(scope.chain()[0] == self@.skip(i)[0]);
            assert(self@[i] == scope.frame());
        }
        match position(&scope.variables, &name) {
            Some(i) => Ok(scope.variables[i].1.clone()),
            None => Err(EvalError::UnresolvedVariable(name)),
        }
    }

    /// Binds `name` to `value` in this scope, as a constant if `constant`,
    /// and gives a copy of the value. It fails where this scope holds
    /// `name` already, whatever the scopes around it hold.
    pub fn declare_var(&mut self, name: String, value: RuntimeValue, constant: bool) -> (r: Result<
        RuntimeValue,
        EvalError,
    >)
        ensures
            (match r {
                Ok(v) => spec_declare(old(self)@, name@, value@, constant) == Ok::<_, EvalFault>(final(self)@)
                    && v@ == value@,
                Err(e) => spec_declare(old(self)@, name@, value@, constant) == Err::<Seq<FrameModel>, _>(e@)
                    && final(self)@ == old(self)@,
            }),
            old(self).well_formed() ==> final(self).well_formed(),
    {
        proof {
            lemma_variables_of(self.variables@, name@);
            assert(self.chain() =~= seq![self.frame()] + self.outer());
        }
        if position(&self.variables, &name).is_some() {
            return Err(EvalError::DuplicateDeclaration(name));
        }
        let stored = value.clone();
        let ghost before = *self;
        proof {
            lemma_variables_of_push(self.variables@, (name, value));
        }
        self.variables.push((name.clone(), value));
        if constant && !holds(&self.constants, &name) {
            proof {
                assert(names_of(self.constants@.push(name)) =~= names_of(self.constants@).insert(name@)) by {
                    let longer = self.constants@.push(name);
                    assert forall|n: Seq<char>| names_of(self.constants@).insert(name@).contains(n) implies names_of(
                        longer,
                    ).contains(n) by {
                        if n == name@ {
                            assert(longer[longer.len() - 1]@ == n);
                        } else {
                            let i = choose|i: int| 0 <= i < self.constants@.len() && (#[trigger] self.constants@[i])@ == n;
                            assert(longer[i]@ == n);
                        }
                    }
                    assert forall|n: Seq<char>| names_of(longer).contains(n) implies names_of(
                        self.constants@,
                    ).insert(name@).contains(n) by {
                        let i = choose|i: int| 0 <= i < longer.len() && (#[trigger] longer[i])@ == n;
                        if i < self.constants@.len() {
                            assert(self.constants@[i]@ == n);
                        }
                    }
                }
            }
            self.constants.push(name);
        }
        proof {
            assert(names_of(self.constants@) =~= if constant {
                names_of(before.constants@).insert(name@)
            } else {
                names_of(before.constants@)
            });
            assert(self.chain() =~= seq![self.frame()] + self.outer());
            assert(self.outer() == before.outer());
            assert(self.chain() =~= before.chain().update(0, self.frame()));
        }
        Ok(stored)
    }

    /// Binds `name` anew to `value` in the first scope that holds it, and
    /// gives a copy of the value. It fails where no scope holds `name`, and
    /// where that scope marks it constant.
    pub fn assign_var(&mut self, name: String, value: RuntimeValue) -> (r: Result<RuntimeValue, EvalError>)
        ensures
            (match r {
                Ok(v) => spec_assign(old(self)@, name@, value@) == Ok::<_, EvalFault>(final(self)@) && v@
                    == value@,
                Err(e) => spec_assign(old(self)@, name@, value@) == Err::<Seq<FrameModel>, _>(e@)
                    && final(self)@ == old(self)@,
            }),
            old(self).well_formed() ==> final(self).well_formed(),
        decreases old(self)@.len(),
    {
        let ghost before = *self;
        proof {
            lemma_variables_of(self.variables@, name@);
            assert(self.chain() =~= seq![self.frame()] + self.outer());
            assert(self.chain().skip(1) =~= self.outer());
            assert(self.chain()[0] == self.frame());
        }
        match position(&self.variables, &name) {
            Some(i) => {
                proof {
                    assert(self.variables@[i as int].0@ == name@);
                    assert(spec_resolve(self.chain(), name@) == Some(0int));
                }
                if holds(&self.constants, &name) {
                    return Err(EvalError::ConstantReassignment(name));
                }
                let stored = value.clone();
                proof {
                    lemma_variables_of_update(self.variables@, i as int, (name, value));
                }
                self.variables.set(i, (name, value));
                proof {
                    assert(self.chain() =~= seq![self.frame()] + self.outer());
                    assert(self.outer() == before.outer());
                    assert(self.chain() =~= before.chain().update(0, self.frame()));
                }
                Ok(stored)
            },
            None => match &mut self.parent {
                Some(parent) => {
                    let ghost outer = parent.chain();
                    proof {
                        lemma_resolve(outer, name@);
                    }
                    let r = parent.assign_var(name, value);
                    proof {
                        assert(self.chain() =~= seq![self.frame()] + self.outer());
                        assert(before.chain()[0] == self.frame());
                        assert(before.chain().skip(1) =~= outer);
                        match spec_resolve(outer, name@) {
                            Some(i) => {
                                assert(before.chain()[i + 1] == outer[i]);
                                if r is Ok {
                                    assert(self.chain() =~= before.chain().update(
                                        i + 1,
                                        FrameModel {
                                            variables: outer[i].variables.insert(name@, value@),
                                            constants: outer[i].constants,
                                        },
                                    ));
                                }
                            },
                            None => {},
                        }
                    }
                    r
                },
                None => {
                    proof {
                        assert(self.chain().skip(1).len() == 0);
                        assert(spec_resolve(self.chain().skip(1), name@) is None);
                        assert(!self.chain()[0].variables.contains_key(name@));
                        assert(spec_resolve(self.chain(), name@) is None);
                    }
                    Err(EvalError::UnresolvedVariable(name))
                },
            },
        }
    }
}

impl View for Environment {
    type V = Seq<FrameModel>;

    open spec fn view(&self) -> Seq<FrameModel> {
        self.chain()
    }
}

} // verus!
