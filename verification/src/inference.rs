//! Equality-constraint inference over type variables: a union-find whose
//! classes may be bound to one known type.
use vstd::prelude::*;

use crate::ids::TypeId;

verus! {

/// Identity of one inference variable of a context.
#[derive(Clone, Copy, Debug, PartialEq, Eq, Structural, Hash, PartialOrd, Ord)]
pub struct InferenceVariableId(usize);

impl InferenceVariableId {
    pub closed spec fn index(self) -> nat {
        self.0 as nat
    }

    pub fn raw(self) -> (r: usize)
        ensures
            r == self.index(),
    {
        self.0
    }
}

/// One side of an equality constraint.
#[derive(Clone, Copy, Debug, PartialEq, Eq, Structural)]
pub enum InferenceType {
    Known(TypeId),
    Variable(InferenceVariableId),
}

/// Why a constraint or a resolution failed.
#[derive(Clone, Copy, Debug, PartialEq, Eq, Structural)]
pub enum InferenceError {
    Unsolved(InferenceVariableId),
    Conflict { expected: TypeId, found: TypeId },
    UnknownVariable(InferenceVariableId),
}

/// The union-find cell of one variable.
#[derive(Clone, Copy, Debug, PartialEq, Eq, Structural)]
pub struct VariableState {
    pub parent: usize,
    pub binding: Option<TypeId>,
}

/// Every parent link points to the same cell or to an earlier one.
pub open spec fn cells_wf(cells: Seq<VariableState>) -> bool {
    forall|i: int| 0 <= i < cells.len() ==> (#[trigger] cells[i]).parent <= i
}

/// The representative of cell `i`: follow parent links down to a cell that
/// is its own parent.
pub open spec fn root_of(cells: Seq<VariableState>, i: int) -> int
    decreases i,
{
    if 0 <= i < cells.len() && (cells[i].parent as int) < i {
        root_of(cells, cells[i].parent as int)
    } else {
        i
    }
}

proof fn lemma_root_is_root(cells: Seq<VariableState>, i: int)
    requires
        cells_wf(cells),
        0 <= i < cells.len(),
    ensures
        0 <= root_of(cells, i) <= i,
        cells[root_of(cells, i)].parent == root_of(cells, i),
    decreases i,
{
    if (cells[i].parent as int) < i {
        lemma_root_is_root(cells, cells[i].parent as int);
    }
}

proof fn lemma_root_after_push(cells: Seq<VariableState>, c: VariableState, i: int)
    requires
        cells_wf(cells),
        0 <= i < cells.len(),
    ensures
        root_of(cells.push(c), i) == root_of(cells, i),
    decreases i,
{
    assert(cells.push(c)[i] == cells[i]);
    if (cells[i].parent as int) < i {
        lemma_root_after_push(cells, c, cells[i].parent as int);
    }
}

proof fn lemma_root_same_parents(a: Seq<VariableState>, b: Seq<VariableState>, i: int)
    requires
        a.len() == b.len(),
        forall|k: int| 0 <= k < a.len() ==> (#[trigger] a[k]).parent == b[k].parent,
    ensures
        root_of(a, i) == root_of(b, i),
    decreases i,
{
    if 0 <= i < a.len() && (a[i].parent as int) < i {
        lemma_root_same_parents(a, b, a[i].parent as int);
    }
}

/// Linking root `child` under root `parent` (with `parent < child`) moves
/// exactly the class of `child` under `parent`.
proof fn lemma_root_after_link(
    cells: Seq<VariableState>,
    linked: Seq<VariableState>,
    parent: int,
    child: int,
    i: int,
)
    requires
        cells_wf(cells),
        0 <= parent < child < cells.len(),
        cells[parent].parent == parent,
        cells[child].parent == child,
        linked.len() == cells.len(),
        linked[child].parent == parent,
        linked[parent].parent == parent,
        forall|k: int| 0 <= k < cells.len() && k != child ==> (#[trigger] linked[k]).parent == cells[k].parent,
        0 <= i < cells.len(),
    ensures
        root_of(linked, i) == if root_of(cells, i) == child {
            parent
        } else {
            root_of(cells, i)
        },
    decreases i,
{
    if i == child {
        assert(root_of(linked, parent) == parent);
    } else if (cells[i].parent as int) < i {
        lemma_root_after_link(cells, linked, parent, child, cells[i].parent as int);
    } else {
        assert(cells[i].parent == i);
    }
}

/// A set of inference variables and their equality classes.
#[derive(Debug)]
pub struct InferenceContext {
    variables: Vec<VariableState>,
}

impl Clone for InferenceContext {
    fn clone(&self) -> (r: Self)
        ensures
            r.cells() == self.cells(),
    {
        proof {
            use_type_invariant(self);
        }
        let mut cells: Vec<VariableState> = Vec::new();
        let mut i: usize = 0;
        while i < self.variables.len()
            invariant
                i <= self.variables@.len(),
                cells@ == self.variables@.take(i as int),
            decreases self.variables.len() - i,
        {
            cells.push(self.variables[i]);
            i = i + 1;
            assert(cells@ =~= self.variables@.take(i as int));
        }
        assert(self.variables@.take(i as int) =~= self.variables@);
        InferenceContext { variables: cells }
    }
}

impl InferenceContext {
    #[verifier::type_invariant]
    closed spec fn wf(self) -> bool {
        cells_wf(self.variables@)
    }

    /// The union-find cells, one per variable.
    pub closed spec fn cells(&self) -> Seq<VariableState> {
        self.variables@
    }

    /// Number of variables created so far.
    pub open spec fn variable_count(&self) -> nat {
        self.cells().len()
    }

    /// The representative of variable `v`'s equality class.
    pub open spec fn class_of(&self, v: nat) -> int {
        root_of(self.cells(), v as int)
    }

    /// The known type bound to variable `v`'s class, if any.
    pub open spec fn binding_of(&self, v: nat) -> Option<TypeId> {
        self.cells()[self.class_of(v)].binding
    }

    pub fn new() -> (r: Self)
        ensures
            r.variable_count() == 0,
    {
        InferenceContext { variables: Vec::new() }
    }

    /// A fresh variable in a class of its own, bound to nothing; every
    /// earlier variable keeps its class and binding.
    pub fn new_variable(&mut self) -> (r: InferenceVariableId)
        ensures
            r.index() == old(self).variable_count(),
            final(self).variable_count() == old(self).variable_count() + 1,
            final(self).class_of(r.index()) == r.index(),
            final(self).binding_of(r.index()) is None,
            forall|x: nat|
                x < old(self).variable_count() ==> #[trigger] final(self).class_of(x) == old(self).class_of(x)
                    && final(self).binding_of(x) == old(self).binding_of(x),
            final(self).cells() == old(self).cells().push(
                VariableState { parent: r.index() as usize, binding: None },
            ),
    {
        proof {
            use_type_invariant(&*self);
            let cells = self.variables@;
            let c = VariableState { parent: cells.len() as usize, binding: None };
            assert forall|x: nat| x < cells.len() implies root_of(cells.push(c), x as int) == root_of(cells, x as int)
                && cells.push(c)[root_of(cells, x as int)] == cells[root_of(cells, x as int)] by {
                lemma_root_after_push(cells, c, x as int);
                lemma_root_is_root(cells, x as int);
            }
        }
        let id = self.variables.len();
        let mut cells: Vec<VariableState> = Vec::new();
        std::mem::swap(&mut cells, &mut self.variables);
        cells.push(VariableState { parent: id, binding: None });
        self.variables = cells;
        InferenceVariableId(id)
    }

    fn root(&self, variable: InferenceVariableId) -> (r: Result<usize, InferenceError>)
        ensures
            variable.index() >= self.variable_count() ==> r == Err::<usize, InferenceError>(
                InferenceError::UnknownVariable(variable),
            ),
            variable.index() < self.variable_count() ==> r == Ok::<usize, InferenceError>(
                self.class_of(variable.index()) as usize,
            ),
            r matches Ok(x) ==> x < self.variable_count() && self.cells()[x as int].parent == x,
            r matches Ok(x) ==> x as int == self.class_of(variable.index()),
    {
        proof {
            use_type_invariant(self);
            if variable.index() < self.variable_count() {
                lemma_root_is_root(self.variables@, variable.index() as int);
            }
        }
        if variable.0 >= self.variables.len() {
            return Err(InferenceError::UnknownVariable(variable));
        }
        let mut current = variable.0;
        proof {
            lemma_root_is_root(self.variables@, current as int);
        }
        loop
            invariant
                current < self.variables@.len(),
                cells_wf(self.variables@),
                root_of(self.variables@, current as int) == root_of(self.variables@, variable.0 as int),
            decreases current,
        {
            let parent = self.variables[current].parent;
            if parent == current {
                return Ok(current);
            }
            current = parent;
        }
    }

    /// Resolves a variable to the static type proven for its class.
    pub fn resolve(&self, variable: InferenceVariableId) -> (r: Result<TypeId, InferenceError>)
        ensures
            r == (if variable.index() >= self.variable_count() {
                Err(InferenceError::UnknownVariable(variable))
            } else {
                match self.binding_of(variable.index()) {
                    Some(t) => Ok(t),
                    None => Err(InferenceError::Unsolved(variable)),
                }
            }),
    {
        let root = match self.root(variable) {
            Ok(x) => x,
            Err(e) => return Err(e),
        };
        match self.variables[root].binding {
            Some(t) => Ok(t),
            None => Err(InferenceError::Unsolved(variable)),
        }
    }

    /// Adds an equality constraint between known types and inference variables.
    pub fn constrain_equal(&mut self, left: InferenceType, right: InferenceType) -> (r: Result<
        (),
        InferenceError,
    >)
        ensures
            match (left, right) {
                (InferenceType::Known(a), InferenceType::Known(b)) => {
                    &&& final(self).cells() == old(self).cells()
                    &&& r == if a == b {
                        Ok(())
                    } else {
                        Err(InferenceError::Conflict { expected: a, found: b })
                    }
                },
                (InferenceType::Variable(v), InferenceType::Known(t)) | (
                    InferenceType::Known(t),
                    InferenceType::Variable(v),
                ) => old(self).bind_outcome(final(self), v, t, r),
                (InferenceType::Variable(a), InferenceType::Variable(b)) => old(self).unify_outcome(
                    final(self),
                    a,
                    b,
                    r,
                ),
            },
    {
        match (left, right) {
            (InferenceType::Known(a), InferenceType::Known(b)) => {
                if a == b {
                    Ok(())
                } else {
                    Err(InferenceError::Conflict { expected: a, found: b })
                }
            },
            (InferenceType::Variable(v), InferenceType::Known(t)) => self.bind(v, t),
            (InferenceType::Known(t), InferenceType::Variable(v)) => self.bind(v, t),
            (InferenceType::Variable(a), InferenceType::Variable(b)) => self.unify(a, b),
        }
    }

    /// What binding variable `v` to `t` does: reject an unknown variable,
    /// check an existing binding, or bind the whole class of `v` to `t`.
    pub open spec fn bind_outcome(
        &self,
        after: &Self,
        v: InferenceVariableId,
        t: TypeId,
        r: Result<(), InferenceError>,
    ) -> bool {
        if v.index() >= self.variable_count() {
            r == Err::<(), InferenceError>(InferenceError::UnknownVariable(v)) && after.cells()
                == self.cells()
        } else if let Some(b) = self.binding_of(v.index()) {
            &&& after.cells() == self.cells()
            &&& r == if b == t {
                Ok(())
            } else {
                Err(InferenceError::Conflict { expected: b, found: t })
            }
        } else {
            &&& r == Ok::<(), InferenceError>(())
            &&& after.cells() == self.cells().update(
                self.class_of(v.index()),
                VariableState { parent: self.class_of(v.index()) as usize, binding: Some(t) },
            )
            &&& after.variable_count() == self.variable_count()
            &&& forall|x: nat| x < self.variable_count() ==> after.class_of(x) == self.class_of(x)
            &&& after.binding_of(v.index()) == Some(t)
            &&& forall|x: nat|
                x < self.variable_count() && self.class_of(x) != self.class_of(v.index())
                    ==> #[trigger] after.binding_of(x) == self.binding_of(x)
        }
    }

    /// What merging the classes of `a` and `b` does: reject unknown variables
    /// (`a` first), keep one class as it is, reject two different bindings,
    /// or merge both classes under the smaller representative, which keeps
    /// whichever binding there was.
    pub open spec fn unify_outcome(
        &self,
        after: &Self,
        a: InferenceVariableId,
        b: InferenceVariableId,
        r: Result<(), InferenceError>,
    ) -> bool {
        let ra = self.class_of(a.index());
        let rb = self.class_of(b.index());
        if a.index() >= self.variable_count() {
            r == Err::<(), InferenceError>(InferenceError::UnknownVariable(a)) && after.cells()
                == self.cells()
        } else if b.index() >= self.variable_count() {
            r == Err::<(), InferenceError>(InferenceError::UnknownVariable(b)) && after.cells()
                == self.cells()
        } else if ra == rb {
            r == Ok::<(), InferenceError>(()) && after.cells() == self.cells()
        } else if self.binding_of(a.index()) is Some && self.binding_of(b.index()) is Some
            && self.binding_of(a.index()) != self.binding_of(b.index()) {
            &&& after.cells() == self.cells()
            &&& r == Err::<(), InferenceError>(
                InferenceError::Conflict {
                    expected: self.binding_of(a.index())->0,
                    found: self.binding_of(b.index())->0,
                },
            )
        } else {
            let merged = if ra < rb {
                ra
            } else {
                rb
            };
            let binding = if self.binding_of(a.index()) is Some {
                self.binding_of(a.index())
            } else {
                self.binding_of(b.index())
            };
            &&& r == Ok::<(), InferenceError>(())
            &&& after.variable_count() == self.variable_count()
            &&& forall|x: nat|
                x < self.variable_count() ==> after.class_of(x) == if self.class_of(x) == ra
                    || self.class_of(x) == rb {
                    merged
                } else {
                    self.class_of(x)
                }
            &&& forall|x: nat|
                x < self.variable_count() ==> after.binding_of(x) == if self.class_of(x) == ra
                    || self.class_of(x) == rb {
                    binding
                } else {
                    self.binding_of(x)
                }
            &&& after.class_of(a.index()) == after.class_of(b.index())
        }
    }

    fn bind(&mut self, variable: InferenceVariableId, known: TypeId) -> (r: Result<
        (),
        InferenceError,
    >)
        ensures
            old(self).bind_outcome(final(self), variable, known, r),
    {
        proof {
            use_type_invariant(&*self);
        }
        let root = match self.root(variable) {
            Ok(x) => x,
            Err(e) => return Err(e),
        };
        match self.variables[root].binding {
            Some(binding) => {
                if binding == known {
                    Ok(())
                } else {
                    Err(InferenceError::Conflict { expected: binding, found: known })
                }
            },
            None => {
                let ghost before = self.variables@;
                let mut cells: Vec<VariableState> = Vec::new();
                std::mem::swap(&mut cells, &mut self.variables);
                cells.set(root, VariableState { parent: root, binding: Some(known) });
                self.variables = cells;
                proof {
                    let after = self.variables@;
                    assert forall|x: nat| x < before.len() implies root_of(after, x as int)
                        == root_of(before, x as int) by {
                        lemma_root_same_parents(after, before, x as int);
                    }
                    assert forall|x: nat| x < before.len() && root_of(before, x as int) != root_of(before, variable.0 as int)
                        implies #[trigger] after[root_of(after, x as int)].binding == before[root_of(before, x as int)].binding by {
                        lemma_root_same_parents(after, before, x as int);
                        lemma_root_is_root(before, x as int);
                    }
                }
                Ok(())
            },
        }
    }

    fn unify(&mut self, left: InferenceVariableId, right: InferenceVariableId) -> (r: Result<
        (),
        InferenceError,
    >)
        ensures
            old(self).unify_outcome(final(self), left, right, r),
    {
        proof {
            use_type_invariant(&*self);
        }
        let left_root = match self.root(left) {
            Ok(x) => x,
            Err(e) => return Err(e),
        };
        let right_root = match self.root(right) {
            Ok(x) => x,
            Err(e) => return Err(e),
        };
        if left_root == right_root {
            return Ok(());
        }
        let left_binding = self.variables[left_root].binding;
        let right_binding = self.variables[right_root].binding;
        if let (Some(l), Some(r)) = (left_binding, right_binding) {
            if l != r {
                return Err(InferenceError::Conflict { expected: l, found: r });
            }
        }
        let (parent, child) = if left_root < right_root {
            (left_root, right_root)
        } else {
            (right_root, left_root)
        };
        let binding = match left_binding {
            Some(b) => Some(b),
            None => right_binding,
        };
        let ghost before = self.variables@;
        let child_binding = self.variables[child].binding;
        let mut cells: Vec<VariableState> = Vec::new();
        std::mem::swap(&mut cells, &mut self.variables);
        cells.set(child, VariableState { parent, binding: child_binding });
        cells.set(parent, VariableState { parent, binding });
        proof {
            assert(cells_wf(cells@));
        }
        self.variables = cells;
        proof {
            let after = self.variables@;
            assert forall|x: nat| x < before.len() implies root_of(after, x as int) == if root_of(
                before,
                x as int,
            ) == child {
                parent as int
            } else {
                root_of(before, x as int)
            } by {
                lemma_root_after_link(before, after, parent as int, child as int, x as int);
            }
        }
        proof {
            let after = self.variables@;
            assert(after.len() == before.len());
            assert forall|x: nat| x < before.len() implies self.class_of(x) == if root_of(before, x as int)
                == left_root || root_of(before, x as int) == right_root {
                parent as int
            } else {
                root_of(before, x as int)
            } by {
                lemma_root_after_link(before, after, parent as int, child as int, x as int);
            }
            assert forall|x: nat| x < before.len() implies self.binding_of(x) == if root_of(before, x as int)
                == left_root || root_of(before, x as int) == right_root {
                binding
            } else {
                before[root_of(before, x as int)].binding
            } by {
                lemma_root_after_link(before, after, parent as int, child as int, x as int);
                lemma_root_is_root(before, x as int);
            }
            assert(self.class_of(left.index()) == parent);
            assert(self.class_of(right.index()) == parent);
        }
        Ok(())
    }
}

} // verus!
