//! Versioned retention and result-alias facts carried by every callable type.
use vstd::prelude::*;

verus! {

/// The only callable lifetime proof version this compiler emits and accepts.
pub const CALLABLE_LIFETIME_PROOF_VERSION: u16 = 1;

/// What a callable may do with one of its parameters.
#[derive(Clone, Copy, Debug, PartialEq, Eq, Structural, Hash, PartialOrd, Ord)]
pub enum ParameterRetention {
    DoesNotRetain,
    MayRetain,
    StoresInto(u16),
    Captures,
    Publishes,
}

/// Where one result of a callable may come from.
#[derive(Clone, Copy, Debug, PartialEq, Eq, Structural, Hash, PartialOrd, Ord)]
pub enum ResultProvenance {
    Independent,
    ReturnsAlias(u16),
    MayAlias,
}

/// Whether a retention fact only names parameters below `parameter_count`.
pub open spec fn retention_in_bounds(retention: ParameterRetention, parameter_count: nat) -> bool {
    match retention {
        ParameterRetention::StoresInto(target) => (target as nat) < parameter_count,
        _ => true,
    }
}

/// Whether a provenance fact only names parameters below `parameter_count`.
pub open spec fn provenance_in_bounds(provenance: ResultProvenance, parameter_count: nat) -> bool {
    match provenance {
        ResultProvenance::ReturnsAlias(source) => (source as nat) < parameter_count,
        _ => true,
    }
}

/// Whether the facts form a complete canonical contract for a callable with
/// `parameter_count` parameters and `result_count` results.
pub open spec fn lifetime_facts_canonical(
    proof_version: u16,
    retention: Seq<ParameterRetention>,
    provenance: Seq<ResultProvenance>,
    parameter_count: nat,
    result_count: nat,
) -> bool {
    &&& proof_version == CALLABLE_LIFETIME_PROOF_VERSION
    &&& retention.len() == parameter_count
    &&& provenance.len() == result_count
    &&& forall|i: int|
        0 <= i < retention.len() ==> retention_in_bounds(#[trigger] retention[i], parameter_count)
    &&& forall|i: int|
        0 <= i < provenance.len() ==> provenance_in_bounds(#[trigger] provenance[i], parameter_count)
}

/// Closed, versioned retention and result-alias facts of one callable.
#[derive(Debug, PartialEq, Eq, Hash, PartialOrd, Ord)]
pub struct CallableLifetimeSummary {
    proof_version: u16,
    parameter_retention: Vec<ParameterRetention>,
    result_provenance: Vec<ResultProvenance>,
}

fn filled_retention(count: usize, fact: ParameterRetention) -> (r: Vec<ParameterRetention>)
    ensures
        r@ == Seq::new(count as nat, |i: int| fact),
{
    let mut v: Vec<ParameterRetention> = Vec::new();
    let mut i: usize = 0;
    while i < count
        invariant
            i <= count,
            v@ == Seq::new(i as nat, |k: int| fact),
        decreases count - i,
    {
        v.push(fact);
        i = i + 1;
        assert(v@ =~= Seq::new(i as nat, |k: int| fact));
    }
    v
}

fn filled_provenance(count: usize, fact: ResultProvenance) -> (r: Vec<ResultProvenance>)
    ensures
        r@ == Seq::new(count as nat, |i: int| fact),
{
    let mut v: Vec<ResultProvenance> = Vec::new();
    let mut i: usize = 0;
    while i < count
        invariant
            i <= count,
            v@ == Seq::new(i as nat, |k: int| fact),
        decreases count - i,
    {
        v.push(fact);
        i = i + 1;
        assert(v@ =~= Seq::new(i as nat, |k: int| fact));
    }
    v
}

impl Clone for CallableLifetimeSummary {
    fn clone(&self) -> (r: Self)
        ensures
            r@ == self@,
    {
        CallableLifetimeSummary {
            proof_version: self.proof_version,
            parameter_retention: crate::ids::copy_vec(&self.parameter_retention),
            result_provenance: crate::ids::copy_vec(&self.result_provenance),
        }
    }
}

impl CallableLifetimeSummary {
    /// The summary as (proof version, parameter retention, result provenance).
    pub closed spec fn view(&self) -> (u16, Seq<ParameterRetention>, Seq<ResultProvenance>) {
        (self.proof_version, self.parameter_retention@, self.result_provenance@)
    }

    /// Whether the summary is canonical for the given callable shape.
    pub open spec fn canonical_for(&self, parameter_count: nat, result_count: nat) -> bool {
        lifetime_facts_canonical(self@.0, self@.1, self@.2, parameter_count, result_count)
    }

    /// Builds a summary only when its proof version and indexed facts form a
    /// complete canonical callable contract.
    pub fn from_parts(
        proof_version: u16,
        parameter_retention: Vec<ParameterRetention>,
        result_provenance: Vec<ResultProvenance>,
    ) -> (r: Option<Self>)
        ensures
            r is Some <==> lifetime_facts_canonical(
                proof_version,
                parameter_retention@,
                result_provenance@,
                parameter_retention@.len(),
                result_provenance@.len(),
            ),
            r matches Some(s) ==> s@ == (proof_version, parameter_retention@, result_provenance@),
    {
        let summary = CallableLifetimeSummary {
            proof_version,
            parameter_retention,
            result_provenance,
        };
        let p = summary.parameter_retention.len();
        let q = summary.result_provenance.len();
        if summary.is_canonical_for(p, q) {
            Some(summary)
        } else {
            None
        }
    }

    /// The summary that assumes every parameter may be retained and every
    /// result may alias.
    pub fn conservative(parameter_count: usize, result_count: usize) -> (r: Self)
        ensures
            r@ == (
                CALLABLE_LIFETIME_PROOF_VERSION,
                Seq::new(parameter_count as nat, |i: int| ParameterRetention::MayRetain),
                Seq::new(result_count as nat, |i: int| ResultProvenance::MayAlias),
            ),
            r.canonical_for(parameter_count as nat, result_count as nat),
    {
        CallableLifetimeSummary {
            proof_version: CALLABLE_LIFETIME_PROOF_VERSION,
            parameter_retention: filled_retention(parameter_count, ParameterRetention::MayRetain),
            result_provenance: filled_provenance(result_count, ResultProvenance::MayAlias),
        }
    }

    /// The summary of a callable that retains nothing and returns fresh results.
    pub fn non_retaining(parameter_count: usize, result_count: usize) -> (r: Self)
        ensures
            r@ == (
                CALLABLE_LIFETIME_PROOF_VERSION,
                Seq::new(parameter_count as nat, |i: int| ParameterRetention::DoesNotRetain),
                Seq::new(result_count as nat, |i: int| ResultProvenance::Independent),
            ),
            r.canonical_for(parameter_count as nat, result_count as nat),
    {
        CallableLifetimeSummary {
            proof_version: CALLABLE_LIFETIME_PROOF_VERSION,
            parameter_retention: filled_retention(parameter_count, ParameterRetention::DoesNotRetain),
            result_provenance: filled_provenance(result_count, ResultProvenance::Independent),
        }
    }

    /// Records that result `result` aliases parameter `source_parameter`; an
    /// index past the results leaves the summary unchanged.
    pub fn with_result_alias(self, result: usize, source_parameter: u16) -> (r: Self)
        ensures
            r@ == (if result < self@.2.len() {
                (self@.0, self@.1, self@.2.update(result as int, ResultProvenance::ReturnsAlias(source_parameter)))
            } else {
                self@
            }),
    {
        self.with_result_provenance(result, ResultProvenance::ReturnsAlias(source_parameter))
    }

    /// Replaces the retention fact of parameter `parameter`; an index past the
    /// parameters leaves the summary unchanged.
    pub fn with_parameter_retention(self, parameter: usize, retention: ParameterRetention) -> (r: Self)
        ensures
            r@ == (if parameter < self@.1.len() {
                (self@.0, self@.1.update(parameter as int, retention), self@.2)
            } else {
                self@
            }),
    {
        let mut s = self;
        if parameter < s.parameter_retention.len() {
            s.parameter_retention.set(parameter, retention);
        }
        s
    }

    /// Replaces the provenance fact of result `result`; an index past the
    /// results leaves the summary unchanged.
    pub fn with_result_provenance(self, result: usize, provenance: ResultProvenance) -> (r: Self)
        ensures
            r@ == (if result < self@.2.len() {
                (self@.0, self@.1, self@.2.update(result as int, provenance))
            } else {
                self@
            }),
    {
        let mut s = self;
        if result < s.result_provenance.len() {
            s.result_provenance.set(result, provenance);
        }
        s
    }

    pub fn proof_version(&self) -> (r: u16)
        ensures
            r == self@.0,
    {
        self.proof_version
    }

    pub fn parameter_retention(&self) -> (r: &[ParameterRetention])
        ensures
            r@ == self@.1,
    {
        self.parameter_retention.as_slice()
    }

    pub fn result_provenance(&self) -> (r: &[ResultProvenance])
        ensures
            r@ == self@.2,
    {
        self.result_provenance.as_slice()
    }

    /// Whether the summary is a complete canonical contract for a callable
    /// with `parameter_count` parameters and `result_count` results.
    pub fn is_canonical_for(&self, parameter_count: usize, result_count: usize) -> (r: bool)
        ensures
            r == self.canonical_for(parameter_count as nat, result_count as nat),
    {
        if self.proof_version != CALLABLE_LIFETIME_PROOF_VERSION
            || self.parameter_retention.len() != parameter_count
            || self.result_provenance.len() != result_count {
            return false;
        }
        let mut i: usize = 0;
        while i < self.parameter_retention.len()
            invariant
                i <= self.parameter_retention@.len(),
                forall|k: int|
                    0 <= k < i ==> retention_in_bounds(
                        #[trigger] self.parameter_retention@[k],
                        parameter_count as nat,
                    ),
            decreases self.parameter_retention.len() - i,
        {
            match self.parameter_retention[i] {
                ParameterRetention::StoresInto(target) => {
                    if (target as usize) >= parameter_count {
                        return false;
                    }
                },
                _ => {},
            }
            i = i + 1;
        }
        let mut j: usize = 0;
        while j < self.result_provenance.len()
            invariant
                j <= self.result_provenance@.len(),
                forall|k: int|
                    0 <= k < j ==> provenance_in_bounds(
                        #[trigger] self.result_provenance@[k],
                        parameter_count as nat,
                    ),
            decreases self.result_provenance.len() - j,
        {
            match self.result_provenance[j] {
                ResultProvenance::ReturnsAlias(source) => {
                    if (source as usize) >= parameter_count {
                        return false;
                    }
                },
                _ => {},
            }
            j = j + 1;
        }
        true
    }
}

fn retention_seq_eq(a: &[ParameterRetention], b: &[ParameterRetention]) -> (r: bool)
    ensures
        r == (a@ == b@),
{
    if a.len() != b.len() {
        return false;
    }
    let mut i: usize = 0;
    while i < a.len()
        invariant
            a@.len() == b@.len(),
            i <= a@.len(),
            forall|k: int| 0 <= k < i ==> a@[k] == b@[k],
        decreases a.len() - i,
    {
        if a[i] != b[i] {
            return false;
        }
        i = i + 1;
    }
    assert(a@ =~= b@);
    true
}

fn provenance_seq_eq(a: &[ResultProvenance], b: &[ResultProvenance]) -> (r: bool)
    ensures
        r == (a@ == b@),
{
    if a.len() != b.len() {
        return false;
    }
    let mut i: usize = 0;
    while i < a.len()
        invariant
            a@.len() == b@.len(),
            i <= a@.len(),
            forall|k: int| 0 <= k < i ==> a@[k] == b@[k],
        decreases a.len() - i,
    {
        if a[i] != b[i] {
            return false;
        }
        i = i + 1;
    }
    assert(a@ =~= b@);
    true
}

impl CallableLifetimeSummary {
    /// Whether two summaries hold the same facts.
    pub fn same_facts(&self, other: &Self) -> (r: bool)
        ensures
            r == (self@ == other@),
    {
        self.proof_version == other.proof_version && retention_seq_eq(
            self.parameter_retention.as_slice(),
            other.parameter_retention.as_slice(),
        ) && provenance_seq_eq(self.result_provenance.as_slice(), other.result_provenance.as_slice())
    }

    /// A copy holding the same facts.
    pub fn duplicate(&self) -> (r: Self)
        ensures
            r@ == self@,
    {
        let mut p: Vec<ParameterRetention> = Vec::new();
        let mut i: usize = 0;
        while i < self.parameter_retention.len()
            invariant
                i <= self.parameter_retention@.len(),
                p@ == self.parameter_retention@.take(i as int),
            decreases self.parameter_retention.len() - i,
        {
            p.push(self.parameter_retention[i]);
            i = i + 1;
            assert(p@ =~= self.parameter_retention@.take(i as int));
        }
        let mut q: Vec<ResultProvenance> = Vec::new();
        let mut j: usize = 0;
        while j < self.result_provenance.len()
            invariant
                j <= self.result_provenance@.len(),
                q@ == self.result_provenance@.take(j as int),
            decreases self.result_provenance.len() - j,
        {
            q.push(self.result_provenance[j]);
            j = j + 1;
            assert(q@ =~= self.result_provenance@.take(j as int));
        }
        assert(self.parameter_retention@.take(i as int) =~= self.parameter_retention@);
        assert(self.result_provenance@.take(j as int) =~= self.result_provenance@);
        CallableLifetimeSummary {
            proof_version: self.proof_version,
            parameter_retention: p,
            result_provenance: q,
        }
    }
}

} // verus!
