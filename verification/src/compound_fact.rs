//! Transport-neutral compound diagnostic observations.
//!
//! One response may deterministically produce several semantic facts. The
//! facts share one source, timestamp and evidence identity so consumers do
//! not mistake derived values for additional vehicle requests.

use vstd::prelude::*;

use crate::text::{concat, is_blank, is_blank_spec, owned, str_eq};

verus! {

/// Why an observation or a fact was refused.
#[derive(Clone, Debug, Eq, PartialEq)]
pub enum ObservationError {
    EmptySource,
    EmptyEvidenceId,
    EmptySemantic,
    EmptyUnit { semantic: String },
    DuplicateSemantic { semantic: String },
    NonFiniteScalar { semantic: String },
}

impl ObservationError {
    /// The message of this error.
    pub fn message(&self) -> (r: String)
        ensures
            match self {
                ObservationError::EmptySource => r@ == "observation source must not be empty"@,
                ObservationError::EmptyEvidenceId => r@ == "observation evidence identity must not be empty"@,
                ObservationError::EmptySemantic => r@ == "fact semantic identifier must not be empty"@,
                ObservationError::EmptyUnit { semantic } => r@ == "scalar fact "@ + semantic@ + " must have a unit"@,
                ObservationError::DuplicateSemantic { semantic } => r@ == "duplicate fact semantic identifier: "@
                    + semantic@,
                ObservationError::NonFiniteScalar { semantic } => r@ == "scalar fact "@ + semantic@
                    + " must be finite"@,
            },
    {
        match self {
            ObservationError::EmptySource => owned("observation source must not be empty"),
            ObservationError::EmptyEvidenceId => owned("observation evidence identity must not be empty"),
            ObservationError::EmptySemantic => owned("fact semantic identifier must not be empty"),
            ObservationError::EmptyUnit { semantic } => {
                let head = concat("scalar fact ", semantic.as_str());
                concat(head.as_str(), " must have a unit")
            },
            ObservationError::DuplicateSemantic { semantic } => concat(
                "duplicate fact semantic identifier: ",
                semantic.as_str(),
            ),
            ObservationError::NonFiniteScalar { semantic } => {
                let head = concat("scalar fact ", semantic.as_str());
                concat(head.as_str(), " must be finite")
            },
        }
    }
}

/// The identity shared by every fact decoded from one observation.
#[derive(Clone, Debug, Eq, PartialEq, Hash)]
pub struct ObservationIdentity {
    source: String,
    evidence_id: String,
    timestamp_us: u128,
}

pub struct ObservationIdentityView {
    pub source: Seq<char>,
    pub evidence_id: Seq<char>,
    pub timestamp_us: u128,
}

impl View for ObservationIdentity {
    type V = ObservationIdentityView;

    closed spec fn view(&self) -> ObservationIdentityView {
        ObservationIdentityView {
            source: self.source@,
            evidence_id: self.evidence_id@,
            timestamp_us: self.timestamp_us,
        }
    }
}

impl ObservationIdentity {
    /// An identity for one source-scoped observation: source and evidence
    /// identity must not be blank.
    pub fn new(source: &str, evidence_id: &str, timestamp_us: u128) -> (r: Result<Self, ObservationError>)
        ensures
            is_blank_spec(source@) ==> r == Err::<Self, ObservationError>(ObservationError::EmptySource),
            !is_blank_spec(source@) && is_blank_spec(evidence_id@) ==> r == Err::<Self, ObservationError>(
                ObservationError::EmptyEvidenceId,
            ),
            !is_blank_spec(source@) && !is_blank_spec(evidence_id@) ==> (r matches Ok(identity) && identity@ == (
            ObservationIdentityView { source: source@, evidence_id: evidence_id@, timestamp_us })),
    {
        if is_blank(source) {
            return Err(ObservationError::EmptySource);
        }
        if is_blank(evidence_id) {
            return Err(ObservationError::EmptyEvidenceId);
        }
        Ok(Self { source: owned(source), evidence_id: owned(evidence_id), timestamp_us })
    }

    pub fn source(&self) -> (r: &str)
        ensures
            r@ == self@.source,
    {
        self.source.as_str()
    }

    pub fn evidence_id(&self) -> (r: &str)
        ensures
            r@ == self@.evidence_id,
    {
        self.evidence_id.as_str()
    }

    pub fn timestamp_us(&self) -> (r: u128)
        ensures
            r == self@.timestamp_us,
    {
        self.timestamp_us
    }

    /// A copy of this identity.
    pub fn duplicate(&self) -> (r: Self)
        ensures
            r@ == self@,
    {
        Self { source: self.source.clone(), evidence_id: self.evidence_id.clone(), timestamp_us: self.timestamp_us }
    }
}

/// An IEEE 754 double, by its bits, is finite: its exponent is not all ones.
pub open spec fn is_finite_bits(bits: u64) -> bool {
    (bits >> 52u64) & 0x7ffu64 != 0x7ffu64
}

/// A typed, deterministic value associated with one semantic identifier.
/// A scalar carries its IEEE 754 double by its bits.
#[derive(Clone, Debug, PartialEq, Eq)]
pub enum FactValue {
    Scalar { value_bits: u64, unit: String },
    BitStatus { bit: u8, asserted: bool },
}

pub enum FactValueView {
    Scalar { value_bits: u64, unit: Seq<char> },
    BitStatus { bit: u8, asserted: bool },
}

impl View for FactValue {
    type V = FactValueView;

    open spec fn view(&self) -> FactValueView {
        match self {
            FactValue::Scalar { value_bits, unit } => FactValueView::Scalar { value_bits: *value_bits, unit: unit@ },
            FactValue::BitStatus { bit, asserted } => FactValueView::BitStatus { bit: *bit, asserted: *asserted },
        }
    }
}

/// One semantic fact decoded from an observation.
#[derive(Clone, Debug, PartialEq, Eq)]
pub struct SemanticFact {
    semantic: String,
    value: FactValue,
}

pub struct SemanticFactView {
    pub semantic: Seq<char>,
    pub value: FactValueView,
}

impl View for SemanticFact {
    type V = SemanticFactView;

    closed spec fn view(&self) -> SemanticFactView {
        SemanticFactView { semantic: self.semantic@, value: self.value@ }
    }
}

impl SemanticFact {
    /// A finite scalar with a unit.
    pub fn scalar(semantic: &str, value_bits: u64, unit: &str) -> (r: Result<Self, ObservationError>)
        ensures
            is_blank_spec(semantic@) ==> r == Err::<Self, ObservationError>(ObservationError::EmptySemantic),
            !is_blank_spec(semantic@) && !is_finite_bits(value_bits) ==> (r matches Err(
                ObservationError::NonFiniteScalar { semantic: s },
            ) && s@ == semantic@),
            !is_blank_spec(semantic@) && is_finite_bits(value_bits) && is_blank_spec(unit@) ==> (r matches Err(
                ObservationError::EmptyUnit { semantic: s },
            ) && s@ == semantic@),
            !is_blank_spec(semantic@) && is_finite_bits(value_bits) && !is_blank_spec(unit@) ==> (r matches Ok(
                fact,
            ) && fact@ == (SemanticFactView {
                semantic: semantic@,
                value: FactValueView::Scalar { value_bits, unit: unit@ },
            })),
    {
        if is_blank(semantic) {
            return Err(ObservationError::EmptySemantic);
        }
        if (value_bits >> 52u64) & 0x7ffu64 == 0x7ffu64 {
            return Err(ObservationError::NonFiniteScalar { semantic: owned(semantic) });
        }
        if is_blank(unit) {
            return Err(ObservationError::EmptyUnit { semantic: owned(semantic) });
        }
        Ok(Self { semantic: owned(semantic), value: FactValue::Scalar { value_bits, unit: owned(unit) } })
    }

    /// The state of one status bit.
    pub fn bit_status(semantic: &str, bit: u8, asserted: bool) -> (r: Result<Self, ObservationError>)
        ensures
            is_blank_spec(semantic@) ==> r == Err::<Self, ObservationError>(ObservationError::EmptySemantic),
            !is_blank_spec(semantic@) ==> (r matches Ok(fact) && fact@ == (SemanticFactView {
                semantic: semantic@,
                value: FactValueView::BitStatus { bit, asserted },
            })),
    {
        if is_blank(semantic) {
            return Err(ObservationError::EmptySemantic);
        }
        Ok(Self { semantic: owned(semantic), value: FactValue::BitStatus { bit, asserted } })
    }

    pub fn semantic(&self) -> (r: &str)
        ensures
            r@ == self@.semantic,
    {
        self.semantic.as_str()
    }

    pub fn value(&self) -> (r: &FactValue)
        ensures
            r@ == self@.value,
    {
        &self.value
    }
}

/// The first fact whose semantic an earlier fact already has, or -1.
pub open spec fn first_duplicate(facts: Seq<SemanticFactView>) -> int
    decreases facts.len(),
{
    if facts.len() == 0 {
        -1
    } else if first_duplicate(facts.drop_last()) >= 0 {
        first_duplicate(facts.drop_last())
    } else if exists|i: int| 0 <= i < facts.len() - 1 && (#[trigger] facts[i]).semantic == facts.last().semantic {
        facts.len() - 1
    } else {
        -1
    }
}

/// No two facts share a semantic.
pub open spec fn semantics_distinct(facts: Seq<SemanticFactView>) -> bool {
    forall|i: int, j: int| 0 <= i < j < facts.len() ==> (#[trigger] facts[i]).semantic != (#[trigger] facts[j]).semantic
}

proof fn lemma_first_duplicate(facts: Seq<SemanticFactView>)
    ensures
        -1 <= first_duplicate(facts) < facts.len(),
        first_duplicate(facts) == -1 <==> semantics_distinct(facts),
        first_duplicate(facts) >= 0 ==> semantics_distinct(facts.take(first_duplicate(facts))) && exists|i: int|
            0 <= i < first_duplicate(facts) && (#[trigger] facts[i]).semantic == facts[first_duplicate(facts)].semantic,
    decreases facts.len(),
{
    if facts.len() > 0 {
        let rest = facts.drop_last();
        lemma_first_duplicate(rest);
        if first_duplicate(rest) >= 0 {
            assert(facts.take(first_duplicate(rest)) =~= rest.take(first_duplicate(rest)));
            let i = choose|i: int| 0 <= i < first_duplicate(rest) && (#[trigger] rest[i]).semantic
                == rest[first_duplicate(rest)].semantic;
            assert(facts[i] == rest[i]);
            assert(!semantics_distinct(facts)) by {
                assert(facts[i].semantic == facts[first_duplicate(rest)].semantic);
            }
        } else {
            assert(facts.take(facts.len() - 1) =~= rest);
            if exists|i: int| 0 <= i < facts.len() - 1 && (#[trigger] facts[i]).semantic == facts.last().semantic {
                let i = choose|i: int| 0 <= i < facts.len() - 1 && (#[trigger] facts[i]).semantic
                    == facts.last().semantic;
                assert(facts[i].semantic == facts[facts.len() - 1].semantic);
            } else {
                assert forall|i: int, j: int| 0 <= i < j < facts.len() implies (#[trigger] facts[i]).semantic
                    != (#[trigger] facts[j]).semantic by {
                    if j < facts.len() - 1 {
                        assert(rest[i] == facts[i] && rest[j] == facts[j]);
                    }
                }
            }
        }
    }
}

/// An immutable set of facts sharing one observation identity.
#[derive(Clone, Debug, PartialEq, Eq)]
pub struct CompoundObservation {
    identity: ObservationIdentity,
    facts: Vec<SemanticFact>,
}

pub struct CompoundObservationView {
    pub identity: ObservationIdentityView,
    pub facts: Seq<SemanticFactView>,
}

impl View for CompoundObservation {
    type V = CompoundObservationView;

    closed spec fn view(&self) -> CompoundObservationView {
        CompoundObservationView {
            identity: self.identity@,
            facts: self.facts@.map_values(|f: SemanticFact| f@),
        }
    }
}

impl CompoundObservation {
    /// An observation of facts with distinct semantics; no transport request
    /// is issued or described. An empty fact set is valid.
    pub fn new(identity: ObservationIdentity, facts: Vec<SemanticFact>) -> (r: Result<Self, ObservationError>)
        ensures
            ({
                let views = facts@.map_values(|f: SemanticFact| f@);
                let k = first_duplicate(views);
                &&& k < 0 ==> (r matches Ok(observation) && observation@ == (CompoundObservationView {
                    identity: identity@,
                    facts: views,
                }))
                &&& k >= 0 ==> (r matches Err(ObservationError::DuplicateSemantic { semantic }) && semantic@
                    == views[k].semantic)
            }),
            r matches Ok(observation) ==> semantics_distinct(observation@.facts),
    {
        let ghost views = facts@.map_values(|f: SemanticFact| f@);
        proof {
            lemma_first_duplicate(views);
        }
        let mut j: usize = 0;
        while j < facts.len()
            invariant
                j <= facts@.len(),
                views == facts@.map_values(|f: SemanticFact| f@),
                semantics_distinct(views.take(j as int)),
            decreases facts@.len() - j,
        {
            let mut i: usize = 0;
            while i < j
                invariant
                    i <= j < facts@.len(),
                    views == facts@.map_values(|f: SemanticFact| f@),
                    semantics_distinct(views.take(j as int)),
                    forall|k: int| 0 <= k < i ==> (#[trigger] views[k]).semantic != views[j as int].semantic,
                decreases j - i,
            {
                assert(views[i as int] == facts@[i as int]@);
                assert(views[j as int] == facts@[j as int]@);
                if str_eq(facts[i].semantic.as_str(), facts[j].semantic.as_str()) {
                    proof {
                        lemma_first_duplicate(views);
                        let d = first_duplicate(views);
                        assert(views[i as int].semantic == views[j as int].semantic);
                        assert(d == j as int) by {
                            if d < j {
                                let w = choose|w: int| 0 <= w < d && (#[trigger] views[w]).semantic == views[d].semantic;
                                assert(views.take(j as int)[w] == views[w]);
                                assert(views.take(j as int)[d] == views[d]);
                            }
                            if d == -1 || d > j {
                                if d > j {
                                    assert(views.take(d)[i as int] == views[i as int]);
                                    assert(views.take(d)[j as int] == views[j as int]);
                                }
                            }
                        }
                    }
                    return Err(ObservationError::DuplicateSemantic { semantic: facts[j].semantic.clone() });
                }
                i += 1;
            }
            assert(semantics_distinct(views.take(j + 1))) by {
                assert forall|a: int, b: int| 0 <= a < b < j + 1 implies (#[trigger] views.take(j + 1)[a]).semantic
                    != (#[trigger] views.take(j + 1)[b]).semantic by {
                    if b < j {
                        assert(views.take(j as int)[a] == views[a]);
                        assert(views.take(j as int)[b] == views[b]);
                    }
                }
            }
            j += 1;
        }
        assert(views.take(facts@.len() as int) =~= views);
        Ok(Self { identity, facts })
    }

    pub fn identity(&self) -> (r: &ObservationIdentity)
        ensures
            r@ == self@.identity,
    {
        &self.identity
    }

    pub fn source(&self) -> (r: &str)
        ensures
            r@ == self@.identity.source,
    {
        self.identity.source()
    }

    pub fn evidence_id(&self) -> (r: &str)
        ensures
            r@ == self@.identity.evidence_id,
    {
        self.identity.evidence_id()
    }

    pub fn timestamp_us(&self) -> (r: u128)
        ensures
            r == self@.identity.timestamp_us,
    {
        self.identity.timestamp_us()
    }

    pub fn facts(&self) -> (r: &[SemanticFact])
        ensures
            r@.map_values(|f: SemanticFact| f@) == self@.facts,
    {
        self.facts.as_slice()
    }

    /// The fact with a semantic, if any.
    pub fn fact(&self, semantic: &str) -> (r: Option<&SemanticFact>)
        ensures
            match r {
                Some(fact) => exists|i: int|
                    0 <= i < self@.facts.len() && self@.facts[i] == fact@ && fact@.semantic == semantic@ && forall|k: int|
                        0 <= k < i ==> (#[trigger] self@.facts[k]).semantic != semantic@,
                None => forall|k: int| 0 <= k < self@.facts.len() ==> (#[trigger] self@.facts[k]).semantic != semantic@,
            },
    {
        let mut i: usize = 0;
        while i < self.facts.len()
            invariant
                i <= self.facts@.len(),
                forall|k: int| 0 <= k < i ==> (#[trigger] self@.facts[k]).semantic != semantic@,
            decreases self.facts@.len() - i,
        {
            assert(self@.facts[i as int] == self.facts@[i as int]@);
            if str_eq(self.facts[i].semantic.as_str(), semantic) {
                return Some(&self.facts[i]);
            }
            i += 1;
        }
        None
    }
}

} // verus!
