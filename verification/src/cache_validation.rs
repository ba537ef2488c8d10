//! Pure validation of cached opaque evidence against one observation.

use vstd::prelude::*;

use crate::text::{
    chars_le, lemma_chars_le_antisymmetric, lemma_chars_le_reflexive, lemma_chars_le_total,
    lemma_chars_le_transitive, str_eq, str_le,
};

verus! {

/// Cached topology evidence of one vehicle.
#[derive(Clone, Debug, Eq, PartialEq)]
pub struct VehicleCache {
    vehicle_key: String,
    schema_version: u32,
    created_at_ms: u64,
    evidence: Vec<String>,
}

/// The texts of a list of strings.
pub open spec fn texts(strings: Seq<String>) -> Seq<Seq<char>> {
    strings.map_values(|s: String| s@)
}

impl VehicleCache {
    pub closed spec fn spec_evidence(&self) -> Seq<Seq<char>> {
        texts(self.evidence@)
    }

    pub closed spec fn spec_vehicle_key(&self) -> Seq<char> {
        self.vehicle_key@
    }

    pub closed spec fn spec_schema_version(&self) -> u32 {
        self.schema_version
    }

    pub closed spec fn spec_created_at_ms(&self) -> u64 {
        self.created_at_ms
    }

    pub fn new(vehicle_key: &str, schema_version: u32, created_at_ms: u64, evidence: Vec<String>) -> (r: Self)
        ensures
            r.spec_vehicle_key() == vehicle_key@,
            r.spec_schema_version() == schema_version,
            r.spec_created_at_ms() == created_at_ms,
            r.spec_evidence() == texts(evidence@),
    {
        Self { vehicle_key: vehicle_key.to_owned(), schema_version, created_at_ms, evidence }
    }

    pub fn vehicle_key(&self) -> (r: &str)
        ensures
            r@ == self.spec_vehicle_key(),
    {
        self.vehicle_key.as_str()
    }

    pub fn schema_version(&self) -> (r: u32)
        ensures
            r == self.spec_schema_version(),
    {
        self.schema_version
    }

    pub fn created_at_ms(&self) -> (r: u64)
        ensures
            r == self.spec_created_at_ms(),
    {
        self.created_at_ms
    }

    /// The opaque evidence strings, as cached.
    pub fn evidence(&self) -> (r: &[String])
        ensures
            texts(r@) == self.spec_evidence(),
    {
        self.evidence.as_slice()
    }
}

/// The outcome of validating cached evidence against a read-only observation.
#[derive(Clone, Debug, Eq, PartialEq)]
pub enum CacheValidation {
    /// The observed evidence exactly matches the cache.
    Validated,
    /// Cached evidence was not observed.
    StaleMissingExpected(Vec<String>),
    /// Evidence was observed that is not present in the cache.
    StaleUnexpected(Vec<String>),
    /// Observation failed before topology could be compared.
    TransportError(String),
}

/// `a` sorts strictly before `b`.
pub open spec fn text_lt(a: Seq<char>, b: Seq<char>) -> bool {
    chars_le(a, b) && a != b
}

/// Texts in strictly ascending order.
pub open spec fn strictly_ascending(s: Seq<Seq<char>>) -> bool {
    forall|i: int, j: int| 0 <= i < j < s.len() ==> text_lt(#[trigger] s[i], #[trigger] s[j])
}

/// `s` lists, in ascending order and once each, the texts of `a` that are
/// not in `b`.
pub open spec fn is_sorted_difference(s: Seq<Seq<char>>, a: Seq<Seq<char>>, b: Seq<Seq<char>>) -> bool {
    &&& strictly_ascending(s)
    &&& forall|x: Seq<char>| #[trigger] s.contains(x) <==> (a.contains(x) && !b.contains(x))
}

fn contains_text(list: &Vec<String>, text: &str) -> (r: bool)
    ensures
        r == texts(list@).contains(text@),
{
    let mut i: usize = 0;
    while i < list.len()
        invariant
            i <= list@.len(),
            forall|j: int| 0 <= j < i ==> list@[j]@ != text@,
        decreases list@.len() - i,
    {
        if str_eq(list[i].as_str(), text) {
            assert(texts(list@)[i as int] == text@);
            return true;
        }
        i += 1;
    }
    assert forall|j: int| 0 <= j < texts(list@).len() implies texts(list@)[j] != text@ by {
        assert(texts(list@)[j] == list@[j]@);
    }
    false
}

/// Insert a text into an ascending list of distinct texts, unless present.
fn insert_sorted(list: &mut Vec<String>, text: &String)
    requires
        strictly_ascending(texts(old(list)@)),
    ensures
        strictly_ascending(texts(final(list)@)),
        forall|x: Seq<char>| #[trigger] texts(final(list)@).contains(x) <==> (texts(old(list)@).contains(x) || x == text@),
{
    let ghost before = texts(list@);
    let n = list.len();
    let mut position: usize = 0;
    while position < n
        invariant
            n == list@.len(),
            before == texts(list@),
            before == texts(old(list)@),
            position <= n,
            strictly_ascending(before),
            forall|i: int| 0 <= i < position ==> text_lt(#[trigger] before[i], text@),
        ensures
            position <= n,
            before == texts(list@),
            forall|i: int| 0 <= i < position ==> text_lt(#[trigger] before[i], text@),
            position < n ==> !chars_le(before[position as int], text@),
        decreases n - position,
    {
        assert(before[position as int] == list@[position as int]@);
        if str_eq(list[position].as_str(), text.as_str()) {
            assert(before[position as int] == text@);
            assert forall|x: Seq<char>| #[trigger] texts(list@).contains(x) <==> (before.contains(x) || x == text@) by {
                if x == text@ {
                    assert(before[position as int] == x);
                }
            }
            return;
        }
        if !str_le(list[position].as_str(), text.as_str()) {
            break;
        }
        position += 1;
    }
    proof {
        assert forall|i: int| position <= i < n implies text_lt(text@, #[trigger] before[i]) by {
            lemma_chars_le_total(before[position as int], text@);
            lemma_chars_le_reflexive(text@);
            if i > position {
                lemma_chars_le_transitive(text@, before[position as int], before[i]);
                if text@ == before[i] {
                    lemma_chars_le_antisymmetric(before[position as int], before[i]);
                }
            }
        }
    }
    list.insert(position, text.clone());
    proof {
        let after = texts(list@);
        assert(after =~= before.insert(position as int, text@));
        assert forall|i: int, j: int| 0 <= i < j < after.len() implies text_lt(
            #[trigger] after[i],
            #[trigger] after[j],
        ) by {
            if j < position {
            } else if j == position {
            } else if i < position {
                lemma_chars_le_transitive(after[i], text@, after[j]);
                if after[i] == after[j] {
                    lemma_chars_le_antisymmetric(after[i], text@);
                }
            } else if i == position {
            } else {
            }
        }
        assert forall|x: Seq<char>| #[trigger] after.contains(x) <==> (before.contains(x) || x == text@) by {
            if after.contains(x) {
                let k = choose|k: int| 0 <= k < after.len() && after[k] == x;
                if k < position {
                    assert(before[k] == x);
                } else if k > position {
                    assert(before[k - 1] == x);
                }
            }
            if before.contains(x) {
                let k = choose|k: int| 0 <= k < before.len() && before[k] == x;
                if k < position {
                    assert(after[k] == x);
                } else {
                    assert(after[k + 1] == x);
                }
            }
            if x == text@ {
                assert(after[position as int] == x);
            }
        }
    }
}

/// The texts of `a` that are not in `b`, in ascending order and once each.
fn sorted_difference(a: &Vec<String>, b: &Vec<String>) -> (r: Vec<String>)
    ensures
        is_sorted_difference(texts(r@), texts(a@), texts(b@)),
{
    let mut r: Vec<String> = Vec::new();
    let mut i: usize = 0;
    assert(texts(r@) =~= Seq::<Seq<char>>::empty());
    while i < a.len()
        invariant
            i <= a@.len(),
            strictly_ascending(texts(r@)),
            forall|x: Seq<char>|
                #[trigger] texts(r@).contains(x) <==> (texts(a@).take(i as int).contains(x)
                    && !texts(b@).contains(x)),
        decreases a@.len() - i,
    {
        let ghost previous = texts(r@);
        let ghost taken = texts(a@).take(i as int);
        let ghost next = texts(a@).take(i + 1);
        assert(next =~= taken.push(a@[i as int]@));
        if !contains_text(b, a[i].as_str()) {
            insert_sorted(&mut r, &a[i]);
        }
        assert forall|x: Seq<char>| #[trigger] texts(r@).contains(x) <==> (next.contains(x)
            && !texts(b@).contains(x)) by {
            if next.contains(x) && x != a@[i as int]@ {
                let k = choose|k: int| 0 <= k < next.len() && next[k] == x;
                assert(taken[k] == x);
            }
            if taken.contains(x) {
                let k = choose|k: int| 0 <= k < taken.len() && taken[k] == x;
                assert(next[k] == x);
            }
            if x == a@[i as int]@ {
                assert(next[i as int] == x);
            }
        }
        i += 1;
    }
    assert(texts(a@).take(a@.len() as int) =~= texts(a@));
    r
}

/// The model of a validation outcome.
pub enum CacheValidationView {
    Validated,
    StaleMissingExpected(Seq<Seq<char>>),
    StaleUnexpected(Seq<Seq<char>>),
    TransportError(Seq<char>),
}

impl View for CacheValidation {
    type V = CacheValidationView;

    open spec fn view(&self) -> CacheValidationView {
        match self {
            CacheValidation::Validated => CacheValidationView::Validated,
            CacheValidation::StaleMissingExpected(m) => CacheValidationView::StaleMissingExpected(
                texts(m@),
            ),
            CacheValidation::StaleUnexpected(u) => CacheValidationView::StaleUnexpected(texts(u@)),
            CacheValidation::TransportError(e) => CacheValidationView::TransportError(e@),
        }
    }
}

/// Some text of `a` is not in `b`.
pub open spec fn has_extra(a: Seq<Seq<char>>, b: Seq<Seq<char>>) -> bool {
    exists|x: Seq<char>| #[trigger] a.contains(x) && !b.contains(x)
}

/// Compare opaque evidence strings without interpreting their contents.
///
/// A transport failure is kept distinct from topology drift. If both kinds of
/// topology difference occur, missing expected evidence takes precedence so a
/// caller cannot accidentally trust a partially matching cache.
pub fn validate_cache(cache: &VehicleCache, observed_result: Result<Vec<String>, String>) -> (r:
    CacheValidation)
    ensures
        match observed_result {
            Err(error) => r@ == CacheValidationView::TransportError(error@),
            Ok(observed) => {
                let expected = cache.spec_evidence();
                let seen = texts(observed@);
                if has_extra(expected, seen) {
                    r@ matches CacheValidationView::StaleMissingExpected(missing)
                        && is_sorted_difference(missing, expected, seen)
                } else if has_extra(seen, expected) {
                    r@ matches CacheValidationView::StaleUnexpected(unexpected)
                        && is_sorted_difference(unexpected, seen, expected)
                } else {
                    r@ == CacheValidationView::Validated
                }
            },
        },
{
    let observed = match observed_result {
        Ok(observed) => observed,
        Err(error) => return CacheValidation::TransportError(error),
    };
    let expected = cache.evidence.clone();
    assert(texts(expected@) == cache.spec_evidence()) by {
        assert(expected@ == cache.evidence@);
    }
    let missing = sorted_difference(&expected, &observed);
    if missing.len() > 0 {
        proof {
            let x = texts(missing@)[0];
            assert(texts(missing@).contains(x));
        }
        return CacheValidation::StaleMissingExpected(missing);
    }
    proof {
        assert forall|x: Seq<char>| #[trigger] texts(expected@).contains(x) implies texts(observed@).contains(x) by {
            if !texts(observed@).contains(x) {
                assert(texts(missing@).contains(x));
            }
        }
    }
    let unexpected = sorted_difference(&observed, &expected);
    if unexpected.len() > 0 {
        proof {
            let x = texts(unexpected@)[0];
            assert(texts(unexpected@).contains(x));
        }
        return CacheValidation::StaleUnexpected(unexpected);
    }
    proof {
        assert forall|x: Seq<char>| #[trigger] texts(observed@).contains(x) implies texts(expected@).contains(x) by {
            if !texts(expected@).contains(x) {
                assert(texts(unexpected@).contains(x));
            }
        }
    }
    CacheValidation::Validated
}


/// Observing exactly the cached evidence, in any order and with any
/// repetition, leaves nothing missing and nothing unexpected: the cache
/// validates.
pub proof fn law_cache_validates_against_its_own_evidence(expected: Seq<Seq<char>>, seen: Seq<Seq<char>>)
    requires
        forall|x: Seq<char>| expected.contains(x) <==> seen.contains(x),
    ensures
        !has_extra(expected, seen),
        !has_extra(seen, expected),
{
}

} // verus!
