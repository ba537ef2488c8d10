//! Capture profiles: named, closed sets of catalog semantics with sampling
//! intervals, checked before any adapter is contacted.
//!
//! Intervals are carried as whole milliseconds.

use vstd::prelude::*;

use crate::capability::HardwareCapability;
use crate::signals::{is_catalog_semantic, prepare_read};
use crate::text::{
    chars_of, concat, contains_char, debug_quoted, debug_text, decimal, decimal_text, is_trimmed, owned, str_eq,
    trim_spec,
};

verus! {

/// The only profile schema version this library reads.
pub const PROFILE_SCHEMA_VERSION: u32 = 1;

/// Offered load is counted in reads per 10^9 seconds.
pub const LOAD_SCALE: u128 = 1_000_000_000;

/// The load of one read per millisecond.
pub const LOAD_PER_MS: u128 = 1_000_000_000_000;

/// One reading every `interval_ms` milliseconds, in reads per 10^9 seconds
/// (rounded down).
pub open spec fn subscription_load(interval_ms: u64) -> int {
    if interval_ms == 0 {
        0
    } else {
        LOAD_PER_MS as int / interval_ms as int
    }
}

pub open spec fn is_ascii_digit(c: char) -> bool {
    '0' <= c && c <= '9'
}

pub open spec fn all_digits(s: Seq<char>) -> bool {
    forall|i: int| 0 <= i < s.len() ==> is_ascii_digit(#[trigger] s[i])
}

/// The value of a decimal numeral.
pub open spec fn decimal_value(s: Seq<char>) -> int
    decreases s.len(),
{
    if s.len() == 0 {
        0
    } else {
        decimal_value(s.drop_last()) * 10 + (s.last() as int - '0' as int)
    }
}

/// The interval of a numeral with a unit of `multiplier` milliseconds.
pub open spec fn number_interval(number: Seq<char>, multiplier: int) -> Option<int> {
    if number.len() == 0 || !all_digits(number) {
        None
    } else if decimal_value(number) > u64::MAX {
        None
    } else if decimal_value(number) == 0 {
        None
    } else if decimal_value(number) * multiplier > u64::MAX {
        None
    } else {
        Some(decimal_value(number) * multiplier)
    }
}

/// The message for an interval that is not a positive integer followed by
/// `ms` or `s`.
pub open spec fn interval_shape_error(value: Seq<char>) -> Seq<char> {
    "invalid capture profile interval "@ + debug_text(value) + "; expected positive integer ms or s"@
}

/// Why the numeral `number` of the interval `value` gives no interval.
pub open spec fn number_error(value: Seq<char>, number: Seq<char>) -> Seq<char> {
    if number.len() == 0 || !all_digits(number) {
        interval_shape_error(value)
    } else if decimal_value(number) == 0 {
        "capture profile interval must be greater than zero"@
    } else {
        "capture profile interval is too large: "@ + value
    }
}

/// The message for an interval that `interval_ms` refuses.
pub open spec fn interval_error(value: Seq<char>) -> Seq<char> {
    if value.len() == 0 || trim_spec(value) != value {
        "invalid capture profile interval: "@ + debug_text(value)
    } else if value.len() >= 2 && value[value.len() - 2] == 'm' && value.last() == 's' {
        number_error(value, value.take(value.len() - 2))
    } else if value.last() == 's' {
        number_error(value, value.drop_last())
    } else {
        interval_shape_error(value)
    }
}

/// The milliseconds of an interval written as a positive integer followed
/// by `ms` or `s`, without surrounding whitespace.
pub open spec fn interval_ms(value: Seq<char>) -> Option<int> {
    if value.len() == 0 || trim_spec(value) != value {
        None
    } else if value.len() >= 2 && value[value.len() - 2] == 'm' && value.last() == 's' {
        number_interval(value.take(value.len() - 2), 1)
    } else if value.last() == 's' {
        number_interval(value.drop_last(), 1000)
    } else {
        None
    }
}

proof fn lemma_decimal_nonneg(s: Seq<char>)
    requires
        all_digits(s),
    ensures
        decimal_value(s) >= 0,
    decreases s.len(),
{
    if s.len() > 0 {
        lemma_decimal_nonneg(s.drop_last());
    }
}

/// A parsed interval is a positive number of milliseconds that fits in a
/// `u64`.
proof fn lemma_interval_positive(value: Seq<char>)
    ensures
        interval_ms(value) matches Some(ms) ==> 0 < ms <= u64::MAX,
{
    if value.len() >= 2 {
        let number = value.take(value.len() - 2);
        if all_digits(number) {
            lemma_decimal_nonneg(number);
        }
    }
    if value.len() >= 1 {
        let number = value.drop_last();
        if all_digits(number) {
            lemma_decimal_nonneg(number);
        }
    }
}

/// A numeral is at least as large as each of its prefixes.
proof fn lemma_decimal_prefix(s: Seq<char>, i: int)
    requires
        all_digits(s),
        0 <= i <= s.len(),
    ensures
        decimal_value(s.take(i)) <= decimal_value(s),
    decreases s.len(),
{
    if i == s.len() {
        assert(s.take(i) =~= s);
    } else {
        lemma_decimal_prefix(s.drop_last(), i);
        lemma_decimal_nonneg(s.drop_last());
        assert(s.drop_last().take(i) =~= s.take(i));
    }
}

/// The value of a numeral, or `None` when it does not fit in a `u64`.
pub(crate) fn parse_decimal(number: &[char]) -> (r: Option<u64>)
    requires
        all_digits(number@),
    ensures
        decimal_value(number@) >= 0,
        decimal_value(number@) <= u64::MAX ==> r == Some(decimal_value(number@) as u64),
        decimal_value(number@) > u64::MAX ==> r is None,
{
    proof {
        lemma_decimal_nonneg(number@);
    }
    let mut value: u64 = 0;
    let mut i: usize = 0;
    while i < number.len()
        invariant
            i <= number@.len(),
            all_digits(number@),
            value as int == decimal_value(number@.take(i as int)),
        decreases number@.len() - i,
    {
        let ghost prefix = number@.take(i + 1);
        assert(prefix.drop_last() =~= number@.take(i as int));
        assert(is_ascii_digit(number@[i as int]));
        let digit = (number[i] as u32 - '0' as u32) as u64;
        assert(digit as int == number@[i as int] as int - '0' as int) by {
            assert(is_ascii_digit(number@[i as int]));
        }
        let next = match value.checked_mul(10) {
            Some(scaled) => scaled.checked_add(digit),
            None => None,
        };
        match next {
            Some(next) => {
                value = next;
            },
            None => {
                proof {
                    lemma_decimal_prefix(number@, i + 1);
                }
                return None;
            },
        }
        i += 1;
    }
    assert(number@.take(number@.len() as int) =~= number@);
    Some(value)
}

/// The characters `chars[..end]`.
fn prefix(chars: &Vec<char>, end: usize) -> (r: Vec<char>)
    requires
        end <= chars@.len(),
    ensures
        r@ == chars@.take(end as int),
{
    let mut r: Vec<char> = Vec::new();
    let mut i: usize = 0;
    while i < end
        invariant
            i <= end <= chars@.len(),
            r@ == chars@.take(i as int),
        decreases end - i,
    {
        r.push(chars[i]);
        assert(chars@.take(i + 1) =~= chars@.take(i as int).push(chars@[i as int]));
        i += 1;
    }
    r
}

pub(crate) fn all_digits_exec(s: &[char]) -> (r: bool)
    ensures
        r == all_digits(s@),
{
    let mut i: usize = 0;
    while i < s.len()
        invariant
            i <= s@.len(),
            forall|j: int| 0 <= j < i ==> is_ascii_digit(#[trigger] s@[j]),
        decreases s@.len() - i,
    {
        if !('0' <= s[i] && s[i] <= '9') {
            return false;
        }
        i += 1;
    }
    true
}

fn invalid_interval(value: &str) -> (r: String)
    ensures
        r@ == interval_shape_error(value@),
{
    let quoted = debug_quoted(value);
    let head = concat("invalid capture profile interval ", quoted.as_str());
    concat(head.as_str(), "; expected positive integer ms or s")
}

/// Parse a profile interval: a positive integer followed by `ms` or `s`.
pub fn parse_interval(value: &str) -> (r: Result<u64, String>)
    ensures
        match interval_ms(value@) {
            Some(ms) => r == Ok::<u64, String>(ms as u64),
            None => (r matches Err(message) && message@ == interval_error(value@)),
        },
{
    if value.is_empty() || !is_trimmed(value) {
        let quoted = debug_quoted(value);
        return Err(concat("invalid capture profile interval: ", quoted.as_str()));
    }
    let chars = chars_of(value);
    let n = chars.len();
    let (end, multiplier): (usize, u64) = if n >= 2 && chars[n - 2] == 'm' && chars[n - 1] == 's' {
        (n - 2, 1)
    } else if chars[n - 1] == 's' {
        (n - 1, 1000)
    } else {
        return Err(invalid_interval(value));
    };
    let number = prefix(&chars, end);
    assert(multiplier == 1 ==> number@ =~= value@.take(value@.len() - 2));
    assert(multiplier == 1000 ==> number@ =~= value@.drop_last());
    assert(interval_ms(value@) == number_interval(number@, multiplier as int));
    if number.len() == 0 || !all_digits_exec(number.as_slice()) {
        return Err(invalid_interval(value));
    }
    let amount = match parse_decimal(number.as_slice()) {
        Some(amount) => amount,
        None => {
            return Err(concat("capture profile interval is too large: ", value));
        },
    };
    if amount == 0 {
        return Err(owned("capture profile interval must be greater than zero"));
    }
    match amount.checked_mul(multiplier) {
        Some(milliseconds) => Ok(milliseconds),
        None => Err(concat("capture profile interval is too large: ", value)),
    }
}

/// A character a profile id may hold.
pub open spec fn is_id_char(c: char) -> bool {
    ('a' <= c && c <= 'z') || ('0' <= c && c <= '9') || c == '-' || c == '_' || c == '.'
}

/// A profile id is a non-empty run of lowercase letters, digits, `-`, `_`
/// and `.`.
pub open spec fn is_valid_profile_id(id: Seq<char>) -> bool {
    id.len() > 0 && forall|i: int| 0 <= i < id.len() ==> is_id_char(#[trigger] id[i])
}

pub fn valid_profile_id(id: &str) -> (r: bool)
    ensures
        r == is_valid_profile_id(id@),
{
    let chars = chars_of(id);
    if chars.len() == 0 {
        return false;
    }
    let mut i: usize = 0;
    while i < chars.len()
        invariant
            i <= chars@.len(),
            chars@ == id@,
            forall|j: int| 0 <= j < i ==> is_id_char(#[trigger] chars@[j]),
        decreases chars@.len() - i,
    {
        let c = chars[i];
        if !(('a' <= c && c <= 'z') || ('0' <= c && c <= '9') || c == '-' || c == '_' || c == '.') {
            return false;
        }
        i += 1;
    }
    true
}

/// A periodic read of one catalog semantic.
#[derive(Clone, Debug, PartialEq, Eq)]
pub struct Subscription {
    semantic: String,
    interval_ms: u64,
}

/// The model of a subscription.
pub struct SubscriptionView {
    pub semantic: Seq<char>,
    pub interval_ms: u64,
}

impl View for Subscription {
    type V = SubscriptionView;

    closed spec fn view(&self) -> SubscriptionView {
        SubscriptionView { semantic: self.semantic@, interval_ms: self.interval_ms }
    }
}

impl Subscription {
    /// A subscription needs a positive interval and a catalog semantic.
    pub fn new(semantic: &str, interval_ms: u64) -> (r: Result<Self, String>)
        ensures
            (interval_ms > 0 && is_catalog_semantic(semantic@)) <==> r is Ok,
            r matches Ok(subscription) ==> subscription@ == (SubscriptionView {
                semantic: semantic@,
                interval_ms,
            }),
            interval_ms == 0 ==> (r matches Err(message) && message@
                == "subscription interval must be greater than zero"@),
            interval_ms > 0 && !is_catalog_semantic(semantic@) ==> (r matches Err(message) && message@
                == "unsupported semantic: "@ + semantic@),
    {
        if interval_ms == 0 {
            return Err(owned("subscription interval must be greater than zero"));
        }
        match prepare_read(semantic) {
            Ok(_) => Ok(Self { semantic: owned(semantic), interval_ms }),
            Err(_) => Err(concat("unsupported semantic: ", semantic)),
        }
    }

    pub fn semantic(&self) -> (r: &str)
        ensures
            r@ == self@.semantic,
    {
        self.semantic.as_str()
    }

    /// The sampling interval, in milliseconds.
    pub fn interval(&self) -> (r: u64)
        ensures
            r == self@.interval_ms,
    {
        self.interval_ms
    }

    /// The sampling interval in microseconds, saturating at `u64::MAX`.
    pub fn interval_us(&self) -> (r: u64)
        ensures
            self@.interval_ms * 1000 <= u64::MAX ==> r == self@.interval_ms * 1000,
            self@.interval_ms * 1000 > u64::MAX ==> r == u64::MAX,
    {
        match self.interval_ms.checked_mul(1000) {
            Some(us) => us,
            None => u64::MAX,
        }
    }

    /// A copy of this subscription.
    pub fn duplicate(&self) -> (r: Self)
        ensures
            r@ == self@,
    {
        Self { semantic: self.semantic.clone(), interval_ms: self.interval_ms }
    }
}

/// One observation of a profile document, as written.
#[derive(Clone, Debug, PartialEq, Eq)]
pub struct ProfileObservation {
    pub semantic: String,
    pub interval: String,
}

/// A profile document, as written.
#[derive(Clone, Debug, PartialEq, Eq)]
pub struct ProfileDocument {
    pub version: u32,
    pub id: String,
    pub description: Option<String>,
    pub observations: Vec<ProfileObservation>,
}

/// The model of a document: version, id, description, and the semantic and
/// interval text of each observation.
pub struct DocumentView {
    pub version: u32,
    pub id: Seq<char>,
    pub description: Option<Seq<char>>,
    pub observations: Seq<(Seq<char>, Seq<char>)>,
}

pub open spec fn option_text(value: Option<String>) -> Option<Seq<char>> {
    match value {
        Some(text) => Some(text@),
        None => None,
    }
}

impl View for ProfileDocument {
    type V = DocumentView;

    open spec fn view(&self) -> DocumentView {
        DocumentView {
            version: self.version,
            id: self.id@,
            description: option_text(self.description),
            observations: self.observations@.map_values(
                |o: ProfileObservation| (o.semantic@, o.interval@),
            ),
        }
    }
}

/// An observation is admitted after `earlier` semantics: an exact,
/// wildcard-free, new catalog semantic with a valid interval.
pub open spec fn observation_admitted(
    observation: (Seq<char>, Seq<char>),
    earlier: Seq<Seq<char>>,
) -> bool {
    let semantic = observation.0;
    &&& semantic.len() > 0
    &&& trim_spec(semantic) == semantic
    &&& !semantic.contains('*')
    &&& !semantic.contains('?')
    &&& !earlier.contains(semantic)
    &&& interval_ms(observation.1) is Some
    &&& is_catalog_semantic(semantic)
}

/// The semantics of the observations.
pub open spec fn observation_semantics(observations: Seq<(Seq<char>, Seq<char>)>) -> Seq<Seq<char>> {
    observations.map_values(|o: (Seq<char>, Seq<char>)| o.0)
}

/// The model of a capture profile.
pub struct ProfileView {
    pub name: Seq<char>,
    pub description: Option<Seq<char>>,
    pub subscriptions: Seq<SubscriptionView>,
}

/// Why an observation is refused, given the profile id and the semantics
/// of the observations before it.
pub open spec fn observation_error(
    id: Seq<char>,
    observation: (Seq<char>, Seq<char>),
    earlier: Seq<Seq<char>>,
) -> Seq<char> {
    let semantic = observation.0;
    if semantic.len() == 0 || trim_spec(semantic) != semantic {
        "capture profile semantic must be a non-empty exact identifier"@
    } else if semantic.contains('*') || semantic.contains('?') {
        "capture profile "@ + id + " uses forbidden semantic wildcard "@ + semantic
    } else if earlier.contains(semantic) {
        "capture profile "@ + id + " contains duplicate semantic "@ + semantic
    } else if interval_ms(observation.1) is None {
        interval_error(observation.1)
    } else {
        "capture profile "@ + id + " references unavailable semantic "@ + semantic + ": "@
            + "unsupported semantic: "@ + semantic
    }
}

/// The first refused observation at or after `k`, or the number of
/// observations when every one is admitted.
pub open spec fn first_refused(observations: Seq<(Seq<char>, Seq<char>)>, k: int) -> int
    decreases observations.len() - k,
{
    if k >= observations.len() || k < 0 {
        observations.len() as int
    } else if !observation_admitted(observations[k], observation_semantics(observations).take(k)) {
        k
    } else {
        first_refused(observations, k + 1)
    }
}

/// Why a document is refused.
pub open spec fn document_error(document: DocumentView) -> Seq<char> {
    let observations = document.observations;
    let k = first_refused(observations, 0);
    if document.version != PROFILE_SCHEMA_VERSION {
        "unsupported capture profile schema version "@ + decimal(document.version as nat) + "; expected 1"@
    } else if !is_valid_profile_id(document.id) {
        "invalid capture profile id: "@ + document.id
    } else if observations.len() == 0 {
        "capture profile "@ + document.id + " must contain at least one observation"@
    } else {
        observation_error(document.id, observations[k], observation_semantics(observations).take(k))
    }
}

/// The profile a document describes, or `None` when it is refused.
pub open spec fn document_profile(document: DocumentView) -> Option<ProfileView> {
    let observations = document.observations;
    if document.version != PROFILE_SCHEMA_VERSION {
        None
    } else if !is_valid_profile_id(document.id) {
        None
    } else if observations.len() == 0 {
        None
    } else if exists|k: int|
        0 <= k < observations.len() && !observation_admitted(
            #[trigger] observations[k],
            observation_semantics(observations).take(k),
        ) {
        None
    } else {
        Some(
            ProfileView {
                name: document.id,
                description: document.description,
                subscriptions: observations.map_values(
                    |o: (Seq<char>, Seq<char>)|
                        SubscriptionView {
                            semantic: o.0,
                            interval_ms: interval_ms(o.1).unwrap() as u64,
                        },
                ),
            },
        )
    }
}

#[derive(Clone, Debug, PartialEq, Eq)]
struct ProfileSubscription {
    semantic: String,
    interval_ms: u64,
}

/// A named capture profile.
#[derive(Clone, Debug, PartialEq, Eq)]
pub struct CaptureProfile {
    name: String,
    description: Option<String>,
    subscriptions: Vec<ProfileSubscription>,
}

impl View for CaptureProfile {
    type V = ProfileView;

    closed spec fn view(&self) -> ProfileView {
        ProfileView {
            name: self.name@,
            description: option_text(self.description),
            subscriptions: self.subscriptions@.map_values(
                |s: ProfileSubscription|
                    SubscriptionView { semantic: s.semantic@, interval_ms: s.interval_ms },
            ),
        }
    }
}

/// The offered load of subscriptions, in reads per 10^9 seconds.
pub open spec fn offered_load(subscriptions: Seq<SubscriptionView>) -> int
    decreases subscriptions.len(),
{
    if subscriptions.len() == 0 {
        0
    } else {
        offered_load(subscriptions.drop_last()) + subscription_load(subscriptions.last().interval_ms)
    }
}

/// Whether every subscription can be built.
pub open spec fn subscriptions_valid(subscriptions: Seq<SubscriptionView>) -> bool {
    forall|k: int|
        0 <= k < subscriptions.len() ==> (#[trigger] subscriptions[k]).interval_ms > 0
            && is_catalog_semantic(subscriptions[k].semantic)
}

/// The first subscription at or after `k` that cannot be built, or the
/// number of subscriptions.
pub open spec fn first_invalid(subscriptions: Seq<SubscriptionView>, k: int) -> int
    decreases subscriptions.len() - k,
{
    if k < 0 || k >= subscriptions.len() {
        subscriptions.len() as int
    } else if !(subscriptions[k].interval_ms > 0 && is_catalog_semantic(subscriptions[k].semantic)) {
        k
    } else {
        first_invalid(subscriptions, k + 1)
    }
}

/// Why a subscription cannot be built.
pub open spec fn subscription_error(subscription: SubscriptionView) -> Seq<char> {
    if subscription.interval_ms == 0 {
        "subscription interval must be greater than zero"@
    } else {
        "unsupported semantic: "@ + subscription.semantic
    }
}

impl CaptureProfile {
    pub fn name(&self) -> (r: &str)
        ensures
            r@ == self@.name,
    {
        self.name.as_str()
    }

    pub fn description(&self) -> (r: Option<&str>)
        ensures
            match self@.description {
                Some(text) => (r matches Some(d) && d@ == text),
                None => r is None,
            },
    {
        match &self.description {
            Some(text) => Some(text.as_str()),
            None => None,
        }
    }

    /// The profile's subscriptions, in document order.
    pub fn subscriptions(&self) -> (r: Result<Vec<Subscription>, String>)
        ensures
            subscriptions_valid(self@.subscriptions) <==> r is Ok,
            r matches Ok(subscriptions) ==> subscriptions@.map_values(|s: Subscription| s@)
                == self@.subscriptions,
            r matches Err(message) ==> message@ == subscription_error(
                self@.subscriptions[first_invalid(self@.subscriptions, 0)],
            ),
    {
        let ghost view = self@.subscriptions;
        let mut out: Vec<Subscription> = Vec::new();
        let mut i: usize = 0;
        while i < self.subscriptions.len()
            invariant
                i <= self.subscriptions@.len(),
                view == self@.subscriptions,
                view.len() == self.subscriptions@.len(),
                out@.map_values(|s: Subscription| s@) == view.take(i as int),
                first_invalid(view, 0) == first_invalid(view, i as int),
                forall|k: int|
                    0 <= k < i ==> (#[trigger] view[k]).interval_ms > 0 && is_catalog_semantic(
                        view[k].semantic,
                    ),
            decreases self.subscriptions@.len() - i,
        {
            let entry = &self.subscriptions[i];
            assert(view[i as int] == (SubscriptionView {
                semantic: entry.semantic@,
                interval_ms: entry.interval_ms,
            }));
            match Subscription::new(entry.semantic.as_str(), entry.interval_ms) {
                Ok(subscription) => {
                    let ghost before = out@;
                    out.push(subscription);
                    assert(out@.map_values(|s: Subscription| s@) =~= before.map_values(
                        |s: Subscription| s@,
                    ).push(subscription@));
                    assert(view.take(i + 1) =~= view.take(i as int).push(view[i as int]));
                },
                Err(error) => {
                    assert(!(view[i as int].interval_ms > 0 && is_catalog_semantic(
                        view[i as int].semantic,
                    )));
                    return Err(error);
                },
            }
            i += 1;
        }
        assert(view.take(view.len() as int) =~= view);
        Ok(out)
    }

    /// Reject a profile before connecting when its offered load exceeds the
    /// session's sequential request budget.
    pub fn check_admission(&self, capability: HardwareCapability) -> (r: Result<(), String>)
        ensures
            offered_load(self@.subscriptions) <= capability@.request_budget_per_second as int
                * LOAD_SCALE ==> r is Ok,
            offered_load(self@.subscriptions) > capability@.request_budget_per_second as int
                * LOAD_SCALE ==> (r matches Err(message) && message@ == "capture profile "@
                + self@.name + " exceeds the "@ + decimal(
                capability@.request_budget_per_second as nat,
            ) + " reads/s session budget"@),
    {
        let ghost view = self@.subscriptions;
        let mut load: u128 = 0;
        let mut i: usize = 0;
        while i < self.subscriptions.len()
            invariant
                i <= self.subscriptions@.len(),
                view == self@.subscriptions,
                view.len() == self.subscriptions@.len(),
                load as int == offered_load(view.take(i as int)),
                load <= i as int * LOAD_PER_MS as int,
            decreases self.subscriptions@.len() - i,
        {
            let interval = self.subscriptions[i].interval_ms;
            assert(view[i as int].interval_ms == interval);
            assert(view.take(i + 1).drop_last() =~= view.take(i as int));
            let term: u128 = if interval == 0 {
                0
            } else {
                LOAD_PER_MS / interval as u128
            };
            assert(term <= LOAD_PER_MS) by (nonlinear_arith)
                requires
                    interval == 0 ==> term == 0,
                    interval > 0 ==> term == LOAD_PER_MS / interval as u128,
            ;
            assert(i as int * LOAD_PER_MS as int <= usize::MAX as int * LOAD_PER_MS as int) by (nonlinear_arith)
                requires
                    i <= usize::MAX,
            ;
            load = load + term;
            i += 1;
        }
        assert(view.take(view.len() as int) =~= view);
        let budget = capability.request_budget_per_second();
        if load > budget as u128 * LOAD_SCALE {
            let head = concat("capture profile ", self.name.as_str());
            let middle = concat(head.as_str(), " exceeds the ");
            let number = decimal_text(budget as u64);
            let with_number = concat(middle.as_str(), number.as_str());
            return Err(concat(with_number.as_str(), " reads/s session budget"));
        }
        Ok(())
    }
}

/// Check a profile document and build the profile it describes.
pub fn parse_profile_document(document: ProfileDocument) -> (r: Result<CaptureProfile, String>)
    ensures
        match document_profile(document@) {
            Some(profile) => (r matches Ok(p) && p@ == profile),
            None => (r matches Err(message) && message@ == document_error(document@)),
        },
{
    let ghost view = document@;
    if document.version != PROFILE_SCHEMA_VERSION {
        let number = decimal_text(document.version as u64);
        let head = concat("unsupported capture profile schema version ", number.as_str());
        return Err(concat(head.as_str(), "; expected 1"));
    }
    if !valid_profile_id(document.id.as_str()) {
        return Err(concat("invalid capture profile id: ", document.id.as_str()));
    }
    if document.observations.len() == 0 {
        let head = concat("capture profile ", document.id.as_str());
        return Err(concat(head.as_str(), " must contain at least one observation"));
    }
    let ghost observations = view.observations;
    let ghost semantics = observation_semantics(observations);
    let mut subscriptions: Vec<ProfileSubscription> = Vec::new();
    let mut k: usize = 0;
    while k < document.observations.len()
        invariant
            k <= document.observations@.len(),
            view == document@,
            observations == view.observations,
            semantics == observation_semantics(observations),
            observations.len() == document.observations@.len(),
            subscriptions@.len() == k,
            first_refused(observations, 0) == first_refused(observations, k as int),
            view.version == PROFILE_SCHEMA_VERSION,
            is_valid_profile_id(view.id),
            observations.len() > 0,
            forall|j: int|
                0 <= j < k ==> observation_admitted(#[trigger] observations[j], semantics.take(j)),
            forall|j: int|
                0 <= j < k ==> (#[trigger] subscriptions@[j]).semantic@ == observations[j].0
                    && subscriptions@[j].interval_ms as int == interval_ms(observations[j].1).unwrap(),
        decreases document.observations@.len() - k,
    {
        let observation = &document.observations[k];
        assert(observations[k as int] == (observation.semantic@, observation.interval@));
        let semantic = observation.semantic.as_str();
        let ghost earlier = semantics.take(k as int);
        if semantic.is_empty() || !is_trimmed(semantic) {
            assert(!observation_admitted(observations[k as int], earlier));
            return Err(owned("capture profile semantic must be a non-empty exact identifier"));
        }
        if contains_char(semantic, '*') || contains_char(semantic, '?') {
            assert(!observation_admitted(observations[k as int], earlier));
            let head = concat("capture profile ", document.id.as_str());
            let middle = concat(head.as_str(), " uses forbidden semantic wildcard ");
            return Err(concat(middle.as_str(), semantic));
        }
        let mut j: usize = 0;
        while j < k
            invariant
                j <= k,
                k < observations.len(),
                subscriptions@.len() == k,
                semantics == observation_semantics(observations),
                earlier == semantics.take(k as int),
                semantic@ == observations[k as int].0,
                semantic@ == observation.semantic@,
                observations[k as int] == (observation.semantic@, observation.interval@),
                view == document@,
                observations == view.observations,
                first_refused(observations, 0) == first_refused(observations, k as int),
                view.version == PROFILE_SCHEMA_VERSION,
                is_valid_profile_id(view.id),
                observations.len() > 0,
                semantic@.len() > 0,
                trim_spec(semantic@) == semantic@,
                !semantic@.contains('*'),
                !semantic@.contains('?'),
                forall|m: int|
                    0 <= m < k ==> (#[trigger] subscriptions@[m]).semantic@ == observations[m].0,
                forall|m: int| 0 <= m < j ==> earlier[m] != semantic@,
            decreases k - j,
        {
            assert(earlier[j as int] == observations[j as int].0);
            if str_eq(subscriptions[j].semantic.as_str(), semantic) {
                assert(earlier[j as int] == semantic@);
                assert(earlier.contains(semantic@));
                assert(!observation_admitted(observations[k as int], earlier));
                let head = concat("capture profile ", document.id.as_str());
                let middle = concat(head.as_str(), " contains duplicate semantic ");
                return Err(concat(middle.as_str(), semantic));
            }
            j += 1;
        }
        assert(!earlier.contains(semantic@));
        let interval = match parse_interval(observation.interval.as_str()) {
            Ok(interval) => {
                proof {
                    let ms = interval_ms(observation.interval@).unwrap();
                    assert(interval_ms(observation.interval@) is Some);
                    lemma_interval_positive(observation.interval@);
                    assert(0 < ms <= u64::MAX);
                    assert(interval as int == ms);
                }
                interval
            },
            Err(error) => {
                assert(interval_ms(observation.interval@) is None);
                assert(interval_ms(observations[k as int].1) is None);
                assert(!observation_admitted(observations[k as int], earlier));
                return Err(error);
            },
        };
        match Subscription::new(semantic, interval) {
            Ok(_) => {},
            Err(error) => {
                assert(!observation_admitted(observations[k as int], earlier));
                let head = concat("capture profile ", document.id.as_str());
                let middle = concat(head.as_str(), " references unavailable semantic ");
                let with_semantic = concat(middle.as_str(), semantic);
                let with_separator = concat(with_semantic.as_str(), ": ");
                return Err(concat(with_separator.as_str(), error.as_str()));
            },
        }
        subscriptions.push(ProfileSubscription { semantic: owned(semantic), interval_ms: interval });
        k += 1;
    }
    let profile = CaptureProfile {
        name: document.id,
        description: document.description,
        subscriptions,
    };
    assert(profile@.subscriptions =~= document_profile(view).unwrap().subscriptions);
    Ok(profile)
}

fn observation(semantic: &str, interval: &str) -> (r: ProfileObservation)
    ensures
        r.semantic@ == semantic@,
        r.interval@ == interval@,
{
    ProfileObservation { semantic: owned(semantic), interval: owned(interval) }
}

/// The observations of a built-in profile, by name; empty for other names.
pub open spec fn builtin_observations(name: Seq<char>) -> Seq<(Seq<char>, Seq<char>)> {
    if name == "engine-baseline"@ {
        seq![
            ("engine.rpm"@, "1s"@),
            ("engine.maf"@, "2s"@),
            ("engine.load"@, "2s"@),
            ("engine.intake_manifold_pressure"@, "2s"@),
            ("vehicle.speed"@, "8s"@),
            ("engine.egr.commanded"@, "8s"@),
            ("engine.egr.error"@, "8s"@),
            ("vehicle.accelerator_pedal_e"@, "8s"@),
            ("engine.relative_throttle"@, "8s"@),
            ("engine.coolant_temperature"@, "8s"@),
            ("engine.intake_air_temperature"@, "8s"@),
            ("engine.runtime"@, "8s"@),
            ("engine.barometric_pressure"@, "8s"@),
        ]
    } else if name == "engine-drive"@ {
        seq![
            ("engine.rpm"@, "1s"@),
            ("engine.maf"@, "2s"@),
            ("engine.load"@, "4s"@),
            ("engine.intake_manifold_pressure"@, "2s"@),
            ("vehicle.speed"@, "4s"@),
            ("engine.egr.commanded"@, "4s"@),
            ("engine.egr.error"@, "4s"@),
            ("vehicle.accelerator_pedal_e"@, "4s"@),
            ("engine.coolant_temperature"@, "8s"@),
            ("engine.intake_air_temperature"@, "8s"@),
            ("engine.runtime"@, "8s"@),
            ("engine.barometric_pressure"@, "8s"@),
        ]
    } else {
        seq![
            ("engine.throttle_position"@, "2s"@),
            ("vehicle.distance_with_mil_on"@, "2s"@),
            ("engine.fuel_rail_gauge_pressure"@, "2s"@),
            ("vehicle.warmups_since_dtc_clear"@, "2s"@),
            ("vehicle.distance_since_dtc_clear"@, "2s"@),
            ("vehicle.ambient_air_temperature"@, "2s"@),
            ("engine.throttle_actuator.commanded"@, "2s"@),
        ]
    }
}

/// The description of a built-in profile.
pub open spec fn builtin_description(name: Seq<char>) -> Option<Seq<char>> {
    if name == "engine-drive"@ {
        Some("Conservative drive-test profile derived from real Carly/ELM hardware evidence."@)
    } else {
        None
    }
}

/// The names of the built-in profiles.
pub open spec fn is_builtin_profile(name: Seq<char>) -> bool {
    name == "engine-baseline"@ || name == "engine-drive"@ || name == "obd2-expansion-validation"@
}

fn push_observations(list: &mut Vec<ProfileObservation>, items: &[(&'static str, &'static str)])
    ensures
        final(list)@.map_values(|o: ProfileObservation| (o.semantic@, o.interval@)) == old(
            list,
        )@.map_values(|o: ProfileObservation| (o.semantic@, o.interval@)) + items@.map_values(
            |p: (&'static str, &'static str)| (p.0@, p.1@),
        ),
{
    let ghost start = list@.map_values(|o: ProfileObservation| (o.semantic@, o.interval@));
    let ghost all = items@.map_values(|p: (&'static str, &'static str)| (p.0@, p.1@));
    let mut i: usize = 0;
    while i < items.len()
        invariant
            i <= items@.len(),
            all == items@.map_values(|p: (&'static str, &'static str)| (p.0@, p.1@)),
            list@.map_values(|o: ProfileObservation| (o.semantic@, o.interval@)) == start
                + all.take(i as int),
        decreases items@.len() - i,
    {
        let (semantic, interval) = items[i];
        let ghost before = list@;
        list.push(observation(semantic, interval));
        assert(list@.map_values(|o: ProfileObservation| (o.semantic@, o.interval@)) =~= before.map_values(
            |o: ProfileObservation| (o.semantic@, o.interval@),
        ).push((semantic@, interval@)));
        assert(all.take(i + 1) =~= all.take(i as int).push(all[i as int]));
        i += 1;
    }
    assert(all.take(items@.len() as int) =~= all);
}

/// A built-in capture profile by name.
pub fn profile(name: &str) -> (r: Result<CaptureProfile, String>)
    ensures
        !is_builtin_profile(name@) ==> (r matches Err(message) && message@
            == "unknown capture profile: "@ + name@),
        is_builtin_profile(name@) ==> ({
            let document = DocumentView {
                version: PROFILE_SCHEMA_VERSION,
                id: name@,
                description: builtin_description(name@),
                observations: builtin_observations(name@),
            };
            match document_profile(document) {
                Some(profile) => (r matches Ok(p) && p@ == profile),
                None => (r matches Err(message) && message@ == document_error(document)),
            }
        }),
{
    proof {
        reveal_strlit("engine-baseline");
        reveal_strlit("engine-drive");
        reveal_strlit("obd2-expansion-validation");
    }
    let mut observations: Vec<ProfileObservation> = Vec::new();
    let description: Option<String>;
    if str_eq(name, "engine-baseline") {
        description = None;
        push_observations(
            &mut observations,
            &[
                ("engine.rpm", "1s"),
                ("engine.maf", "2s"),
                ("engine.load", "2s"),
                ("engine.intake_manifold_pressure", "2s"),
                ("vehicle.speed", "8s"),
                ("engine.egr.commanded", "8s"),
                ("engine.egr.error", "8s"),
                ("vehicle.accelerator_pedal_e", "8s"),
                ("engine.relative_throttle", "8s"),
                ("engine.coolant_temperature", "8s"),
                ("engine.intake_air_temperature", "8s"),
                ("engine.runtime", "8s"),
                ("engine.barometric_pressure", "8s"),
            ],
        );
    } else if str_eq(name, "engine-drive") {
        description = Some(
            owned("Conservative drive-test profile derived from real Carly/ELM hardware evidence."),
        );
        push_observations(
            &mut observations,
            &[
                ("engine.rpm", "1s"),
                ("engine.maf", "2s"),
                ("engine.load", "4s"),
                ("engine.intake_manifold_pressure", "2s"),
                ("vehicle.speed", "4s"),
                ("engine.egr.commanded", "4s"),
                ("engine.egr.error", "4s"),
                ("vehicle.accelerator_pedal_e", "4s"),
                ("engine.coolant_temperature", "8s"),
                ("engine.intake_air_temperature", "8s"),
                ("engine.runtime", "8s"),
                ("engine.barometric_pressure", "8s"),
            ],
        );
    } else if str_eq(name, "obd2-expansion-validation") {
        description = None;
        push_observations(
            &mut observations,
            &[
                ("engine.throttle_position", "2s"),
                ("vehicle.distance_with_mil_on", "2s"),
                ("engine.fuel_rail_gauge_pressure", "2s"),
                ("vehicle.warmups_since_dtc_clear", "2s"),
                ("vehicle.distance_since_dtc_clear", "2s"),
                ("vehicle.ambient_air_temperature", "2s"),
                ("engine.throttle_actuator.commanded", "2s"),
            ],
        );
    } else {
        return Err(concat("unknown capture profile: ", name));
    }
    let document = ProfileDocument {
        version: PROFILE_SCHEMA_VERSION,
        id: owned(name),
        description,
        observations,
    };
    assert(document@.observations =~= builtin_observations(name@));
    parse_profile_document(document)
}

} // verus!
