//! The planning part of a capture session: which configured signals will be
//! recorded, with the decision for every one of them.

use vstd::prelude::*;

use crate::capture::{Subscription, SubscriptionView};
use crate::capture_events::{CaptureSubscription, CaptureSubscriptionView, SubscriptionFilterOutcome};
use crate::elm::{SignalSupport, SignalSupportStatus};
use crate::text::{concat, str_eq};

verus! {

/// Which configured signals will actually be recorded, and the capture
/// evidence for the ones that were left out.
#[derive(Debug)]
pub struct CapturePlan {
    scheduled: Vec<Subscription>,
    subscriptions: Vec<CaptureSubscription>,
    total_configured: usize,
}

/// The model of a plan.
pub struct CapturePlanView {
    pub scheduled: Seq<SubscriptionView>,
    pub subscriptions: Seq<CaptureSubscriptionView>,
    pub total_configured: nat,
}

impl View for CapturePlan {
    type V = CapturePlanView;

    closed spec fn view(&self) -> CapturePlanView {
        CapturePlanView {
            scheduled: self.scheduled@.map_values(|s: Subscription| s@),
            subscriptions: self.subscriptions@.map_values(|s: CaptureSubscription| s@),
            total_configured: self.total_configured as nat,
        }
    }
}

/// The advertised status of a semantic: that of the first matching entry,
/// or unknown when none matches.
pub open spec fn advertised_status(advertised: Seq<SignalSupport>, semantic: Seq<char>) -> SignalSupportStatus
    decreases advertised.len(),
{
    if advertised.len() == 0 {
        SignalSupportStatus::Unknown
    } else if advertised[0].semantic@ == semantic {
        advertised[0].status
    } else {
        advertised_status(advertised.drop_first(), semantic)
    }
}

/// The filter outcome of a support status.
pub open spec fn filter_of(status: SignalSupportStatus) -> SubscriptionFilterOutcome {
    match status {
        SignalSupportStatus::Supported => SubscriptionFilterOutcome::Scheduled,
        SignalSupportStatus::Unsupported => SubscriptionFilterOutcome::Unsupported,
        SignalSupportStatus::Unknown => SubscriptionFilterOutcome::Unknown,
    }
}

/// The saturating microsecond interval of a subscription.
pub open spec fn interval_us_of(subscription: SubscriptionView) -> u64 {
    if subscription.interval_ms * 1000 <= u64::MAX {
        (subscription.interval_ms * 1000) as u64
    } else {
        u64::MAX
    }
}

/// The recorded decision for one configured subscription.
pub open spec fn decision(advertised: Seq<SignalSupport>, subscription: SubscriptionView) -> CaptureSubscriptionView {
    CaptureSubscriptionView {
        semantic: subscription.semantic,
        requested_interval_us: interval_us_of(subscription),
        filter: filter_of(advertised_status(advertised, subscription.semantic)),
    }
}

/// The configured subscriptions the adapter advertises, in order.
pub open spec fn scheduled_of(advertised: Seq<SignalSupport>, configured: Seq<SubscriptionView>) -> Seq<SubscriptionView> {
    configured.filter(|s: SubscriptionView| advertised_status(advertised, s.semantic) == SignalSupportStatus::Supported)
}

fn status_of(advertised: &[SignalSupport], semantic: &str) -> (r: SignalSupportStatus)
    ensures
        r == advertised_status(advertised@, semantic@),
{
    let mut i: usize = 0;
    assert(advertised@.skip(0) =~= advertised@);
    while i < advertised.len()
        invariant
            i <= advertised@.len(),
            advertised_status(advertised@, semantic@) == advertised_status(advertised@.skip(i as int), semantic@),
        decreases advertised@.len() - i,
    {
        assert(advertised@.skip(i as int)[0] == advertised@[i as int]);
        if str_eq(advertised[i].semantic, semantic) {
            return advertised[i].status;
        }
        assert(advertised@.skip(i as int).drop_first() =~= advertised@.skip(i + 1));
        i += 1;
    }
    SignalSupportStatus::Unknown
}

impl CapturePlan {
    /// The subset of configured signals the adapter advertises support for.
    pub fn scheduled(&self) -> (r: &[Subscription])
        ensures
            r@.map_values(|s: Subscription| s@) == self@.scheduled,
    {
        self.scheduled.as_slice()
    }

    /// One decision per configured signal: scheduled, omitted as
    /// unsupported, or omitted as unknown.
    pub fn subscriptions(&self) -> (r: &[CaptureSubscription])
        ensures
            r@.map_values(|s: CaptureSubscription| s@) == self@.subscriptions,
    {
        self.subscriptions.as_slice()
    }

    /// How many signals the profile configured, before filtering.
    pub fn total_configured(&self) -> (r: usize)
        ensures
            r == self@.total_configured,
    {
        self.total_configured
    }
}

/// Filter a profile's configured signals down to the ones the adapter
/// advertises support for, recording the decision for every signal either
/// way. Fails closed when nothing is left to schedule.
pub fn plan_capture(profile_name: &str, configured: Vec<Subscription>, advertised: &[SignalSupport]) -> (r:
    Result<CapturePlan, String>)
    ensures
        ({
            let views = configured@.map_values(|s: Subscription| s@);
            let scheduled = scheduled_of(advertised@, views);
            &&& scheduled.len() == 0 ==> (r matches Err(message) && message@ == "capture profile "@
                + profile_name@ + " has no signals supported by the adapter"@)
            &&& scheduled.len() > 0 ==> (r matches Ok(plan) && plan@ == (CapturePlanView {
                scheduled,
                subscriptions: views.map_values(|s: SubscriptionView| decision(advertised@, s)),
                total_configured: configured@.len(),
            }))
        }),
{
    let ghost views = configured@.map_values(|s: Subscription| s@);
    let total_configured = configured.len();
    let mut scheduled: Vec<Subscription> = Vec::new();
    let mut subscriptions: Vec<CaptureSubscription> = Vec::new();
    let mut i: usize = 0;
    while i < configured.len()
        invariant
            i <= configured@.len(),
            views == configured@.map_values(|s: Subscription| s@),
            scheduled@.map_values(|s: Subscription| s@) == scheduled_of(advertised@, views.take(i as int)),
            subscriptions@.map_values(|s: CaptureSubscription| s@) == views.take(i as int).map_values(
                |s: SubscriptionView| decision(advertised@, s),
            ),
        decreases configured@.len() - i,
    {
        let subscription = &configured[i];
        assert(views[i as int] == subscription@);
        let status = status_of(advertised, subscription.semantic());
        let filter = match status {
            SignalSupportStatus::Supported => SubscriptionFilterOutcome::Scheduled,
            SignalSupportStatus::Unsupported => SubscriptionFilterOutcome::Unsupported,
            SignalSupportStatus::Unknown => SubscriptionFilterOutcome::Unknown,
        };
        let ghost before_subs = subscriptions@;
        let decided = CaptureSubscription::new(subscription.semantic(), subscription.interval_us(), filter);
        assert(decided@ == decision(advertised@, views[i as int]));
        subscriptions.push(decided);
        let ghost next = views.take(i + 1);
        assert(next.drop_last() =~= views.take(i as int));
        assert(next.last() == views[i as int]);
        assert(subscriptions@.map_values(|s: CaptureSubscription| s@) =~= before_subs.map_values(
            |s: CaptureSubscription| s@).push(decided@));
        assert(next.map_values(|s: SubscriptionView| decision(advertised@, s)) =~= views.take(i as int).map_values(
            |s: SubscriptionView| decision(advertised@, s)).push(decision(advertised@, views[i as int])));
        let ghost before_sched = scheduled@;
        let ghost kept = scheduled_of(advertised@, views.take(i as int));
        assert(status == advertised_status(advertised@, views[i as int].semantic));
        proof {
            reveal_with_fuel(Seq::filter, 2);
        }
        assert(scheduled_of(advertised@, next) == if status == SignalSupportStatus::Supported {
            kept.push(views[i as int])
        } else {
            kept
        });
        if status == SignalSupportStatus::Supported {
            let copy = subscription.duplicate();
            scheduled.push(copy);
            assert(scheduled@.map_values(|s: Subscription| s@) =~= before_sched.map_values(|s: Subscription| s@).push(copy@));
        }
        i += 1;
    }
    assert(views.take(configured@.len() as int) =~= views);
    if scheduled.len() == 0 {
        let head = concat("capture profile ", profile_name);
        return Err(concat(head.as_str(), " has no signals supported by the adapter"));
    }
    Ok(CapturePlan { scheduled, subscriptions, total_configured })
}


/// A capture plan schedules exactly what the adapter advertises: every
/// scheduled signal was configured and advertised as supported, and every
/// configured signal recorded as scheduled is in the schedule.
pub proof fn law_plan_schedules_only_advertised_signals(
    advertised: Seq<SignalSupport>,
    configured: Seq<SubscriptionView>,
)
    ensures
        forall|i: int|
            0 <= i < scheduled_of(advertised, configured).len() ==> configured.contains(
                #[trigger] scheduled_of(advertised, configured)[i],
            ) && advertised_status(advertised, scheduled_of(advertised, configured)[i].semantic)
                == SignalSupportStatus::Supported,
        forall|j: int|
            0 <= j < configured.len() ==> ((#[trigger] decision(advertised, configured[j])).filter
                == SubscriptionFilterOutcome::Scheduled <==> scheduled_of(advertised, configured).contains(
                configured[j],
            )),
{
    let pred = |s: SubscriptionView| advertised_status(advertised, s.semantic) == SignalSupportStatus::Supported;
    let scheduled = scheduled_of(advertised, configured);
    assert forall|i: int| 0 <= i < scheduled.len() implies configured.contains(#[trigger] scheduled[i])
        && advertised_status(advertised, scheduled[i].semantic) == SignalSupportStatus::Supported by {
        configured.lemma_filter_pred(pred, i);
        assert(scheduled.contains(scheduled[i]));
        configured.lemma_filter_contains_rev(pred, scheduled[i]);
    }
    assert forall|j: int| 0 <= j < configured.len() implies ((#[trigger] decision(
        advertised,
        configured[j],
    )).filter == SubscriptionFilterOutcome::Scheduled <==> scheduled.contains(configured[j])) by {
        if pred(configured[j]) {
            configured.lemma_filter_contains(pred, j);
        }
        if scheduled.contains(configured[j]) {
            let k = choose|k: int| 0 <= k < scheduled.len() && scheduled[k] == configured[j];
            configured.lemma_filter_pred(pred, k);
        }
    }
}

} // verus!
