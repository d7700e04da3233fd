//! What the lists of measurements say.
use vstd::prelude::*;
use crate::config::ProxyConfig;
use crate::metrics::{
    metrics_of, project_names, project_start, projects_start, CredentialFault, Metric,
    MetricUpdate, Outcome,
};

verus! {

/// A measurement says of its project what it was made to say.
pub proof fn law_a_measurement_keeps_its_meaning(
    p: String,
    n: usize,
    o: Outcome,
    f: CredentialFault,
)
    ensures
        MetricUpdate::<String>::SlotsTotal(n)@ == Metric::SlotsTotal(n),
        MetricUpdate::<String>::SlotsInUse(n)@ == Metric::SlotsInUse(n),
        MetricUpdate::ProjectInFlight(p, n)@ == Metric::ProjectInFlight(p@, n),
        MetricUpdate::ProjectQueueDepth(p, n)@ == Metric::ProjectQueueDepth(p@, n),
        MetricUpdate::ResetRequests(p, o)@ == Metric::ResetRequests(p@, o),
        MetricUpdate::ResetStreamErrors(p)@ == Metric::ResetStreamErrors(p@),
        MetricUpdate::ShowQueueWait(p)@ == Metric::ShowQueueWait(p@),
        MetricUpdate::ShowUpstreamDuration(p)@ == Metric::ShowUpstreamDuration(p@),
        MetricUpdate::ShowFirstToken(p)@ == Metric::ShowFirstToken(p@),
        MetricUpdate::ShowStreamDuration(p)@ == Metric::ShowStreamDuration(p@),
        MetricUpdate::CountRequest(p, o)@ == Metric::CountRequest(p@, o),
        MetricUpdate::<String>::CountCredentialFault(f)@ == Metric::CountCredentialFault(f),
        MetricUpdate::CountStreamError(p)@ == Metric::CountStreamError(p@),
        MetricUpdate::ObserveQueueWait(p)@ == Metric::ObserveQueueWait(p@),
        MetricUpdate::ObserveUpstreamDuration(p)@ == Metric::ObserveUpstreamDuration(p@),
        MetricUpdate::ObserveFirstToken(p)@ == Metric::ObserveFirstToken(p@),
        MetricUpdate::ObserveStreamDuration(p)@ == Metric::ObserveStreamDuration(p@),
{
}

/// A list of measurements says what each of them says, in order.
pub proof fn law_a_list_says_what_each_says(v: Seq<MetricUpdate<String>>)
    ensures
        metrics_of(v).len() == v.len(),
        forall|i: int| 0 <= i < v.len() ==> #[trigger] metrics_of(v)[i] == v[i]@,
{
}

/// At startup every project gets all of its measurements, at zero and with
/// nothing measured, project after project in order.
pub proof fn law_every_project_appears_at_startup(names: Seq<Seq<char>>, k: int)
    requires
        0 <= k < names.len(),
    ensures
        projects_start(names).len() == 12 * names.len(),
        projects_start(names).subrange(12 * k, 12 * k + 12) == seq![
            Metric::ProjectInFlight(names[k], 0),
            Metric::ProjectQueueDepth(names[k], 0),
            Metric::ResetRequests(names[k], Outcome::Success),
            Metric::ResetRequests(names[k], Outcome::Rejected),
            Metric::ResetRequests(names[k], Outcome::Evicted),
            Metric::ResetRequests(names[k], Outcome::Timeout),
            Metric::ResetRequests(names[k], Outcome::UpstreamError),
            Metric::ResetStreamErrors(names[k]),
            Metric::ShowQueueWait(names[k]),
            Metric::ShowUpstreamDuration(names[k]),
            Metric::ShowFirstToken(names[k]),
            Metric::ShowStreamDuration(names[k]),
        ],
    decreases names.len(),
{
    let before = names.drop_last();
    let all = projects_start(names);
    assert(project_start(names.last()).len() == 12);
    lemma_startup_length(before);
    if k == names.len() - 1 {
        assert(all.subrange(12 * k, 12 * k + 12) =~= project_start(names[k]));
    } else {
        law_every_project_appears_at_startup(before, k);
        assert(all.subrange(12 * k, 12 * k + 12) =~= projects_start(before).subrange(
            12 * k,
            12 * k + 12,
        ));
    }
}

proof fn lemma_startup_length(names: Seq<Seq<char>>)
    ensures
        projects_start(names).len() == 12 * names.len(),
    decreases names.len(),
{
    if names.len() > 0 {
        lemma_startup_length(names.drop_last());
        assert(project_start(names.last()).len() == 12);
    }
}

/// The names of the projects of a configuration are all of them, in order.
pub proof fn law_project_names_are_those_configured(config: ProxyConfig)
    ensures
        project_names(config).len() == config.projects@.len(),
        forall|i: int|
            0 <= i < config.projects@.len() ==> #[trigger] project_names(config)[i]
                == config.projects@[i].0,
{
}

} // verus!
