//! Host discovery: the probes of a batch, made one after the other, and the
//! set of reachable hosts that the batches' reports add up to.

use vstd::prelude::*;
use crate::address::Address;
use crate::batch::{batches_of, lemma_batches_partition};
use crate::distinct::{distinct, lemma_distinct, lemma_distinct_concat, lemma_distinct_of_distinct};
use crate::error::BarrierError;

verus! {

/// What one liveness probe gave.
#[derive(Debug)]
pub enum ProbeOutcome {
    /// The probe ran, and judged these hosts reachable.
    Reachable(Vec<Address>),
    /// The probe failed. Its target counts as unreachable.
    Failed,
}

impl ProbeOutcome {
    /// The hosts that the probe reported: none where it failed.
    pub open spec fn hosts(self) -> Seq<Address> {
        match self {
            ProbeOutcome::Reachable(hosts) => hosts@,
            ProbeOutcome::Failed => Seq::empty(),
        }
    }
}

/// What the work on one batch handed back.
#[derive(Debug)]
pub enum BatchReport {
    /// The batch was probed to its end, and these hosts were reported.
    Completed(Vec<Address>),
    /// The work on the batch broke down. Nothing is known of its targets.
    Aborted,
}

impl BatchReport {
    /// The hosts that the batch reported: none where its work broke down.
    pub open spec fn hosts(self) -> Seq<Address> {
        match self {
            BatchReport::Completed(hosts) => hosts@,
            BatchReport::Aborted => Seq::empty(),
        }
    }
}

/// The answers that the probes of `targets` give where the probe of a target
/// reports what `oracle` says of it.
pub open spec fn probe_answers(
    targets: Seq<Address>,
    oracle: spec_fn(Address) -> Seq<Address>,
) -> Seq<Seq<Address>> {
    Seq::new(targets.len(), |i: int| oracle(targets[i]))
}

/// The reports of the batches where each probe reports what `oracle` says of
/// its target and no work breaks down.
pub open spec fn batch_reports(
    batches: Seq<Seq<Address>>,
    oracle: spec_fn(Address) -> Seq<Address>,
) -> Seq<Seq<Address>> {
    Seq::new(batches.len(), |k: int| probe_answers(batches[k], oracle).flatten())
}

/// The set of hosts that a discovery over `batches` returns where each probe
/// reports what `oracle` says of its target.
pub open spec fn discovered(
    batches: Seq<Seq<Address>>,
    oracle: spec_fn(Address) -> Seq<Address>,
) -> Set<Address> {
    batch_reports(batches, oracle).flatten().to_set()
}

/// A host is among the answers put together exactly if one of the answers
/// holds it.
pub proof fn lemma_flatten_contains(answers: Seq<Seq<Address>>)
    ensures
        forall|host: Address|
            answers.flatten().contains(host) <==> exists|j: int|
                0 <= j < answers.len() && (#[trigger] answers[j]).contains(host),
    decreases answers.len(),
{
    if answers.len() > 0 {
        let rest = answers.drop_first();
        lemma_flatten_contains(rest);
        assert forall|host: Address|
            answers.flatten().contains(host) <==> exists|j: int|
                0 <= j < answers.len() && (#[trigger] answers[j]).contains(host) by {
            let flat = answers.flatten();
            assert(flat == answers.first() + rest.flatten());
            if flat.contains(host) {
                let i = choose|i: int| 0 <= i < flat.len() && flat[i] == host;
                if i < answers.first().len() {
                    assert(answers.first()[i] == host);
                    assert(answers[0].contains(host));
                } else {
                    assert(rest.flatten()[i - answers.first().len()] == host);
                    assert(rest.flatten().contains(host));
                    let j = choose|j: int| 0 <= j < rest.len() && (#[trigger] rest[j]).contains(host);
                    assert(answers[j + 1] == rest[j]);
                }
            }
            if exists|j: int| 0 <= j < answers.len() && (#[trigger] answers[j]).contains(host) {
                let j = choose|j: int|
                    0 <= j < answers.len() && (#[trigger] answers[j]).contains(host);
                if j == 0 {
                    let i = choose|i: int| 0 <= i < answers[0].len() && answers[0][i] == host;
                    assert(flat[i] == host);
                } else {
                    assert(rest[j - 1] == answers[j]);
                    assert(rest.flatten().contains(host));
                    let i = choose|i: int|
                        0 <= i < rest.flatten().len() && rest.flatten()[i] == host;
                    assert(flat[answers.first().len() + i] == host);
                }
            }
        }
    }
}

/// A failure stays with its own unit of work. Where the answer of one probe
/// of a batch, or the report of one batch of a discovery, is lost, what the
/// answers add up to holds exactly the hosts in the answers of the others:
/// none of them is missing, and nothing else has come in.
pub proof fn lemma_failure_is_isolated(answers: Seq<Seq<Address>>, failed: int)
    requires
        0 <= failed < answers.len(),
    ensures
        forall|host: Address|
            answers.update(failed, Seq::empty()).flatten().contains(host) <==> exists|j: int|
                0 <= j < answers.len() && j != failed && (#[trigger] answers[j]).contains(host),
{
    let after = answers.update(failed, Seq::empty());
    lemma_flatten_contains(after);
    assert forall|host: Address|
        after.flatten().contains(host) <==> exists|j: int|
            0 <= j < answers.len() && j != failed && (#[trigger] answers[j]).contains(host) by {
        if after.flatten().contains(host) {
            let j = choose|j: int| 0 <= j < after.len() && (#[trigger] after[j]).contains(host);
            assert(j != failed);
            assert(answers[j] == after[j]);
        }
        if exists|j: int|
            0 <= j < answers.len() && j != failed && (#[trigger] answers[j]).contains(host) {
            let j = choose|j: int|
                0 <= j < answers.len() && j != failed && (#[trigger] answers[j]).contains(host);
            assert(after[j] == answers[j]);
            assert(after[j].contains(host));
        }
    }
}

/// The answers to the probes of two runs of targets, one after the other,
/// are the answers to the first run followed by those to the second.
proof fn lemma_probe_answers_concat(
    first: Seq<Address>,
    second: Seq<Address>,
    oracle: spec_fn(Address) -> Seq<Address>,
)
    ensures
        probe_answers(first + second, oracle) == probe_answers(first, oracle) + probe_answers(
            second,
            oracle,
        ),
{
    assert(probe_answers(first + second, oracle) =~= probe_answers(first, oracle) + probe_answers(
        second,
        oracle,
    ));
}

/// What the batches report, put together in their order, is what the probes
/// of all their targets report, put together in the order of the targets.
pub proof fn lemma_batch_reports_flatten(
    batches: Seq<Seq<Address>>,
    oracle: spec_fn(Address) -> Seq<Address>,
)
    ensures
        batch_reports(batches, oracle).flatten() == probe_answers(
            batches.flatten(),
            oracle,
        ).flatten(),
    decreases batches.len(),
{
    let reports = batch_reports(batches, oracle);
    if batches.len() == 0 {
        assert(probe_answers(batches.flatten(), oracle) =~= Seq::<Seq<Address>>::empty());
    } else {
        let rest = batches.drop_first();
        lemma_batch_reports_flatten(rest, oracle);
        assert(reports.drop_first() =~= batch_reports(rest, oracle));
        lemma_probe_answers_concat(batches.first(), rest.flatten(), oracle);
        vstd::seq_lib::lemma_flatten_concat(
            probe_answers(batches.first(), oracle),
            probe_answers(rest.flatten(), oracle),
        );
    }
}

/// What a discovery returns: the hosts that the oracle reports for at least
/// one of the addresses that the batches hold.
pub proof fn lemma_discovered(batches: Seq<Seq<Address>>, oracle: spec_fn(Address) -> Seq<Address>)
    ensures
        forall|host: Address|
            discovered(batches, oracle).contains(host) <==> exists|i: int|
                0 <= i < batches.flatten().len() && (#[trigger] oracle(
                    batches.flatten()[i],
                )).contains(host),
{
    let targets = batches.flatten();
    let answers = probe_answers(targets, oracle);
    lemma_batch_reports_flatten(batches, oracle);
    lemma_flatten_contains(answers);
    assert forall|host: Address|
        discovered(batches, oracle).contains(host) <==> exists|i: int|
            0 <= i < targets.len() && (#[trigger] oracle(targets[i])).contains(host) by {
        if discovered(batches, oracle).contains(host) {
            assert(answers.flatten().contains(host));
            let j = choose|j: int| 0 <= j < answers.len() && (#[trigger] answers[j]).contains(host);
            assert(oracle(targets[j]).contains(host));
        }
        if exists|i: int| 0 <= i < targets.len() && (#[trigger] oracle(targets[i])).contains(host) {
            let i = choose|i: int|
                0 <= i < targets.len() && (#[trigger] oracle(targets[i])).contains(host);
            assert(answers[i].contains(host));
        }
    }
}

/// Discovery does not depend on the batch size: with the same answers to the
/// same probes, batches of one size and batches of another give the same set
/// of reachable hosts.
pub proof fn lemma_batch_size_invariance(
    addresses: Seq<Address>,
    size: nat,
    other_size: nat,
    oracle: spec_fn(Address) -> Seq<Address>,
)
    requires
        size >= 1,
        other_size >= 1,
    ensures
        discovered(batches_of(addresses, size), oracle) == discovered(
            batches_of(addresses, other_size),
            oracle,
        ),
{
    lemma_batches_partition(addresses, size);
    lemma_batches_partition(addresses, other_size);
    lemma_batch_reports_flatten(batches_of(addresses, size), oracle);
    lemma_batch_reports_flatten(batches_of(addresses, other_size), oracle);
}

/// Appends the items of `more` to `out`.
fn append_addresses(out: &mut Vec<Address>, more: &Vec<Address>)
    ensures
        final(out)@ == old(out)@ + more@,
{
    let mut i: usize = 0;
    assert(out@ =~= old(out)@ + more@.take(0));
    while i < more.len()
        invariant
            i <= more.len(),
            out@ == old(out)@ + more@.take(i as int),
        decreases more.len() - i,
    {
        out.push(more[i]);
        i = i + 1;
        assert(out@ =~= old(out)@ + more@.take(i as int));
    }
    assert(more@.take(more.len() as int) =~= more@);
}

/// A set of reachable hosts. Hosts are added to it and never taken away.
#[derive(Debug)]
pub struct ReachableHostSet {
    hosts: Vec<Address>,
}

impl View for ReachableHostSet {
    type V = Set<Address>;

    /// The hosts of the set.
    open spec fn view(&self) -> Set<Address> {
        self.order().to_set()
    }
}

impl ReachableHostSet {
    #[verifier::type_invariant]
    spec fn inv(self) -> bool {
        self.hosts@.no_duplicates()
    }

    /// The hosts of the set in the order in which they were first added.
    pub closed spec fn order(self) -> Seq<Address> {
        self.hosts@
    }

    /// The empty set.
    pub fn new() -> (r: ReachableHostSet)
        ensures
            r@ == Set::<Address>::empty(),
            r.order() == Seq::<Address>::empty(),
    {
        let r = ReachableHostSet { hosts: Vec::new() };
        assert(r@ =~= Set::<Address>::empty());
        r
    }

    /// How many hosts the set holds.
    pub fn len(&self) -> (n: usize)
        ensures
            n == self@.len(),
            n == self.order().len(),
    {
        proof {
            use_type_invariant(self);
            self.hosts@.unique_seq_to_set();
        }
        self.hosts.len()
    }

    /// Whether the set holds no host.
    pub fn is_empty(&self) -> (b: bool)
        ensures
            b == (self@.len() == 0),
    {
        self.len() == 0
    }

    /// Whether `host` is in the set.
    pub fn contains(&self, host: Address) -> (b: bool)
        ensures
            b == self@.contains(host),
    {
        let mut i: usize = 0;
        while i < self.hosts.len()
            invariant
                i <= self.hosts.len(),
                forall|j: int| 0 <= j < i ==> self.hosts@[j] != host,
            decreases self.hosts.len() - i,
        {
            if self.hosts[i] == host {
                return true;
            }
            i = i + 1;
        }
        false
    }

    /// Adds `host` to the set. Says whether it was new.
    pub fn insert(&mut self, host: Address) -> (added: bool)
        ensures
            final(self)@ == old(self)@.insert(host),
            added == !old(self)@.contains(host),
            final(self).order() == (if added {
                old(self).order().push(host)
            } else {
                old(self).order()
            }),
            final(self).order() == distinct(old(self).order().push(host)),
    {
        proof {
            use_type_invariant(&*self);
            lemma_distinct_of_distinct(old(self).order());
            assert(old(self).order().push(host).drop_last() =~= old(self).order());
        }
        if self.contains(host) {
            assert(self@ =~= old(self)@.insert(host));
            return false;
        }
        let mut hosts: Vec<Address> = Vec::new();
        core::mem::swap(&mut self.hosts, &mut hosts);
        hosts.push(host);
        proof {
            assert forall|i: int, j: int|
                0 <= i < hosts@.len() && 0 <= j < hosts@.len() && i != j implies hosts@[i]
                != hosts@[j] by {
                if i < old(self).hosts@.len() {
                    assert(old(self).hosts@.contains(hosts@[i]));
                }
                if j < old(self).hosts@.len() {
                    assert(old(self).hosts@.contains(hosts@[j]));
                }
            }
            assert(hosts@.to_set() =~= old(self)@.insert(host)) by {
                assert forall|a: Address| hosts@.to_set().contains(a) <==> old(self)@.insert(
                    host,
                ).contains(a) by {
                    if hosts@.contains(a) {
                        let i = choose|i: int| 0 <= i < hosts@.len() && hosts@[i] == a;
                        if i < old(self).hosts@.len() {
                            assert(old(self).hosts@[i] == a);
                        }
                    }
                    if old(self).hosts@.contains(a) {
                        let i = choose|i: int|
                            0 <= i < old(self).hosts@.len() && old(self).hosts@[i] == a;
                        assert(hosts@[i] == a);
                    }
                    if a == host {
                        assert(hosts@[hosts@.len() - 1] == a);
                    }
                }
            }
        }
        self.hosts = hosts;
        true
    }

    /// Adds each of `hosts` to the set, in their order. The hosts that were
    /// in the set keep their places, and the new ones follow in the order in
    /// which they first stand in `hosts`.
    pub fn extend(&mut self, hosts: &Vec<Address>)
        ensures
            final(self)@ == old(self)@.union(hosts@.to_set()),
            final(self).order() == distinct(old(self).order() + hosts@),
    {
        proof {
            use_type_invariant(&*self);
            lemma_distinct_of_distinct(old(self).order());
            assert(old(self).order() + hosts@.take(0) =~= old(self).order());
        }
        let mut i: usize = 0;
        while i < hosts.len()
            invariant
                i <= hosts.len(),
                self.order() == distinct(old(self).order() + hosts@.take(i as int)),
            decreases hosts.len() - i,
        {
            let ghost before = old(self).order() + hosts@.take(i as int);
            self.insert(hosts[i]);
            proof {
                let next = old(self).order() + hosts@.take(i + 1);
                assert(next =~= before.push(hosts@[i as int]));
                assert(next.drop_last() =~= before);
                lemma_distinct(before);
                lemma_distinct_of_distinct(distinct(before));
                assert(distinct(before).push(hosts@[i as int]).drop_last() =~= distinct(before));
            }
            i = i + 1;
        }
        proof {
            assert(hosts@.take(hosts.len() as int) =~= hosts@);
            lemma_distinct_concat(old(self).order(), hosts@);
        }
    }

    /// The hosts of the set, in the order in which they were first added.
    pub fn to_vec(&self) -> (v: Vec<Address>)
        ensures
            v@ == self.order(),
            v@.no_duplicates(),
            v@.to_set() == self@,
    {
        proof {
            use_type_invariant(self);
        }
        let mut v: Vec<Address> = Vec::new();
        append_addresses(&mut v, &self.hosts);
        assert(v@ =~= self.hosts@);
        v
    }
}

/// The work on one batch: its targets are probed one after the other, each
/// probe answered before the next is made.
pub struct BatchRun {
    targets: Vec<Address>,
    progress: Progress,
}

/// How far the work on a batch has come.
struct Progress {
    found: Vec<Address>,
    answered: usize,
    answers: Ghost<Seq<Seq<Address>>>,
}

impl BatchRun {
    #[verifier::type_invariant]
    spec fn inv(self) -> bool {
        &&& self.progress.answered <= self.targets@.len()
        &&& self.progress.answers@.len() == self.progress.answered
        &&& self.progress.found@ == self.progress.answers@.flatten()
    }

    /// The addresses of the batch, in the order in which they are probed.
    pub closed spec fn targets(self) -> Seq<Address> {
        self.targets@
    }

    /// What the probes answered so far reported, one item for each, in the
    /// order of the targets; the item of a failed probe is empty.
    pub closed spec fn answers(self) -> Seq<Seq<Address>> {
        self.progress.answers@
    }

    /// Whether every target has been probed and answered.
    pub open spec fn finished(self) -> bool {
        self.answers().len() == self.targets().len()
    }

    /// The work on a batch of which no target has been probed yet.
    pub fn new(targets: Vec<Address>) -> (run: BatchRun)
        ensures
            run.targets() == targets@,
            run.answers() == Seq::<Seq<Address>>::empty(),
    {
        BatchRun {
            targets,
            progress: Progress { found: Vec::new(), answered: 0, answers: Ghost(Seq::empty()) },
        }
    }

    /// The target to probe next: the first one that has no answer yet. `None`
    /// once every target has been answered.
    pub fn next_target(&self) -> (r: Option<Address>)
        ensures
            self.answers().len() <= self.targets().len(),
            r == (if self.finished() {
                None
            } else {
                Some(self.targets()[self.answers().len() as int])
            }),
    {
        proof {
            use_type_invariant(self);
        }
        if self.progress.answered < self.targets.len() {
            Some(self.targets[self.progress.answered])
        } else {
            None
        }
    }

    /// Whether every target has been probed and answered.
    pub fn is_finished(&self) -> (b: bool)
        ensures
            b == self.finished(),
    {
        proof {
            use_type_invariant(self);
        }
        self.progress.answered == self.targets.len()
    }

    /// Takes the outcome of the probe of the next target. A failed probe adds
    /// no host and takes none away, and the run goes on with the target after
    /// it. Says `false`, and changes nothing, where no probe was due.
    pub fn record(&mut self, outcome: &ProbeOutcome) -> (taken: bool)
        ensures
            taken == !old(self).finished(),
            final(self).targets() == old(self).targets(),
            final(self).answers() == (if taken {
                old(self).answers().push(outcome.hosts())
            } else {
                old(self).answers()
            }),
    {
        proof {
            use_type_invariant(&*self);
        }
        if self.progress.answered == self.targets.len() {
            return false;
        }
        let mut progress = Progress { found: Vec::new(), answered: 0, answers: Ghost(Seq::empty()) };
        core::mem::swap(&mut self.progress, &mut progress);
        let mut found = progress.found;
        match outcome {
            ProbeOutcome::Reachable(hosts) => {
                append_addresses(&mut found, hosts);
            },
            ProbeOutcome::Failed => {
                assert(found@ =~= found@ + outcome.hosts());
            },
        }
        proof {
            progress.answers@.lemma_flatten_push(outcome.hosts());
        }
        self.progress = Progress {
            found,
            answered: progress.answered + 1,
            answers: Ghost(progress.answers@.push(outcome.hosts())),
        };
        true
    }

    /// The hosts reported so far, in the order of the probes.
    pub fn found(&self) -> (v: &Vec<Address>)
        ensures
            v@ == self.answers().flatten(),
    {
        proof {
            use_type_invariant(self);
        }
        &self.progress.found
    }

    /// Ends the work and hands back its report: the hosts of all answers, in
    /// the order of the probes. `None` while a target is still to be probed.
    pub fn into_report(self) -> (r: Option<BatchReport>)
        ensures
            r is Some <==> self.finished(),
            r matches Some(report) ==> report matches BatchReport::Completed(hosts) && hosts@
                == self.answers().flatten(),
    {
        proof {
            use_type_invariant(&self);
        }
        if self.progress.answered == self.targets.len() {
            Some(BatchReport::Completed(self.progress.found))
        } else {
            None
        }
    }
}

/// A discovery over a number of batches. It takes the report of each batch
/// and gives out the set of reachable hosts once all reports are in.
pub struct Discovery {
    expected: usize,
    tally: Tally,
}

/// What a discovery has taken in so far.
struct Tally {
    absorbed: usize,
    hosts: ReachableHostSet,
    reports: Ghost<Seq<Seq<Address>>>,
}

impl Discovery {
    #[verifier::type_invariant]
    spec fn inv(self) -> bool {
        &&& self.tally.absorbed <= self.expected
        &&& self.tally.reports@.len() == self.tally.absorbed
        &&& self.tally.hosts.order() == distinct(self.tally.reports@.flatten())
    }

    /// How many batches the discovery runs over.
    pub closed spec fn batch_count(self) -> nat {
        self.expected as nat
    }

    /// The hosts of the reports taken so far, one item for each report; the
    /// item of a batch whose work broke down is empty.
    pub closed spec fn reports(self) -> Seq<Seq<Address>> {
        self.tally.reports@
    }

    /// Whether the report of every batch is in.
    pub open spec fn complete(self) -> bool {
        self.reports().len() == self.batch_count()
    }

    /// A discovery over `batch_count` batches, with no report in.
    pub fn new(batch_count: usize) -> (d: Discovery)
        ensures
            d.batch_count() == batch_count,
            d.reports() == Seq::<Seq<Address>>::empty(),
    {
        let hosts = ReachableHostSet::new();
        assert(distinct(Seq::<Seq<Address>>::empty().flatten()) =~= Seq::<Address>::empty());
        Discovery {
            expected: batch_count,
            tally: Tally { absorbed: 0, hosts, reports: Ghost(Seq::empty()) },
        }
    }

    /// Takes the report of one more batch. The report of a batch whose work
    /// broke down adds no host and takes none away. Says `false`, and changes
    /// nothing, where the reports of all batches were in already.
    pub fn absorb(&mut self, report: &BatchReport) -> (taken: bool)
        ensures
            taken == !old(self).complete(),
            final(self).batch_count() == old(self).batch_count(),
            final(self).reports() == (if taken {
                old(self).reports().push(report.hosts())
            } else {
                old(self).reports()
            }),
    {
        proof {
            use_type_invariant(&*self);
        }
        if self.tally.absorbed == self.expected {
            return false;
        }
        assert(distinct(Seq::<Seq<Address>>::empty().flatten()) =~= Seq::<Address>::empty());
        let mut tally = Tally {
            absorbed: 0,
            hosts: ReachableHostSet::new(),
            reports: Ghost(Seq::empty()),
        };
        core::mem::swap(&mut self.tally, &mut tally);
        let mut hosts = tally.hosts;
        match report {
            BatchReport::Completed(found) => {
                hosts.extend(found);
            },
            BatchReport::Aborted => {
                assert(tally.reports@.flatten() + report.hosts() =~= tally.reports@.flatten());
            },
        }
        proof {
            let before = tally.reports@;
            before.lemma_flatten_push(report.hosts());
            lemma_distinct_concat(before.flatten(), report.hosts());
        }
        self.tally = Tally {
            absorbed: tally.absorbed + 1,
            hosts,
            reports: Ghost(tally.reports@.push(report.hosts())),
        };
        true
    }

    /// Whether the report of every batch is in.
    pub fn is_complete(&self) -> (b: bool)
        ensures
            b == self.complete(),
    {
        proof {
            use_type_invariant(self);
        }
        self.tally.absorbed == self.expected
    }

    /// Ends the discovery: the set of all hosts that the reports hold, each
    /// at the place where it first stands in the reports. `None` while the
    /// report of a batch is still missing, so that no result of a discovery
    /// in progress is ever seen.
    pub fn finish(self) -> (r: Option<ReachableHostSet>)
        ensures
            r is Some <==> self.complete(),
            r matches Some(hosts) ==> hosts@ == self.reports().flatten().to_set() && hosts.order()
                == distinct(self.reports().flatten()),
    {
        proof {
            use_type_invariant(&self);
            lemma_distinct_concat(self.reports().flatten(), Seq::empty());
            assert(self.reports().flatten() + Seq::<Address>::empty()
                =~= self.reports().flatten());
        }
        if self.tally.absorbed == self.expected {
            Some(self.tally.hosts)
        } else {
            None
        }
    }
}

/// The hosts of each report, in the order of the reports.
pub open spec fn report_hosts(reports: Seq<BatchReport>) -> Seq<Seq<Address>> {
    Seq::new(reports.len(), |k: int| reports[k].hosts())
}

/// Puts the reports of all batches together: the set of every host that a
/// report holds, each at the place where it first stands in the reports. The
/// report of a batch whose work broke down adds nothing and takes nothing
/// away. Refused where the reports are not one for each of
/// the `batch_count` batches.
pub fn gather(batch_count: usize, reports: &Vec<BatchReport>) -> (r: Result<
    ReachableHostSet,
    BarrierError,
>)
    ensures
        r is Ok <==> reports@.len() == batch_count,
        r matches Ok(hosts) ==> hosts@ == report_hosts(reports@).flatten().to_set() && hosts.order()
            == distinct(report_hosts(reports@).flatten()),
        r matches Err(e) ==> e == BarrierError::OutcomeCountMismatch,
{
    if reports.len() != batch_count {
        return Err(BarrierError::OutcomeCountMismatch);
    }
    let mut discovery = Discovery::new(batch_count);
    let mut k: usize = 0;
    while k < reports.len()
        invariant
            k <= reports.len(),
            reports.len() == batch_count,
            discovery.batch_count() == batch_count,
            discovery.reports() == report_hosts(reports@).take(k as int),
        decreases reports.len() - k,
    {
        discovery.absorb(&reports[k]);
        k = k + 1;
        assert(discovery.reports() =~= report_hosts(reports@).take(k as int));
    }
    assert(report_hosts(reports@).take(k as int) =~= report_hosts(reports@));
    match discovery.finish() {
        Some(hosts) => Ok(hosts),
        None => Err(BarrierError::OutcomeCountMismatch),
    }
}

/// Where each batch reports what its probes answered, and each probe
/// answers what `oracle` says of its target, the reports put together are
/// the discovery of `oracle` over the batches.
pub proof fn lemma_reports_are_discovery(
    batches: Seq<Seq<Address>>,
    reports: Seq<BatchReport>,
    oracle: spec_fn(Address) -> Seq<Address>,
)
    requires
        reports.len() == batches.len(),
        forall|k: int|
            0 <= k < batches.len() ==> (#[trigger] reports[k]).hosts() == probe_answers(
                batches[k],
                oracle,
            ).flatten(),
    ensures
        report_hosts(reports).flatten().to_set() == discovered(batches, oracle),
{
    assert(report_hosts(reports) =~= batch_reports(batches, oracle));
}

} // verus!
