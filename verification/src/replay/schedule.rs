//! Which chains are replayed, in what order and over which path.
use crate::replay::{ReductionPath, ReplayChain, ReplayPlanManifest};
use crate::text;
use crate::text::{quoted, same_text};
use vstd::prelude::*;
use vstd::string::*;
use vstd::utf8;

verus! {

/// Why the lines of a plan do not make one.
#[derive(Debug, Clone, Copy, PartialEq, Eq, Structural)]
pub enum LoadFault {
    MultipleManifests,
    NoChains,
    NoManifest,
}

impl LoadFault {
    pub open spec fn words(self, cohort: Seq<char>) -> Seq<char> {
        match self {
            LoadFault::MultipleManifests => "replay plan contains multiple manifests"@,
            LoadFault::NoChains => "replay plan contains no chains for cohort "@
                + text::quoted_text(cohort),
            LoadFault::NoManifest => "replay plan has no manifest"@,
        }
    }

    pub fn message(&self, cohort: &str) -> (r: String)
        ensures
            r@ == self.words(cohort@),
    {
        match self {
            LoadFault::MultipleManifests => String::from_str(
                "replay plan contains multiple manifests",
            ),
            LoadFault::NoChains => {
                let mut out = String::from_str("replay plan contains no chains for cohort ");
                out.append(quoted(cohort).as_str());
                out
            },
            LoadFault::NoManifest => String::from_str("replay plan has no manifest"),
        }
    }
}

/// What a line of a plan holds.
#[derive(Debug, Clone, Copy, PartialEq, Eq, Structural)]
pub enum RecordKind {
    Manifest,
    Chain,
    /// A record that a replay does not need.
    Other,
}

/// The kind of a record, by its name.
pub fn record_kind(record: Option<&str>) -> (r: RecordKind)
    ensures
        r == match record {
            Some(name) => if name@ == "manifest"@ {
                RecordKind::Manifest
            } else if name@ == "chain"@ {
                RecordKind::Chain
            } else {
                RecordKind::Other
            },
            None => RecordKind::Other,
        },
{
    match record {
        None => RecordKind::Other,
        Some(name) => if same_text(name, "manifest") {
            RecordKind::Manifest
        } else if same_text(name, "chain") {
            RecordKind::Chain
        } else {
            RecordKind::Other
        },
    }
}

/// What has been read of a plan.
pub struct PlanReader {
    pub cohort: String,
    pub manifest: Option<ReplayPlanManifest>,
    pub chains: Vec<ReplayChain>,
}

impl PlanReader {
    pub fn new(cohort: String) -> (r: Self)
        ensures
            r.cohort == cohort,
            r.manifest is None,
            r.chains@.len() == 0,
    {
        PlanReader { cohort, manifest: None, chains: Vec::new() }
    }

    /// A plan has one manifest: a second is refused before it is decoded.
    pub fn expect_manifest(&self) -> (r: Result<(), LoadFault>)
        ensures
            match r {
                Ok(_) => self.manifest is None,
                Err(e) => e == LoadFault::MultipleManifests && self.manifest is Some,
            },
    {
        match self.manifest {
            None => Ok(()),
            Some(_) => Err(LoadFault::MultipleManifests),
        }
    }

    pub fn set_manifest(&mut self, manifest: ReplayPlanManifest) -> (r: Result<(), LoadFault>)
        ensures
            match r {
                Ok(_) => {
                    &&& old(self).manifest is None
                    &&& final(self).manifest == Some(manifest)
                    &&& final(self).chains == old(self).chains
                },
                Err(e) => {
                    &&& e == LoadFault::MultipleManifests
                    &&& old(self).manifest is Some
                    &&& *final(self) == *old(self)
                },
            },
            final(self).cohort == old(self).cohort,
    {
        match self.expect_manifest() {
            Ok(_) => {},
            Err(e) => {
                return Err(e);
            },
        }
        self.manifest = Some(manifest);
        Ok(())
    }

    /// Keeps a chain of the wanted cohort.
    pub fn push_chain(&mut self, chain: ReplayChain)
        ensures
            final(self).chains@ == (if chain.cohort@ == old(self).cohort@ {
                old(self).chains@.push(chain)
            } else {
                old(self).chains@
            }),
            final(self).manifest == old(self).manifest,
            final(self).cohort == old(self).cohort,
    {
        if chain.cohort == self.cohort {
            self.chains.push(chain);
        }
    }

    pub fn finish(self) -> (r: Result<(ReplayPlanManifest, Vec<ReplayChain>), LoadFault>)
        ensures
            match r {
                Ok((manifest, chains)) => {
                    &&& self.chains@.len() > 0
                    &&& self.manifest == Some(manifest)
                    &&& chains == self.chains
                },
                Err(LoadFault::NoChains) => self.chains@.len() == 0,
                Err(LoadFault::NoManifest) => self.chains@.len() > 0 && self.manifest is None,
                Err(LoadFault::MultipleManifests) => false,
            },
    {
        if self.chains.len() == 0 {
            return Err(LoadFault::NoChains);
        }
        match self.manifest {
            Some(manifest) => Ok((manifest, self.chains)),
            None => Err(LoadFault::NoManifest),
        }
    }
}

/// Lexicographic order of byte strings.
pub open spec fn bytes_before(a: Seq<u8>, b: Seq<u8>) -> bool
    decreases a.len(),
{
    if b.len() == 0 {
        false
    } else if a.len() == 0 {
        true
    } else if a[0] != b[0] {
        a[0] < b[0]
    } else {
        bytes_before(a.skip(1), b.skip(1))
    }
}

proof fn lemma_bytes_transitive(a: Seq<u8>, b: Seq<u8>, c: Seq<u8>)
    requires
        bytes_before(a, b),
        bytes_before(b, c),
    ensures
        bytes_before(a, c),
    decreases a.len(),
{
    if a.len() > 0 && a[0] == b[0] && b[0] == c[0] {
        lemma_bytes_transitive(a.skip(1), b.skip(1), c.skip(1));
    }
}

proof fn lemma_bytes_total(a: Seq<u8>, b: Seq<u8>)
    ensures
        bytes_before(a, b) || bytes_before(b, a) || a == b,
        a == b ==> !bytes_before(a, b),
    decreases a.len(),
{
    if a.len() > 0 && b.len() > 0 && a[0] == b[0] {
        lemma_bytes_total(a.skip(1), b.skip(1));
        if a.skip(1) == b.skip(1) {
            assert(a =~= seq![a[0]] + a.skip(1));
            assert(b =~= seq![b[0]] + b.skip(1));
        }
    } else if a.len() == 0 && b.len() == 0 {
        assert(a =~= b);
    }
}

/// What chains are ordered by: their rows, then their identifier's bytes.
pub open spec fn key(chain: ReplayChain) -> (usize, Seq<u8>) {
    (chain.physical_m, utf8::encode_utf8(chain.chain_id@))
}

pub open spec fn key_before(a: (usize, Seq<u8>), b: (usize, Seq<u8>)) -> bool {
    a.0 < b.0 || (a.0 == b.0 && bytes_before(a.1, b.1))
}

pub open spec fn in_order(chains: Seq<ReplayChain>) -> bool {
    forall|i: int, j: int|
        0 <= i < j < chains.len() ==> !key_before(key(#[trigger] chains[j]), key(#[trigger] chains[i]))
}

/// The chains with one key, in their order.
pub open spec fn with_key(chains: Seq<ReplayChain>, k: (usize, Seq<u8>)) -> Seq<ReplayChain> {
    chains.filter(|chain: ReplayChain| key(chain) == k)
}

fn bytes_less(a: &[u8], b: &[u8]) -> (r: bool)
    ensures
        r == bytes_before(a@, b@),
{
    let mut i: usize = 0;
    assert(a@.skip(0) =~= a@);
    assert(b@.skip(0) =~= b@);
    while i < a.len() && i < b.len() && a[i] == b[i]
        invariant
            i <= a@.len(),
            i <= b@.len(),
            bytes_before(a@, b@) == bytes_before(a@.skip(i as int), b@.skip(i as int)),
        decreases a@.len() - i,
    {
        assert(a@.skip(i as int).skip(1) =~= a@.skip(i + 1));
        assert(b@.skip(i as int).skip(1) =~= b@.skip(i + 1));
        i = i + 1;
    }
    if i >= b.len() {
        false
    } else if i >= a.len() {
        true
    } else {
        a[i] < b[i]
    }
}

fn chain_before(a: &ReplayChain, b: &ReplayChain) -> (r: bool)
    ensures
        r == key_before(key(*a), key(*b)),
{
    if a.physical_m != b.physical_m {
        a.physical_m < b.physical_m
    } else {
        bytes_less(a.chain_id.as_str().as_bytes(), b.chain_id.as_str().as_bytes())
    }
}

proof fn lemma_key_transitive(a: (usize, Seq<u8>), b: (usize, Seq<u8>), c: (usize, Seq<u8>))
    requires
        key_before(a, b),
        key_before(b, c),
    ensures
        key_before(a, c),
{
    if a.0 == b.0 && b.0 == c.0 {
        lemma_bytes_transitive(a.1, b.1, c.1);
    }
}

proof fn lemma_key_total(a: (usize, Seq<u8>), b: (usize, Seq<u8>))
    ensures
        key_before(a, b) || key_before(b, a) || a == b,
        a == b ==> !key_before(a, b),
{
    lemma_bytes_total(a.1, b.1);
}

/// Where a chain goes in an ordered list: behind its equals.
proof fn lemma_insert_ordered(chains: Seq<ReplayChain>, at: int, chain: ReplayChain)
    requires
        in_order(chains),
        0 <= at <= chains.len(),
        forall|i: int| 0 <= i < at ==> !key_before(key(chain), key(#[trigger] chains[i])),
        at < chains.len() ==> key_before(key(chain), key(chains[at])),
    ensures
        in_order(chains.insert(at, chain)),
        forall|k: (usize, Seq<u8>)|
            #![trigger with_key(chains, k)]
            with_key(chains.insert(at, chain), k) == with_key(chains, k) + with_key(seq![chain], k),
{
    let out = chains.insert(at, chain);
    assert forall|j: int| at <= j < chains.len() implies key_before(
        key(chain),
        key(#[trigger] chains[j]),
    ) by {
        if at < j {
            lemma_key_total(key(chains[j]), key(chains[at]));
            if key_before(key(chains[at]), key(chains[j])) {
                lemma_key_transitive(key(chain), key(chains[at]), key(chains[j]));
            }
        }
    }
    assert forall|i: int, j: int| 0 <= i < j < out.len() implies !key_before(
        key(#[trigger] out[j]),
        key(#[trigger] out[i]),
    ) by {
        if i == at {
            lemma_key_total(key(chain), key(chain));
            if key_before(key(out[j]), key(chain)) {
                assert(out[j] == chains[j - 1]);
                lemma_key_transitive(key(chain), key(chains[j - 1]), key(chain));
            }
        } else if j == at {
            assert(out[i] == chains[i]);
        } else {
            let a = if i < at {
                i
            } else {
                i - 1
            };
            let b = if j < at {
                j
            } else {
                j - 1
            };
            assert(out[i] == chains[a] && out[j] == chains[b]);
        }
    }
    assert forall|k: (usize, Seq<u8>)|
        #![trigger with_key(chains, k)]
        with_key(out, k) == with_key(chains, k) + with_key(seq![chain], k) by {
        let pred = |c: ReplayChain| key(c) == k;
        let low = chains.take(at);
        let high = chains.skip(at);
        assert(chains =~= low + high);
        assert(out =~= low + seq![chain] + high);
        Seq::filter_distributes_over_add(low, high, pred);
        Seq::filter_distributes_over_add(low + seq![chain], high, pred);
        Seq::filter_distributes_over_add(low, seq![chain], pred);
        if key(chain) == k {
            assert forall|i: int| 0 <= i < high.len() implies !pred(#[trigger] high[i]) by {
                assert(high[i] == chains[at + i]);
                lemma_key_total(key(chain), key(chains[at + i]));
            }
            lemma_filter_none(high, pred);
            assert(with_key(out, k) =~= with_key(chains, k) + with_key(seq![chain], k));
        } else {
            let single = seq![chain];
            assert forall|i: int| 0 <= i < single.len() implies !pred(#[trigger] single[i]) by {}
            lemma_filter_none(single, pred);
            assert(with_key(out, k) =~= with_key(chains, k) + with_key(seq![chain], k));
        }
    }
}

proof fn lemma_filter_none<A>(s: Seq<A>, pred: spec_fn(A) -> bool)
    requires
        forall|i: int| 0 <= i < s.len() ==> !pred(#[trigger] s[i]),
    ensures
        s.filter(pred) == Seq::<A>::empty(),
    decreases s.len(),
{
    reveal(Seq::filter);
    if s.len() > 0 {
        assert forall|i: int| 0 <= i < s.drop_last().len() implies !pred(
            #[trigger] s.drop_last()[i],
        ) by {
            assert(s.drop_last()[i] == s[i]);
        }
        lemma_filter_none(s.drop_last(), pred);
    }
}

/// Orders the chains by rows and identifier. Chains with equal keys keep their
/// order, and no chain is lost or made up: for every key the chains that have it
/// are the same before and after.
pub fn sort_chains(chains: Vec<ReplayChain>) -> (r: Vec<ReplayChain>)
    ensures
        in_order(r@),
        forall|k: (usize, Seq<u8>)| #[trigger] with_key(r@, k) == with_key(chains@, k),
{
    let mut rest = chains;
    let mut out: Vec<ReplayChain> = Vec::new();
    let ghost mut done = Seq::<ReplayChain>::empty();
    proof {
        assert(done + rest@ =~= chains@);
    }
    while rest.len() > 0
        invariant
            done + rest@ == chains@,
            in_order(out@),
            forall|k: (usize, Seq<u8>)| #[trigger] with_key(out@, k) == with_key(done, k),
        decreases rest@.len(),
    {
        let chain = rest.remove(0);
        let mut at: usize = 0;
        while at < out.len() && !chain_before(&chain, &out[at])
            invariant
                at <= out@.len(),
                forall|i: int| 0 <= i < at ==> !key_before(key(chain), key(#[trigger] out@[i])),
            decreases out@.len() - at,
        {
            at = at + 1;
        }
        proof {
            lemma_insert_ordered(out@, at as int, chain);
            let grown = done.push(chain);
            assert(grown =~= done + seq![chain]);
            assert forall|k: (usize, Seq<u8>)| #[trigger]
                with_key(out@.insert(at as int, chain), k) == with_key(grown, k) by {
                let pred = |c: ReplayChain| key(c) == k;
                Seq::filter_distributes_over_add(done, seq![chain], pred);
                assert(with_key(out@, k) == with_key(done, k));
            }
            assert(grown + rest@ =~= chains@);
            done = grown;
        }
        out.insert(at, chain);
    }
    assert(done =~= chains@);
    out
}

/// The places of the chains with `m` rows among the first `n`.
pub open spec fn places(chains: Seq<ReplayChain>, m: usize, n: int) -> Seq<usize>
    decreases n,
{
    if n <= 0 {
        Seq::empty()
    } else if chains[n - 1].physical_m == m {
        places(chains, m, n - 1).push((n - 1) as usize)
    } else {
        places(chains, m, n - 1)
    }
}

/// The groups are those of the first `n` chains by rows, in ascending order.
pub open spec fn is_grouping(
    groups: Seq<(usize, Vec<usize>)>,
    chains: Seq<ReplayChain>,
    n: int,
) -> bool {
    &&& forall|g: int, h: int| 0 <= g < h < groups.len() ==> groups[g].0 < groups[h].0
    &&& forall|g: int|
        0 <= g < groups.len() ==> (#[trigger] groups[g]).1@ == places(chains, groups[g].0, n)
    &&& forall|g: int| 0 <= g < groups.len() ==> (#[trigger] groups[g]).1@.len() > 0
    &&& forall|c: int| 0 <= c < n ==> has_group(groups, (#[trigger] chains[c]).physical_m)
}

pub open spec fn has_group(groups: Seq<(usize, Vec<usize>)>, m: usize) -> bool {
    exists|g: int| 0 <= g < groups.len() && (#[trigger] groups[g]).0 == m
}

/// The places of the chains by rows: ascending rows, each group in plan order.
pub fn chains_by_m(chains: &[ReplayChain]) -> (r: Vec<(usize, Vec<usize>)>)
    ensures
        is_grouping(r@, chains@, chains@.len() as int),
{
    let mut groups: Vec<(usize, Vec<usize>)> = Vec::new();
    let mut c: usize = 0;
    while c < chains.len()
        invariant
            c <= chains@.len(),
            is_grouping(groups@, chains@, c as int),
        decreases chains@.len() - c,
    {
        let m: usize = chains[c].physical_m;
        let mut g: usize = 0;
        while g < groups.len() && groups[g].0 < m
            invariant
                g <= groups@.len(),
                forall|h: int| 0 <= h < g ==> groups@[h].0 < m,
            decreases groups@.len() - g,
        {
            g = g + 1;
        }
        let ghost before = groups@;
        if g < groups.len() && groups[g].0 == m {
            groups[g].1.push(c);
            proof {
                assert forall|e: int| 0 <= e < c + 1 implies has_group(
                    groups@,
                    (#[trigger] chains@[e]).physical_m,
                ) by {
                    if e < c {
                        assert(has_group(before, chains@[e].physical_m));
                        let h = choose|h: int|
                            0 <= h < before.len() && (#[trigger] before[h]).0
                                == chains@[e].physical_m;
                        assert(groups@[h].0 == before[h].0);
                    } else {
                        assert(groups@[g as int].0 == m);
                    }
                }
                assert forall|h: int| 0 <= h < groups@.len() implies (#[trigger] groups@[h]).1@
                    == places(chains@, groups@[h].0, c + 1) by {
                    assert(before[h].0 == groups@[h].0);
                }
            }
        } else {
            let mut one: Vec<usize> = Vec::new();
            one.push(c);
            groups.insert(g, (m, one));
            proof {
                lemma_absent_places(chains@, before, m, c as int);
                assert forall|e: int| 0 <= e < c + 1 implies has_group(
                    groups@,
                    (#[trigger] chains@[e]).physical_m,
                ) by {
                    if e < c {
                        assert(has_group(before, chains@[e].physical_m));
                        let h = choose|h: int|
                            0 <= h < before.len() && (#[trigger] before[h]).0
                                == chains@[e].physical_m;
                        if h < g {
                            assert(groups@[h].0 == before[h].0);
                        } else {
                            assert(groups@[h + 1].0 == before[h].0);
                        }
                    } else {
                        assert(groups@[g as int].0 == m);
                    }
                }
                assert forall|h: int| 0 <= h < groups@.len() implies (#[trigger] groups@[h]).1@
                    == places(chains@, groups@[h].0, c + 1) && groups@[h].1@.len() > 0 by {
                    if h < g {
                        assert(groups@[h] == before[h]);
                    } else if h > g {
                        assert(groups@[h] == before[h - 1]);
                    } else {
                        assert(one@ =~= places(chains@, m, c + 1));
                    }
                }
            }
        }
        c = c + 1;
    }
    groups
}

proof fn lemma_absent_places(
    chains: Seq<ReplayChain>,
    groups: Seq<(usize, Vec<usize>)>,
    m: usize,
    n: int,
)
    requires
        0 <= n <= chains.len(),
        forall|c: int| 0 <= c < n ==> has_group(groups, (#[trigger] chains[c]).physical_m),
        forall|g: int| 0 <= g < groups.len() ==> (#[trigger] groups[g]).0 != m,
    ensures
        places(chains, m, n) == Seq::<usize>::empty(),
    decreases n,
{
    if n > 0 {
        lemma_absent_places(chains, groups, m, n - 1);
        assert(has_group(groups, chains[n - 1].physical_m));
    }
}

/// One run of a chain.
#[derive(Debug, Clone, Copy, PartialEq, Eq, Structural)]
pub struct ReplayStep {
    /// Whether the run is timed or only warms up.
    pub timed: bool,
    pub chain: usize,
    pub path: ReductionPath,
    pub path_order: usize,
    pub layer_rotation: usize,
}

/// Both paths of the chain at `i` in its group, untimed.
pub open spec fn warm_pair(group: Seq<usize>, i: int) -> Seq<ReplayStep> {
    seq![
        ReplayStep {
            timed: false,
            chain: group[i],
            path: ReductionPath::Coordinator,
            path_order: 0,
            layer_rotation: 0,
        },
        ReplayStep {
            timed: false,
            chain: group[i],
            path: ReductionPath::SparkRowSharded,
            path_order: 1,
            layer_rotation: 0,
        },
    ]
}

/// The path that the chain at `i` in its group takes first.
pub open spec fn first_path(i: int) -> ReductionPath {
    if i % 2 == 0 {
        ReductionPath::Coordinator
    } else {
        ReductionPath::SparkRowSharded
    }
}

/// Both paths of the chain at `i` in its group, timed: the first path alternates,
/// and the first layer moves on from chain to chain.
pub open spec fn timed_pair(chains: Seq<ReplayChain>, group: Seq<usize>, i: int) -> Seq<
    ReplayStep,
> {
    let rotation = (i % chains[group[i] as int].layers@.len() as int) as usize;
    seq![
        ReplayStep {
            timed: true,
            chain: group[i],
            path: first_path(i),
            path_order: 0,
            layer_rotation: rotation,
        },
        ReplayStep {
            timed: true,
            chain: group[i],
            path: first_path(i).opposite(),
            path_order: 1,
            layer_rotation: rotation,
        },
    ]
}

pub open spec fn warm_group(group: Seq<usize>, n: int) -> Seq<ReplayStep>
    decreases n,
{
    if n <= 0 {
        Seq::empty()
    } else {
        warm_group(group, n - 1) + warm_pair(group, n - 1)
    }
}

pub open spec fn timed_group(chains: Seq<ReplayChain>, group: Seq<usize>, n: int) -> Seq<ReplayStep>
    decreases n,
{
    if n <= 0 {
        Seq::empty()
    } else {
        timed_group(chains, group, n - 1) + timed_pair(chains, group, n - 1)
    }
}

/// How many chains of a group warm up.
pub open spec fn warm_count(group: Seq<usize>, warmups: usize) -> int {
    if warmups < group.len() {
        warmups as int
    } else {
        group.len() as int
    }
}

pub open spec fn warm_steps(
    groups: Seq<(usize, Vec<usize>)>,
    warmups: usize,
    n: int,
) -> Seq<ReplayStep>
    decreases n,
{
    if n <= 0 {
        Seq::empty()
    } else {
        warm_steps(groups, warmups, n - 1) + warm_group(
            groups[n - 1].1@,
            warm_count(groups[n - 1].1@, warmups),
        )
    }
}

pub open spec fn timed_steps(
    chains: Seq<ReplayChain>,
    groups: Seq<(usize, Vec<usize>)>,
    n: int,
) -> Seq<ReplayStep>
    decreases n,
{
    if n <= 0 {
        Seq::empty()
    } else {
        timed_steps(chains, groups, n - 1) + timed_group(
            chains,
            groups[n - 1].1@,
            groups[n - 1].1@.len() as int,
        )
    }
}

/// The runs of a plan over its groups: every group warms up before any is timed.
pub fn replay_schedule(
    chains: &[ReplayChain],
    groups: &[(usize, Vec<usize>)],
    warmup_chains_per_m: usize,
) -> (r: Vec<ReplayStep>)
    requires
        is_grouping(groups@, chains@, chains@.len() as int),
        forall|c: int| 0 <= c < chains@.len() ==> (#[trigger] chains@[c]).layers@.len() > 0,
    ensures
        r@ == warm_steps(groups@, warmup_chains_per_m, groups@.len() as int) + timed_steps(
            chains@,
            groups@,
            groups@.len() as int,
        ),
{
    let mut steps: Vec<ReplayStep> = Vec::new();
    let mut g: usize = 0;
    while g < groups.len()
        invariant
            g <= groups@.len(),
            steps@ == warm_steps(groups@, warmup_chains_per_m, g as int),
        decreases groups@.len() - g,
    {
        let group = &groups[g].1;
        let mut i: usize = 0;
        while i < group.len() && i < warmup_chains_per_m
            invariant
                g < groups@.len(),
                *group == groups@[g as int].1,
                i <= group@.len(),
                i <= warmup_chains_per_m,
                steps@ == warm_steps(groups@, warmup_chains_per_m, g as int) + warm_group(
                    group@,
                    i as int,
                ),
            decreases group@.len() - i,
        {
            steps.push(
                ReplayStep {
                    timed: false,
                    chain: group[i],
                    path: ReductionPath::Coordinator,
                    path_order: 0,
                    layer_rotation: 0,
                },
            );
            steps.push(
                ReplayStep {
                    timed: false,
                    chain: group[i],
                    path: ReductionPath::SparkRowSharded,
                    path_order: 1,
                    layer_rotation: 0,
                },
            );
            i = i + 1;
            assert(steps@ =~= warm_steps(groups@, warmup_chains_per_m, g as int) + warm_group(
                group@,
                i as int,
            ));
        }
        g = g + 1;
    }
    let ghost warm = steps@;
    assert(steps@ =~= warm + timed_steps(chains@, groups@, 0));
    let count: usize = chains.len();
    g = 0;
    while g < groups.len()
        invariant
            g <= groups@.len(),
            count == chains@.len(),
            is_grouping(groups@, chains@, chains@.len() as int),
            forall|c: int| 0 <= c < chains@.len() ==> (#[trigger] chains@[c]).layers@.len() > 0,
            steps@ == warm + timed_steps(chains@, groups@, g as int),
        decreases groups@.len() - g,
    {
        let group = &groups[g].1;
        proof {
            lemma_places(chains@, groups@[g as int].0, chains@.len() as int);
            assert(steps@ =~= warm + (timed_steps(chains@, groups@, g as int) + timed_group(
                chains@,
                group@,
                0,
            )));
        }
        let mut i: usize = 0;
        while i < group.len()
            invariant
                g < groups@.len(),
                *group == groups@[g as int].1,
                i <= group@.len(),
                forall|c: int| 0 <= c < chains@.len() ==> (#[trigger] chains@[c]).layers@.len() > 0,
                forall|k: int| 0 <= k < group@.len() ==> (#[trigger] group@[k]) < chains@.len(),
                steps@ == warm + (timed_steps(chains@, groups@, g as int) + timed_group(
                    chains@,
                    group@,
                    i as int,
                )),
            decreases group@.len() - i,
        {
            let first = if i % 2 == 0 {
                ReductionPath::Coordinator
            } else {
                ReductionPath::SparkRowSharded
            };
            let chain: usize = group[i];
            let rotation: usize = i % chains[chain].layers.len();
            steps.push(
                ReplayStep {
                    timed: true,
                    chain,
                    path: first,
                    path_order: 0,
                    layer_rotation: rotation,
                },
            );
            steps.push(
                ReplayStep {
                    timed: true,
                    chain,
                    path: first.other(),
                    path_order: 1,
                    layer_rotation: rotation,
                },
            );
            i = i + 1;
            assert(steps@ =~= warm + (timed_steps(chains@, groups@, g as int) + timed_group(
                chains@,
                group@,
                i as int,
            )));
        }
        g = g + 1;
    }
    steps
}

proof fn lemma_places(chains: Seq<ReplayChain>, m: usize, n: int)
    requires
        0 <= n <= chains.len() <= usize::MAX,
    ensures
        forall|k: int|
            0 <= k < places(chains, m, n).len() ==> (#[trigger] places(chains, m, n)[k]) < n,
    decreases n,
{
    if n > 0 {
        lemma_places(chains, m, n - 1);
        let here = places(chains, m, n);
        assert forall|k: int| 0 <= k < here.len() implies (#[trigger] here[k]) < n by {
            if k < places(chains, m, n - 1).len() {
                assert(here[k] == places(chains, m, n - 1)[k]);
            }
        }
    }
}

/// The layer at `offset` of a run that starts at `layer_rotation`.
pub open spec fn sent_layer(layers: int, layer_rotation: int, offset: int) -> int {
    (layer_rotation + offset) % layers
}

/// The layer that a run sends at `offset`.
pub fn rotated_layer(layers: usize, layer_rotation: usize, offset: usize) -> (r: usize)
    requires
        offset < layers,
        layer_rotation < layers,
    ensures
        r == sent_layer(layers as int, layer_rotation as int, offset as int),
{
    proof {
        lemma_rotation(layers as int, layer_rotation as int, offset as int);
    }
    if layer_rotation < layers - offset {
        layer_rotation + offset
    } else {
        layer_rotation - (layers - offset)
    }
}

/// A run sends every layer once, wherever it starts: first the layer that it starts at,
/// then each time the next one, and the first layer of all behind the last.
pub proof fn law_rotation_sends_every_layer(layers: int, layer_rotation: int, layer: int)
    requires
        0 <= layer_rotation < layers,
        0 <= layer < layers,
    ensures
        sent_layer(layers, layer_rotation, 0) == layer_rotation,
        forall|offset: int|
            0 <= offset < layers ==> 0 <= #[trigger] sent_layer(layers, layer_rotation, offset)
                < layers,
        exists|offset: int|
            0 <= offset < layers && #[trigger] sent_layer(layers, layer_rotation, offset) == layer,
        forall|a: int, b: int|
            0 <= a < layers && 0 <= b < layers && #[trigger] sent_layer(layers, layer_rotation, a)
                == #[trigger] sent_layer(layers, layer_rotation, b) ==> a == b,
        forall|a: int, b: int|
            0 <= a < layers && b == a + 1 && b < layers ==> #[trigger] sent_layer(
                layers,
                layer_rotation,
                b,
            ) == if #[trigger] sent_layer(layers, layer_rotation, a) + 1 < layers {
                sent_layer(layers, layer_rotation, a) + 1
            } else {
                0
            },
{
    let offset = if layer >= layer_rotation {
        layer - layer_rotation
    } else {
        layer - layer_rotation + layers
    };
    lemma_rotation(layers, layer_rotation, 0);
    lemma_rotation(layers, layer_rotation, offset);
    assert(sent_layer(layers, layer_rotation, offset) == layer);
    assert forall|a: int| 0 <= a < layers implies 0 <= #[trigger] sent_layer(
        layers,
        layer_rotation,
        a,
    ) < layers by {
        lemma_rotation(layers, layer_rotation, a);
    }
    assert forall|a: int, b: int|
        0 <= a < layers && 0 <= b < layers && #[trigger] sent_layer(layers, layer_rotation, a)
            == #[trigger] sent_layer(layers, layer_rotation, b) implies a == b by {
        lemma_rotation(layers, layer_rotation, a);
        lemma_rotation(layers, layer_rotation, b);
    }
    assert forall|a: int, b: int|
        0 <= a < layers && b == a + 1 && b < layers implies #[trigger] sent_layer(
        layers,
        layer_rotation,
        b,
    ) == if #[trigger] sent_layer(layers, layer_rotation, a) + 1 < layers {
        sent_layer(layers, layer_rotation, a) + 1
    } else {
        0
    } by {
        lemma_rotation(layers, layer_rotation, a);
        lemma_rotation(layers, layer_rotation, b);
    }
}

proof fn lemma_rotation(layers: int, rotation: int, offset: int)
    requires
        0 <= rotation < layers,
        0 <= offset < layers,
    ensures
        (rotation + offset) % layers == if rotation + offset < layers {
            rotation + offset
        } else {
            rotation + offset - layers
        },
{
    if rotation + offset < layers {
        vstd::arithmetic::div_mod::lemma_small_mod((rotation + offset) as nat, layers as nat);
    } else {
        vstd::arithmetic::div_mod::lemma_fundamental_div_mod_converse(
            rotation + offset,
            layers,
            1,
            rotation + offset - layers,
        );
    }
}

/// How many of the steps time chain `c` over `path`.
pub open spec fn timed_runs(steps: Seq<ReplayStep>, c: int, path: ReductionPath) -> nat
    decreases steps.len(),
{
    if steps.len() == 0 {
        0
    } else {
        timed_runs(steps.drop_last(), c, path) + if steps.last().timed && steps.last().chain == c
            && steps.last().path == path {
            1nat
        } else {
            0nat
        }
    }
}

/// A replay times every chain exactly once over each path, and its warm-up times
/// none.
pub proof fn law_every_chain_is_timed_over_both_paths(
    chains: Seq<ReplayChain>,
    groups: Seq<(usize, Vec<usize>)>,
    warmups: usize,
    c: int,
    path: ReductionPath,
)
    requires
        is_grouping(groups, chains, chains.len() as int),
        chains.len() <= usize::MAX,
        0 <= c < chains.len(),
    ensures
        timed_runs(
            warm_steps(groups, warmups, groups.len() as int) + timed_steps(
                chains,
                groups,
                groups.len() as int,
            ),
            c,
            path,
        ) == 1,
{
    let n = groups.len() as int;
    assert(has_group(groups, chains[c].physical_m));
    let g = choose|g: int|
        0 <= g < groups.len() && (#[trigger] groups[g]).0 == chains[c].physical_m;
    lemma_runs_add(warm_steps(groups, warmups, n), timed_steps(chains, groups, n), c, path);
    lemma_warm_steps_untimed(groups, warmups, n, c, path);
    lemma_timed_once(chains, groups, n, g, c, path);
}

proof fn lemma_runs_add(a: Seq<ReplayStep>, b: Seq<ReplayStep>, c: int, path: ReductionPath)
    ensures
        timed_runs(a + b, c, path) == timed_runs(a, c, path) + timed_runs(b, c, path),
    decreases b.len(),
{
    if b.len() == 0 {
        assert(a + b =~= a);
    } else {
        lemma_runs_add(a, b.drop_last(), c, path);
        assert((a + b).drop_last() =~= a + b.drop_last());
        assert((a + b).last() == b.last());
    }
}

proof fn lemma_pair_runs(first: ReplayStep, second: ReplayStep, c: int, path: ReductionPath)
    ensures
        timed_runs(seq![first, second], c, path) == (if first.timed && first.chain == c
            && first.path == path {
            1nat
        } else {
            0nat
        }) + (if second.timed && second.chain == c && second.path == path {
            1nat
        } else {
            0nat
        }),
{
    let both = seq![first, second];
    assert(both.drop_last() =~= seq![first]);
    assert(seq![first].drop_last() =~= Seq::empty());
    reveal_with_fuel(timed_runs, 3);
}

proof fn lemma_warm_group_untimed(group: Seq<usize>, n: int, c: int, path: ReductionPath)
    ensures
        timed_runs(warm_group(group, n), c, path) == 0,
    decreases n,
{
    if n > 0 {
        lemma_warm_group_untimed(group, n - 1, c, path);
        lemma_runs_add(warm_group(group, n - 1), warm_pair(group, n - 1), c, path);
        lemma_pair_runs(warm_pair(group, n - 1)[0], warm_pair(group, n - 1)[1], c, path);
    }
}

proof fn lemma_warm_steps_untimed(
    groups: Seq<(usize, Vec<usize>)>,
    warmups: usize,
    n: int,
    c: int,
    path: ReductionPath,
)
    ensures
        timed_runs(warm_steps(groups, warmups, n), c, path) == 0,
    decreases n,
{
    if n > 0 {
        let group = groups[n - 1].1@;
        lemma_warm_steps_untimed(groups, warmups, n - 1, c, path);
        lemma_warm_group_untimed(group, warm_count(group, warmups), c, path);
        lemma_runs_add(
            warm_steps(groups, warmups, n - 1),
            warm_group(group, warm_count(group, warmups)),
            c,
            path,
        );
    }
}

/// How often `c` stands among the first `n` places.
spec fn times_named(group: Seq<usize>, c: int, n: int) -> nat
    decreases n,
{
    if n <= 0 {
        0
    } else {
        times_named(group, c, n - 1) + if group[n - 1] == c {
            1nat
        } else {
            0nat
        }
    }
}

proof fn lemma_timed_group_runs(
    chains: Seq<ReplayChain>,
    group: Seq<usize>,
    n: int,
    c: int,
    path: ReductionPath,
)
    ensures
        timed_runs(timed_group(chains, group, n), c, path) == times_named(group, c, n),
    decreases n,
{
    if n > 0 {
        lemma_timed_group_runs(chains, group, n - 1, c, path);
        let pair = timed_pair(chains, group, n - 1);
        lemma_runs_add(timed_group(chains, group, n - 1), pair, c, path);
        lemma_pair_runs(pair[0], pair[1], c, path);
    }
}

/// A chain stands once among the places of its rows, and nowhere else.
proof fn lemma_places_name_once(chains: Seq<ReplayChain>, m: usize, n: int, c: int)
    requires
        0 <= n <= chains.len() <= usize::MAX,
        0 <= c < chains.len(),
    ensures
        times_named(places(chains, m, n), c, places(chains, m, n).len() as int) == if c < n
            && chains[c].physical_m == m {
            1nat
        } else {
            0nat
        },
    decreases n,
{
    if n > 0 {
        lemma_places_name_once(chains, m, n - 1, c);
        let earlier = places(chains, m, n - 1);
        if chains[n - 1].physical_m == m {
            let here = places(chains, m, n);
            lemma_times_named_prefix(here, earlier, c, earlier.len() as int);
        }
    }
}

proof fn lemma_times_named_prefix(longer: Seq<usize>, shorter: Seq<usize>, c: int, n: int)
    requires
        0 <= n <= shorter.len() <= longer.len(),
        forall|i: int| 0 <= i < n ==> longer[i] == shorter[i],
    ensures
        times_named(longer, c, n) == times_named(shorter, c, n),
    decreases n,
{
    if n > 0 {
        lemma_times_named_prefix(longer, shorter, c, n - 1);
    }
}

proof fn lemma_timed_once(
    chains: Seq<ReplayChain>,
    groups: Seq<(usize, Vec<usize>)>,
    n: int,
    g: int,
    c: int,
    path: ReductionPath,
)
    requires
        is_grouping(groups, chains, chains.len() as int),
        chains.len() <= usize::MAX,
        0 <= c < chains.len(),
        0 <= n <= groups.len(),
        0 <= g < groups.len(),
        groups[g].0 == chains[c].physical_m,
    ensures
        timed_runs(timed_steps(chains, groups, n), c, path) == if g < n {
            1nat
        } else {
            0nat
        },
    decreases n,
{
    if n > 0 {
        lemma_timed_once(chains, groups, n - 1, g, c, path);
        let group = groups[n - 1].1@;
        let within = timed_group(chains, group, group.len() as int);
        lemma_runs_add(timed_steps(chains, groups, n - 1), within, c, path);
        lemma_timed_group_runs(chains, group, group.len() as int, c, path);
        assert(group == places(chains, groups[n - 1].0, chains.len() as int));
        lemma_places_name_once(chains, groups[n - 1].0, chains.len() as int, c);
        if n - 1 < g {
            assert(groups[n - 1].0 < groups[g].0);
        } else if g < n - 1 {
            assert(groups[g].0 < groups[n - 1].0);
        }
    }
}

proof fn lemma_timed_group(chains: Seq<ReplayChain>, group: Seq<usize>, n: int, i: int)
    requires
        0 <= i < n,
    ensures
        timed_group(chains, group, n).len() == 2 * n,
        timed_group(chains, group, n)[2 * i] == timed_pair(chains, group, i)[0],
        timed_group(chains, group, n)[2 * i + 1] == timed_pair(chains, group, i)[1],
    decreases n,
{
    if i < n - 1 {
        lemma_timed_group(chains, group, n - 1, i);
    } else if n > 1 {
        lemma_timed_group(chains, group, n - 1, 0);
    } else {
        assert(timed_group(chains, group, 0).len() == 0);
    }
}

/// The timed runs of a group are fair to both paths: every chain takes one path right
/// behind the other, from the same layer on, and each chain starts with the path that the
/// chain before it ended with. The first starts with the coordinator; where all chains
/// have as many layers, each starts a layer further than the one before.
pub proof fn law_timed_runs_are_fair(
    chains: Seq<ReplayChain>,
    group: Seq<usize>,
    i: int,
    layers: int,
)
    requires
        0 <= i,
        i + 1 < group.len() <= usize::MAX,
        0 < layers,
        chains[group[0] as int].layers@.len() > 0,
        chains[group[i] as int].layers@.len() == layers,
        chains[group[i + 1] as int].layers@.len() == layers,
    ensures
        ({
            let steps = timed_group(chains, group, group.len() as int);
            let first = steps[2 * i];
            let second = steps[2 * i + 1];
            let next = steps[2 * i + 2];
            &&& steps.len() == 2 * group.len()
            &&& steps[0].path == ReductionPath::Coordinator
            &&& steps[0].layer_rotation == 0
            &&& first.timed && second.timed
            &&& first.chain == group[i] && second.chain == group[i]
            &&& first.path != second.path && next.path == second.path
            &&& first.path_order == 0 && second.path_order == 1
            &&& first.layer_rotation == second.layer_rotation
            &&& first.layer_rotation < layers
            &&& next.layer_rotation == if first.layer_rotation + 1 < layers {
                first.layer_rotation + 1
            } else {
                0
            }
        }),
{
    let n = group.len() as int;
    lemma_timed_group(chains, group, n, i);
    lemma_timed_group(chains, group, n, i + 1);
    lemma_timed_group(chains, group, n, 0);
    vstd::arithmetic::div_mod::lemma_mod_bound(i, layers);
    vstd::arithmetic::div_mod::lemma_fundamental_div_mod(i, layers);
    let q = i / layers;
    let rest = i % layers;
    if rest + 1 < layers {
        vstd::arithmetic::div_mod::lemma_fundamental_div_mod_converse(i + 1, layers, q, rest + 1);
    } else {
        assert(layers * q + layers == layers * (q + 1)) by (nonlinear_arith);
        vstd::arithmetic::div_mod::lemma_fundamental_div_mod_converse(i + 1, layers, q + 1, 0);
    }
    vstd::arithmetic::div_mod::lemma_small_mod(0, chains[group[0] as int].layers@.len());
}

proof fn lemma_warm_group(group: Seq<usize>, n: int, i: int)
    requires
        0 <= i < n,
    ensures
        warm_group(group, n).len() == 2 * n,
        warm_group(group, n)[2 * i] == warm_pair(group, i)[0],
        warm_group(group, n)[2 * i + 1] == warm_pair(group, i)[1],
    decreases n,
{
    if i < n - 1 {
        lemma_warm_group(group, n - 1, i);
    } else if n > 1 {
        lemma_warm_group(group, n - 1, 0);
    } else {
        assert(warm_group(group, 0).len() == 0);
    }
}

/// The first `warmups` chains of a group warm up, all of them where it has no more: each
/// takes both paths once, untimed and from the first layer on.
pub proof fn law_first_chains_warm_up(group: Seq<usize>, warmups: usize, i: int)
    requires
        0 <= i < group.len(),
    ensures
        ({
            let steps = warm_group(group, warm_count(group, warmups));
            &&& i < warmups <==> 2 * i + 1 < steps.len()
            &&& i < warmups ==> {
                &&& steps[2 * i].chain == group[i] && steps[2 * i + 1].chain == group[i]
                &&& !steps[2 * i].timed && !steps[2 * i + 1].timed
                &&& steps[2 * i].path != steps[2 * i + 1].path
                &&& steps[2 * i].layer_rotation == 0 && steps[2 * i + 1].layer_rotation == 0
                &&& steps[2 * i].path_order == 0 && steps[2 * i + 1].path_order == 1
            }
        }),
{
    let n = warm_count(group, warmups);
    if n > 0 {
        lemma_warm_group(group, n, 0);
    } else {
        assert(warm_group(group, n).len() == 0);
    }
    if i < warmups {
        lemma_warm_group(group, n, i);
    }
}

/// Chains are ordered by their rows first and then by their names, byte by byte: of two
/// chains one comes before the other, or they have the same rows and the same name, and
/// the order goes through.
pub proof fn law_chain_order_is_total(a: ReplayChain, b: ReplayChain, c: ReplayChain)
    ensures
        key_before(key(a), key(b)) || key_before(key(b), key(a)) || key(a) == key(b),
        !(key_before(key(a), key(b)) && key_before(key(b), key(a))),
        !key_before(key(a), key(a)),
        key_before(key(a), key(b)) && key_before(key(b), key(c)) ==> key_before(key(a), key(c)),
        a.physical_m < b.physical_m ==> key_before(key(a), key(b)),
        key(a) == key(b) ==> a.physical_m == b.physical_m && utf8::encode_utf8(a.chain_id@)
            == utf8::encode_utf8(b.chain_id@),
{
    lemma_key_total(key(a), key(b));
    lemma_key_total(key(a), key(a));
    if key_before(key(a), key(b)) && key_before(key(b), key(a)) {
        lemma_key_transitive(key(a), key(b), key(a));
    }
    if key_before(key(a), key(b)) && key_before(key(b), key(c)) {
        lemma_key_transitive(key(a), key(b), key(c));
    }
}

} // verus!
