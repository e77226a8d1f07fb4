//! Status reconciliation: how the live activation state of a unit maps to a
//! status, and how a listing of the storage directory, with the outcome of
//! each unit query, becomes the set of known files.
use vstd::prelude::*;
use crate::quadlet::{artifact_of, classify_file_name, QuadletInfo, QuadletStatus};
use crate::quadlet_type::QuadletType;
use crate::text::same_text;

verus! {

/// The outcome of a unit query as text: the raw activation state, or `None`
/// when the query failed (no such unit, transport failure, timeout).
pub open spec fn opt_text(o: Option<String>) -> Option<Seq<char>> {
    match o {
        Some(s) => Some(s@),
        None => None,
    }
}

/// The unit that a file named `name` generates.
pub open spec fn unit_name_of(name: Seq<char>) -> Seq<char> {
    name + ".service"@
}

/// The status that a raw activation state stands for.
pub open spec fn status_for_state(raw: Seq<char>) -> QuadletStatus {
    if raw == "active"@ || raw == "reloading"@ || raw == "activating"@ {
        QuadletStatus::Active
    } else if raw == "inactive"@ || raw == "deactivating"@ {
        QuadletStatus::Inactive
    } else if raw == "failed"@ {
        QuadletStatus::Failed
    } else {
        QuadletStatus::Unknown
    }
}

/// The status after a unit query: a failed query means the unit is not live.
pub open spec fn status_after_query(outcome: Option<Seq<char>>) -> QuadletStatus {
    match outcome {
        Some(raw) => status_for_state(raw),
        None => QuadletStatus::Inactive,
    }
}

/// The status of a file of kind `kind`: only kinds with a service unit are
/// queried; the others are `Unknown`.
pub open spec fn reconciled_status(kind: QuadletType, outcome: Option<Seq<char>>) -> QuadletStatus {
    if kind == QuadletType::Container {
        status_after_query(outcome)
    } else {
        QuadletStatus::Unknown
    }
}

/// The unit name for a file named `name`.
pub fn unit_name(name: &str) -> (r: String)
    ensures
        r@ == unit_name_of(name@),
{
    let mut r = name.to_owned();
    r.append(".service");
    r
}

/// The status that a raw activation state stands for.
pub fn map_active_state(raw: &str) -> (r: QuadletStatus)
    ensures
        r == status_for_state(raw@),
{
    if same_text(raw, "active") || same_text(raw, "reloading") || same_text(raw, "activating") {
        QuadletStatus::Active
    } else if same_text(raw, "inactive") || same_text(raw, "deactivating") {
        QuadletStatus::Inactive
    } else if same_text(raw, "failed") {
        QuadletStatus::Failed
    } else {
        QuadletStatus::Unknown
    }
}

/// The status after a unit query whose outcome is `outcome`.
pub fn status_from_query(outcome: &Option<String>) -> (r: QuadletStatus)
    ensures
        r == status_after_query(opt_text(*outcome)),
{
    match outcome {
        Some(raw) => map_active_state(raw.as_str()),
        None => QuadletStatus::Inactive,
    }
}

/// The status of a file of kind `kind`, given the outcome of its unit query.
pub fn reconcile_status(kind: QuadletType, outcome: &Option<String>) -> (r: QuadletStatus)
    ensures
        r == reconciled_status(kind, opt_text(*outcome)),
{
    if kind.has_service_unit() {
        status_from_query(outcome)
    } else {
        QuadletStatus::Unknown
    }
}

/// The unit to query for the file named `file_name`: present exactly when the
/// file is of a kind that has a service unit.
pub fn unit_to_query(file_name: &str) -> (r: Option<String>)
    ensures
        match artifact_of(file_name@) {
            Some((n, k)) => if k == QuadletType::Container {
                r matches Some(u) && u@ == unit_name_of(n)
            } else {
                r is None
            },
            None => r is None,
        },
{
    match classify_file_name(file_name) {
        Some((name, kind)) => {
            if kind.has_service_unit() {
                Some(unit_name(name.as_str()))
            } else {
                None
            }
        },
        None => None,
    }
}

/// One entry of the storage directory, with the outcome of its unit query
/// (`None` when none was made or it failed).
#[derive(Debug, Clone)]
pub struct FileProbe {
    pub file_name: String,
    pub active_state: Option<String>,
}

pub type ProbeView = (Seq<char>, Option<Seq<char>>);

pub type InfoView = (Seq<char>, QuadletType, Option<QuadletStatus>);

impl View for FileProbe {
    type V = ProbeView;

    open spec fn view(&self) -> ProbeView {
        (self.file_name@, opt_text(self.active_state))
    }
}

impl View for QuadletInfo {
    type V = InfoView;

    open spec fn view(&self) -> InfoView {
        (self.name@, self.kind, self.status)
    }
}

/// What discovery reports for the probes `ps`, in their order: one entry per
/// file whose extension is the registry's, with its reconciled status; other
/// files are skipped.
pub open spec fn discovered(ps: Seq<ProbeView>) -> Seq<InfoView>
    decreases ps.len(),
{
    if ps.len() == 0 {
        Seq::empty()
    } else {
        let prev = discovered(ps.drop_last());
        match artifact_of(ps.last().0) {
            Some((n, k)) => prev.push((n, k, Some(reconciled_status(k, ps.last().1)))),
            None => prev,
        }
    }
}

/// The set of (name, kind) pairs among `infos`.
pub open spec fn identities(infos: Seq<InfoView>) -> Set<(Seq<char>, QuadletType)> {
    Set::new(|x: (Seq<char>, QuadletType)| exists|i: int| 0 <= i < infos.len() && (infos[i].0, infos[i].1) == x)
}

/// The set of file names among `ps`.
pub open spec fn file_names(ps: Seq<ProbeView>) -> Set<Seq<char>> {
    Set::new(|f: Seq<char>| exists|i: int| 0 <= i < ps.len() && ps[i].0 == f)
}

/// Builds the discovery report from a directory listing and the outcomes of
/// the unit queries.
pub fn discover(probes: &Vec<FileProbe>) -> (r: Vec<QuadletInfo>)
    ensures
        r@.map_values(|q: QuadletInfo| q@) == discovered(probes@.map_values(|p: FileProbe| p@)),
{
    let ghost ps = probes@.map_values(|p: FileProbe| p@);
    let mut r: Vec<QuadletInfo> = Vec::new();
    let mut i: usize = 0;
    while i < probes.len()
        invariant
            i <= probes@.len(),
            ps == probes@.map_values(|p: FileProbe| p@),
            r@.map_values(|q: QuadletInfo| q@) == discovered(ps.subrange(0, i as int)),
        decreases probes@.len() - i,
    {
        let probe = &probes[i];
        let ghost before = r@.map_values(|q: QuadletInfo| q@);
        assert(ps.subrange(0, i + 1).drop_last() =~= ps.subrange(0, i as int));
        assert(ps.subrange(0, i + 1).last() == probe@);
        match classify_file_name(probe.file_name.as_str()) {
            Some((name, kind)) => {
                let status = reconcile_status(kind, &probe.active_state);
                let info = QuadletInfo { name, kind, status: Some(status) };
                r.push(info);
                assert(r@.map_values(|q: QuadletInfo| q@) =~= before.push(info@));
            },
            None => {},
        }
        i = i + 1;
    }
    assert(ps.subrange(0, i as int) =~= ps);
    r
}

proof fn lemma_identities_discovered(ps: Seq<ProbeView>, x: (Seq<char>, QuadletType))
    ensures
        identities(discovered(ps)).contains(x) <==> exists|i: int|
            0 <= i < ps.len() && artifact_of(#[trigger] ps[i].0) == Some(x),
    decreases ps.len(),
{
    if ps.len() > 0 {
        let init = ps.drop_last();
        lemma_identities_discovered(init, x);
        let prev = discovered(init);
        let cur = discovered(ps);
        if identities(cur).contains(x) {
            let i = choose|i: int| 0 <= i < cur.len() && (cur[i].0, cur[i].1) == x;
            if i < prev.len() {
                assert(cur[i] == prev[i]);
                assert(identities(prev).contains(x));
                let j = choose|j: int| 0 <= j < init.len() && artifact_of(#[trigger] init[j].0) == Some(x);
                assert(init[j] == ps[j]);
            } else {
                assert(artifact_of(ps[ps.len() - 1].0) == Some(x));
            }
        }
        if exists|i: int| 0 <= i < ps.len() && artifact_of(#[trigger] ps[i].0) == Some(x) {
            let i = choose|i: int| 0 <= i < ps.len() && artifact_of(#[trigger] ps[i].0) == Some(x);
            if i < init.len() {
                assert(init[i] == ps[i]);
                assert(identities(prev).contains(x));
                let j = choose|j: int| 0 <= j < prev.len() && (prev[j].0, prev[j].1) == x;
                assert(cur[j] == prev[j]);
                assert(identities(cur).contains(x));
            } else {
                assert(cur.last().0 == x.0 && cur.last().1 == x.1);
                assert(identities(cur).contains(x));
            }
        }
    }
}

/// Discovery reports exactly the files of the library: the (name, kind) pairs
/// it reports are those of the listed files whose extension is registered
/// (see `lemma_artifact_of_file_name`), each with a status, and any other
/// file is skipped.
pub proof fn lemma_discovery_scoping(ps: Seq<ProbeView>)
    ensures
        identities(discovered(ps)) == Set::new(
            |x: (Seq<char>, QuadletType)|
                exists|i: int| 0 <= i < ps.len() && artifact_of(#[trigger] ps[i].0) == Some(x),
        ),
        forall|j: int| 0 <= j < discovered(ps).len() ==> (#[trigger] discovered(ps)[j]).2 is Some,
    decreases ps.len(),
{
    assert forall|x: (Seq<char>, QuadletType)|
        identities(discovered(ps)).contains(x) == (exists|i: int|
            0 <= i < ps.len() && artifact_of(#[trigger] ps[i].0) == Some(x)) by {
        lemma_identities_discovered(ps, x);
    }
    assert(identities(discovered(ps)) =~= Set::new(
        |x: (Seq<char>, QuadletType)|
            exists|i: int| 0 <= i < ps.len() && artifact_of(#[trigger] ps[i].0) == Some(x),
    ));
    if ps.len() > 0 {
        lemma_discovery_scoping(ps.drop_last());
    }
}

/// Discovery depends only on which files are present: two listings with the
/// same file names, in any order and whatever the outcomes of their unit
/// queries, report the same set of (name, kind) pairs.
pub proof fn lemma_discovery_stable(a: Seq<ProbeView>, b: Seq<ProbeView>)
    requires
        file_names(a) == file_names(b),
    ensures
        identities(discovered(a)) == identities(discovered(b)),
{
    assert forall|x: (Seq<char>, QuadletType)|
        identities(discovered(a)).contains(x) <==> identities(discovered(b)).contains(x) by {
        lemma_identities_discovered(a, x);
        lemma_identities_discovered(b, x);
        if exists|i: int| 0 <= i < a.len() && artifact_of(#[trigger] a[i].0) == Some(x) {
            let i = choose|i: int| 0 <= i < a.len() && artifact_of(#[trigger] a[i].0) == Some(x);
            assert(file_names(a).contains(a[i].0));
            assert(file_names(b).contains(a[i].0));
            let j = choose|j: int| 0 <= j < b.len() && b[j].0 == a[i].0;
            assert(artifact_of(b[j].0) == Some(x));
        }
        if exists|i: int| 0 <= i < b.len() && artifact_of(#[trigger] b[i].0) == Some(x) {
            let i = choose|i: int| 0 <= i < b.len() && artifact_of(#[trigger] b[i].0) == Some(x);
            assert(file_names(b).contains(b[i].0));
            assert(file_names(a).contains(b[i].0));
            let j = choose|j: int| 0 <= j < a.len() && a[j].0 == b[i].0;
            assert(artifact_of(a[j].0) == Some(x));
        }
    }
    assert(identities(discovered(a)) =~= identities(discovered(b)));
}

} // verus!
