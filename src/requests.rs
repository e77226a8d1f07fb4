//! What clients send: control actions on units, and the filters and options
//! of the discovery and log queries.
use vstd::prelude::*;
use crate::discovery::InfoView;
use crate::quadlet::{QuadletInfo, QuadletStatus};
use crate::quadlet_type::{kind_for_token, QuadletType};
use crate::text::same_text;

verus! {

/// Log lines returned when the query names no count.
pub const DEFAULT_LOG_LINES: u32 = 50;

/// A control action requested on a unit, by name: `start`, `stop`,
/// `restart` or `daemon-reload`.
#[derive(Debug, Clone)]
pub struct ActionRequest {
    pub action: String,
}

/// Optional filters on a discovery report: a kind (its extension token) and
/// a status name (in any letter case).
#[derive(Debug, Clone)]
pub struct DiscoverQuery {
    pub kind: Option<String>,
    pub status: Option<String>,
}

/// How many log lines to return.
#[derive(Debug, Clone)]
pub struct LogsQuery {
    pub lines: Option<u32>,
}

/// The control actions on a unit.
#[derive(Debug, Clone, Copy, PartialEq, Eq, Structural)]
pub enum UnitAction {
    Start,
    Stop,
    Restart,
    DaemonReload,
}

pub open spec fn action_named(s: Seq<char>) -> Option<UnitAction> {
    if s == "start"@ {
        Some(UnitAction::Start)
    } else if s == "stop"@ {
        Some(UnitAction::Stop)
    } else if s == "restart"@ {
        Some(UnitAction::Restart)
    } else if s == "daemon-reload"@ {
        Some(UnitAction::DaemonReload)
    } else {
        None
    }
}

/// The status whose lowercase name is `s`.
pub open spec fn status_named_spec(s: Seq<char>) -> Option<QuadletStatus> {
    if s == "active"@ {
        Some(QuadletStatus::Active)
    } else if s == "inactive"@ {
        Some(QuadletStatus::Inactive)
    } else if s == "failed"@ {
        Some(QuadletStatus::Failed)
    } else if s == "activating"@ {
        Some(QuadletStatus::Activating)
    } else if s == "deactivating"@ {
        Some(QuadletStatus::Deactivating)
    } else if s == "unknown"@ {
        Some(QuadletStatus::Unknown)
    } else {
        None
    }
}

/// What `str::to_lowercase` gives for a text.
pub uninterp spec fn lower_of(s: Seq<char>) -> Seq<char>;

/// Relies on `str::to_lowercase`: the lowercase mapping of each character,
/// which depends on the characters alone.
#[verifier::external_body]
fn lowercase(s: &str) -> (r: String)
    ensures
        r@ == lower_of(s@),
{
    s.to_lowercase()
}

/// Whether a reported entry passes the filters: of kind `kind` and with
/// status `status`, each where given.
pub open spec fn passes(i: InfoView, kind: Option<QuadletType>, status: Option<QuadletStatus>) -> bool {
    &&& kind matches Some(k) ==> i.1 == k
    &&& status matches Some(s) ==> i.2 == Some(s)
}

/// The entries of `s` that pass the filters, in order.
pub open spec fn filtered(
    s: Seq<InfoView>,
    kind: Option<QuadletType>,
    status: Option<QuadletStatus>,
) -> Seq<InfoView>
    decreases s.len(),
{
    if s.len() == 0 {
        Seq::empty()
    } else {
        let prev = filtered(s.drop_last(), kind, status);
        if passes(s.last(), kind, status) {
            prev.push(s.last())
        } else {
            prev
        }
    }
}

impl UnitAction {
    /// The action named `name`; `None` for an unsupported one.
    pub fn from_name(name: &str) -> (r: Option<UnitAction>)
        ensures
            r == action_named(name@),
    {
        if same_text(name, "start") {
            Some(UnitAction::Start)
        } else if same_text(name, "stop") {
            Some(UnitAction::Stop)
        } else if same_text(name, "restart") {
            Some(UnitAction::Restart)
        } else if same_text(name, "daemon-reload") {
            Some(UnitAction::DaemonReload)
        } else {
            None
        }
    }
}

impl LogsQuery {
    /// The number of lines asked for, or `DEFAULT_LOG_LINES`.
    pub fn line_count(&self) -> (r: u32)
        ensures
            r == match self.lines {
                Some(n) => n,
                None => DEFAULT_LOG_LINES,
            },
    {
        match self.lines {
            Some(n) => n,
            None => DEFAULT_LOG_LINES,
        }
    }
}

/// The status whose lowercase name is `name`.
pub fn status_named(name: &str) -> (r: Option<QuadletStatus>)
    ensures
        r == status_named_spec(name@),
{
    if same_text(name, "active") {
        Some(QuadletStatus::Active)
    } else if same_text(name, "inactive") {
        Some(QuadletStatus::Inactive)
    } else if same_text(name, "failed") {
        Some(QuadletStatus::Failed)
    } else if same_text(name, "activating") {
        Some(QuadletStatus::Activating)
    } else if same_text(name, "deactivating") {
        Some(QuadletStatus::Deactivating)
    } else if same_text(name, "unknown") {
        Some(QuadletStatus::Unknown)
    } else {
        None
    }
}

fn copy_info(q: &QuadletInfo) -> (r: QuadletInfo)
    ensures
        r@ == q@,
{
    QuadletInfo { name: q.name.clone(), kind: q.kind, status: q.status }
}

/// The entries of `list` that pass the filters, in order.
pub fn filter_quadlets(
    list: &Vec<QuadletInfo>,
    kind: Option<QuadletType>,
    status: Option<QuadletStatus>,
) -> (r: Vec<QuadletInfo>)
    ensures
        r@.map_values(|q: QuadletInfo| q@) == filtered(
            list@.map_values(|q: QuadletInfo| q@),
            kind,
            status,
        ),
{
    let ghost s = list@.map_values(|q: QuadletInfo| q@);
    let mut r: Vec<QuadletInfo> = Vec::new();
    let mut i: usize = 0;
    while i < list.len()
        invariant
            i <= list@.len(),
            s == list@.map_values(|q: QuadletInfo| q@),
            r@.map_values(|q: QuadletInfo| q@) == filtered(s.subrange(0, i as int), kind, status),
        decreases list@.len() - i,
    {
        let q = &list[i];
        assert(s.subrange(0, i + 1).drop_last() =~= s.subrange(0, i as int));
        assert(s.subrange(0, i + 1).last() == q@);
        let kind_ok = match kind {
            Some(k) => q.kind == k,
            None => true,
        };
        let status_ok = match status {
            Some(st) => match q.status {
                Some(qs) => qs == st,
                None => false,
            },
            None => true,
        };
        if kind_ok && status_ok {
            let ghost before = r@.map_values(|q: QuadletInfo| q@);
            let c = copy_info(q);
            r.push(c);
            assert(r@.map_values(|q: QuadletInfo| q@) =~= before.push(q@));
        }
        i = i + 1;
    }
    assert(s.subrange(0, i as int) =~= s);
    r
}

impl DiscoverQuery {
    /// The kind to keep: the one whose extension token the query names, if it
    /// is one of the registry's; an unrecognised kind filters nothing.
    pub fn kind_filter(&self) -> (r: Option<QuadletType>)
        ensures
            r == match self.kind {
                Some(k) => kind_for_token(k@),
                None => None,
            },
    {
        match &self.kind {
            Some(k) => QuadletType::from_extension(k.as_str()),
            None => None,
        }
    }

    /// The status to keep: the one the query names, in any letter case; an
    /// unrecognised name filters nothing.
    pub fn status_filter(&self) -> (r: Option<QuadletStatus>)
        ensures
            r == match self.status {
                Some(s) => status_named_spec(lower_of(s@)),
                None => None,
            },
    {
        match &self.status {
            Some(s) => {
                let lowered = lowercase(s.as_str());
                status_named(lowered.as_str())
            },
            None => None,
        }
    }

    /// The entries of a discovery report that pass this query's filters.
    pub fn apply(&self, list: &Vec<QuadletInfo>) -> (r: Vec<QuadletInfo>)
        ensures
            r@.map_values(|q: QuadletInfo| q@) == filtered(
                list@.map_values(|q: QuadletInfo| q@),
                match self.kind {
                    Some(k) => kind_for_token(k@),
                    None => None,
                },
                match self.status {
                    Some(s) => status_named_spec(lower_of(s@)),
                    None => None,
                },
            ),
    {
        let kind = self.kind_filter();
        let status = self.status_filter();
        filter_quadlets(list, kind, status)
    }
}

} // verus!
