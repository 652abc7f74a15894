pub mod command;
pub mod host;
pub mod paths;
pub mod nix;
pub mod systemd;
pub mod procfs;
pub mod filesystem;

use vstd::prelude::*;
use crate::domain::entity::EntityId;
use crate::domain::graph::{EvidenceGraph, GraphView};
use crate::domain::query::{Query, QueryView};
use crate::domain::scan::views;
use crate::domain::text::{debug_quoted, debug_text, owned, text_eq};

verus! {

// ---------------------------------------------------------------------------
// What a backend found
// ---------------------------------------------------------------------------

/// The views of a list of identifiers.
pub open spec fn id_views(v: Seq<EntityId>) -> Seq<Seq<char>> {
    v.map_values(|id: EntityId| id@)
}

/// The mathematical value of a backend's output.
pub struct BackendOutputView {
    pub matches: Seq<Seq<char>>,
    pub incomplete: Seq<Seq<char>>,
}

/// The entities that answer a query and the gaps a backend could not fill.
#[derive(Debug, Clone, Default)]
pub struct BackendOutput {
    pub matches: Vec<EntityId>,
    pub incomplete: Vec<String>,
}

impl View for BackendOutput {
    type V = BackendOutputView;

    open spec fn view(&self) -> BackendOutputView {
        BackendOutputView { matches: id_views(self.matches@), incomplete: views(self.incomplete@) }
    }
}

impl BackendOutput {
    pub fn new() -> (r: Self)
        ensures
            r@.matches == Seq::<Seq<char>>::empty(),
            r@.incomplete == Seq::<Seq<char>>::empty(),
    {
        let r = BackendOutput { matches: Vec::new(), incomplete: Vec::new() };
        assert(r@.matches =~= Seq::<Seq<char>>::empty());
        assert(r@.incomplete =~= Seq::<Seq<char>>::empty());
        r
    }

    pub fn with_match(self, entity_id: EntityId) -> (r: Self)
        ensures
            r@.matches == self@.matches.push(entity_id@),
            r@.incomplete == self@.incomplete,
    {
        let mut r = self;
        let ghost before = r@.matches;
        r.matches.push(entity_id);
        assert(r@.matches =~= before.push(entity_id@));
        r
    }

    pub fn with_incomplete(self, message: String) -> (r: Self)
        ensures
            r@.matches == self@.matches,
            r@.incomplete == self@.incomplete.push(message@),
    {
        let mut r = self;
        let ghost before = r@.incomplete;
        r.incomplete.push(message);
        assert(r@.incomplete =~= before.push(message@));
        r
    }
}

// ---------------------------------------------------------------------------
// How a backend fared
// ---------------------------------------------------------------------------

/// The mathematical value of a backend state.
pub enum BackendStateView {
    Succeeded,
    NotUsed,
    NotImplemented,
    Unavailable,
    Error(Seq<char>),
}

#[derive(Debug, Clone)]
pub enum BackendState {
    Succeeded,
    NotUsed,
    NotImplemented,
    Unavailable,
    Error(String),
}

impl View for BackendState {
    type V = BackendStateView;

    open spec fn view(&self) -> BackendStateView {
        match self {
            BackendState::Succeeded => BackendStateView::Succeeded,
            BackendState::NotUsed => BackendStateView::NotUsed,
            BackendState::NotImplemented => BackendStateView::NotImplemented,
            BackendState::Unavailable => BackendStateView::Unavailable,
            BackendState::Error(m) => BackendStateView::Error(m@),
        }
    }
}

impl PartialEq for BackendState {
    fn eq(&self, other: &Self) -> (r: bool) {
        match (self, other) {
            (BackendState::Succeeded, BackendState::Succeeded) => true,
            (BackendState::NotUsed, BackendState::NotUsed) => true,
            (BackendState::NotImplemented, BackendState::NotImplemented) => true,
            (BackendState::Unavailable, BackendState::Unavailable) => true,
            (BackendState::Error(a), BackendState::Error(b)) => text_eq(a.as_str(), b.as_str()),
            _ => false,
        }
    }
}

impl Eq for BackendState {}

impl vstd::std_specs::cmp::PartialEqSpecImpl for BackendState {
    open spec fn obeys_eq_spec() -> bool {
        true
    }

    open spec fn eq_spec(&self, other: &Self) -> bool {
        self@ == other@
    }
}

/// How a backend state is shown.
pub open spec fn state_display(s: BackendStateView) -> Seq<char> {
    match s {
        BackendStateView::Succeeded => "ok"@,
        BackendStateView::NotUsed => "not used"@,
        BackendStateView::NotImplemented => "not implemented"@,
        BackendStateView::Unavailable => "unavailable"@,
        BackendStateView::Error(m) => m,
    }
}

impl BackendState {
    pub fn as_display(&self) -> (r: &str)
        ensures
            r@ == state_display(self@),
    {
        match self {
            Self::Succeeded => "ok",
            Self::NotUsed => "not used",
            Self::NotImplemented => "not implemented",
            Self::Unavailable => "unavailable",
            Self::Error(message) => message.as_str(),
        }
    }
}

/// The mathematical value of a backend status.
pub struct BackendStatusView {
    pub backend: Seq<char>,
    pub state: BackendStateView,
}

#[derive(Debug, Clone)]
pub struct BackendStatus {
    pub backend: String,
    pub state: BackendState,
}

impl View for BackendStatus {
    type V = BackendStatusView;

    open spec fn view(&self) -> BackendStatusView {
        BackendStatusView { backend: self.backend@, state: self.state@ }
    }
}

impl PartialEq for BackendStatus {
    fn eq(&self, other: &Self) -> (r: bool) {
        text_eq(self.backend.as_str(), other.backend.as_str()) && self.state == other.state
    }
}

impl Eq for BackendStatus {}

impl vstd::std_specs::cmp::PartialEqSpecImpl for BackendStatus {
    open spec fn obeys_eq_spec() -> bool {
        true
    }

    open spec fn eq_spec(&self, other: &Self) -> bool {
        self@ == other@
    }
}

impl BackendStatus {
    pub fn new(backend: &str, state: BackendState) -> (r: Self)
        ensures
            r@ == (BackendStatusView { backend: backend@, state: state@ }),
    {
        BackendStatus { backend: owned(backend), state }
    }
}

// ---------------------------------------------------------------------------
// The system the backends look at
// ---------------------------------------------------------------------------

/// The mathematical value of a system context.
pub struct SystemContextView {
    pub has_systemd: bool,
    pub has_nix_store: bool,
    pub path_env: Option<Seq<char>>,
}

/// What was detected about the system before the backends ran.
#[derive(Debug, Clone)]
pub struct SystemContext {
    pub has_systemd: bool,
    pub has_nix_store: bool,
    pub path_env: Option<String>,
}

impl View for SystemContext {
    type V = SystemContextView;

    open spec fn view(&self) -> SystemContextView {
        SystemContextView {
            has_systemd: self.has_systemd,
            has_nix_store: self.has_nix_store,
            path_env: match &self.path_env {
                Some(p) => Some(p@),
                None => None,
            },
        }
    }
}

impl PartialEq for SystemContext {
    fn eq(&self, other: &Self) -> (r: bool) {
        self.has_systemd == other.has_systemd && self.has_nix_store == other.has_nix_store
            && match (&self.path_env, &other.path_env) {
            (Some(a), Some(b)) => text_eq(a.as_str(), b.as_str()),
            (None, None) => true,
            _ => false,
        }
    }
}

impl Eq for SystemContext {}

impl vstd::std_specs::cmp::PartialEqSpecImpl for SystemContext {
    open spec fn obeys_eq_spec() -> bool {
        true
    }

    open spec fn eq_spec(&self, other: &Self) -> bool {
        self@ == other@
    }
}

// ---------------------------------------------------------------------------
// Backend errors and the backend interface
// ---------------------------------------------------------------------------

/// The mathematical value of a backend error.
pub enum BackendErrorView {
    UnsupportedQuery,
    NotImplemented,
    Failed(Seq<char>),
}

#[derive(Debug, Clone)]
pub enum BackendError {
    UnsupportedQuery,
    NotImplemented,
    Failed(String),
}

impl View for BackendError {
    type V = BackendErrorView;

    open spec fn view(&self) -> BackendErrorView {
        match self {
            BackendError::UnsupportedQuery => BackendErrorView::UnsupportedQuery,
            BackendError::NotImplemented => BackendErrorView::NotImplemented,
            BackendError::Failed(m) => BackendErrorView::Failed(m@),
        }
    }
}

impl PartialEq for BackendError {
    fn eq(&self, other: &Self) -> (r: bool) {
        match (self, other) {
            (BackendError::UnsupportedQuery, BackendError::UnsupportedQuery) => true,
            (BackendError::NotImplemented, BackendError::NotImplemented) => true,
            (BackendError::Failed(a), BackendError::Failed(b)) => text_eq(a.as_str(), b.as_str()),
            _ => false,
        }
    }
}

impl Eq for BackendError {}

impl vstd::std_specs::cmp::PartialEqSpecImpl for BackendError {
    open spec fn obeys_eq_spec() -> bool {
        true
    }

    open spec fn eq_spec(&self, other: &Self) -> bool {
        self@ == other@
    }
}

/// The text `{:?}` writes for a backend error.
pub open spec fn backend_error_debug(e: BackendErrorView) -> Seq<char> {
    match e {
        BackendErrorView::UnsupportedQuery => "UnsupportedQuery"@,
        BackendErrorView::NotImplemented => "NotImplemented"@,
        BackendErrorView::Failed(m) => "Failed("@ + debug_quoted(m) + ")"@,
    }
}

impl BackendError {
    /// The text `{:?}` writes for this error.
    pub fn debug_string(&self) -> (r: String)
        ensures
            r@ == backend_error_debug(self@),
    {
        match self {
            BackendError::UnsupportedQuery => owned("UnsupportedQuery"),
            BackendError::NotImplemented => owned("NotImplemented"),
            BackendError::Failed(m) => {
                let mut r = owned("Failed(");
                r.append(debug_text(m.as_str()).as_str());
                r.append(")");
                r
            },
        }
    }
}

/// The view of a backend result.
pub open spec fn backend_result_view(r: Result<BackendOutput, BackendError>) -> Result<BackendOutputView, BackendErrorView> {
    match r {
        Ok(o) => Ok(o@),
        Err(e) => Err(e@),
    }
}

/// A source of evidence about the system.
pub trait Backend {
    /// The name of the backend.
    spec fn spec_name(&self) -> Seq<char>;

    /// Whether the backend takes part in answering this query.
    spec fn spec_supports(&self, query: QueryView) -> bool;

    fn name(&self) -> (r: &'static str)
        ensures
            r@ == self.spec_name(),
    ;

    /// Whether `r` is an answer this backend may give when asked whether it
    /// can run on a system described by `context`.
    spec fn spec_detected(&self, context: SystemContextView, r: bool) -> bool;

    /// Whether turning graph `before` into `after` with result `r` is what
    /// this backend may do for `query`, whatever the system reported.
    spec fn spec_investigated(
        &self,
        query: QueryView,
        before: GraphView,
        after: GraphView,
        r: Result<BackendOutputView, BackendErrorView>,
    ) -> bool;

    fn detect(&self, context: &SystemContext) -> (r: bool)
        ensures
            self.spec_detected(context@, r),
    ;

    fn supports(&self, query: &Query) -> (r: bool)
        ensures
            r == self.spec_supports(query@),
    ;

    fn investigate(
        &self,
        query: &Query,
        graph: &mut EvidenceGraph,
    ) -> (r: Result<BackendOutput, BackendError>)
        ensures
            self.spec_investigated(query@, old(graph)@, final(graph)@, backend_result_view(r)),
    ;
}

} // verus!
