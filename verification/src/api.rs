//! The dispatch tree and the walk that drives it.
//!
//! A request's path is consumed one segment per descent.  Each node holds an
//! action, executed on arrival, and a routing table that resolves the
//! current segment to the next node.  At a routing node, a segment with no
//! matching branch resolves to the canonical not-found leaf, so every
//! request is answered; an empty segment, running out of segments, or
//! reaching a node with no branches at all ends the walk.
//!
//! The whole walk is pinned by spec functions over the tree's view: which
//! actions run (`walk_trace`), where the walk ends (`walk_terminal`), and
//! what is written, stored and announced along the way.

use vstd::prelude::*;

use crate::body::HttpBody;
use crate::body::TextBody;
use crate::errors::NinoverseApiError;
use crate::http_handler::Request;
use crate::http_handler::Response;
use crate::http_handler::extract_uri_pieces_vector;
use crate::http_handler::spec_render_response;
use crate::http_handler::spec_segments;
use crate::http_handler::write_to_stream;
use crate::links::EventSink;
use crate::links::OutputLink;
use crate::links::StoreLink;
use crate::text::str_eq;

verus! {

/// What a dispatch node does when the walk arrives on it.
#[derive(Clone, Copy, Debug, PartialEq, Eq, Structural)]
pub enum ActionKind {
    /// The root action: announce the request to the side-effect sink and,
    /// for the bare root path, write the greeting response.
    Greet,
    /// No effect; the node only routes further.
    PassThrough,
    /// Insert the new project record, then confirm with a success response.
    AddProject,
    /// Write the not-found response; the canonical terminal leaf.
    NotFound,
}

/// The mathematical shape of a dispatch node: its action and its routing
/// table, segment by segment.
#[verifier::ext_equal]
pub ghost struct SectionView {
    pub action: ActionKind,
    pub routes: Seq<(Seq<char>, SectionView)>,
}

/// One branch of a dispatch node: a segment and the node it leads to.
pub struct Route {
    pub segment: String,
    pub child: UriSection,
}

/// One dispatch node: an action and the branches below it.
pub struct UriSection {
    pub action: ActionKind,
    pub routes: Vec<Route>,
}

/// The view of a dispatch node.
pub open spec fn section_view(s: UriSection) -> SectionView
    decreases s,
    via section_view_decreases
{
    SectionView {
        action: s.action,
        routes: Seq::new(
            s.routes@.len(),
            |i: int|
                if 0 <= i < s.routes@.len() {
                    (s.routes@[i].segment@, section_view(s.routes@[i].child))
                } else {
                    (Seq::empty(), SectionView { action: ActionKind::NotFound, routes: Seq::empty() })
                },
        ),
    }
}

#[via_fn]
proof fn section_view_decreases(s: UriSection) {
    assert forall|i: int| 0 <= i < s.routes@.len() implies decreases_to!(s => s.routes@[i].child) by {
        assert(decreases_to!(s => s.routes));
        assert(decreases_to!(s.routes => s.routes@));
        assert(decreases_to!(s.routes@ => s.routes@[i]));
        assert(decreases_to!(s.routes@[i] => s.routes@[i].child));
    }
}

impl View for UriSection {
    type V = SectionView;

    open spec fn view(&self) -> SectionView {
        section_view(*self)
    }
}

/// The first branch of `routes` labelled `seg`, if any.
pub open spec fn lookup_view(routes: Seq<(Seq<char>, SectionView)>, seg: Seq<char>) -> Option<
    SectionView,
>
    decreases routes.len(),
{
    if routes.len() == 0 {
        None
    } else if routes[0].0 == seg {
        Some(routes[0].1)
    } else {
        lookup_view(routes.drop_first(), seg)
    }
}

/// What consulting a node's resolver does next.
#[verifier::ext_equal]
pub ghost enum Resolution {
    /// The walk ends here: no segment is left, the segment is the empty
    /// root token, or the node is terminal (the not-found leaf, or any
    /// node with no branches).
    Terminate,
    /// The walk descends into the matched branch.
    Descend(SectionView),
    /// No branch matches: the walk descends into the not-found leaf.
    NotFoundFallback,
}

/// How the node `v` resolves the segment at `i`.  A node without
/// branches is a terminal leaf: its resolver yields no further node,
/// whatever segments remain; only a routing node that fails to match a
/// segment falls back to the not-found leaf.
pub open spec fn spec_resolve(v: SectionView, segs: Seq<Seq<char>>, i: int) -> Resolution {
    if v.action is NotFound {
        Resolution::Terminate
    } else if i < 0 || i >= segs.len() {
        Resolution::Terminate
    } else if segs[i].len() == 0 {
        Resolution::Terminate
    } else if v.routes.len() == 0 {
        Resolution::Terminate
    } else {
        match lookup_view(v.routes, segs[i]) {
            Some(c) => Resolution::Descend(c),
            None => Resolution::NotFoundFallback,
        }
    }
}

/// The actions a walk from node `v` at segment `i` executes, in order.
/// Every walk runs the current node's action; a fallback runs the
/// not-found action and stops; a descent consumes one segment.
pub open spec fn walk_trace(v: SectionView, segs: Seq<Seq<char>>, i: int) -> Seq<ActionKind>
    decreases segs.len() - i,
{
    match spec_resolve(v, segs, i) {
        Resolution::Terminate => seq![v.action],
        Resolution::NotFoundFallback => seq![v.action, ActionKind::NotFound],
        Resolution::Descend(c) => seq![v.action] + walk_trace(c, segs, i + 1),
    }
}

/// The canonical not-found leaf.
pub open spec fn not_found_view() -> SectionView {
    SectionView { action: ActionKind::NotFound, routes: Seq::empty() }
}

/// The node on which a walk from `v` at segment `i` ends.
pub open spec fn walk_terminal(v: SectionView, segs: Seq<Seq<char>>, i: int) -> SectionView
    decreases segs.len() - i,
{
    match spec_resolve(v, segs, i) {
        Resolution::Terminate => v,
        Resolution::NotFoundFallback => not_found_view(),
        Resolution::Descend(c) => walk_terminal(c, segs, i + 1),
    }
}

/// The builder of the not-found leaf, whose action answers any request
/// with the not-found response.
pub fn get_404_handler() -> (n: UriSection)
    ensures
        n@ == not_found_view(),
{
    let n = UriSection { action: ActionKind::NotFound, routes: Vec::new() };
    proof {
        assert(n@.routes =~= not_found_view().routes);
        assert(n@ == not_found_view());
    }
    n
}

/// The view of the project-creation leaf.
pub open spec fn add_project_view() -> SectionView {
    SectionView { action: ActionKind::AddProject, routes: Seq::empty() }
}

/// The builder of the project-creation leaf.
pub fn get_add_project_handler() -> (n: UriSection)
    ensures
        n@ == add_project_view(),
{
    let n = UriSection { action: ActionKind::AddProject, routes: Vec::new() };
    proof {
        assert(n@.routes =~= add_project_view().routes);
        assert(n@ == add_project_view());
    }
    n
}

/// The view of the project branch: no effect of its own, one branch that
/// descends on `add`.
pub open spec fn project_view() -> SectionView {
    SectionView { action: ActionKind::PassThrough, routes: seq![("add"@, add_project_view())] }
}

/// The builder of the project branch.
pub fn get_project_handler() -> (n: UriSection)
    ensures
        n@ == project_view(),
{
    let mut routes: Vec<Route> = Vec::new();
    routes.push(Route { segment: String::from_str("add"), child: get_add_project_handler() });
    let n = UriSection { action: ActionKind::PassThrough, routes };
    proof {
        assert(n@.routes =~= seq![("add"@, add_project_view())]);
        assert(n@ == project_view());
    }
    n
}

/// The view of the whole dispatch tree: the root greets, and one branch
/// descends on `project`.
pub open spec fn configuration_view() -> SectionView {
    SectionView { action: ActionKind::Greet, routes: seq![("project"@, project_view())] }
}

/// The builder of the dispatch tree.  It takes nothing per request; every
/// connection walks the same immutable description.
pub fn get_configuration() -> (n: UriSection)
    ensures
        n@ == configuration_view(),
{
    let mut routes: Vec<Route> = Vec::new();
    routes.push(Route { segment: String::from_str("project"), child: get_project_handler() });
    let n = UriSection { action: ActionKind::Greet, routes };
    proof {
        assert(n@.routes =~= seq![("project"@, project_view())]);
        assert(n@ == configuration_view());
    }
    n
}

/// Whether a request's path is the bare root.
pub open spec fn spec_is_root_path(path: Seq<char>) -> bool {
    path == "/"@
}

/// The message the root action hands to the side-effect sink.
pub open spec fn greet_event() -> (Seq<char>, Seq<char>) {
    ("base_endpoint"@, "Received a message!"@)
}

/// The wire text of the root greeting response.
pub open spec fn greet_response_text() -> Seq<char> {
    spec_render_response(200, Seq::empty(), seq!['"'] + "Hello world!"@ + seq!['"'])
}

/// The statement the project-creation action runs against the store.
pub open spec fn add_project_statement() -> Seq<char> {
    "INSERT INTO projects (name, description) VALUES ('New Project', 'Project Description')"@
}

/// The wire text of the project-creation success response.
pub open spec fn added_response_text() -> Seq<char> {
    spec_render_response(200, Seq::empty(), seq!['"'] + "Project added."@ + seq!['"'])
}

/// The wire text of the not-found response.
pub open spec fn not_found_response_text() -> Seq<char> {
    spec_render_response(404, Seq::empty(), seq!['"'] + "No endpoint available."@ + seq!['"'])
}

/// What one action writes to the stream when it succeeds.  The root
/// greeting is written only for the bare root path.
pub open spec fn action_output(kind: ActionKind, root_path: bool) -> Seq<char> {
    match kind {
        ActionKind::Greet => if root_path {
            greet_response_text()
        } else {
            Seq::empty()
        },
        ActionKind::PassThrough => Seq::empty(),
        ActionKind::AddProject => added_response_text(),
        ActionKind::NotFound => not_found_response_text(),
    }
}

/// What one action stores when it succeeds.
pub open spec fn action_stores(kind: ActionKind) -> Seq<Seq<char>> {
    match kind {
        ActionKind::AddProject => seq![add_project_statement()],
        _ => Seq::empty(),
    }
}

/// What one action hands to the side-effect sink, whether or not it
/// succeeds.
pub open spec fn action_events(kind: ActionKind) -> Seq<(Seq<char>, Seq<char>)> {
    match kind {
        ActionKind::Greet => seq![greet_event()],
        _ => Seq::empty(),
    }
}

/// Everything a run of the actions `tr` writes to the stream, in order.
pub open spec fn trace_outputs(tr: Seq<ActionKind>, root_path: bool) -> Seq<char>
    decreases tr.len(),
{
    if tr.len() == 0 {
        Seq::empty()
    } else {
        action_output(tr[0], root_path) + trace_outputs(tr.drop_first(), root_path)
    }
}

/// Everything a run of the actions `tr` stores, in order.
pub open spec fn trace_stores(tr: Seq<ActionKind>) -> Seq<Seq<char>>
    decreases tr.len(),
{
    if tr.len() == 0 {
        Seq::empty()
    } else {
        action_stores(tr[0]) + trace_stores(tr.drop_first())
    }
}

/// Everything a run of the actions `tr` hands to the sink, in order.
pub open spec fn trace_events(tr: Seq<ActionKind>) -> Seq<(Seq<char>, Seq<char>)>
    decreases tr.len(),
{
    if tr.len() == 0 {
        Seq::empty()
    } else {
        action_events(tr[0]) + trace_events(tr.drop_first())
    }
}

/// A rendered response is never empty: it starts with the status line.
proof fn lemma_response_text_nonempty(status: int, hs: Seq<(Seq<char>, Seq<char>)>, payload: Seq<char>)
    ensures
        spec_render_response(status, hs, payload).len() > 0,
{
    reveal_strlit("HTTP/1.1 ");
}

/// Issues the store write that records the new project.
pub fn add_project<S: StoreLink>(pool: &mut S) -> (r: Result<(), String>)
    ensures
        r is Ok ==> final(pool).writes() == old(pool).writes().push(add_project_statement()),
        r is Err ==> final(pool).writes() == old(pool).writes(),
        final(pool).infallible() == old(pool).infallible(),
        old(pool).infallible() ==> r is Ok,
{
    pool.execute_write(
        "INSERT INTO projects (name, description) VALUES ('New Project', 'Project Description')",
    )
}

/// Writes the not-found response to the stream.
pub fn handle_404_request<O: OutputLink>(stream: &mut O) -> (r: Result<(), NinoverseApiError>)
    ensures
        r is Ok ==> final(stream).written() == old(stream).written() + not_found_response_text(),
        r is Err ==> final(stream).written() == old(stream).written(),
        final(stream).infallible() == old(stream).infallible(),
        old(stream).infallible() ==> r is Ok,
{
    let response: Response<TextBody> = Response {
        status: 404,
        headers: Vec::new(),
        body: TextBody { text: String::from_str("No endpoint available.") },
    };
    proof {
        assert(response.headers.deep_view() =~= Seq::<(Seq<char>, Seq<char>)>::empty());
        assert(crate::http_handler::spec_response_text(response) =~= not_found_response_text());
    }
    match write_to_stream(stream, response) {
        Ok(_) => Ok(()),
        Err(error) => Err(
            NinoverseApiError::GenericError { original_error: error.describe() },
        ),
    }
}

/// Writes the root greeting response to the stream.
fn write_greeting<O: OutputLink>(stream: &mut O) -> (r: Result<(), NinoverseApiError>)
    ensures
        r is Ok ==> final(stream).written() == old(stream).written() + greet_response_text(),
        r is Err ==> final(stream).written() == old(stream).written(),
        final(stream).infallible() == old(stream).infallible(),
        old(stream).infallible() ==> r is Ok,
{
    let response: Response<TextBody> = Response {
        status: 200,
        headers: Vec::new(),
        body: TextBody { text: String::from_str("Hello world!") },
    };
    proof {
        assert(response.headers.deep_view() =~= Seq::<(Seq<char>, Seq<char>)>::empty());
        assert(crate::http_handler::spec_response_text(response) =~= greet_response_text());
    }
    match write_to_stream(stream, response) {
        Ok(_) => Ok(()),
        Err(error) => Err(
            NinoverseApiError::GenericError { original_error: error.describe() },
        ),
    }
}

/// Writes the project-creation success response to the stream.
fn write_added<O: OutputLink>(stream: &mut O) -> (r: Result<(), NinoverseApiError>)
    ensures
        r is Ok ==> final(stream).written() == old(stream).written() + added_response_text(),
        r is Err ==> final(stream).written() == old(stream).written(),
        final(stream).infallible() == old(stream).infallible(),
        old(stream).infallible() ==> r is Ok,
{
    let response: Response<TextBody> = Response {
        status: 200,
        headers: Vec::new(),
        body: TextBody { text: String::from_str("Project added.") },
    };
    proof {
        assert(response.headers.deep_view() =~= Seq::<(Seq<char>, Seq<char>)>::empty());
        assert(crate::http_handler::spec_response_text(response) =~= added_response_text());
    }
    match write_to_stream(stream, response) {
        Ok(_) => Ok(()),
        Err(error) => Err(
            NinoverseApiError::GenericError { original_error: error.describe() },
        ),
    }
}

/// Runs one action against the request, the store, the stream and the
/// sink.  On failure nothing is written to the stream, and the store holds
/// at most the action's own write; nothing is ever rolled back.
pub fn run_action<B: HttpBody, S: StoreLink, O: OutputLink, K: EventSink>(
    kind: ActionKind,
    request: &Request<B>,
    pool: &mut S,
    stream: &mut O,
    sink: &mut K,
) -> (r: Result<(), NinoverseApiError>)
    ensures
        final(sink).events() == old(sink).events() + action_events(kind),
        r is Ok ==> final(stream).written() == old(stream).written() + action_output(
            kind,
            spec_is_root_path(request.path@),
        ) && final(pool).writes() == old(pool).writes() + action_stores(kind),
        r is Err ==> final(stream).written() == old(stream).written() && (final(pool).writes()
            == old(pool).writes() || final(pool).writes() == old(pool).writes() + action_stores(
            kind,
        )),
        action_output(kind, spec_is_root_path(request.path@)).len() == 0 && action_stores(
            kind,
        ).len() == 0 ==> r is Ok,
        final(pool).infallible() == old(pool).infallible(),
        final(stream).infallible() == old(stream).infallible(),
        old(pool).infallible() && old(stream).infallible() ==> r is Ok,
{
    match kind {
        ActionKind::PassThrough => {
            proof {
                assert(old(sink).events() + action_events(kind) =~= old(sink).events());
                assert(old(stream).written() + action_output(kind, spec_is_root_path(request.path@))
                    =~= old(stream).written());
                assert(old(pool).writes() + action_stores(kind) =~= old(pool).writes());
            }
            Ok(())
        },
        ActionKind::Greet => {
            let _ = sink.notify("base_endpoint", "Received a message!");
            proof {
                assert(sink.events() =~= old(sink).events() + action_events(kind));
                assert(old(pool).writes() + action_stores(kind) =~= old(pool).writes());
            }
            if str_eq(request.path.as_str(), "/") {
                proof {
                    lemma_response_text_nonempty(
                        200,
                        Seq::empty(),
                        seq!['"'] + "Hello world!"@ + seq!['"'],
                    );
                }
                write_greeting(stream)
            } else {
                proof {
                    assert(old(stream).written() + action_output(
                        kind,
                        spec_is_root_path(request.path@),
                    ) =~= old(stream).written());
                }
                Ok(())
            }
        },
        ActionKind::AddProject => {
            proof {
                assert(old(sink).events() + action_events(kind) =~= old(sink).events());
            }
            match add_project(pool) {
                Err(detail) => {
                    proof {
                        assert(action_stores(kind).len() == 1);
                    }
                    Err(NinoverseApiError::GenericError { original_error: detail })
                },
                Ok(_) => {
                    proof {
                        assert(pool.writes() =~= old(pool).writes() + action_stores(kind));
                    }
                    write_added(stream)
                },
            }
        },
        ActionKind::NotFound => {
            proof {
                assert(old(sink).events() + action_events(kind) =~= old(sink).events());
                assert(old(pool).writes() + action_stores(kind) =~= old(pool).writes());
                lemma_response_text_nonempty(
                    404,
                    Seq::empty(),
                    seq!['"'] + "No endpoint available."@ + seq!['"'],
                );
            }
            handle_404_request(stream)
        },
    }
}

/// A one-action trace produces exactly that action's effects.
proof fn lemma_trace_single(k: ActionKind, root: bool)
    ensures
        trace_outputs(seq![k], root) == action_output(k, root),
        trace_stores(seq![k]) == action_stores(k),
        trace_events(seq![k]) == action_events(k),
{
    assert(seq![k].drop_first() =~= Seq::<ActionKind>::empty());
    assert(trace_outputs(Seq::<ActionKind>::empty(), root) == Seq::<char>::empty());
    assert(trace_stores(Seq::<ActionKind>::empty()) == Seq::<Seq<char>>::empty());
    assert(trace_events(Seq::<ActionKind>::empty()) == Seq::<(Seq<char>, Seq<char>)>::empty());
    assert(trace_outputs(seq![k], root) =~= action_output(k, root));
    assert(trace_stores(seq![k]) =~= action_stores(k));
    assert(trace_events(seq![k]) =~= action_events(k));
}

/// A trace's effects are its first action's effects followed by the
/// effects of the rest.
proof fn lemma_trace_cons(k: ActionKind, rest: Seq<ActionKind>, root: bool)
    ensures
        trace_outputs(seq![k] + rest, root) == action_output(k, root) + trace_outputs(rest, root),
        trace_stores(seq![k] + rest) == action_stores(k) + trace_stores(rest),
        trace_events(seq![k] + rest) == action_events(k) + trace_events(rest),
{
    let tr = seq![k] + rest;
    assert(tr[0] == k);
    assert(tr.drop_first() =~= rest);
    assert(trace_outputs(tr, root) =~= action_output(k, root) + trace_outputs(rest, root));
    assert(trace_stores(tr) =~= action_stores(k) + trace_stores(rest));
    assert(trace_events(tr) =~= action_events(k) + trace_events(rest));
}

/// The stream grew by exactly the outputs of some leading run of the
/// planned actions: nothing was rolled back, nothing extra was written.
pub open spec fn output_prefix(w0: Seq<char>, w1: Seq<char>, tr: Seq<ActionKind>, root: bool) -> bool {
    exists|k: int| 0 <= k <= tr.len() && w1 == w0 + trace_outputs(#[trigger] tr.take(k), root)
}

/// The store grew by exactly the statements of some leading run of the
/// planned actions.
pub open spec fn stores_prefix(p0: Seq<Seq<char>>, p1: Seq<Seq<char>>, tr: Seq<ActionKind>) -> bool {
    exists|k: int| 0 <= k <= tr.len() && p1 == p0 + trace_stores(#[trigger] tr.take(k))
}

/// The sink saw exactly the messages of some leading run of the planned
/// actions.
pub open spec fn events_prefix(
    e0: Seq<(Seq<char>, Seq<char>)>,
    e1: Seq<(Seq<char>, Seq<char>)>,
    tr: Seq<ActionKind>,
) -> bool {
    exists|k: int| 0 <= k <= tr.len() && e1 == e0 + trace_events(#[trigger] tr.take(k))
}

/// The branch at `j` matches `seg` and no earlier branch does, so the
/// lookup finds it.
proof fn lemma_lookup_found(routes: Seq<(Seq<char>, SectionView)>, seg: Seq<char>, j: int)
    requires
        0 <= j < routes.len(),
        forall|k: int| 0 <= k < j ==> #[trigger] routes[k].0 != seg,
        routes[j].0 == seg,
    ensures
        lookup_view(routes, seg) == Some(routes[j].1),
    decreases j,
{
    if j > 0 {
        assert(forall|k: int| 0 <= k < j - 1 ==> #[trigger] routes.drop_first()[k].0 != seg);
        lemma_lookup_found(routes.drop_first(), seg, j - 1);
    }
}

/// No branch matches `seg`, so the lookup reports none.
proof fn lemma_lookup_none(routes: Seq<(Seq<char>, SectionView)>, seg: Seq<char>)
    requires
        forall|k: int| 0 <= k < routes.len() ==> #[trigger] routes[k].0 != seg,
    ensures
        lookup_view(routes, seg) is None,
    decreases routes.len(),
{
    if routes.len() > 0 {
        assert(forall|k: int|
            0 <= k < routes.len() - 1 ==> #[trigger] routes.drop_first()[k].0 != seg);
        lemma_lookup_none(routes.drop_first(), seg);
    }
}

/// An aborted walk whose own action failed shows exactly a leading run
/// of the planned effects: nothing written, the sink attempt recorded,
/// and the store holding at most the action's own write.
proof fn lemma_err_first(
    v_action: ActionKind,
    tr: Seq<ActionKind>,
    root: bool,
    w0: Seq<char>,
    p0: Seq<Seq<char>>,
    pf: Seq<Seq<char>>,
    e0: Seq<(Seq<char>, Seq<char>)>,
    ef: Seq<(Seq<char>, Seq<char>)>,
)
    requires
        tr.len() >= 1,
        tr[0] == v_action,
        pf == p0 || pf == p0 + action_stores(v_action),
        ef == e0 + action_events(v_action),
    ensures
        output_prefix(w0, w0, tr, root),
        stores_prefix(p0, pf, tr),
        events_prefix(e0, ef, tr),
{
    let empty_tr = Seq::<ActionKind>::empty();
    assert(tr.take(0) =~= empty_tr);
    assert(trace_outputs(empty_tr, root) == Seq::<char>::empty());
    assert(trace_stores(empty_tr) == Seq::<Seq<char>>::empty());
    assert(trace_events(empty_tr) == Seq::<(Seq<char>, Seq<char>)>::empty());
    assert(w0 =~= w0 + trace_outputs(tr.take(0), root));
    assert(output_prefix(w0, w0, tr, root));
    assert(tr.take(1) =~= seq![v_action]);
    lemma_trace_single(v_action, root);
    assert(ef =~= e0 + trace_events(tr.take(1)));
    assert(events_prefix(e0, ef, tr));
    if pf == p0 {
        assert(pf =~= p0 + trace_stores(tr.take(0)));
    } else {
        assert(pf =~= p0 + trace_stores(tr.take(1)));
    }
    assert(stores_prefix(p0, pf, tr));
}

/// A walk that ran its own action and then aborted somewhere below shows
/// exactly a leading run of the planned effects: the action's effects
/// followed by a leading run of the rest.
proof fn lemma_err_combine(
    v_action: ActionKind,
    sub: Seq<ActionKind>,
    tr: Seq<ActionKind>,
    root: bool,
    w0: Seq<char>,
    w1: Seq<char>,
    wf: Seq<char>,
    p0: Seq<Seq<char>>,
    p1: Seq<Seq<char>>,
    pf: Seq<Seq<char>>,
    e0: Seq<(Seq<char>, Seq<char>)>,
    e1: Seq<(Seq<char>, Seq<char>)>,
    ef: Seq<(Seq<char>, Seq<char>)>,
)
    requires
        tr == seq![v_action] + sub,
        w1 == w0 + action_output(v_action, root),
        p1 == p0 + action_stores(v_action),
        e1 == e0 + action_events(v_action),
        output_prefix(w1, wf, sub, root),
        stores_prefix(p1, pf, sub),
        events_prefix(e1, ef, sub),
    ensures
        output_prefix(w0, wf, tr, root),
        stores_prefix(p0, pf, tr),
        events_prefix(e0, ef, tr),
{
    let ko = choose|k: int|
        0 <= k <= sub.len() && wf == w1 + trace_outputs(#[trigger] sub.take(k), root);
    assert(tr.take(ko + 1) =~= seq![v_action] + sub.take(ko));
    lemma_trace_cons(v_action, sub.take(ko), root);
    assert(wf == w0 + trace_outputs(tr.take(ko + 1), root));
    assert(output_prefix(w0, wf, tr, root));
    let ks = choose|k: int|
        0 <= k <= sub.len() && pf == p1 + trace_stores(#[trigger] sub.take(k));
    assert(tr.take(ks + 1) =~= seq![v_action] + sub.take(ks));
    lemma_trace_cons(v_action, sub.take(ks), root);
    assert(pf == p0 + trace_stores(tr.take(ks + 1)));
    assert(stores_prefix(p0, pf, tr));
    let ke = choose|k: int|
        0 <= k <= sub.len() && ef == e1 + trace_events(#[trigger] sub.take(k));
    assert(tr.take(ke + 1) =~= seq![v_action] + sub.take(ke));
    lemma_trace_cons(v_action, sub.take(ke), root);
    assert(ef == e0 + trace_events(tr.take(ke + 1)));
    assert(events_prefix(e0, ef, tr));
}

impl UriSection {
    /// The child this node's resolver yields for the segment `seg`, when a
    /// branch matches it.
    fn resolve_route(&self, seg: &String) -> (r: Option<&UriSection>)
        ensures
            match lookup_view(self@.routes, seg@) {
                Some(c) => r matches Some(n) && n@ == c,
                None => r is None,
            },
    {
        let mut j: usize = 0;
        while j < self.routes.len()
            invariant
                0 <= j <= self.routes@.len(),
                self@.routes.len() == self.routes@.len(),
                forall|k: int| 0 <= k < j ==> #[trigger] self@.routes[k].0 != seg@,
            decreases self.routes@.len() - j,
        {
            proof {
                assert(self@.routes[j as int] == (
                    self.routes@[j as int].segment@,
                    section_view(self.routes@[j as int].child),
                ));
            }
            if str_eq(self.routes[j].segment.as_str(), seg.as_str()) {
                proof {
                    lemma_lookup_found(self@.routes, seg@, j as int);
                }
                return Some(&self.routes[j].child);
            }
            j = j + 1;
        }
        proof {
            lemma_lookup_none(self@.routes, seg@);
        }
        None
    }

    /// Walks the tree from this node: runs this node's action, resolves
    /// the segment at `position`, and descends until the segments run
    /// out, a terminal node is reached, or a routing node misses its
    /// segment (the not-found leaf answers).
    ///
    /// On success the stream, the store and the sink have seen exactly
    /// what the trace of executed actions produces.  On failure every
    /// earlier effect stands: nothing is rolled back, and nothing beyond
    /// the planned effects was done.  Success is owed when the planned
    /// trace writes and stores nothing, and whenever both the store and
    /// the stream are known to accept everything.
    #[verifier::rlimit(60)]
    pub fn next<B: HttpBody, S: StoreLink, O: OutputLink, K: EventSink>(
        &self,
        request: &Request<B>,
        pool: &mut S,
        stream: &mut O,
        sink: &mut K,
        segments: &Vec<String>,
        position: usize,
    ) -> (r: Result<(), NinoverseApiError>)
        requires
            position <= segments@.len(),
        ensures
            r is Ok ==> final(stream).written() == old(stream).written() + trace_outputs(
                walk_trace(self@, segments.deep_view(), position as int),
                spec_is_root_path(request.path@),
            ) && final(pool).writes() == old(pool).writes() + trace_stores(
                walk_trace(self@, segments.deep_view(), position as int),
            ) && final(sink).events() == old(sink).events() + trace_events(
                walk_trace(self@, segments.deep_view(), position as int),
            ),
            r is Err ==> output_prefix(
                old(stream).written(),
                final(stream).written(),
                walk_trace(self@, segments.deep_view(), position as int),
                spec_is_root_path(request.path@),
            ) && stores_prefix(
                old(pool).writes(),
                final(pool).writes(),
                walk_trace(self@, segments.deep_view(), position as int),
            ) && events_prefix(
                old(sink).events(),
                final(sink).events(),
                walk_trace(self@, segments.deep_view(), position as int),
            ),
            trace_outputs(
                walk_trace(self@, segments.deep_view(), position as int),
                spec_is_root_path(request.path@),
            ).len() == 0 && trace_stores(
                walk_trace(self@, segments.deep_view(), position as int),
            ).len() == 0 ==> r is Ok,
            final(pool).infallible() == old(pool).infallible(),
            final(stream).infallible() == old(stream).infallible(),
            old(pool).infallible() && old(stream).infallible() ==> r is Ok,
        decreases segments@.len() - position,
    {
        let ghost segs = segments.deep_view();
        let ghost i = position as int;
        let ghost v = self@;
        let ghost root = spec_is_root_path(request.path@);
        let ghost tr = walk_trace(v, segs, i);
        let ghost w0 = stream.written();
        let ghost p0 = pool.writes();
        let ghost e0 = sink.events();
        proof {
            assert(v.action == self.action);
            assert(tr.len() >= 1 && tr[0] == v.action);
        }
        let action_result = run_action(self.action, request, pool, stream, sink);
        if let Err(e) = action_result {
            proof {
                lemma_err_first(
                    v.action,
                    tr,
                    root,
                    w0,
                    p0,
                    pool.writes(),
                    e0,
                    sink.events(),
                );
                if trace_outputs(tr, root).len() == 0 && trace_stores(tr).len() == 0 {
                    assert(trace_outputs(tr, root) == action_output(tr[0], root) + trace_outputs(
                        tr.drop_first(),
                        root,
                    ));
                    assert(trace_stores(tr) == action_stores(tr[0]) + trace_stores(
                        tr.drop_first(),
                    ));
                    assert(action_output(v.action, root).len() == 0 && action_stores(
                        v.action,
                    ).len() == 0);
                }
            }
            return Err(e);
        }
        let ghost w1 = stream.written();
        let ghost p1 = pool.writes();
        let ghost e1 = sink.events();
        proof {
            assert(w1 == w0 + action_output(v.action, root));
            assert(p1 == p0 + action_stores(v.action));
            assert(e1 == e0 + action_events(v.action));
        }
        if matches!(self.action, ActionKind::NotFound) {
            proof {
                assert(spec_resolve(v, segs, i) is Terminate);
                assert(tr =~= seq![v.action]);
                lemma_trace_single(v.action, root);
            }
            return Ok(());
        }
        if position >= segments.len() {
            proof {
                assert(spec_resolve(v, segs, i) is Terminate);
                assert(tr =~= seq![v.action]);
                lemma_trace_single(v.action, root);
            }
            return Ok(());
        }
        let seg: &String = &segments[position];
        proof {
            assert(segs[i] == segments@[i]@);
        }
        if seg.as_str().is_empty() {
            proof {
                assert(spec_resolve(v, segs, i) is Terminate);
                assert(tr =~= seq![v.action]);
                lemma_trace_single(v.action, root);
            }
            return Ok(());
        }
        if self.routes.len() == 0 {
            proof {
                assert(v.routes.len() == 0);
                assert(spec_resolve(v, segs, i) is Terminate);
                assert(tr =~= seq![v.action]);
                lemma_trace_single(v.action, root);
            }
            return Ok(());
        }
        match self.resolve_route(seg) {
            Some(child) => {
                proof {
                    assert(spec_resolve(v, segs, i) == Resolution::Descend(child@));
                    assert(tr == seq![v.action] + walk_trace(child@, segs, i + 1));
                }
                let res = child.next(request, pool, stream, sink, segments, position + 1);
                proof {
                    let sub = walk_trace(child@, segs, i + 1);
                    lemma_trace_cons(v.action, sub, root);
                    if res is Ok {
                        assert(stream.written() =~= w0 + trace_outputs(tr, root));
                        assert(pool.writes() =~= p0 + trace_stores(tr));
                        assert(sink.events() =~= e0 + trace_events(tr));
                    } else {
                        lemma_err_combine(
                            v.action,
                            sub,
                            tr,
                            root,
                            w0,
                            w1,
                            stream.written(),
                            p0,
                            p1,
                            pool.writes(),
                            e0,
                            e1,
                            sink.events(),
                        );
                        if trace_outputs(tr, root).len() == 0 && trace_stores(tr).len() == 0 {
                            assert(trace_outputs(sub, root).len() == 0 && trace_stores(
                                sub,
                            ).len() == 0);
                        }
                    }
                }
                res
            },
            None => {
                proof {
                    assert(spec_resolve(v, segs, i) == Resolution::NotFoundFallback);
                    assert(tr =~= seq![v.action, ActionKind::NotFound]);
                }
                let nf = get_404_handler();
                let res = nf.next(request, pool, stream, sink, segments, position + 1);
                proof {
                    let sub = walk_trace(nf@, segs, i + 1);
                    assert(spec_resolve(nf@, segs, i + 1) is Terminate);
                    assert(sub =~= seq![ActionKind::NotFound]);
                    assert(tr == seq![v.action] + sub);
                    lemma_trace_cons(v.action, sub, root);
                    if res is Ok {
                        assert(stream.written() =~= w0 + trace_outputs(tr, root));
                        assert(pool.writes() =~= p0 + trace_stores(tr));
                        assert(sink.events() =~= e0 + trace_events(tr));
                    } else {
                        lemma_err_combine(
                            v.action,
                            sub,
                            tr,
                            root,
                            w0,
                            w1,
                            stream.written(),
                            p0,
                            p1,
                            pool.writes(),
                            e0,
                            e1,
                            sink.events(),
                        );
                        if trace_outputs(tr, root).len() == 0 && trace_stores(tr).len() == 0 {
                            assert(trace_outputs(sub, root).len() == 0 && trace_stores(
                                sub,
                            ).len() == 0);
                        }
                    }
                }
                res
            },
        }
    }
}

/// Walks the dispatch tree against one parsed request: extracts the path
/// segments and runs the walk from the given root.  As for the walk
/// itself, success is owed when the planned trace has no effects to
/// perform, and whenever both the store and the stream are known to
/// accept everything.
pub fn forward_incoming_request<B: HttpBody, S: StoreLink, O: OutputLink, K: EventSink>(
    request: &Request<B>,
    pool: &mut S,
    stream: &mut O,
    sink: &mut K,
    uri_section_configuration: &UriSection,
) -> (r: Result<(), NinoverseApiError>)
    ensures
        r is Ok ==> final(stream).written() == old(stream).written() + trace_outputs(
            walk_trace(uri_section_configuration@, spec_segments(request.path@), 0),
            spec_is_root_path(request.path@),
        ) && final(pool).writes() == old(pool).writes() + trace_stores(
            walk_trace(uri_section_configuration@, spec_segments(request.path@), 0),
        ) && final(sink).events() == old(sink).events() + trace_events(
            walk_trace(uri_section_configuration@, spec_segments(request.path@), 0),
        ),
        r is Err ==> output_prefix(
            old(stream).written(),
            final(stream).written(),
            walk_trace(uri_section_configuration@, spec_segments(request.path@), 0),
            spec_is_root_path(request.path@),
        ) && stores_prefix(
            old(pool).writes(),
            final(pool).writes(),
            walk_trace(uri_section_configuration@, spec_segments(request.path@), 0),
        ) && events_prefix(
            old(sink).events(),
            final(sink).events(),
            walk_trace(uri_section_configuration@, spec_segments(request.path@), 0),
        ),
        trace_outputs(
            walk_trace(uri_section_configuration@, spec_segments(request.path@), 0),
            spec_is_root_path(request.path@),
        ).len() == 0 && trace_stores(
            walk_trace(uri_section_configuration@, spec_segments(request.path@), 0),
        ).len() == 0 ==> r is Ok,
        final(pool).infallible() == old(pool).infallible(),
        final(stream).infallible() == old(stream).infallible(),
        old(pool).infallible() && old(stream).infallible() ==> r is Ok,
{
    let request_uri_parts = extract_uri_pieces_vector(request);
    uri_section_configuration.next(request, pool, stream, sink, &request_uri_parts, 0)
}

/// Every resolver on the walk from `v` at segment `i` matches its
/// segment: the node is not the terminal leaf, the segment is non-empty,
/// and a branch is labelled with it, all the way down.
pub open spec fn matches_all(v: SectionView, segs: Seq<Seq<char>>, i: int) -> bool
    decreases segs.len() - i,
{
    if i >= segs.len() {
        true
    } else {
        &&& !(v.action is NotFound)
        &&& segs[i].len() > 0
        &&& match lookup_view(v.routes, segs[i]) {
            Some(c) => matches_all(c, segs, i + 1),
            None => false,
        }
    }
}

/// The resolvers match down to depth `d`, where the node is a routing
/// node (it has branches and is not the terminal leaf), the segment is
/// non-empty, and no branch matches it.
pub open spec fn matches_until(v: SectionView, segs: Seq<Seq<char>>, i: int, d: int) -> bool
    decreases d - i,
{
    if i < d {
        &&& !(v.action is NotFound)
        &&& 0 <= i < segs.len()
        &&& segs[i].len() > 0
        &&& match lookup_view(v.routes, segs[i]) {
            Some(c) => matches_until(c, segs, i + 1, d),
            None => false,
        }
    } else if i == d {
        &&& !(v.action is NotFound)
        &&& 0 <= i < segs.len()
        &&& segs[i].len() > 0
        &&& v.routes.len() > 0
        &&& lookup_view(v.routes, segs[i]) is None
    } else {
        false
    }
}

/// A walk over `N` segments on which every resolver matches executes
/// exactly `N + 1` node actions: the root's, then one per consumed
/// segment.
pub proof fn lemma_walk_full_length(v: SectionView, segs: Seq<Seq<char>>, i: int)
    requires
        0 <= i <= segs.len(),
        matches_all(v, segs, i),
    ensures
        walk_trace(v, segs, i).len() == segs.len() - i + 1,
    decreases segs.len() - i,
{
    if i < segs.len() {
        match lookup_view(v.routes, segs[i]) {
            Some(c) => {
                lemma_walk_full_length(c, segs, i + 1);
            },
            None => {},
        }
    }
}

/// No walk executes more than one action per segment beyond the root's.
pub proof fn lemma_walk_trace_bound(v: SectionView, segs: Seq<Seq<char>>, i: int)
    requires
        0 <= i <= segs.len(),
    ensures
        1 <= walk_trace(v, segs, i).len() <= segs.len() - i + 1,
    decreases segs.len() - i,
{
    match spec_resolve(v, segs, i) {
        Resolution::Descend(c) => {
            lemma_walk_trace_bound(c, segs, i + 1);
        },
        _ => {},
    }
}

/// A walk whose resolvers match down to depth `d` and find no branch
/// there ends on the not-found leaf, whose action runs last; the walk
/// executes `d + 2` actions, strictly fewer than a fully matching walk
/// would whenever the mismatch comes before the last segment.
pub proof fn lemma_walk_early_miss(v: SectionView, segs: Seq<Seq<char>>, i: int, d: int)
    requires
        0 <= i <= d < segs.len(),
        matches_until(v, segs, i, d),
    ensures
        walk_trace(v, segs, i).len() == d - i + 2,
        walk_trace(v, segs, i).last() == ActionKind::NotFound,
        walk_terminal(v, segs, i) == not_found_view(),
        d < segs.len() - 1 ==> walk_trace(v, segs, i).len() < segs.len() - i + 1,
    decreases d - i,
{
    if i < d {
        match lookup_view(v.routes, segs[i]) {
            Some(c) => {
                lemma_walk_early_miss(c, segs, i + 1, d);
                assert((seq![v.action] + walk_trace(c, segs, i + 1)).last() == walk_trace(
                    c,
                    segs,
                    i + 1,
                ).last());
            },
            None => {},
        }
    } else {
        assert(spec_resolve(v, segs, i) is NotFoundFallback);
    }
}

/// Walking two equal tree descriptions over the same segments executes
/// the same actions and ends on the same terminal node: resolution is a
/// function of the description and the segments alone, so rebuilding the
/// tree for every connection changes nothing, and walking it twice
/// resolves to the identical terminal both times.
pub proof fn lemma_walk_idempotent(first: UriSection, second: UriSection, segs: Seq<Seq<char>>)
    requires
        first@ == second@,
    ensures
        walk_trace(first@, segs, 0) == walk_trace(second@, segs, 0),
        walk_terminal(first@, segs, 0) == walk_terminal(second@, segs, 0),
{
}

} // verus!

