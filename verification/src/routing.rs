//! App routing: the state that decides which newly shown main windows are
//! moved to the workspace of their app rule, with retries when the window
//! is not yet known to the virtual-desktop service.
//!
//! The router never talks to the system itself. The caller reports what it
//! observed (a window shown or destroyed, the outcome of a move) and carries
//! out what the router asks for (which windows to move, which workspace to
//! switch to). Times are milliseconds on a monotonic clock of the caller.

use vstd::prelude::*;
use std::collections::{HashMap, HashSet};
use crate::config::{matches_executable, matches_spec, rules_view, AppRule, AppRuleView};
use crate::text::{chars_eq, chars_of};

verus! {

broadcast use {
    vstd::std_specs::hash::group_hash_axioms,
    vstd::std_specs::hash::axiom_u32_obeys_hash_table_key_model,
    vstd::std_specs::hash::axiom_random_state_builds_valid_hashers,
};

/// How many times a route is tried before it is given up.
pub const ROUTE_ATTEMPTS: usize = 3;

/// Delay before the retry of a route, by attempt number.
pub open spec fn retry_delay_spec(attempt: int) -> u64 {
    if attempt <= 0 {
        0
    } else if attempt == 1 {
        50
    } else {
        100
    }
}

/// Delay before the retry of a route, by attempt number (0, 50, 100 ms).
pub fn retry_delay_ms(attempt: usize) -> (r: u64)
    ensures
        r == retry_delay_spec(attempt as int),
{
    if attempt == 0 {
        0
    } else if attempt == 1 {
        50
    } else {
        100
    }
}

/// A window waiting to be moved to the workspace of its app rule.
#[derive(Debug, PartialEq, Eq)]
pub struct PendingAppRoute {
    pub hwnd: isize,
    pub pid: u32,
    pub workspace: u32,
    pub executable: String,
    /// Attempts already made (0 before the first one).
    pub attempt: usize,
    /// Earliest time of the next attempt.
    pub due_ms: u64,
    /// Switch to the target workspace after a successful move.
    pub switch_on_success: bool,
}

pub struct RouteView {
    pub hwnd: isize,
    pub pid: u32,
    pub workspace: u32,
    pub executable: Seq<char>,
    pub attempt: usize,
    pub due_ms: u64,
    pub switch_on_success: bool,
}

impl View for PendingAppRoute {
    type V = RouteView;

    open spec fn view(&self) -> RouteView {
        RouteView {
            hwnd: self.hwnd,
            pid: self.pid,
            workspace: self.workspace,
            executable: self.executable@,
            attempt: self.attempt,
            due_ms: self.due_ms,
            switch_on_success: self.switch_on_success,
        }
    }
}

impl Clone for PendingAppRoute {
    fn clone(&self) -> (r: Self)
        ensures
            r@ == self@,
    {
        PendingAppRoute {
            hwnd: self.hwnd,
            pid: self.pid,
            workspace: self.workspace,
            executable: self.executable.clone(),
            attempt: self.attempt,
            due_ms: self.due_ms,
            switch_on_success: self.switch_on_success,
        }
    }
}

pub open spec fn routes_view(s: Seq<PendingAppRoute>) -> Seq<RouteView> {
    Seq::new(s.len(), |i: int| s[i]@)
}

/// The router's state as mathematical values.
#[verifier::ext_equal]
pub struct RouterView {
    /// Processes whose main window was already routed.
    pub routed: Set<u32>,
    /// The routed main window of each routed process.
    pub routed_hwnd: Map<u32, isize>,
    /// Processes that already had main windows at start-up.
    pub pre_existing: Set<u32>,
    pub pending: Seq<RouteView>,
}

/// Routing state of the running app.
pub struct AppRouter {
    routed: HashSet<u32>,
    routed_hwnd: HashMap<u32, isize>,
    pre_existing: HashSet<u32>,
    pending: Vec<PendingAppRoute>,
}

impl View for AppRouter {
    type V = RouterView;

    closed spec fn view(&self) -> RouterView {
        RouterView {
            routed: self.routed@,
            routed_hwnd: self.routed_hwnd@,
            pre_existing: self.pre_existing@,
            pending: routes_view(self.pending@),
        }
    }
}

/// The router's invariant: a process counts as routed exactly when its
/// routed main window is recorded, and no queued route has used up its
/// attempts.
pub open spec fn router_wf(v: RouterView) -> bool {
    &&& v.routed == v.routed_hwnd.dom()
    &&& forall|i: int| 0 <= i < v.pending.len() ==> #[trigger] v.pending[i].attempt < ROUTE_ATTEMPTS
}

/// The queue without the routes of one process.
pub open spec fn without_pid(s: Seq<RouteView>, pid: u32) -> Seq<RouteView>
    decreases s.len(),
{
    if s.len() == 0 {
        s
    } else {
        let rest = without_pid(s.drop_last(), pid);
        if s.last().pid == pid {
            rest
        } else {
            rest.push(s.last())
        }
    }
}

pub open spec fn has_pid(s: Seq<RouteView>, pid: u32) -> bool {
    exists|i: int| 0 <= i < s.len() && (#[trigger] s[i]).pid == pid
}

pub open spec fn has_hwnd(s: Seq<RouteView>, hwnd: isize) -> bool {
    exists|i: int| 0 <= i < s.len() && (#[trigger] s[i]).hwnd == hwnd
}

/// The workspace of the first app rule that matches the executable and names
/// a workspace.
pub open spec fn route_target(rules: Seq<AppRuleView>, executable: Seq<char>) -> Option<u32>
    decreases rules.len(),
{
    if rules.len() == 0 {
        None
    } else if matches_spec(rules[0].executable, executable) && rules[0].workspace is Some {
        rules[0].workspace
    } else {
        route_target(rules.drop_first(), executable)
    }
}

/// Workspace of the first app rule that matches the executable and names a
/// workspace.
pub fn find_route_target(rules: &Vec<AppRule>, executable: &str) -> (r: Option<u32>)
    ensures
        r == route_target(rules_view(rules@), executable@),
{
    let ghost all = rules_view(rules@);
    let mut i: usize = 0;
    assert(all.skip(0) =~= all);
    while i < rules.len()
        invariant
            i <= rules.len(),
            all == rules_view(rules@),
            route_target(all, executable@) == route_target(all.skip(i as int), executable@),
        decreases rules.len() - i,
    {
        let ghost rest = all.skip(i as int);
        assert(rest[0] == rules@[i as int]@);
        assert(rest.drop_first() =~= all.skip(i + 1));
        if matches_executable(rules[i].executable.as_str(), executable) && rules[i].workspace.is_some() {
            return rules[i].workspace;
        }
        i = i + 1;
    }
    assert(all.skip(i as int).len() == 0);
    None
}

/// The route queued for a window shown now.
pub open spec fn new_route(
    hwnd: isize,
    pid: u32,
    workspace: u32,
    executable: Seq<char>,
    now_ms: u64,
    switch_on_success: bool,
) -> RouteView {
    RouteView {
        hwnd,
        pid,
        workspace,
        executable,
        attempt: 0,
        due_ms: now_ms,
        switch_on_success,
    }
}

pub open spec fn with_pending(v: RouterView, pending: Seq<RouteView>) -> RouterView {
    RouterView { routed: v.routed, routed_hwnd: v.routed_hwnd, pre_existing: v.pre_existing, pending }
}

/// A main window was shown. A process that is not routed yet gets one
/// queued route to the workspace of the first matching app rule, unless a
/// route of it is already queued. A new process, or a window in the
/// foreground, brings its workspace forward once moved.
pub open spec fn shown_outcome(
    v: RouterView,
    hwnd: isize,
    executable: Seq<char>,
    pid: Option<u32>,
    foreground: Option<isize>,
    rules: Seq<AppRuleView>,
    now_ms: u64,
) -> RouterView {
    match pid {
        None => v,
        Some(p) => if v.routed.contains(p) {
            v
        } else {
            match route_target(rules, executable) {
                None => v,
                Some(ws) => if has_pid(v.pending, p) {
                    v
                } else {
                    let switch = !v.pre_existing.contains(p) || foreground == Some(hwnd);
                    with_pending(v, v.pending.push(new_route(hwnd, p, ws, executable, now_ms, switch)))
                },
            }
        },
    }
}

/// A main window found at start-up.
#[derive(Debug, Clone, PartialEq, Eq)]
pub struct StartupWindow {
    pub hwnd: isize,
    pub pid: u32,
    /// File name of the process image.
    pub executable: String,
    /// Full path of the process image.
    pub executable_path: String,
    /// The 1-based workspace the window is on, when the system told it.
    pub workspace: Option<u32>,
}

pub struct StartupWindowView {
    pub hwnd: isize,
    pub pid: u32,
    pub executable: Seq<char>,
    pub executable_path: Seq<char>,
    pub workspace: Option<u32>,
}

impl View for StartupWindow {
    type V = StartupWindowView;

    open spec fn view(&self) -> StartupWindowView {
        StartupWindowView {
            hwnd: self.hwnd,
            pid: self.pid,
            executable: self.executable@,
            executable_path: self.executable_path@,
            workspace: self.workspace,
        }
    }
}

pub open spec fn windows_view(s: Seq<StartupWindow>) -> Seq<StartupWindowView> {
    Seq::new(s.len(), |i: int| s[i]@)
}

/// One window at start-up: a window already on the workspace of its rule
/// counts as routed; another is queued once (by window), and brings its
/// workspace forward only when it is the foreground window.
pub open spec fn startup_step(
    v: RouterView,
    w: StartupWindowView,
    rules: Seq<AppRuleView>,
    foreground: Option<isize>,
    now_ms: u64,
) -> RouterView {
    match route_target(rules, w.executable_path) {
        None => v,
        Some(ws) => if w.workspace == Some(ws) {
            RouterView {
                routed: v.routed.insert(w.pid),
                routed_hwnd: v.routed_hwnd.insert(w.pid, w.hwnd),
                pre_existing: v.pre_existing,
                pending: v.pending,
            }
        } else if has_hwnd(v.pending, w.hwnd) {
            v
        } else {
            let switch = foreground == Some(w.hwnd);
            with_pending(
                v,
                v.pending.push(new_route(w.hwnd, w.pid, ws, w.executable, now_ms, switch)),
            )
        },
    }
}

pub open spec fn startup_fold(
    v: RouterView,
    windows: Seq<StartupWindowView>,
    rules: Seq<AppRuleView>,
    foreground: Option<isize>,
    now_ms: u64,
) -> RouterView
    decreases windows.len(),
{
    if windows.len() == 0 {
        v
    } else {
        startup_step(
            startup_fold(v, windows.drop_last(), rules, foreground, now_ms),
            windows.last(),
            rules,
            foreground,
            now_ms,
        )
    }
}

pub proof fn lemma_startup_fold_wf(
    v: RouterView,
    windows: Seq<StartupWindowView>,
    rules: Seq<AppRuleView>,
    foreground: Option<isize>,
    now_ms: u64,
)
    requires
        router_wf(v),
    ensures
        router_wf(startup_fold(v, windows, rules, foreground, now_ms)),
        startup_fold(v, windows, rules, foreground, now_ms).pre_existing == v.pre_existing,
    decreases windows.len(),
{
    if windows.len() > 0 {
        lemma_startup_fold_wf(v, windows.drop_last(), rules, foreground, now_ms);
        let p = startup_fold(v, windows.drop_last(), rules, foreground, now_ms);
        let q = startup_fold(v, windows, rules, foreground, now_ms);
        assert(q.routed =~= q.routed_hwnd.dom());
        assert forall|i: int| 0 <= i < q.pending.len() implies #[trigger] q.pending[i].attempt
            < ROUTE_ATTEMPTS by {
            if i < p.pending.len() {
                assert(q.pending[i] == p.pending[i]);
            }
        }
    }
}

/// What became of an attempt to move a queued window.
#[derive(Debug, Clone, Copy, PartialEq, Eq, Structural)]
pub enum RouteOutcome {
    /// The window no longer exists; no move was tried.
    WindowGone,
    /// The window was moved to the target workspace.
    Moved,
    /// The virtual-desktop service does not know the window yet.
    NotFound,
    /// The move failed for another reason.
    Failed,
}

/// A route after an attempt: retried later when the window was not found
/// and attempts are left, otherwise done (`None`).
pub open spec fn route_after(r: RouteView, o: RouteOutcome, now_ms: u64) -> Option<RouteView> {
    match o {
        RouteOutcome::NotFound => if r.attempt + 1 < ROUTE_ATTEMPTS {
            Some(
                RouteView {
                    hwnd: r.hwnd,
                    pid: r.pid,
                    workspace: r.workspace,
                    executable: r.executable,
                    attempt: (r.attempt + 1) as usize,
                    due_ms: (now_ms + retry_delay_spec(r.attempt + 1)) as u64,
                    switch_on_success: r.switch_on_success,
                },
            )
        } else {
            None
        },
        _ => None,
    }
}

/// A route after a poll: unchanged when it was not attempted.
pub open spec fn polled(r: RouteView, o: Option<RouteOutcome>, now_ms: u64) -> Option<RouteView> {
    match o {
        None => Some(r),
        Some(o) => route_after(r, o, now_ms),
    }
}

/// The queue after a poll, before the finished routes are taken out:
/// retried routes updated in place, finished ones as they were.
pub open spec fn polled_queue(routes: Seq<RouteView>, outcomes: Seq<Option<RouteOutcome>>, now_ms: u64) -> Seq<RouteView> {
    Seq::new(
        routes.len(),
        |i: int|
            match polled(routes[i], outcomes[i], now_ms) {
                Some(r) => r,
                None => routes[i],
            },
    )
}

/// Positions of the routes finished by a poll, in increasing order.
pub open spec fn finished_positions(routes: Seq<RouteView>, outcomes: Seq<Option<RouteOutcome>>, now_ms: u64) -> Seq<int>
    decreases routes.len(),
{
    if routes.len() == 0 || outcomes.len() == 0 {
        Seq::empty()
    } else {
        let before = finished_positions(routes.drop_last(), outcomes.drop_last(), now_ms);
        if polled(routes.last(), outcomes.last(), now_ms) is None {
            before.push(routes.len() - 1)
        } else {
            before
        }
    }
}

/// `Vec::swap_remove` on a sequence.
pub open spec fn swap_removed(s: Seq<RouteView>, i: int) -> Seq<RouteView> {
    s.update(i, s.last()).drop_last()
}

/// Takes out the given positions one by one with `swap_remove`, the last
/// position first.
pub open spec fn swap_removed_all(s: Seq<RouteView>, positions: Seq<int>) -> Seq<RouteView>
    decreases positions.len(),
{
    if positions.len() == 0 {
        s
    } else {
        swap_removed_all(swap_removed(s, positions.last()), positions.drop_last())
    }
}

/// The routed windows after a poll: each moved window becomes the routed
/// main window of its process, in queue order.
pub open spec fn routed_after_poll(
    m: Map<u32, isize>,
    routes: Seq<RouteView>,
    outcomes: Seq<Option<RouteOutcome>>,
) -> Map<u32, isize>
    decreases routes.len(),
{
    if routes.len() == 0 || outcomes.len() == 0 {
        m
    } else {
        let before = routed_after_poll(m, routes.drop_last(), outcomes.drop_last());
        if outcomes.last() == Some(RouteOutcome::Moved) {
            before.insert(routes.last().pid, routes.last().hwnd)
        } else {
            before
        }
    }
}

/// The switch one route asks for after its attempt: to its workspace, with
/// its window, when it was moved, brings its workspace forward, and that
/// workspace is not the current one.
pub open spec fn route_switch(r: RouteView, o: Option<RouteOutcome>, current_workspace: u32) -> Option<(u32, isize)> {
    if o == Some(RouteOutcome::Moved) && r.switch_on_success && current_workspace != r.workspace {
        Some((r.workspace, r.hwnd))
    } else {
        None
    }
}

/// The workspace switches a poll asks for, in queue order: one for each
/// moved route that brings its workspace forward and is not on the current
/// workspace.
pub open spec fn poll_switches(
    routes: Seq<RouteView>,
    outcomes: Seq<Option<RouteOutcome>>,
    current_workspace: u32,
) -> Seq<(u32, isize)>
    decreases routes.len(),
{
    if routes.len() == 0 || outcomes.len() == 0 {
        Seq::empty()
    } else {
        let before = poll_switches(routes.drop_last(), outcomes.drop_last(), current_workspace);
        match route_switch(routes.last(), outcomes.last(), current_workspace) {
            Some(sw) => before.push(sw),
            None => before,
        }
    }
}

pub open spec fn any_moved(outcomes: Seq<Option<RouteOutcome>>) -> bool {
    exists|i: int| 0 <= i < outcomes.len() && #[trigger] outcomes[i] == Some(RouteOutcome::Moved)
}

/// The router after a poll.
pub open spec fn poll_outcome(
    v: RouterView,
    outcomes: Seq<Option<RouteOutcome>>,
    now_ms: u64,
) -> RouterView {
    let m = routed_after_poll(v.routed_hwnd, v.pending, outcomes);
    RouterView {
        routed: m.dom(),
        routed_hwnd: m,
        pre_existing: v.pre_existing,
        pending: swap_removed_all(
            polled_queue(v.pending, outcomes, now_ms),
            finished_positions(v.pending, outcomes, now_ms),
        ),
    }
}

/// What the caller does after a poll.
#[derive(Debug, Clone, PartialEq, Eq)]
pub struct PollActions {
    /// Workspace switches, as (workspace, window to focus), in order.
    pub switches: Vec<(u32, isize)>,
    /// Whether a window was moved, so the key buffer cleanup is due.
    pub schedule_key_buffer_cleanup: bool,
}

pub open spec fn spaced(c: Seq<int>) -> bool {
    forall|a: int, b: int| 0 <= a < b < c.len() ==> #[trigger] c[b] - #[trigger] c[a] >= b - a
}

proof fn lemma_swap_removed_all_len(s: Seq<RouteView>, c: Seq<int>)
    requires
        spaced(c),
        forall|a: int| 0 <= a < c.len() ==> 0 <= #[trigger] c[a] < s.len(),
    ensures
        swap_removed_all(s, c).len() == s.len() - c.len(),
    decreases c.len(),
{
    if c.len() > 0 {
        let t = swap_removed(s, c.last());
        let d = c.drop_last();
        assert forall|a: int| 0 <= a < d.len() implies 0 <= #[trigger] d[a] < t.len() by {
            assert(c[c.len() - 1] - c[a] >= c.len() - 1 - a);
        }
        assert(spaced(d)) by {
            assert forall|a: int, b: int| 0 <= a < b < d.len() implies #[trigger] d[b] - #[trigger] d[a] >= b - a by {
                assert(c[b] - c[a] >= b - a);
            }
        }
        lemma_swap_removed_all_len(t, d);
    }
}

/// A poll leaves in the queue as many routes as it did not finish.
pub proof fn lemma_poll_queue_len(routes: Seq<RouteView>, outcomes: Seq<Option<RouteOutcome>>, now_ms: u64)
    requires
        outcomes.len() == routes.len(),
    ensures
        swap_removed_all(polled_queue(routes, outcomes, now_ms), finished_positions(routes, outcomes, now_ms)).len()
            == routes.len() - finished_positions(routes, outcomes, now_ms).len(),
{
    lemma_finished_positions_spaced(routes, outcomes, now_ms);
    lemma_swap_removed_all_len(polled_queue(routes, outcomes, now_ms), finished_positions(routes, outcomes, now_ms));
}

proof fn lemma_finished_positions_spaced(routes: Seq<RouteView>, outcomes: Seq<Option<RouteOutcome>>, now_ms: u64)
    requires
        outcomes.len() == routes.len(),
    ensures
        spaced(finished_positions(routes, outcomes, now_ms)),
        forall|a: int| 0 <= a < finished_positions(routes, outcomes, now_ms).len() ==> 0 <= #[trigger] finished_positions(routes, outcomes, now_ms)[a] < routes.len(),
    decreases routes.len(),
{
    if routes.len() > 0 {
        lemma_finished_positions_spaced(routes.drop_last(), outcomes.drop_last(), now_ms);
        let before = finished_positions(routes.drop_last(), outcomes.drop_last(), now_ms);
        let c = finished_positions(routes, outcomes, now_ms);
        if polled(routes.last(), outcomes.last(), now_ms) is None {
            assert(c == before.push(routes.len() - 1));
            assert forall|a: int, b: int| 0 <= a < b < c.len() implies #[trigger] c[b] - #[trigger] c[a] >= b - a by {
                if b < before.len() {
                    assert(before[b] - before[a] >= b - a);
                } else {
                    assert(c[b] == routes.len() - 1);
                    assert(c[a] == before[a]);
                    assert(before[a] < routes.len() - 1);
                    if a < before.len() - 1 {
                        assert(before[before.len() - 1] - before[a] >= before.len() - 1 - a);
                    }
                }
            }
        }
    }
}

/// Every window moved in a poll leaves its process routed.
pub proof fn lemma_moved_routes_routed(
    m: Map<u32, isize>,
    routes: Seq<RouteView>,
    outcomes: Seq<Option<RouteOutcome>>,
    i: int,
)
    requires
        outcomes.len() == routes.len(),
        0 <= i < routes.len(),
        outcomes[i] == Some(RouteOutcome::Moved),
    ensures
        routed_after_poll(m, routes, outcomes).contains_key(routes[i].pid),
    decreases routes.len(),
{
    if i < routes.len() - 1 {
        lemma_moved_routes_routed(m, routes.drop_last(), outcomes.drop_last(), i);
        assert(routes.drop_last()[i] == routes[i]);
    }
}

/// A main window of a new process (not routed, not there at start-up, no
/// route queued) whose executable matches an app rule with a workspace is
/// queued for that workspace, due now, and brings the workspace forward.
pub proof fn lemma_new_app_window_queued(
    v: RouterView,
    hwnd: isize,
    executable: Seq<char>,
    pid: u32,
    foreground: Option<isize>,
    rules: Seq<AppRuleView>,
    now_ms: u64,
)
    requires
        !v.routed.contains(pid),
        !v.pre_existing.contains(pid),
        !has_pid(v.pending, pid),
        route_target(rules, executable) is Some,
    ensures
        ({
            let after = shown_outcome(v, hwnd, executable, Some(pid), foreground, rules, now_ms);
            &&& after.pending == v.pending.push(
                new_route(hwnd, pid, route_target(rules, executable)->0, executable, now_ms, true),
            )
            &&& after.routed == v.routed
            &&& after.routed_hwnd == v.routed_hwnd
            &&& after.pre_existing == v.pre_existing
        }),
{
}

/// A moved route that brings its workspace forward asks for a switch to
/// that workspace unless it is already current.
pub proof fn lemma_moved_route_switches(
    routes: Seq<RouteView>,
    outcomes: Seq<Option<RouteOutcome>>,
    current_workspace: u32,
    i: int,
)
    requires
        outcomes.len() == routes.len(),
        0 <= i < routes.len(),
        outcomes[i] == Some(RouteOutcome::Moved),
        routes[i].switch_on_success,
        current_workspace != routes[i].workspace,
    ensures
        poll_switches(routes, outcomes, current_workspace).contains((routes[i].workspace, routes[i].hwnd)),
    decreases routes.len(),
{
    let s = poll_switches(routes, outcomes, current_workspace);
    if i < routes.len() - 1 {
        lemma_moved_route_switches(routes.drop_last(), outcomes.drop_last(), current_workspace, i);
        assert(routes.drop_last()[i] == routes[i]);
        let before = poll_switches(routes.drop_last(), outcomes.drop_last(), current_workspace);
        let k = choose|k: int| 0 <= k < before.len() && before[k] == (routes[i].workspace, routes[i].hwnd);
        assert(s[k] == before[k]);
    } else {
        assert(s[s.len() - 1] == (routes[i].workspace, routes[i].hwnd));
    }
}

impl AppRouter {
    pub closed spec fn wf(&self) -> bool {
        router_wf(self@)
    }

    /// A router with nothing routed, nothing queued and no start-up processes.
    pub fn new() -> (r: AppRouter)
        ensures
            r.wf(),
            r@.routed == Set::<u32>::empty(),
            r@.routed_hwnd == Map::<u32, isize>::empty(),
            r@.pre_existing == Set::<u32>::empty(),
            r@.pending == Seq::<RouteView>::empty(),
    {
        let r = AppRouter {
            routed: HashSet::new(),
            routed_hwnd: HashMap::new(),
            pre_existing: HashSet::new(),
            pending: Vec::new(),
        };
        assert(r@.routed_hwnd.dom() =~= r@.routed);
        assert(r@.pending =~= Seq::<RouteView>::empty());
        r
    }

    /// Whether the process's main window was already routed.
    pub fn is_routed(&self, pid: u32) -> (r: bool)
        ensures
            r == self@.routed.contains(pid),
    {
        self.routed.contains(&pid)
    }

    /// The routed main window of a process.
    pub fn routed_window(&self, pid: u32) -> (r: Option<isize>)
        ensures
            r == (if self@.routed_hwnd.contains_key(pid) {
                Some(self@.routed_hwnd[pid])
            } else {
                None
            }),
    {
        match self.routed_hwnd.get(&pid) {
            Some(h) => Some(*h),
            None => None,
        }
    }

    /// Whether the process already had main windows at start-up.
    pub fn is_pre_existing(&self, pid: u32) -> (r: bool)
        ensures
            r == self@.pre_existing.contains(pid),
    {
        self.pre_existing.contains(&pid)
    }

    /// Number of queued routes.
    pub fn pending_len(&self) -> (r: usize)
        ensures
            r == self@.pending.len(),
    {
        self.pending.len()
    }

    /// The queued route at a position.
    pub fn pending_at(&self, i: usize) -> (r: &PendingAppRoute)
        requires
            i < self@.pending.len(),
        ensures
            r@ == self@.pending[i as int],
    {
        &self.pending[i]
    }

    /// A main window of a process was destroyed. Its queued routes are
    /// dropped; the process stops counting as pre-existing once it has no
    /// main window left; and if it was the routed main window, the process
    /// can be routed again.
    pub fn on_window_destroyed(&mut self, pid: u32, hwnd: isize, process_has_main_window: bool)
        requires
            old(self).wf(),
        ensures
            final(self).wf(),
            final(self)@.pending == without_pid(old(self)@.pending, pid),
            final(self)@.pre_existing == (if old(self)@.pre_existing.contains(pid)
                && !process_has_main_window {
                old(self)@.pre_existing.remove(pid)
            } else {
                old(self)@.pre_existing
            }),
            old(self)@.routed_hwnd.contains_key(pid) && old(self)@.routed_hwnd[pid] == hwnd ==> {
                &&& final(self)@.routed == old(self)@.routed.remove(pid)
                &&& final(self)@.routed_hwnd == old(self)@.routed_hwnd.remove(pid)
            },
            !(old(self)@.routed_hwnd.contains_key(pid) && old(self)@.routed_hwnd[pid] == hwnd) ==> {
                &&& final(self)@.routed == old(self)@.routed
                &&& final(self)@.routed_hwnd == old(self)@.routed_hwnd
            },
    {
        let ghost old_pending = routes_view(self.pending@);
        let mut kept: Vec<PendingAppRoute> = Vec::new();
        let mut i: usize = 0;
        while i < self.pending.len()
            invariant
                i <= self.pending.len(),
                old_pending == routes_view(self.pending@),
                routes_view(kept@) == without_pid(old_pending.take(i as int), pid),
                router_wf(old(self)@),
                old_pending == old(self)@.pending,
                forall|k: int| 0 <= k < kept@.len() ==> (#[trigger] kept@[k]).attempt < ROUTE_ATTEMPTS,
            decreases self.pending.len() - i,
        {
            assert(old_pending.take(i + 1).drop_last() =~= old_pending.take(i as int));
            let ghost before = kept@;
            if self.pending[i].pid != pid {
                let r = self.pending[i].clone();
                assert(old_pending[i as int].attempt < ROUTE_ATTEMPTS);
                kept.push(r);
            }
            assert(routes_view(kept@) =~= without_pid(old_pending.take(i + 1), pid));
            i = i + 1;
        }
        assert(old_pending.take(i as int) =~= old_pending);
        self.pending = kept;
        if self.pre_existing.contains(&pid) && !process_has_main_window {
            self.pre_existing.remove(&pid);
        }
        let is_routed_window = match self.routed_hwnd.get(&pid) {
            Some(h) => *h == hwnd,
            None => false,
        };
        if is_routed_window {
            self.routed.remove(&pid);
            self.routed_hwnd.remove(&pid);
        }
        assert(self@.routed =~= self@.routed_hwnd.dom());
    }

    fn pending_has_pid(&self, pid: u32) -> (r: bool)
        ensures
            r == has_pid(self@.pending, pid),
    {
        let mut i: usize = 0;
        while i < self.pending.len()
            invariant
                i <= self.pending.len(),
                forall|j: int| 0 <= j < i ==> (#[trigger] self@.pending[j]).pid != pid,
            decreases self.pending.len() - i,
        {
            if self.pending[i].pid == pid {
                assert(self@.pending[i as int].pid == pid);
                return true;
            }
            i = i + 1;
        }
        false
    }

    fn pending_has_hwnd(&self, hwnd: isize) -> (r: bool)
        ensures
            r == has_hwnd(self@.pending, hwnd),
    {
        let mut i: usize = 0;
        while i < self.pending.len()
            invariant
                i <= self.pending.len(),
                forall|j: int| 0 <= j < i ==> (#[trigger] self@.pending[j]).hwnd != hwnd,
            decreases self.pending.len() - i,
        {
            if self.pending[i].hwnd == hwnd {
                assert(self@.pending[i as int].hwnd == hwnd);
                return true;
            }
            i = i + 1;
        }
        false
    }

    fn push_route(&mut self, route: PendingAppRoute)
        requires
            old(self).wf(),
            route.attempt == 0,
        ensures
            final(self).wf(),
            final(self)@ == with_pending(old(self)@, old(self)@.pending.push(route@)),
    {
        self.pending.push(route);
        assert(self@.pending =~= old(self)@.pending.push(route@));
        assert forall|i: int| 0 <= i < self@.pending.len() implies #[trigger] self@.pending[i].attempt
            < ROUTE_ATTEMPTS by {
            if i < old(self)@.pending.len() {
                assert(self@.pending[i] == old(self)@.pending[i]);
            }
        }
    }

    /// A main window was shown (`pid` is its process, when the system told
    /// it; `foreground` the foreground window). Queues at most one route;
    /// returns whether it did.
    pub fn on_window_shown(
        &mut self,
        hwnd: isize,
        executable: &str,
        pid: Option<u32>,
        foreground: Option<isize>,
        rules: &Vec<AppRule>,
        now_ms: u64,
    ) -> (queued: bool)
        requires
            old(self).wf(),
        ensures
            final(self).wf(),
            final(self)@ == shown_outcome(
                old(self)@,
                hwnd,
                executable@,
                pid,
                foreground,
                rules_view(rules@),
                now_ms,
            ),
            queued <==> final(self)@.pending.len() == old(self)@.pending.len() + 1,
    {
        let p = match pid {
            None => {
                return false;
            },
            Some(p) => p,
        };
        if self.routed.contains(&p) {
            return false;
        }
        let ws = match find_route_target(rules, executable) {
            None => {
                return false;
            },
            Some(ws) => ws,
        };
        if self.pending_has_pid(p) {
            return false;
        }
        let is_new_process = !self.pre_existing.contains(&p);
        let is_foreground = match foreground {
            Some(fg) => fg == hwnd,
            None => false,
        };
        let route = PendingAppRoute {
            hwnd,
            pid: p,
            workspace: ws,
            executable: executable.to_string(),
            attempt: 0,
            due_ms: now_ms,
            switch_on_success: is_new_process || is_foreground,
        };
        self.push_route(route);
        true
    }

    /// Start-up: records the processes that already have main windows, and
    /// goes through the main windows found, in order. Returns how many routes
    /// it queued.
    pub fn organize_at_startup(
        &mut self,
        pre_existing: HashSet<u32>,
        windows: &Vec<StartupWindow>,
        rules: &Vec<AppRule>,
        foreground: Option<isize>,
        now_ms: u64,
    ) -> (queued: usize)
        requires
            old(self).wf(),
        ensures
            final(self).wf(),
            final(self)@ == startup_fold(
                RouterView {
                    routed: old(self)@.routed,
                    routed_hwnd: old(self)@.routed_hwnd,
                    pre_existing: pre_existing@,
                    pending: old(self)@.pending,
                },
                windows_view(windows@),
                rules_view(rules@),
                foreground,
                now_ms,
            ),
            queued == final(self)@.pending.len() - old(self)@.pending.len(),
    {
        self.pre_existing = pre_existing;
        let ghost start = self@;
        let ghost wins = windows_view(windows@);
        let ghost rv = rules_view(rules@);
        let mut queued: usize = 0;
        let mut i: usize = 0;
        assert(wins.take(0) =~= Seq::<StartupWindowView>::empty());
        while i < windows.len()
            invariant
                i <= windows.len(),
                wins == windows_view(windows@),
                rv == rules_view(rules@),
                self.wf(),
                router_wf(start),
                self@ == startup_fold(start, wins.take(i as int), rv, foreground, now_ms),
                queued == self@.pending.len() - start.pending.len(),
                self@.pending.len() >= start.pending.len(),
                queued <= i,
            decreases windows.len() - i,
        {
            assert(wins.take(i + 1).drop_last() =~= wins.take(i as int));
            assert(wins.take(i + 1).last() == windows@[i as int]@);
            let w = &windows[i];
            match find_route_target(rules, w.executable_path.as_str()) {
                None => {},
                Some(ws) => {
                    let on_target = match w.workspace {
                        Some(cur) => cur == ws,
                        None => false,
                    };
                    if on_target {
                        self.routed.insert(w.pid);
                        self.routed_hwnd.insert(w.pid, w.hwnd);
                        assert(self@.routed =~= self@.routed_hwnd.dom());
                    } else if !self.pending_has_hwnd(w.hwnd) {
                        let switch = match foreground {
                            Some(fg) => fg == w.hwnd,
                            None => false,
                        };
                        let route = PendingAppRoute {
                            hwnd: w.hwnd,
                            pid: w.pid,
                            workspace: ws,
                            executable: w.executable.clone(),
                            attempt: 0,
                            due_ms: now_ms,
                            switch_on_success: switch,
                        };
                        self.push_route(route);
                        queued = queued + 1;
                    }
                },
            }
            assert(self@ =~= startup_fold(start, wins.take(i + 1), rv, foreground, now_ms));
            i = i + 1;
        }
        assert(wins.take(i as int) =~= wins);
        queued
    }

    /// The windows to try now, by queue position: `Some((window, workspace))`
    /// for each route that is due, `None` for the others.
    pub fn due_routes(&self, now_ms: u64) -> (r: Vec<Option<(isize, u32)>>)
        ensures
            r@.len() == self@.pending.len(),
            forall|i: int| 0 <= i < r@.len() ==> #[trigger] r@[i] == (if self@.pending[i].due_ms <= now_ms {
                Some((self@.pending[i].hwnd, self@.pending[i].workspace))
            } else {
                None
            }),
    {
        let mut r: Vec<Option<(isize, u32)>> = Vec::new();
        let mut i: usize = 0;
        while i < self.pending.len()
            invariant
                i <= self.pending.len(),
                r@.len() == i,
                forall|j: int| 0 <= j < i ==> #[trigger] r@[j] == (if self@.pending[j].due_ms <= now_ms {
                    Some((self@.pending[j].hwnd, self@.pending[j].workspace))
                } else {
                    None
                }),
            decreases self.pending.len() - i,
        {
            let route = &self.pending[i];
            assert(route@ == self@.pending[i as int]);
            if route.due_ms <= now_ms {
                r.push(Some((route.hwnd, route.workspace)));
            } else {
                r.push(None);
            }
            i = i + 1;
        }
        r
    }

    /// Takes the outcomes of the attempts on the due routes (by queue
    /// position, `None` where the route was not due): moved windows become
    /// routed, routes whose window was not found are retried while attempts
    /// are left, and finished routes leave the queue (by `swap_remove`, the
    /// last position first).
    pub fn apply_route_outcomes(
        &mut self,
        now_ms: u64,
        outcomes: &Vec<Option<RouteOutcome>>,
        current_workspace: u32,
    ) -> (r: PollActions)
        requires
            old(self).wf(),
            outcomes@.len() == old(self)@.pending.len(),
            forall|i: int| 0 <= i < outcomes@.len() ==> (#[trigger] outcomes@[i] is Some
                <==> old(self)@.pending[i].due_ms <= now_ms),
            now_ms <= u64::MAX - 100,
        ensures
            final(self).wf(),
            final(self)@ == poll_outcome(old(self)@, outcomes@, now_ms),
            r.switches@ == poll_switches(old(self)@.pending, outcomes@, current_workspace),
            r.schedule_key_buffer_cleanup == any_moved(outcomes@),
    {
        let ghost routes0 = self@.pending;
        let ghost outs = outcomes@;
        let ghost m0 = self@.routed_hwnd;
        let ghost mid = polled_queue(routes0, outs, now_ms);
        let mut finished: Vec<usize> = Vec::new();
        let mut switches: Vec<(u32, isize)> = Vec::new();
        let mut cleanup = false;
        let mut i: usize = 0;
        while i < self.pending.len()
            invariant
                i <= self.pending.len(),
                self@.pending.len() == routes0.len(),
                outs.len() == routes0.len(),
                outs == outcomes@,
                router_wf(old(self)@),
                routes0 == old(self)@.pending,
                m0 == old(self)@.routed_hwnd,
                mid == polled_queue(routes0, outs, now_ms),
                now_ms <= u64::MAX - 100,
                self@.pre_existing == old(self)@.pre_existing,
                forall|j: int| 0 <= j < i ==> #[trigger] self@.pending[j] == mid[j],
                forall|j: int| i <= j < routes0.len() ==> #[trigger] self@.pending[j] == routes0[j],
                finished@.map_values(|x: usize| x as int) == finished_positions(
                    routes0.take(i as int),
                    outs.take(i as int),
                    now_ms,
                ),
                switches@ == poll_switches(routes0.take(i as int), outs.take(i as int), current_workspace),
                self@.routed_hwnd == routed_after_poll(m0, routes0.take(i as int), outs.take(i as int)),
                self@.routed == self@.routed_hwnd.dom(),
                cleanup == any_moved(outs.take(i as int)),
            decreases self.pending.len() - i,
        {
            let ghost pend_before = self@.pending;
            assert(routes0.take(i + 1).drop_last() =~= routes0.take(i as int));
            assert(outs.take(i + 1).drop_last() =~= outs.take(i as int));
            assert(routes0.take(i + 1).last() == routes0[i as int]);
            assert(outs.take(i + 1).last() == outs[i as int]);
            assert(self@.pending[i as int] == routes0[i as int]);
            assert(routes0[i as int].attempt < ROUTE_ATTEMPTS);
            match outcomes[i] {
                None => {},
                Some(o) => {
                    match o {
                        RouteOutcome::Moved => {
                            let hwnd = self.pending[i].hwnd;
                            let pid = self.pending[i].pid;
                            let ws = self.pending[i].workspace;
                            if self.pending[i].switch_on_success && current_workspace != ws {
                                switches.push((ws, hwnd));
                            }
                            self.routed.insert(pid);
                            self.routed_hwnd.insert(pid, hwnd);
                            finished.push(i);
                            cleanup = true;
                        },
                        RouteOutcome::NotFound => {
                            let attempt = self.pending[i].attempt;
                            if attempt + 1 < ROUTE_ATTEMPTS {
                                let mut route = self.pending[i].clone();
                                route.attempt = attempt + 1;
                                route.due_ms = now_ms + retry_delay_ms(attempt + 1);
                                self.pending.set(i, route);
                            } else {
                                finished.push(i);
                            }
                        },
                        _ => {
                            finished.push(i);
                        },
                    }
                },
            }
            assert(self@.pending[i as int] == mid[i as int]);
            assert(forall|j: int| 0 <= j < routes0.len() && j != i ==> #[trigger] self@.pending[j] == pend_before[j]);
            assert(finished@.map_values(|x: usize| x as int) =~= finished_positions(
                routes0.take(i + 1),
                outs.take(i + 1),
                now_ms,
            ));
            assert(self@.routed =~= self@.routed_hwnd.dom());
            assert(cleanup == any_moved(outs.take(i + 1))) by {
                if any_moved(outs.take(i + 1)) && !any_moved(outs.take(i as int)) {
                    let k = choose|k: int| 0 <= k < outs.take(i + 1).len() && #[trigger] outs.take(i + 1)[k] == Some(RouteOutcome::Moved);
                    if k < i {
                        assert(outs.take(i as int)[k] == outs.take(i + 1)[k]);
                    }
                }
                if any_moved(outs.take(i as int)) {
                    let k = choose|k: int| 0 <= k < outs.take(i as int).len() && #[trigger] outs.take(i as int)[k] == Some(RouteOutcome::Moved);
                    assert(outs.take(i + 1)[k] == outs.take(i as int)[k]);
                }
                if outs[i as int] == Some(RouteOutcome::Moved) {
                    assert(outs.take(i + 1)[i as int] == outs[i as int]);
                }
            }
            i = i + 1;
        }
        assert(routes0.take(i as int) =~= routes0);
        assert(outs.take(i as int) =~= outs);
        assert(self@.pending =~= mid);
        let ghost fin = finished@.map_values(|x: usize| x as int);
        let ghost m1 = self@.routed_hwnd;
        assert(m1 == routed_after_poll(m0, routes0, outs));
        assert(fin == finished_positions(routes0, outs, now_ms));
        proof {
            lemma_finished_positions_spaced(routes0, outs, now_ms);
        }
        let mut k: usize = finished.len();
        assert(fin.take(k as int) =~= fin);
        while k > 0
            invariant
                k <= finished@.len(),
                fin == finished@.map_values(|x: usize| x as int),
                spaced(fin),
                forall|a: int| 0 <= a < fin.len() ==> 0 <= #[trigger] fin[a] < mid.len(),
                self@.pending.len() == mid.len() - (fin.len() - k),
                swap_removed_all(mid, fin) == swap_removed_all(self@.pending, fin.take(k as int)),
                forall|j: int| 0 <= j < self@.pending.len() ==> #[trigger] self@.pending[j].attempt < ROUTE_ATTEMPTS,
                self@.routed_hwnd == m1,
                self@.routed == m1.dom(),
                self@.pre_existing == old(self)@.pre_existing,
            decreases k,
        {
            k = k - 1;
            let pos = finished[k];
            assert(fin[k as int] == pos as int);
            assert(fin[fin.len() - 1] - fin[k as int] >= fin.len() - 1 - k);
            let ghost before = self@.pending;
            self.pending.swap_remove(pos);
            assert(self@.pending =~= swap_removed(before, pos as int));
            assert(fin.take(k + 1).drop_last() =~= fin.take(k as int));
            assert(fin.take(k + 1).last() == pos as int);
            assert forall|j: int| 0 <= j < self@.pending.len() implies #[trigger] self@.pending[j].attempt < ROUTE_ATTEMPTS by {
                if j == pos as int {
                    assert(self@.pending[j] == before[before.len() - 1]);
                } else {
                    assert(self@.pending[j] == before[j]);
                }
            }
        }
        assert(fin.take(0) =~= Seq::<int>::empty());
        PollActions { switches, schedule_key_buffer_cleanup: cleanup }
    }
}

impl AppRouter {
    /// The switch the queued route at `i` asks for once its attempt had
    /// `outcome`; the caller may carry it out right after the move, before
    /// the whole poll is applied.
    pub fn switch_for(&self, i: usize, outcome: RouteOutcome, current_workspace: u32) -> (r: Option<(u32, isize)>)
        requires
            i < self@.pending.len(),
        ensures
            r == route_switch(self@.pending[i as int], Some(outcome), current_workspace),
    {
        let route = &self.pending[i];
        assert(route@ == self@.pending[i as int]);
        if outcome == RouteOutcome::Moved && route.switch_on_success && current_workspace != route.workspace {
            Some((route.workspace, route.hwnd))
        } else {
            None
        }
    }
}

/// What a launch hotkey asks for, given the executable it names.
#[derive(Debug, Clone, Copy, PartialEq, Eq, Structural)]
pub enum LaunchPlan {
    /// No app rule names the executable: nothing to do.
    UnknownExecutable,
    /// A main window of the app exists and its rule names a workspace: move
    /// the window there; once moved, switch to the workspace focusing the
    /// window when `switch`, else focus the window.
    MoveThen { hwnd: isize, workspace: u32, switch: bool },
    /// A main window of the app exists and its rule names no workspace:
    /// focus it.
    Focus { hwnd: isize },
    /// No main window of the app exists: switch to `switch_to` first, when
    /// set, then start the executable.
    Launch { switch_to: Option<u32> },
}

/// The workspace setting of the first app rule whose executable is exactly
/// the given text; `None` when no rule names it.
pub open spec fn launch_rule(rules: Seq<AppRuleView>, executable: Seq<char>) -> Option<Option<u32>>
    decreases rules.len(),
{
    if rules.len() == 0 {
        None
    } else if rules[0].executable == executable {
        Some(rules[0].workspace)
    } else {
        launch_rule(rules.drop_first(), executable)
    }
}

pub open spec fn launch_plan_spec(
    rules: Seq<AppRuleView>,
    executable: Seq<char>,
    window: Option<isize>,
    current_workspace: u32,
) -> LaunchPlan {
    match launch_rule(rules, executable) {
        None => LaunchPlan::UnknownExecutable,
        Some(workspace) => match window {
            Some(hwnd) => match workspace {
                Some(w) => LaunchPlan::MoveThen { hwnd, workspace: w, switch: current_workspace != w },
                None => LaunchPlan::Focus { hwnd },
            },
            None => LaunchPlan::Launch {
                switch_to: match workspace {
                    Some(w) => if current_workspace != w {
                        Some(w)
                    } else {
                        None
                    },
                    None => None,
                },
            },
        },
    }
}

/// The workspace setting of the first app rule whose executable is exactly
/// `executable`, when one is.
fn find_launch_rule(rules: &Vec<AppRule>, executable: &str) -> (r: Option<Option<u32>>)
    ensures
        r == launch_rule(rules_view(rules@), executable@),
{
    let ghost all = rules_view(rules@);
    let target = chars_of(executable);
    let mut i: usize = 0;
    assert(all.skip(0) =~= all);
    while i < rules.len()
        invariant
            i <= rules.len(),
            all == rules_view(rules@),
            target@ == executable@,
            launch_rule(all, executable@) == launch_rule(all.skip(i as int), executable@),
        decreases rules.len() - i,
    {
        let ghost rest = all.skip(i as int);
        assert(rest[0] == rules@[i as int]@);
        assert(rest.drop_first() =~= all.skip(i + 1));
        let name = chars_of(rules[i].executable.as_str());
        if chars_eq(&name, &target) {
            return Some(rules[i].workspace);
        }
        i = i + 1;
    }
    assert(all.skip(i as int).len() == 0);
    None
}

/// The plan for a launch hotkey naming `executable`, given the app's main
/// window when one exists and the current workspace.
pub fn launch_plan(
    rules: &Vec<AppRule>,
    executable: &str,
    existing_window: Option<isize>,
    current_workspace: u32,
) -> (r: LaunchPlan)
    ensures
        r == launch_plan_spec(rules_view(rules@), executable@, existing_window, current_workspace),
{
    let found = find_launch_rule(rules, executable);
    match found {
        None => LaunchPlan::UnknownExecutable,
        Some(workspace) => match existing_window {
            Some(hwnd) => match workspace {
                Some(w) => LaunchPlan::MoveThen { hwnd, workspace: w, switch: current_workspace != w },
                None => LaunchPlan::Focus { hwnd },
            },
            None => {
                let switch_to = match workspace {
                    Some(w) => if current_workspace != w {
                        Some(w)
                    } else {
                        None
                    },
                    None => None,
                };
                LaunchPlan::Launch { switch_to }
            },
        },
    }
}

} // verus!
