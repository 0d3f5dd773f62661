//! Routing requests to handlers along a trie of path segments.
use vstd::prelude::*;
use vstd::string::*;
use vstd::utf8::*;

pub mod method;

pub use self::method::{InvalidMethod, Method};

use self::method::{method_index, method_of};
use crate::request::{string_pairs_view, BytePair, Request, RequestView};
use crate::response::response::Response;
use crate::response::{ContentType, Status};
use crate::text::{
    byte_pos, byte_pos_from, bytes_equal, find_byte, lemma_boundary_near_ascii,
    lemma_byte_pos_from, lemma_str_valid, opt_int, str_bytes, substr, to_owned_string,
};

verus! {

broadcast use vstd::seq_lib::group_seq_properties;

/// Number of methods a node keeps a handler slot for.
pub const METHOD_COUNT: usize = 7;

// ---------------------------------------------------------------------
// The trie as a mathematical value

/// A trie node: its static children by segment, its parameter child with
/// the parameter's name, and the handler slot of each method.
pub struct NodeView {
    pub children: Seq<(Seq<u8>, int)>,
    pub param: Option<(Seq<u8>, int)>,
    pub handlers: Seq<Option<int>>,
}

/// A router: its trie (node 0 is the root), how many handlers and how many
/// middlewares it holds.
pub struct RouterView {
    pub nodes: Seq<NodeView>,
    pub handlers: nat,
    pub middlewares: nat,
}

/// The node under the static child named `seg`, if any.
pub open spec fn child_of(children: Seq<(Seq<u8>, int)>, seg: Seq<u8>) -> Option<int>
    decreases children.len(),
{
    if children.len() == 0 {
        None
    } else if children[0].0 == seg {
        Some(children[0].1)
    } else {
        child_of(children.drop_first(), seg)
    }
}

/// Where the segments `segs` of a request lead from node `cur`, preferring
/// a static child and falling back to the parameter child, and the
/// parameters captured on the way (also when the walk fails part-way).
pub open spec fn walk(nodes: Seq<NodeView>, cur: int, segs: Seq<Seq<u8>>) -> (Option<int>, Seq<BytePair>)
    decreases segs.len(),
{
    if segs.len() == 0 {
        (Some(cur), Seq::empty())
    } else if !(0 <= cur < nodes.len()) {
        (None, Seq::empty())
    } else {
        match child_of(nodes[cur].children, segs[0]) {
            Some(n) => walk(nodes, n, segs.drop_first()),
            None => match nodes[cur].param {
                Some(p) => {
                    let rest = walk(nodes, p.1, segs.drop_first());
                    (rest.0, seq![(p.0, segs[0])] + rest.1)
                },
                None => (None, Seq::empty()),
            },
        }
    }
}

/// The non-empty `/`-separated segments of `p` from `start` on.
pub open spec fn segments_from(p: Seq<u8>, start: int) -> Seq<Seq<u8>>
    decreases p.len() - start,
{
    if start < 0 || start > p.len() {
        Seq::empty()
    } else {
        let end = match byte_pos_from(p, 47, start) {
            Some(e) => e,
            None => p.len() as int,
        };
        proof {
            lemma_byte_pos_from(p, 47, start);
        }
        let seg = p.subrange(start, end);
        let here = if seg.len() > 0 {
            seq![seg]
        } else {
            Seq::empty()
        };
        if end < p.len() {
            here + segments_from(p, end + 1)
        } else {
            here
        }
    }
}

/// The non-empty `/`-separated segments of a path.
pub open spec fn segments(p: Seq<u8>) -> Seq<Seq<u8>> {
    segments_from(p, 0)
}

/// The part of a path routing looks at: everything before the first `?`.
pub open spec fn route_path(p: Seq<u8>) -> Seq<u8> {
    match byte_pos(p, 63) {
        Some(q) => p.subrange(0, q),
        None => p,
    }
}

/// A segment of a route pattern that names a parameter (`:name`).
pub open spec fn is_param_seg(seg: Seq<u8>) -> bool {
    seg.len() > 0 && seg[0] == 58
}

/// The node a route pattern leads to from `cur`: static segments through
/// static children, `:name` segments through the parameter child.
pub open spec fn pattern_walk(nodes: Seq<NodeView>, cur: int, psegs: Seq<Seq<u8>>) -> Option<int>
    decreases psegs.len(),
{
    if psegs.len() == 0 {
        Some(cur)
    } else if !(0 <= cur < nodes.len()) {
        None
    } else if is_param_seg(psegs[0]) {
        match nodes[cur].param {
            Some(p) => pattern_walk(nodes, p.1, psegs.drop_first()),
            None => None,
        }
    } else {
        match child_of(nodes[cur].children, psegs[0]) {
            Some(n) => pattern_walk(nodes, n, psegs.drop_first()),
            None => None,
        }
    }
}

/// The handler index a request is dispatched to, if any.
pub open spec fn dispatch(r: RouterView, path: Seq<u8>, method: Method) -> Option<int> {
    match walk(r.nodes, 0, segments(route_path(path))).0 {
        Some(n) => r.nodes[n].handlers[method_index(method) as int],
        None => None,
    }
}

/// The response routing starts from: `200 OK`, an empty text body, no
/// headers, bound to no connection.
pub open spec fn fresh_response(r: Response) -> bool {
    &&& r.status == Status::OK
    &&& r.body@ == Seq::<u8>::empty()
    &&& r.content_type == ContentType::TEXT
    &&& r.headers@ == Seq::<(Seq<char>, Seq<char>)>::empty()
    &&& r.metadata is None
}

/// Every index a node holds is in range.
pub open spec fn node_wf(n: NodeView, len: nat, nh: nat) -> bool {
    &&& n.handlers.len() == METHOD_COUNT
    &&& forall|i: int| 0 <= i < n.children.len() ==> 0 <= #[trigger] n.children[i].1 < len
    &&& (n.param matches Some(p) ==> 0 <= p.1 < len)
    &&& forall|i: int| 0 <= i < n.handlers.len() ==> (#[trigger] n.handlers[i] matches Some(h) ==> 0 <= h < nh)
}

/// A well-formed trie: a root, and every index in range.
pub open spec fn trie_wf(nodes: Seq<NodeView>, nh: nat) -> bool {
    &&& nodes.len() >= 1
    &&& forall|i: int| 0 <= i < nodes.len() ==> node_wf(#[trigger] nodes[i], nodes.len(), nh)
}

pub proof fn lemma_child_of(children: Seq<(Seq<u8>, int)>, seg: Seq<u8>)
    ensures
        match child_of(children, seg) {
            Some(n) => exists|i: int| 0 <= i < children.len() && children[i].0 == seg && children[i].1 == n,
            None => forall|i: int| 0 <= i < children.len() ==> children[i].0 != seg,
        },
    decreases children.len(),
{
    if children.len() > 0 && children[0].0 != seg {
        let t = children.drop_first();
        lemma_child_of(t, seg);
        if let Some(n) = child_of(t, seg) {
            let i = choose|i: int| 0 <= i < t.len() && t[i].0 == seg && t[i].1 == n;
            assert(children[i + 1] == t[i]);
        } else {
            assert forall|i: int| 0 <= i < children.len() implies children[i].0 != seg by {
                if i > 0 {
                    assert(children[i] == t[i - 1]);
                }
            }
        }
    } else if children.len() > 0 {
        assert(children[0].0 == seg);
    }
}

/// `new` keeps every entry of `old` and may append more.
pub open spec fn children_extend(old: Seq<(Seq<u8>, int)>, new: Seq<(Seq<u8>, int)>) -> bool {
    old.len() <= new.len() && new.subrange(0, old.len() as int) == old
}

/// `new` grows `old`: nodes may be appended, children appended, a missing
/// parameter child set and handler slots changed; nothing is removed.
pub open spec fn trie_extends(old: Seq<NodeView>, new: Seq<NodeView>) -> bool {
    &&& old.len() <= new.len()
    &&& forall|i: int|
        0 <= i < old.len() ==> {
            &&& children_extend(old[i].children, #[trigger] new[i].children)
            &&& (old[i].param is Some ==> new[i].param == old[i].param)
        }
}

/// Every handler slot of `after` but slot `slot` of node `target` holds
/// what it held in `before`; the nodes `after` adds hold none there.
pub open spec fn other_slots_kept(before: Seq<NodeView>, after: Seq<NodeView>, target: int, slot: int) -> bool {
    &&& forall|i: int, j: int|
        0 <= i < before.len() && 0 <= j < METHOD_COUNT && !(i == target && j == slot)
            ==> #[trigger] after[i].handlers[j] == before[i].handlers[j]
    &&& forall|i: int, j: int|
        before.len() <= i < after.len() && 0 <= j < METHOD_COUNT && !(i == target && j == slot)
            ==> #[trigger] after[i].handlers[j] is None
}

/// The handler slots of the nodes of `before` are unchanged in `after`, and
/// the nodes `after` adds have empty slots.
pub open spec fn handlers_kept(before: Seq<NodeView>, after: Seq<NodeView>) -> bool {
    &&& forall|i: int| 0 <= i < before.len() ==> #[trigger] after[i].handlers == before[i].handlers
    &&& forall|i: int, j: int| before.len() <= i < after.len() && 0 <= j < METHOD_COUNT ==> #[trigger] after[i].handlers[j] is None
}

/// What `Router::add_route` achieves: the pattern leads to a node whose slot
/// for `method` holds the handler added last, and every other slot keeps
/// what it held.
pub open spec fn route_added(before: RouterView, after: RouterView, method: Method, pattern: Seq<u8>) -> bool {
    &&& after.handlers == before.handlers + 1
    &&& trie_extends(before.nodes, after.nodes)
    &&& pattern_walk(after.nodes, 0, segments(pattern)) matches Some(n)
    &&& after.nodes[n].handlers[method_index(method) as int] == Some(before.handlers as int)
    &&& other_slots_kept(before.nodes, after.nodes, n, method_index(method) as int)
}

/// The request segments `segs` follow the route pattern `psegs` from `cur`:
/// static segments are equal, and at each parameter segment no static child
/// of that name takes precedence.
pub open spec fn follows_pattern(nodes: Seq<NodeView>, cur: int, segs: Seq<Seq<u8>>, psegs: Seq<Seq<u8>>) -> bool
    decreases psegs.len(),
{
    if psegs.len() == 0 {
        segs.len() == 0
    } else if segs.len() == 0 || !(0 <= cur < nodes.len()) {
        false
    } else if is_param_seg(psegs[0]) {
        child_of(nodes[cur].children, segs[0]) is None && match nodes[cur].param {
            Some(p) => follows_pattern(nodes, p.1, segs.drop_first(), psegs.drop_first()),
            None => false,
        }
    } else {
        segs[0] == psegs[0] && match child_of(nodes[cur].children, segs[0]) {
            Some(n) => follows_pattern(nodes, n, segs.drop_first(), psegs.drop_first()),
            None => false,
        }
    }
}

pub proof fn lemma_child_of_extend(old: Seq<(Seq<u8>, int)>, new: Seq<(Seq<u8>, int)>, seg: Seq<u8>)
    requires
        children_extend(old, new),
        child_of(old, seg) is Some,
    ensures
        child_of(new, seg) == child_of(old, seg),
    decreases old.len(),
{
    if old[0].0 != seg {
        assert(new[0] == old[0]);
        let (o, n) = (old.drop_first(), new.drop_first());
        assert(n.subrange(0, o.len() as int) =~= o) by {
            assert forall|i: int| 0 <= i < o.len() implies n.subrange(0, o.len() as int)[i] == o[i] by {
                assert(new.subrange(0, old.len() as int)[i + 1] == old[i + 1]);
            }
        }
        lemma_child_of_extend(o, n, seg);
    } else {
        assert(new[0] == new.subrange(0, old.len() as int)[0]);
    }
}

pub proof fn lemma_child_of_push(cs: Seq<(Seq<u8>, int)>, k: Seq<u8>, v: int)
    requires
        child_of(cs, k) is None,
    ensures
        child_of(cs.push((k, v)), k) == Some(v),
    decreases cs.len(),
{
    if cs.len() > 0 {
        assert(cs.push((k, v)).drop_first() =~= cs.drop_first().push((k, v)));
        lemma_child_of_push(cs.drop_first(), k, v);
    }
}

pub proof fn lemma_pattern_walk_extend(old: Seq<NodeView>, new: Seq<NodeView>, cur: int, psegs: Seq<Seq<u8>>)
    requires
        trie_extends(old, new),
        pattern_walk(old, cur, psegs) is Some,
    ensures
        pattern_walk(new, cur, psegs) == pattern_walk(old, cur, psegs),
    decreases psegs.len(),
{
    if psegs.len() > 0 {
        assert(children_extend(old[cur].children, new[cur].children));
        if is_param_seg(psegs[0]) {
            let p = old[cur].param->0;
            lemma_pattern_walk_extend(old, new, p.1, psegs.drop_first());
        } else {
            lemma_child_of_extend(old[cur].children, new[cur].children, psegs[0]);
            let n = child_of(old[cur].children, psegs[0])->0;
            lemma_pattern_walk_extend(old, new, n, psegs.drop_first());
        }
    }
}

pub proof fn lemma_pattern_walk_push(nodes: Seq<NodeView>, cur: int, a: Seq<Seq<u8>>, s: Seq<u8>)
    ensures
        pattern_walk(nodes, cur, a.push(s)) == (match pattern_walk(nodes, cur, a) {
            Some(c) => pattern_walk(nodes, c, seq![s]),
            None => None,
        }),
    decreases a.len(),
{
    if a.len() > 0 {
        assert(a.push(s).drop_first() =~= a.drop_first().push(s));
        assert(a.push(s)[0] == a[0]);
        if 0 <= cur < nodes.len() {
            if is_param_seg(a[0]) {
                if let Some(p) = nodes[cur].param {
                    lemma_pattern_walk_push(nodes, p.1, a.drop_first(), s);
                }
            } else {
                if let Some(n) = child_of(nodes[cur].children, a[0]) {
                    lemma_pattern_walk_push(nodes, n, a.drop_first(), s);
                }
            }
        }
    } else {
        assert(a.push(s) =~= seq![s]);
    }
}

pub proof fn lemma_pattern_step(nodes: Seq<NodeView>, c: int, s: Seq<u8>)
    ensures
        pattern_walk(nodes, c, seq![s]) == (if !(0 <= c < nodes.len()) {
            None
        } else if is_param_seg(s) {
            match nodes[c].param {
                Some(p) => Some(p.1),
                None => None,
            }
        } else {
            child_of(nodes[c].children, s)
        }),
{
    reveal_with_fuel(pattern_walk, 2);
    assert(seq![s].drop_first() =~= Seq::<Seq<u8>>::empty());
    assert(seq![s][0] == s);
}

/// Following a pattern is walking to the node the pattern leads to.
pub proof fn lemma_follows_pattern(nodes: Seq<NodeView>, cur: int, segs: Seq<Seq<u8>>, psegs: Seq<Seq<u8>>)
    requires
        follows_pattern(nodes, cur, segs, psegs),
    ensures
        walk(nodes, cur, segs).0 == pattern_walk(nodes, cur, psegs),
    decreases psegs.len(),
{
    if psegs.len() > 0 {
        if is_param_seg(psegs[0]) {
            let p = nodes[cur].param->0;
            lemma_follows_pattern(nodes, p.1, segs.drop_first(), psegs.drop_first());
        } else {
            let n = child_of(nodes[cur].children, segs[0])->0;
            lemma_follows_pattern(nodes, n, segs.drop_first(), psegs.drop_first());
        }
    }
}

/// A request path made of exactly the segments of a pattern without
/// parameters follows that pattern wherever the pattern leads somewhere.
pub proof fn lemma_static_pattern_followed(nodes: Seq<NodeView>, cur: int, psegs: Seq<Seq<u8>>)
    requires
        pattern_walk(nodes, cur, psegs) is Some,
        forall|i: int| 0 <= i < psegs.len() ==> !is_param_seg(#[trigger] psegs[i]),
    ensures
        follows_pattern(nodes, cur, psegs, psegs),
    decreases psegs.len(),
{
    if psegs.len() > 0 {
        assert(!is_param_seg(psegs[0]));
        let n = child_of(nodes[cur].children, psegs[0])->0;
        assert forall|i: int| 0 <= i < psegs.drop_first().len() implies !is_param_seg(
            #[trigger] psegs.drop_first()[i],
        ) by {
            assert(psegs.drop_first()[i] == psegs[i + 1]);
        }
        lemma_static_pattern_followed(nodes, n, psegs.drop_first());
    }
}

/// Adding a route and then routing a request whose path follows its pattern
/// dispatches the request to the handler just added.
pub proof fn law_route_after_add(before: RouterView, after: RouterView, method: Method, pattern: Seq<u8>, path: Seq<u8>)
    requires
        route_added(before, after, method, pattern),
        follows_pattern(after.nodes, 0, segments(route_path(path)), segments(pattern)),
    ensures
        dispatch(after, path, method) == Some(before.handlers as int),
{
    lemma_follows_pattern(after.nodes, 0, segments(route_path(path)), segments(pattern));
}

/// In particular, after adding a route whose pattern has no parameters, a
/// request for exactly that path is dispatched to the handler just added.
pub proof fn law_static_route_after_add(before: RouterView, after: RouterView, method: Method, pattern: Seq<u8>, path: Seq<u8>)
    requires
        route_added(before, after, method, pattern),
        segments(route_path(path)) == segments(pattern),
        forall|i: int| 0 <= i < segments(pattern).len() ==> !is_param_seg(#[trigger] segments(pattern)[i]),
    ensures
        dispatch(after, path, method) == Some(before.handlers as int),
{
    lemma_static_pattern_followed(after.nodes, 0, segments(pattern));
    law_route_after_add(before, after, method, pattern, path);
}

/// Adding a route for one method leaves the other methods of the same
/// path as they were: a request whose path follows a pattern that already
/// led somewhere is dispatched, for any other method, to the handler that
/// method had there before.
pub proof fn law_add_route_keeps_other_methods(
    before: RouterView,
    after: RouterView,
    method: Method,
    pattern: Seq<u8>,
    path: Seq<u8>,
    other: Method,
)
    requires
        trie_wf(before.nodes, before.handlers),
        route_added(before, after, method, pattern),
        follows_pattern(after.nodes, 0, segments(route_path(path)), segments(pattern)),
        pattern_walk(before.nodes, 0, segments(pattern)) is Some,
        other != method,
    ensures
        dispatch(after, path, other) == before.nodes[pattern_walk(before.nodes, 0, segments(pattern))->0].handlers[method_index(
            other,
        ) as int],
{
    lemma_follows_pattern(after.nodes, 0, segments(route_path(path)), segments(pattern));
    lemma_pattern_walk_extend(before.nodes, after.nodes, 0, segments(pattern));
    let n = pattern_walk(before.nodes, 0, segments(pattern))->0;
    lemma_pattern_walk_in_range(before.nodes, before.handlers, 0, segments(pattern));
    assert(method_index(other) != method_index(method));
    assert(after.nodes[n].handlers[method_index(other) as int] == before.nodes[n].handlers[method_index(other) as int]);
}

/// More generally, after adding a route for one method, a request whose
/// path follows the pattern is dispatched, for any other method, to what
/// the node the pattern leads to held for that method before, and to no
/// handler when adding the route created that node.
pub proof fn law_add_route_other_methods(
    before: RouterView,
    after: RouterView,
    method: Method,
    pattern: Seq<u8>,
    path: Seq<u8>,
    other: Method,
)
    requires
        trie_wf(after.nodes, after.handlers),
        route_added(before, after, method, pattern),
        follows_pattern(after.nodes, 0, segments(route_path(path)), segments(pattern)),
        other != method,
    ensures
        ({
            let n = pattern_walk(after.nodes, 0, segments(pattern))->0;
            dispatch(after, path, other) == if n < before.nodes.len() {
                before.nodes[n].handlers[method_index(other) as int]
            } else {
                None
            }
        }),
{
    lemma_follows_pattern(after.nodes, 0, segments(route_path(path)), segments(pattern));
    lemma_pattern_walk_in_range(after.nodes, after.handlers, 0, segments(pattern));
    let n = pattern_walk(after.nodes, 0, segments(pattern))->0;
    assert(method_index(other) != method_index(method));
    assert(after.nodes[n].handlers[method_index(other) as int] == if n < before.nodes.len() {
        before.nodes[n].handlers[method_index(other) as int]
    } else {
        None
    });
}

/// Where a pattern leads from a node of the trie is a node of the trie.
pub proof fn lemma_pattern_walk_in_range(nodes: Seq<NodeView>, nh: nat, cur: int, psegs: Seq<Seq<u8>>)
    requires
        0 <= cur < nodes.len(),
        trie_wf(nodes, nh),
        pattern_walk(nodes, cur, psegs) is Some,
    ensures
        0 <= pattern_walk(nodes, cur, psegs)->0 < nodes.len(),
    decreases psegs.len(),
{
    if psegs.len() > 0 {
        assert(node_wf(nodes[cur], nodes.len(), nh));
        if is_param_seg(psegs[0]) {
            let p = nodes[cur].param->0;
            lemma_pattern_walk_in_range(nodes, nh, p.1, psegs.drop_first());
        } else {
            lemma_child_of(nodes[cur].children, psegs[0]);
            let n = child_of(nodes[cur].children, psegs[0])->0;
            lemma_pattern_walk_in_range(nodes, nh, n, psegs.drop_first());
        }
    }
}

// ---------------------------------------------------------------------
// Handlers and middlewares

/// Something that handles a request by filling in a response.
pub trait Handler: Send + Sync {
    /// The handler may be run on every request and response.
    spec fn accepts(&self) -> bool;

    /// What running the handler on `req` may do to the response behind
    /// `res` (its value before the call, and its final value).
    spec fn handles(&self, req: &Request, res: &mut Response) -> bool;

    fn handle(&self, req: &Request, res: &mut Response)
        requires
            self.accepts(),
        ensures
            exists|m: &mut Response| *m == *old(res) && *final(m) == *final(res) && #[trigger] self.handles(req, m),
    ;
}

/// A closure as a handler.
pub struct FnHandler<F: Fn(&Request, &mut Response)> {
    pub f: F,
}

impl<F: Fn(&Request, &mut Response) + Send + Sync> Handler for FnHandler<F> {
    open spec fn accepts(&self) -> bool {
        forall|q: &Request, r: &mut Response| call_requires(self.f, (q, r))
    }

    open spec fn handles(&self, req: &Request, res: &mut Response) -> bool {
        call_ensures(self.f, (req, res), ())
    }

    fn handle(&self, req: &Request, res: &mut Response) {
        (self.f)(req, res);
        assert(exists|m: &mut Response| call_ensures(self.f, (req, m), ()) && *m == *old(res) && *final(m) == *final(res));
        let ghost m = choose|m: &mut Response| call_ensures(self.f, (req, m), ()) && *m == *old(res) && *final(m) == *final(res);
        assert(self.handles(req, m));
    }
}

/// A registered handler.
pub struct HandlerBox {
    pub h: Box<dyn Handler>,
}

impl Handler for HandlerBox {
    open spec fn accepts(&self) -> bool {
        self.h.accepts()
    }

    open spec fn handles(&self, req: &Request, res: &mut Response) -> bool {
        self.h.handles(req, res)
    }

    fn handle(&self, req: &Request, res: &mut Response) {
        self.h.handle(req, res);
        let ghost m = choose|m: &mut Response| *m == *old(res) && *final(m) == *final(res) && #[trigger] self.h.handles(req, m);
        assert(self.handles(req, m));
    }
}

/// Boxes a closure as a handler that runs it.
fn box_handler<F: Fn(&Request, &mut Response) + Send + Sync + 'static>(f: F) -> (r: HandlerBox)
    requires
        forall|q: &Request, r: &mut Response| call_requires(f, (q, r)),
    ensures
        r.h.accepts(),
        forall|q: &Request, m: &mut Response| #[trigger] r.h.handles(q, m) == call_ensures(f, (q, m), ()),
{
    HandlerBox { h: Box::new(FnHandler { f }) }
}

/// Something that runs around a handler and decides whether to continue the
/// chain by calling `next.run()`.
pub trait Middleware: Send + Sync {
    /// The middleware may be run on every request, response and
    /// continuation.
    spec fn accepts(&self) -> bool;

    /// What running the middleware on `req` with the continuation `next`
    /// may do to the response behind `res`.
    spec fn calls(&self, req: &Request, res: &mut Response, next: Next) -> bool;

    fn call(&self, req: &Request, res: &mut Response, next: Next)
        requires
            self.accepts(),
        ensures
            exists|m: &mut Response| *m == *old(res) && *final(m) == *final(res) && #[trigger] self.calls(req, m, next),
    ;
}

/// A closure as a middleware.
pub struct FnMiddleware<F: Fn(&Request, &mut Response, Next)> {
    pub f: F,
}

impl<F: Fn(&Request, &mut Response, Next) + Send + Sync> Middleware for FnMiddleware<F> {
    open spec fn accepts(&self) -> bool {
        forall|q: &Request, r: &mut Response, n: Next| call_requires(self.f, (q, r, n))
    }

    open spec fn calls(&self, req: &Request, res: &mut Response, next: Next) -> bool {
        call_ensures(self.f, (req, res, next), ())
    }

    fn call(&self, req: &Request, res: &mut Response, next: Next) {
        let ghost n = next;
        (self.f)(req, res, next);
        assert(exists|m: &mut Response| call_ensures(self.f, (req, m, n), ()) && *m == *old(res) && *final(m) == *final(res));
        let ghost m = choose|m: &mut Response| call_ensures(self.f, (req, m, n), ()) && *m == *old(res) && *final(m) == *final(res);
        assert(self.calls(req, m, n));
    }
}

/// A registered middleware.
pub struct MiddlewareFn {
    m: Box<dyn Middleware>,
}

impl MiddlewareFn {
    #[verifier::type_invariant]
    spec fn runnable(self) -> bool {
        self.m.accepts()
    }

    /// What running this middleware on `req` with the continuation `next`
    /// may do to the response behind `res`.
    pub closed spec fn calls(&self, req: &Request, res: &mut Response, next: Next) -> bool {
        self.m.calls(req, res, next)
    }
}

/// Boxes a closure as a middleware that runs it.
fn box_middleware<F: Fn(&Request, &mut Response, Next) + Send + Sync + 'static>(f: F) -> (r: MiddlewareFn)
    requires
        forall|q: &Request, r: &mut Response, n: Next| call_requires(f, (q, r, n)),
    ensures
        forall|q: &Request, m: &mut Response, n: Next| #[trigger] r.calls(q, m, n) == call_ensures(f, (q, m, n), ()),
{
    MiddlewareFn { m: Box::new(FnMiddleware { f }) }
}

/// What running the middlewares `mws` in order, then `handler`, on `req` may
/// do to the response behind `res`: the handler's own effect when no
/// middleware is left; otherwise the first middleware's, given a
/// continuation that runs exactly the rest of the chain.
pub open spec fn chain_runs<H: Handler + ?Sized>(mws: Seq<MiddlewareFn>, handler: &H, req: &Request, res: &mut Response) -> bool
    decreases mws.len(),
{
    if mws.len() == 0 {
        handler.handles(req, res)
    } else {
        exists|n: Next|
            #![trigger mws[0].calls(req, res, n)]
            (forall|q: &Request, m: &mut Response| #[trigger] n.continues(q, m) == chain_runs(mws.drop_first(), handler, q, m))
                && mws[0].calls(req, res, n)
    }
}

/// One step of a chain: a first middleware run with a continuation that
/// runs exactly the rest of the chain is a run of the whole chain.
proof fn lemma_chain_step<H: Handler + ?Sized>(mws: Seq<MiddlewareFn>, handler: &H, req: &Request, m: &mut Response, n: Next)
    requires
        mws.len() > 0,
        forall|q: &Request, m2: &mut Response| #[trigger] n.continues(q, m2) == chain_runs(mws.drop_first(), handler, q, m2),
        mws[0].calls(req, m, n),
    ensures
        chain_runs(mws, handler, req, m),
{
}

/// What remains of a middleware chain, run as one step.
pub trait Chain {
    /// Every part of the chain may be run.
    spec fn ready(&self) -> bool;

    /// What running the rest of the chain on `req` may do to the response
    /// behind `res`.
    spec fn proceeds(&self, req: &Request, res: &mut Response) -> bool;

    fn proceed(&self, req: &Request, res: &mut Response)
        requires
            self.ready(),
        ensures
            exists|m: &mut Response| *m == *old(res) && *final(m) == *final(res) && #[trigger] self.proceeds(req, m),
    ;
}

/// The middlewares still to run and the handler at the end of the chain.
pub struct ChainAt<'a, H: Handler + ?Sized> {
    pub rest: &'a [MiddlewareFn],
    pub handler: &'a H,
}

impl<'a, H: Handler + ?Sized> Chain for ChainAt<'a, H> {
    open spec fn ready(&self) -> bool {
        self.handler.accepts()
    }

    /// The middlewares of `rest` in order, then the handler.
    open spec fn proceeds(&self, req: &Request, res: &mut Response) -> bool {
        chain_runs(self.rest@, self.handler, req, res)
    }

    fn proceed(&self, req: &Request, res: &mut Response) {
        if self.rest.len() > 0 {
            let (first, others) = self.rest.split_at(1);
            let after = ChainAt { rest: others, handler: self.handler };
            assert(first@[0] == self.rest@[0]);
            assert(others@ == self.rest@.drop_first());
            let fm: &MiddlewareFn = &first[0];
            proof {
                use_type_invariant(fm);
            }
            assert(after.ready());
            let next = Next { chain: &after };
            let ghost n = next;
            assert forall|q: &Request, m: &mut Response| #[trigger] n.continues(q, m) == chain_runs(
                self.rest@.drop_first(),
                self.handler,
                q,
                m,
            ) by {
                assert(n.continues(q, m) == after.proceeds(q, m));
            }
            first[0].m.call(req, res, next);
            let ghost m = choose|m: &mut Response| *m == *old(res) && *final(m) == *final(res) && #[trigger] first@[0].m.calls(req, m, n);
            assert(self.rest@[0].calls(req, m, n));
            proof {
                lemma_chain_step(self.rest@, self.handler, req, m, n);
            }
            assert(self.proceeds(req, m));
        } else {
            self.handler.handle(req, res);
            let ghost m = choose|m: &mut Response| *m == *old(res) && *final(m) == *final(res) && #[trigger] self.handler.handles(req, m);
            assert(self.proceeds(req, m));
        }
    }
}

/// The continuation a middleware receives: running it continues the chain
/// with the next middleware, or the handler once no middleware remains.
pub struct Next<'a> {
    chain: &'a dyn Chain,
}

impl<'a> Next<'a> {
    #[verifier::type_invariant]
    spec fn runnable(self) -> bool {
        self.chain.ready()
    }

    /// What running the rest of the chain on `req` may do to the response
    /// behind `res`. For the continuation a router hands its `i`-th
    /// middleware, this is `chain_runs` over the middlewares after it and
    /// the handler dispatched to.
    pub closed spec fn continues(&self, req: &Request, res: &mut Response) -> bool {
        self.chain.proceeds(req, res)
    }

    /// Continues the middleware chain.
    pub fn run(self, req: &Request, resp: &mut Response)
        ensures
            exists|m: &mut Response| *m == *old(resp) && *final(m) == *final(resp) && #[trigger] self.continues(req, m),
    {
        proof {
            use_type_invariant(&self);
        }
        self.chain.proceed(req, resp);
        let ghost m = choose|m: &mut Response| *m == *old(resp) && *final(m) == *final(resp) && #[trigger] self.chain.proceeds(req, m);
        assert(self.continues(req, m));
    }
}

// ---------------------------------------------------------------------
// The trie

/// The parameter child of a node (a `:name` segment).
struct ParamChild {
    name: String,
    node: usize,
}

/// A node of the trie.
struct TrieNode {
    /// Static path segments, each with the index of its node.
    children: Vec<(String, usize)>,
    /// The parameter segment, if any.
    param_child: Option<ParamChild>,
    /// The handler index registered for each method.
    handlers: Vec<Option<usize>>,
}

impl TrieNode {
    spec fn view(&self) -> NodeView {
        NodeView {
            children: self.children@.map_values(|c: (String, usize)| (str_bytes(c.0@), c.1 as int)),
            param: match self.param_child {
                Some(p) => Some((str_bytes(p.name@), p.node as int)),
                None => None,
            },
            handlers: self.handlers@.map_values(|h: Option<usize>| opt_int(h)),
        }
    }

    fn new() -> (r: Self)
        ensures
            r.view().children.len() == 0,
            r.view().param is None,
            r.view().handlers.len() == METHOD_COUNT,
            forall|i: int| 0 <= i < METHOD_COUNT ==> #[trigger] r.view().handlers[i] is None,
    {
        let mut handlers: Vec<Option<usize>> = Vec::with_capacity(METHOD_COUNT);
        let mut i: usize = 0;
        while i < METHOD_COUNT
            invariant
                i <= METHOD_COUNT,
                handlers@.len() == i,
                forall|j: int| 0 <= j < i ==> handlers@[j] is None,
            decreases METHOD_COUNT - i,
        {
            handlers.push(None);
            i = i + 1;
        }
        Self { children: Vec::new(), param_child: None, handlers }
    }
}

/// The index of the static child named `seg`.
fn find_child(children: &Vec<(String, usize)>, seg: &str) -> (r: Option<usize>)
    ensures
        opt_int(r) == child_of(children@.map_values(|c: (String, usize)| (str_bytes(c.0@), c.1 as int)), seg.spec_bytes()),
{
    let ghost cv = children@.map_values(|c: (String, usize)| (str_bytes(c.0@), c.1 as int));
    let mut i: usize = 0;
    assert(cv.subrange(0, cv.len() as int) =~= cv);
    while i < children.len()
        invariant
            cv == children@.map_values(|c: (String, usize)| (str_bytes(c.0@), c.1 as int)),
            i <= children@.len(),
            child_of(cv, seg.spec_bytes()) == child_of(cv.subrange(i as int, cv.len() as int), seg.spec_bytes()),
        decreases children@.len() - i,
    {
        assert(cv.subrange(i as int, cv.len() as int).drop_first() =~= cv.subrange(i + 1, cv.len() as int));
        assert(cv.subrange(i as int, cv.len() as int)[0] == cv[i as int]);
        if bytes_equal(children[i].0.as_str().as_bytes(), seg.as_bytes()) {
            return Some(children[i].1);
        }
        i = i + 1;
    }
    None
}

/// A router that matches request paths against a trie of path segments.
///
/// It supports static segments, parameter segments (`:user_id`), a
/// middleware chain, and a handler per HTTP method.
pub struct Router {
    nodes: Vec<TrieNode>,
    handlers: Vec<HandlerBox>,
    middlewares: Vec<MiddlewareFn>,
}

impl View for Router {
    type V = RouterView;

    closed spec fn view(&self) -> RouterView {
        RouterView {
            nodes: self.nodes@.map_values(|n: TrieNode| n.view()),
            handlers: self.handlers@.len(),
            middlewares: self.middlewares@.len(),
        }
    }
}

impl Router {
    /// The trie is well formed, and every registered handler may be run.
    pub closed spec fn wf(&self) -> bool {
        &&& trie_wf(self@.nodes, self@.handlers)
        &&& forall|i: int| 0 <= i < self.handlers@.len() ==> #[trigger] self.handlers@[i].h.accepts()
    }

    /// A well-formed router's trie is well formed.
    pub proof fn lemma_wf_trie(&self)
        requires
            self.wf(),
        ensures
            trie_wf(self@.nodes, self@.handlers),
    {
    }

    /// The handler registered `i`-th.
    pub closed spec fn handler_at(&self, i: int) -> HandlerBox {
        self.handlers@[i]
    }

    /// The middleware registered `i`-th.
    pub closed spec fn middleware_at(&self, i: int) -> MiddlewareFn {
        self.middlewares@[i]
    }

    /// The registered middlewares, in order.
    pub closed spec fn middleware_seq(&self) -> Seq<MiddlewareFn> {
        self.middlewares@
    }

    /// What running `handler` on `req` through this router's middleware
    /// chain may do to the response behind `res`.
    pub open spec fn runs_chain<F: Fn(&Request, &mut Response) + Send + Sync>(&self, req: &Request, res: &mut Response, handler: F) -> bool {
        chain_runs(self.middleware_seq(), &FnHandler { f: handler }, req, res)
    }

    /// What running the handler registered `h`-th on `req` through this
    /// router's middleware chain may do to the response behind `res`.
    pub open spec fn runs_handler(&self, req: &Request, res: &mut Response, h: int) -> bool {
        chain_runs(self.middleware_seq(), &self.handler_at(h), req, res)
    }

    /// What dispatching `req` may do to the response behind `res`: run the
    /// handler `routed` names through the chain, or `fallback` when it names
    /// none.
    pub open spec fn responds<F: Fn(&Request, &mut Response) + Send + Sync>(
        &self,
        req: &Request,
        res: &mut Response,
        routed: Option<int>,
        fallback: F,
    ) -> bool {
        match routed {
            Some(h) => self.runs_handler(req, res, h),
            None => self.runs_chain(req, res, fallback),
        }
    }

    /// The handler a request is dispatched to: none when its method is not
    /// one the router knows.
    pub open spec fn routed_handler(&self, req: RequestView) -> Option<int> {
        match method_of(req.method) {
            Some(m) => dispatch(self@, req.path, m),
            None => None,
        }
    }

    /// An empty router: a root with no routes, and no middleware.
    pub fn new() -> (r: Self)
        ensures
            r.wf(),
            r@.nodes.len() == 1,
            r@.nodes[0].children.len() == 0,
            r@.nodes[0].param is None,
            forall|i: int| 0 <= i < METHOD_COUNT ==> #[trigger] r@.nodes[0].handlers[i] is None,
            r@.handlers == 0,
            r@.middlewares == 0,
    {
        let mut nodes: Vec<TrieNode> = Vec::new();
        nodes.push(TrieNode::new());
        let r = Self { nodes, handlers: Vec::new(), middlewares: Vec::new() };
        assert(r@.nodes[0] == nodes@[0].view());
        r
    }

    /// Registers a middleware that runs, in registration order, around
    /// every handler this router dispatches to.
    pub fn use_middleware<F: Fn(&Request, &mut Response, Next) + Send + Sync + 'static>(&mut self, middleware: F)
        requires
            forall|q: &Request, r: &mut Response, n: Next| call_requires(middleware, (q, r, n)),
        ensures
            final(self)@ == (RouterView { middlewares: old(self)@.middlewares + 1, ..old(self)@ }),
            final(self).wf() == old(self).wf(),
            forall|q: &Request, m: &mut Response, n: Next| #[trigger] final(self).middleware_at(old(self)@.middlewares as int).calls(q, m, n)
                == call_ensures(middleware, (q, m, n), ()),
            forall|i: int| 0 <= i < old(self)@.middlewares ==> #[trigger] final(self).middleware_at(i) == old(self).middleware_at(i),
            forall|i: int| 0 <= i < old(self)@.handlers ==> #[trigger] final(self).handler_at(i) == old(self).handler_at(i),
    {
        let m = box_middleware(middleware);
        let ghost added = m;
        self.middlewares.push(m);
        assert(self.middlewares@[old(self).middlewares@.len() as int] == added);
    }

    /// Runs `handler` for the request through the middleware chain.
    pub fn handle<F: Fn(&Request, &mut Response) + Send + Sync>(&self, request: &Request, response: &mut Response, handler: F)
        requires
            forall|q: &Request, r: &mut Response| call_requires(handler, (q, r)),
        ensures
            exists|m: &mut Response| *m == *old(response) && *final(m) == *final(response) && #[trigger] self.runs_chain(
                request,
                m,
                handler,
            ),
    {
        let ghost hf = handler;
        let h = FnHandler { f: handler };
        let chain = ChainAt { rest: self.middlewares.as_slice(), handler: &h };
        assert(chain.rest@ == self.middlewares@);
        chain.proceed(request, response);
        let ghost m = choose|m: &mut Response| *m == *old(response) && *final(m) == *final(response) && #[trigger] chain.proceeds(request, m);
        assert(self.runs_chain(request, m, hf));
    }

    /// Walks the trie for a request and finds the handler for its method.
    ///
    /// Routing looks at the path before any `?`. Each segment goes to the
    /// static child of that name if there is one and to the parameter child
    /// otherwise, in which case the parameter is appended to
    /// `request.params` (also when the match later fails).
    #[verifier::rlimit(50)]
    fn lookup(&self, request: &mut Request) -> (r: Option<usize>)
        requires
            self.wf(),
        ensures
            final(request)@ == (RequestView {
                params: old(request)@.params + walk(
                    self@.nodes,
                    0,
                    segments(route_path(old(request)@.path)),
                ).1,
                ..old(request)@
            }),
            opt_int(r) == self.routed_handler(old(request)@),
            r matches Some(h) ==> h < self.handlers@.len(),
    {
        let ghost nodes = self@.nodes;
        let ghost old_req = request@;
        let path_full: &str = request.path;
        let pb = path_full.as_bytes();
        proof {
            lemma_str_valid(path_full);
            lemma_byte_pos_from(pb@, 63, 0);
        }
        let qend: usize = match find_byte(pb, 63, 0) {
            Some(q) => q,
            None => pb.len(),
        };
        proof {
            lemma_boundary_near_ascii(pb@, 0);
            lemma_boundary_near_ascii(pb@, qend as int);
            assert(pb@.subrange(0, pb@.len() as int) =~= pb@);
        }
        let path = substr(path_full, 0, qend);
        let bytes = path.as_bytes();
        let ghost p = bytes@;
        assert(p == route_path(old_req.path));
        proof {
            lemma_str_valid(path);
        }
        let mut cur: usize = 0;
        let mut pos: usize = 0;
        let ghost mut captured: Seq<BytePair> = Seq::empty();
        assert(old_req.params + captured =~= old_req.params);
        loop
            invariant
                nodes == self@.nodes,
                trie_wf(nodes, self@.handlers),
                bytes@ == p,
                p == path.spec_bytes(),
                valid_utf8(p),
                cur < nodes.len(),
                pos <= p.len(),
                pos == 0 || pos == p.len() || p[pos - 1] == 47,
                p == route_path(old_req.path),
                old_req == old(request)@,
                request@ == (RequestView { params: old_req.params + captured, ..old_req }),
                walk(nodes, 0, segments(p)) == (
                    walk(nodes, cur as int, segments_from(p, pos as int)).0,
                    captured + walk(nodes, cur as int, segments_from(p, pos as int)).1,
                ),
            ensures
                pos == p.len(),
                cur < nodes.len(),
                request@ == (RequestView { params: old_req.params + captured, ..old_req }),
                walk(nodes, 0, segments(p)) == (
                    walk(nodes, cur as int, segments_from(p, pos as int)).0,
                    captured + walk(nodes, cur as int, segments_from(p, pos as int)).1,
                ),
            decreases p.len() - pos,
        {
            proof {
                lemma_byte_pos_from(p, 47, pos as int);
            }
            let end: usize = match find_byte(bytes, 47, pos) {
                Some(e) => e,
                None => bytes.len(),
            };
            let ghost rest: Seq<Seq<u8>> = if end < p.len() {
                segments_from(p, end + 1)
            } else {
                Seq::empty()
            };
            let ghost seg_v = p.subrange(pos as int, end as int);
            assert(node_wf(nodes[cur as int], nodes.len(), self@.handlers));
            if end > pos {
                assert(segments_from(p, pos as int) == seq![seg_v] + rest);
                assert((seq![seg_v] + rest).drop_first() =~= rest);
                assert((seq![seg_v] + rest)[0] == seg_v);
                proof {
                    lemma_boundary_near_ascii(p, pos as int);
                    lemma_boundary_near_ascii(p, end as int);
                }
                let seg = substr(path, pos, end);
                assert(seg.spec_bytes() == seg_v);
                assert(self@.nodes[cur as int] == self.nodes@[cur as int].view());
                match find_child(&self.nodes[cur].children, seg) {
                    Some(n) => {
                        proof {
                            lemma_child_of(nodes[cur as int].children, seg_v);
                        }
                        cur = n;
                    },
                    None => {
                        match &self.nodes[cur].param_child {
                            Some(pc) => {
                                let name = pc.name.clone();
                                let value = to_owned_string(seg);
                                let ghost pair: BytePair = (str_bytes(pc.name@), seg_v);
                                let ghost before = request@;
                                request.params.push((name, value));
                                proof {
                                    assert(string_pairs_view(request.params@) =~= before.params.push(pair));
                                    assert(before.params.push(pair) =~= old_req.params + (captured + seq![pair]));
                                    let w = walk(nodes, pc.node as int, rest);
                                    assert(captured + (seq![pair] + w.1) =~= (captured + seq![pair]) + w.1);
                                    captured = captured + seq![pair];
                                }
                                cur = pc.node;
                            },
                            None => {
                                proof {
                                    assert(captured + Seq::<BytePair>::empty() =~= captured);
                                }
                                return None;
                            },
                        }
                    },
                }
            } else {
                assert(segments_from(p, pos as int) =~= rest);
            }
            if end == bytes.len() {
                assert(rest == Seq::<Seq<u8>>::empty());
                pos = bytes.len();
                assert(segments_from(p, pos as int) =~= Seq::<Seq<u8>>::empty());
                break;
            }
            pos = end + 1;
        }
        proof {
            assert(segments_from(p, pos as int) =~= Seq::<Seq<u8>>::empty());
            assert(captured + Seq::<BytePair>::empty() =~= captured);
        }
        let method = match Method::parse_name(request.method) {
            Ok(m) => m,
            Err(_) => return None,
        };
        assert(self@.nodes[cur as int] == self.nodes@[cur as int].view());
        assert(node_wf(nodes[cur as int], nodes.len(), self@.handlers));
        let idx = method.index();
        assert(self.nodes@[cur as int].view().handlers[idx as int] == opt_int(self.nodes@[cur as int].handlers@[idx as int]));
        self.nodes[cur].handlers[idx]
    }

    /// Matches a request against the trie and dispatches it.
    ///
    /// Routing looks at the path before any `?`. Each segment goes to the
    /// static child of that name if there is one and to the parameter child
    /// otherwise, in which case the parameter is appended to
    /// `request.params` (also when the match later fails). When a node is
    /// reached and it has a handler for the request's method, the handler
    /// runs through the middleware chain on a fresh `200 OK` text response,
    /// which is returned; otherwise (also for a method the router does not
    /// know) the result is `None`.
    pub fn route(&self, request: &mut Request) -> (r: Option<Response>)
        requires
            self.wf(),
        ensures
            final(request)@ == (RequestView {
                params: old(request)@.params + walk(
                    self@.nodes,
                    0,
                    segments(route_path(old(request)@.path)),
                ).1,
                ..old(request)@
            }),
            r is Some <==> self.routed_handler(old(request)@) is Some,
            r matches Some(res) ==> exists|m: &mut Response|
                {
                    &&& fresh_response(*m)
                    &&& *final(m) == res
                    &&& #[trigger] self.runs_handler(final(request), m, self.routed_handler(old(request)@)->0)
                },
    {
        match self.lookup(request) {
            Some(h) => {
                let mut res = Response::new(Status::OK, Vec::<u8>::new(), ContentType::TEXT);
                assert(self.handlers@[h as int].h.accepts());
                let chain = ChainAt { rest: self.middlewares.as_slice(), handler: &self.handlers[h] };
                assert(chain.rest@ == self.middlewares@);
                chain.proceed(&*request, &mut res);
                let ghost m = choose|m: &mut Response| fresh_response(*m) && *final(m) == res && #[trigger] chain.proceeds(&*request, m);
                assert(self.runs_handler(final(request), m, self.routed_handler(old(request)@)->0));
                Some(res)
            },
            None => None,
        }
    }

    /// Dispatches a request on `response`: the handler the router has for
    /// it runs through the middleware chain when there is one, and
    /// `fallback` runs through the chain otherwise (also for a method the
    /// router does not know). The request's parameters are captured as in
    /// [`Router::route`].
    pub fn respond<F: Fn(&Request, &mut Response) + Send + Sync>(&self, request: &mut Request, response: &mut Response, fallback: F)
        requires
            self.wf(),
            forall|q: &Request, r: &mut Response| call_requires(fallback, (q, r)),
        ensures
            final(request)@ == (RequestView {
                params: old(request)@.params + walk(
                    self@.nodes,
                    0,
                    segments(route_path(old(request)@.path)),
                ).1,
                ..old(request)@
            }),
            exists|m: &mut Response|
                {
                    &&& *m == *old(response)
                    &&& *final(m) == *final(response)
                    &&& #[trigger] self.responds(final(request), m, self.routed_handler(old(request)@), fallback)
                },
    {
        match self.lookup(request) {
            Some(h) => {
                assert(self.handlers@[h as int].h.accepts());
                let chain = ChainAt { rest: self.middlewares.as_slice(), handler: &self.handlers[h] };
                assert(chain.rest@ == self.middlewares@);
                chain.proceed(&*request, response);
                let ghost m = choose|m: &mut Response| *m == *old(response) && *final(m) == *final(response) && #[trigger] chain.proceeds(&*request, m);
                assert(self.runs_handler(&*request, m, h as int));
                assert(self.responds(&*request, m, Some(h as int), fallback));
            },
            None => {
                let ghost fb = fallback;
                self.handle(&*request, response, fallback);
                let ghost m = choose|m: &mut Response| *m == *old(response) && *final(m) == *final(response) && #[trigger] self.runs_chain(&*request, m, fb);
                assert(self.responds(&*request, m, None, fb));
            },
        }
    }

    /// Adds a route to the trie.
    ///
    /// The non-empty `/`-separated segments of `path` are followed from the
    /// root, creating nodes as needed; a segment starting with `:` is a
    /// parameter (the first name given for a node's parameter is kept). The
    /// handler is registered for `method` at the node reached, replacing any
    /// earlier one for that method.
    #[verifier::rlimit(60)]
    #[verifier::spinoff_prover]
    pub fn add_route<F: Fn(&Request, &mut Response) + Send + Sync + 'static>(&mut self, method: Method, path: &str, handler: F)
        requires
            old(self).wf(),
            forall|q: &Request, r: &mut Response| call_requires(handler, (q, r)),
        ensures
            final(self).wf(),
            route_added(old(self)@, final(self)@, method, path.spec_bytes()),
            trie_extends(old(self)@.nodes, final(self)@.nodes),
            final(self)@.middlewares == old(self)@.middlewares,
            forall|q: &Request, m: &mut Response| #[trigger] final(self).handler_at(old(self)@.handlers as int).handles(q, m)
                == call_ensures(handler, (q, m), ()),
            forall|i: int| 0 <= i < old(self)@.handlers ==> #[trigger] final(self).handler_at(i) == old(self).handler_at(i),
            forall|i: int| 0 <= i < old(self)@.middlewares ==> #[trigger] final(self).middleware_at(i) == old(self).middleware_at(i),
    {
        let ghost n0 = self@.nodes;
        let hidx = self.handlers.len();
        let ghost before_h = self.handlers@;
        let hb = box_handler(handler);
        let ghost added = hb;
        self.handlers.push(hb);
        assert(self.handlers@ == before_h.push(added));
        let ghost nh = self@.handlers;
        let ghost hs = self.handlers@;
        assert forall|i: int| 0 <= i < hs.len() implies #[trigger] hs[i].h.accepts() by {
            if i < before_h.len() {
                assert(hs[i] == before_h[i]);
            }
        }
        assert(nh == hidx + 1);
        assert forall|i: int| 0 <= i < n0.len() implies node_wf(#[trigger] n0[i], n0.len(), nh) by {
            assert(node_wf(n0[i], n0.len(), hidx as nat));
        }
        let bytes = path.as_bytes();
        let ghost p = bytes@;
        proof {
            lemma_str_valid(path);
        }
        let mut cur: usize = 0;
        let mut pos: usize = 0;
        let ghost mut done: Seq<Seq<u8>> = Seq::empty();
        assert(segments(p) =~= done + segments_from(p, 0));
        assert forall|i: int| 0 <= i < n0.len() implies children_extend(n0[i].children, #[trigger] n0[i].children) by {
            assert(n0[i].children.subrange(0, n0[i].children.len() as int) =~= n0[i].children);
        }
        assert(trie_extends(n0, n0));
        assert(handlers_kept(n0, n0));
        loop
            invariant
                bytes@ == p,
                p == path.spec_bytes(),
                valid_utf8(p),
                self@.handlers == nh,
                nh == hidx + 1,
                self@.middlewares == old(self)@.middlewares,
                self.handlers@ == hs,
                self.middlewares@ == old(self).middlewares@,
                forall|i: int| 0 <= i < hs.len() ==> #[trigger] hs[i].h.accepts(),
                n0 == old(self)@.nodes,
                trie_wf(self@.nodes, nh),
                trie_extends(n0, self@.nodes),
                handlers_kept(n0, self@.nodes),
                cur < self@.nodes.len(),
                pos <= p.len(),
                pos == 0 || pos == p.len() || p[pos - 1] == 47,
                segments(p) == done + segments_from(p, pos as int),
                pattern_walk(self@.nodes, 0, done) == Some(cur as int),
            ensures
                pos == p.len(),
                self@.handlers == nh,
                self@.middlewares == old(self)@.middlewares,
                self.handlers@ == hs,
                self.middlewares@ == old(self).middlewares@,
                forall|i: int| 0 <= i < hs.len() ==> #[trigger] hs[i].h.accepts(),
                trie_wf(self@.nodes, nh),
                trie_extends(n0, self@.nodes),
                handlers_kept(n0, self@.nodes),
                cur < self@.nodes.len(),
                segments(p) == done + segments_from(p, pos as int),
                pattern_walk(self@.nodes, 0, done) == Some(cur as int),
            decreases p.len() - pos,
        {
            let ghost nodes = self@.nodes;
            proof {
                lemma_byte_pos_from(p, 47, pos as int);
            }
            let end: usize = match find_byte(bytes, 47, pos) {
                Some(e) => e,
                None => bytes.len(),
            };
            let ghost rest: Seq<Seq<u8>> = if end < p.len() {
                segments_from(p, end + 1)
            } else {
                Seq::empty()
            };
            let ghost seg_v = p.subrange(pos as int, end as int);
            if end > pos {
                assert(segments_from(p, pos as int) == seq![seg_v] + rest);
                proof {
                    lemma_boundary_near_ascii(p, pos as int);
                    lemma_boundary_near_ascii(p, end as int);
                    assert(done + (seq![seg_v] + rest) =~= done.push(seg_v) + rest);
                }
                let ghost prev = cur as int;
                let seg = substr(path, pos, end);
                assert(self@.nodes[cur as int] == self.nodes@[cur as int].view());
                assert(node_wf(nodes[cur as int], nodes.len(), nh));
                if bytes[pos] == 58 {
                    assert(is_param_seg(seg_v));
                    let existing: Option<usize> = match &self.nodes[cur].param_child {
                        Some(pc) => Some(pc.node),
                        None => None,
                    };
                    match existing {
                        Some(next) => {
                            proof {
                                let pc = self.nodes@[prev].param_child->0;
                                assert(nodes[prev].param == Some((str_bytes(pc.name@), next as int)));
                            }
                            cur = next;
                        },
                        None => {
                            proof {
                                lemma_boundary_near_ascii(p, pos + 1);
                            }
                            let name = to_owned_string(substr(path, pos + 1, end));
                            let fresh = self.nodes.len();
                            self.nodes.push(TrieNode::new());
                            let ghost mid = self@.nodes;
                            assert(mid =~= nodes.push(self.nodes@[fresh as int].view()));
                            self.nodes[cur].param_child = Some(ParamChild { name, node: fresh });
                            proof {
                                let after = self@.nodes;
                                assert(after =~= mid.update(cur as int, self.nodes@[cur as int].view()));
                                assert(after[cur as int].children == nodes[cur as int].children);
                                assert(after[cur as int].handlers == nodes[cur as int].handlers);
                                assert forall|i: int| 0 <= i < after.len() implies node_wf(#[trigger] after[i], after.len(), nh) by {
                                    if i < nodes.len() {
                                        assert(node_wf(nodes[i], nodes.len(), nh));
                                        if i != cur {
                                            assert(after[i] == nodes[i]);
                                        }
                                    } else {
                                        assert(after[i] == self.nodes@[fresh as int].view());
                                    }
                                }
                                assert forall|i: int| 0 <= i < n0.len() implies {
                                    &&& children_extend(n0[i].children, #[trigger] after[i].children)
                                    &&& (n0[i].param is Some ==> after[i].param == n0[i].param)
                                } by {
                                    assert(children_extend(n0[i].children, nodes[i].children));
                                    assert(n0[i].param is Some ==> nodes[i].param == n0[i].param);
                                    if i != cur {
                                        assert(after[i] == nodes[i]);
                                    }
                                }
                                assert forall|i: int| 0 <= i < nodes.len() implies {
                                    &&& children_extend(nodes[i].children, #[trigger] after[i].children)
                                    &&& (nodes[i].param is Some ==> after[i].param == nodes[i].param)
                                } by {
                                    if i != cur {
                                        assert(after[i] == nodes[i]);
                                    } else {
                                        assert(after[i].children =~= nodes[i].children);
                                    }
                                    assert(after[i].children.subrange(0, nodes[i].children.len() as int) =~= nodes[i].children);
                                }
                                assert(trie_extends(n0, after));
                                assert forall|i: int| 0 <= i < n0.len() implies #[trigger] after[i].handlers == n0[i].handlers by {
                                    assert(nodes[i].handlers == n0[i].handlers);
                                    if i != cur {
                                        assert(after[i] == nodes[i]);
                                    }
                                }
                                assert forall|i: int, j: int| n0.len() <= i < after.len() && 0 <= j < METHOD_COUNT implies #[trigger] after[i].handlers[j] is None by {
                                    if i < nodes.len() {
                                        assert(nodes[i].handlers[j] is None);
                                        if i != cur {
                                            assert(after[i] == nodes[i]);
                                        }
                                    } else {
                                        assert(after[i] == self.nodes@[fresh as int].view());
                                    }
                                }
                                lemma_pattern_walk_extend(nodes, after, 0, done);
                                assert(after[prev].param matches Some(pp) && pp.1 == fresh as int);
                            }
                            cur = fresh;
                        },
                    }
                } else {
                    assert(!is_param_seg(seg_v));
                    match find_child(&self.nodes[cur].children, seg) {
                        Some(next) => {
                            proof {
                                lemma_child_of(nodes[cur as int].children, seg_v);
                            }
                            cur = next;
                        },
                        None => {
                            let key = to_owned_string(seg);
                            let fresh = self.nodes.len();
                            self.nodes.push(TrieNode::new());
                            let ghost mid = self@.nodes;
                            assert(mid =~= nodes.push(self.nodes@[fresh as int].view()));
                            self.nodes[cur].children.push((key, fresh));
                            proof {
                                let after = self@.nodes;
                                assert(after =~= mid.update(cur as int, self.nodes@[cur as int].view()));
                                assert(after[cur as int].children =~= nodes[cur as int].children.push((seg_v, fresh as int)));
                                assert(after[cur as int].param == nodes[cur as int].param);
                                assert(after[cur as int].handlers == nodes[cur as int].handlers);
                                lemma_child_of_push(nodes[cur as int].children, seg_v, fresh as int);
                                assert forall|i: int| 0 <= i < after.len() implies node_wf(#[trigger] after[i], after.len(), nh) by {
                                    if i < nodes.len() {
                                        assert(node_wf(nodes[i], nodes.len(), nh));
                                        if i != cur {
                                            assert(after[i] == nodes[i]);
                                        } else {
                                            assert forall|j: int| 0 <= j < after[i].children.len() implies 0 <= #[trigger] after[i].children[j].1 < after.len() by {
                                                if j < nodes[i].children.len() {
                                                    assert(after[i].children[j] == nodes[i].children[j]);
                                                }
                                            }
                                        }
                                    } else {
                                        assert(after[i] == self.nodes@[fresh as int].view());
                                    }
                                }
                                assert forall|i: int| 0 <= i < nodes.len() implies {
                                    &&& children_extend(nodes[i].children, #[trigger] after[i].children)
                                    &&& (nodes[i].param is Some ==> after[i].param == nodes[i].param)
                                } by {
                                    if i != cur {
                                        assert(after[i] == nodes[i]);
                                        assert(after[i].children.subrange(0, nodes[i].children.len() as int) =~= nodes[i].children);
                                    } else {
                                        assert(after[i].children.subrange(0, nodes[i].children.len() as int) =~= nodes[i].children);
                                    }
                                }
                                assert forall|i: int| 0 <= i < n0.len() implies {
                                    &&& children_extend(n0[i].children, #[trigger] after[i].children)
                                    &&& (n0[i].param is Some ==> after[i].param == n0[i].param)
                                } by {
                                    assert(children_extend(n0[i].children, nodes[i].children));
                                    assert(children_extend(nodes[i].children, after[i].children));
                                    assert(after[i].children.subrange(0, n0[i].children.len() as int) =~= n0[i].children) by {
                                        assert forall|j: int| 0 <= j < n0[i].children.len() implies after[i].children[j] == n0[i].children[j] by {
                                            assert(nodes[i].children.subrange(0, n0[i].children.len() as int)[j] == n0[i].children[j]);
                                            assert(after[i].children.subrange(0, nodes[i].children.len() as int)[j] == nodes[i].children[j]);
                                        }
                                    }
                                }
                                assert(trie_extends(n0, after));
                                assert forall|i: int| 0 <= i < n0.len() implies #[trigger] after[i].handlers == n0[i].handlers by {
                                    assert(nodes[i].handlers == n0[i].handlers);
                                    if i != cur {
                                        assert(after[i] == nodes[i]);
                                    }
                                }
                                assert forall|i: int, j: int| n0.len() <= i < after.len() && 0 <= j < METHOD_COUNT implies #[trigger] after[i].handlers[j] is None by {
                                    if i < nodes.len() {
                                        assert(nodes[i].handlers[j] is None);
                                        if i != cur {
                                            assert(after[i] == nodes[i]);
                                        }
                                    } else {
                                        assert(after[i] == self.nodes@[fresh as int].view());
                                    }
                                }
                                lemma_pattern_walk_extend(nodes, after, 0, done);
                            }
                            cur = fresh;
                        },
                    }
                }
                proof {
                    lemma_pattern_walk_push(self@.nodes, 0, done, seg_v);
                    lemma_pattern_step(self@.nodes, prev, seg_v);
                    assert(trie_extends(n0, self@.nodes));
                    assert(pattern_walk(self@.nodes, prev, seq![seg_v]) == Some(cur as int));
                    done = done.push(seg_v);
                }
            } else {
                assert(segments_from(p, pos as int) =~= rest);
            }
            if end == bytes.len() {
                pos = bytes.len();
                assert(segments_from(p, pos as int) =~= Seq::<Seq<u8>>::empty());
                break;
            }
            pos = end + 1;
        }
        proof {
            assert(segments(p) =~= done);
        }
        let ghost before_set = self@.nodes;
        let idx = method.index();
        assert(self@.nodes[cur as int] == self.nodes@[cur as int].view());
        self.nodes[cur].handlers.set(idx, Some(hidx));
        proof {
            let after = self@.nodes;
            assert(after =~= before_set.update(cur as int, self.nodes@[cur as int].view()));
            assert(after[cur as int].children == before_set[cur as int].children);
            assert(after[cur as int].param == before_set[cur as int].param);
            assert(after[cur as int].handlers =~= before_set[cur as int].handlers.update(idx as int, Some(hidx as int)));
            assert(node_wf(before_set[cur as int], before_set.len(), nh));
            assert forall|i: int| 0 <= i < after.len() implies node_wf(#[trigger] after[i], after.len(), nh) by {
                assert(node_wf(before_set[i], before_set.len(), nh));
                if i != cur {
                    assert(after[i] == before_set[i]);
                }
            }
            assert forall|i: int| 0 <= i < before_set.len() implies {
                &&& children_extend(before_set[i].children, #[trigger] after[i].children)
                &&& (before_set[i].param is Some ==> after[i].param == before_set[i].param)
            } by {
                assert(after[i].children == before_set[i].children);
                assert(after[i].children.subrange(0, before_set[i].children.len() as int) =~= before_set[i].children);
            }
            assert forall|i: int| 0 <= i < n0.len() implies {
                &&& children_extend(n0[i].children, #[trigger] after[i].children)
                &&& (n0[i].param is Some ==> after[i].param == n0[i].param)
            } by {
                assert(after[i].children == before_set[i].children);
            }
            lemma_pattern_walk_extend(before_set, after, 0, done);
            assert forall|i: int, j: int|
                0 <= i < n0.len() && 0 <= j < METHOD_COUNT && !(i == cur && j == idx) implies #[trigger] after[i].handlers[j]
                == n0[i].handlers[j] by {
                assert(before_set[i].handlers == n0[i].handlers);
                if i != cur {
                    assert(after[i] == before_set[i]);
                }
            }
            assert forall|i: int, j: int|
                n0.len() <= i < after.len() && 0 <= j < METHOD_COUNT && !(i == cur && j == idx) implies #[trigger] after[i].handlers[j] is None by {
                assert(before_set[i].handlers[j] is None);
                if i != cur {
                    assert(after[i] == before_set[i]);
                }
            }
        }
    }
}

} // verus!
