//! Route descriptors — the recursive language in which the broker describes
//! transport stacks — and their compilation into a composed dialer. The
//! dialer here is the composition plan the runtime executes: a leaf dials
//! TCP (with its pre-dial delay read from the failure cache at dial time),
//! `Failing` fails at once, and the combinators race, fall back, time out,
//! delay, or wrap in an obfuscated layer exactly as the descriptor said.

use crate::codec::{
    dec_u32, dec_u8, dec_var_bytes, enc_u32, enc_var_bytes, lemma_dec_u32, lemma_dec_var_bytes,
    lemma_enc_lens, lemma_nested_subrange, push_u32, push_u8, push_var_bytes, read_u32, read_u8,
    read_var_bytes,
};
use crate::net::{dec_endpoint, enc_endpoint, lemma_dec_endpoint, Endpoint, EndpointView};
use vstd::prelude::*;

verus! {

/// A transport stack description, as served by the broker. `Other` keeps
/// unknown future forms; compiling it yields a dialer that always fails.
#[derive(Debug, PartialEq, Eq)]
pub enum RouteDescriptor {
    Tcp(Endpoint),
    Sosistab3 { cookie: Vec<u8>, lower: Box<RouteDescriptor> },
    Race(Vec<RouteDescriptor>),
    Fallback(Vec<RouteDescriptor>),
    Timeout { milliseconds: u32, lower: Box<RouteDescriptor> },
    Delay { milliseconds: u32, lower: Box<RouteDescriptor> },
    Other(Vec<u8>),
}

pub ghost enum RouteView {
    Tcp(EndpointView),
    Sosistab3 { cookie: Seq<u8>, lower: Box<RouteView> },
    Race(Seq<RouteView>),
    Fallback(Seq<RouteView>),
    Timeout { milliseconds: u32, lower: Box<RouteView> },
    Delay { milliseconds: u32, lower: Box<RouteView> },
    Other(Seq<u8>),
}

pub open spec fn route_view(r: RouteDescriptor) -> RouteView
    decreases r,
{
    match r {
        RouteDescriptor::Tcp(e) => RouteView::Tcp(e@),
        RouteDescriptor::Sosistab3 { cookie, lower } => RouteView::Sosistab3 {
            cookie: cookie@,
            lower: Box::new(route_view(*lower)),
        },
        RouteDescriptor::Race(cs) => RouteView::Race(routes_view(cs@)),
        RouteDescriptor::Fallback(cs) => RouteView::Fallback(routes_view(cs@)),
        RouteDescriptor::Timeout { milliseconds, lower } => RouteView::Timeout {
            milliseconds,
            lower: Box::new(route_view(*lower)),
        },
        RouteDescriptor::Delay { milliseconds, lower } => RouteView::Delay {
            milliseconds,
            lower: Box::new(route_view(*lower)),
        },
        RouteDescriptor::Other(p) => RouteView::Other(p@),
    }
}

pub open spec fn routes_view(cs: Seq<RouteDescriptor>) -> Seq<RouteView>
    decreases cs,
{
    if cs.len() == 0 {
        Seq::empty()
    } else {
        seq![route_view(cs[0])] + routes_view(cs.drop_first())
    }
}

impl View for RouteDescriptor {
    type V = RouteView;

    open spec fn view(&self) -> RouteView {
        route_view(*self)
    }
}

pub proof fn lemma_routes_view_index(cs: Seq<RouteDescriptor>)
    ensures
        routes_view(cs).len() == cs.len(),
        forall|k: int| 0 <= k < cs.len() ==> routes_view(cs)[k] == route_view(cs[k]),
    decreases cs,
{
    if cs.len() > 0 {
        lemma_routes_view_index(cs.drop_first());
        assert forall|k: int| 0 <= k < cs.len() implies routes_view(cs)[k] == route_view(
            cs[k],
        ) by {
            if k > 0 {
                assert(routes_view(cs)[k] == routes_view(cs.drop_first())[k - 1]);
                assert(cs.drop_first()[k - 1] == cs[k]);
            }
        }
    }
}

// ---------------------------------------------------------------------------
// The composed dialer
// ---------------------------------------------------------------------------
/// A composition plan for dialing: what the runtime executes. A `Tcp` leaf
/// takes its pre-dial delay from the failure cache at dial time; `Failing`
/// fails immediately; the combinators behave as their names say.
#[derive(Debug, PartialEq, Eq)]
pub enum Dialer {
    Tcp(Endpoint),
    Failing,
    Race(Box<Dialer>, Box<Dialer>),
    Fallback(Box<Dialer>, Box<Dialer>),
    Timeout(u32, Box<Dialer>),
    Delay(u32, Box<Dialer>),
    Sosistab3(Vec<u8>, Box<Dialer>),
}

pub ghost enum DialerView {
    Tcp(EndpointView),
    Failing,
    Race(Box<DialerView>, Box<DialerView>),
    Fallback(Box<DialerView>, Box<DialerView>),
    Timeout(u32, Box<DialerView>),
    Delay(u32, Box<DialerView>),
    Sosistab3(Seq<u8>, Box<DialerView>),
}

pub open spec fn dialer_view(d: Dialer) -> DialerView
    decreases d,
{
    match d {
        Dialer::Tcp(e) => DialerView::Tcp(e@),
        Dialer::Failing => DialerView::Failing,
        Dialer::Race(a, b) => DialerView::Race(
            Box::new(dialer_view(*a)),
            Box::new(dialer_view(*b)),
        ),
        Dialer::Fallback(a, b) => DialerView::Fallback(
            Box::new(dialer_view(*a)),
            Box::new(dialer_view(*b)),
        ),
        Dialer::Timeout(ms, a) => DialerView::Timeout(ms, Box::new(dialer_view(*a))),
        Dialer::Delay(ms, a) => DialerView::Delay(ms, Box::new(dialer_view(*a))),
        Dialer::Sosistab3(c, a) => DialerView::Sosistab3(c@, Box::new(dialer_view(*a))),
    }
}

impl View for Dialer {
    type V = DialerView;

    open spec fn view(&self) -> DialerView {
        dialer_view(*self)
    }
}

// ---------------------------------------------------------------------------
// Compilation: one-to-one with the descriptor variants. A race or fallback
// over children folds them left to right; over no children it reduces to the
// failing dialer, as does an unknown descriptor.
// ---------------------------------------------------------------------------
pub open spec fn compile_route(r: RouteView) -> DialerView
    decreases r,
{
    match r {
        RouteView::Tcp(e) => DialerView::Tcp(e),
        RouteView::Sosistab3 { cookie, lower } => DialerView::Sosistab3(
            cookie,
            Box::new(compile_route(*lower)),
        ),
        RouteView::Race(cs) => compile_fold(cs, true),
        RouteView::Fallback(cs) => compile_fold(cs, false),
        RouteView::Timeout { milliseconds, lower } => DialerView::Timeout(
            milliseconds,
            Box::new(compile_route(*lower)),
        ),
        RouteView::Delay { milliseconds, lower } => DialerView::Delay(
            milliseconds,
            Box::new(compile_route(*lower)),
        ),
        RouteView::Other(_) => DialerView::Failing,
    }
}

/// Left fold of compiled children under `Race` (when `racing`) or
/// `Fallback`; the empty list folds to the failing dialer.
pub open spec fn compile_fold(cs: Seq<RouteView>, racing: bool) -> DialerView
    decreases cs,
{
    if cs.len() == 0 {
        DialerView::Failing
    } else if cs.len() == 1 {
        compile_route(cs[0])
    } else {
        let rest = compile_fold(cs.drop_last(), racing);
        let last = compile_route(cs.last());
        if racing {
            DialerView::Race(Box::new(rest), Box::new(last))
        } else {
            DialerView::Fallback(Box::new(rest), Box::new(last))
        }
    }
}

/// A race or fallback over no children, and an unknown descriptor, compile
/// to the dialer that fails at once: the compiler is total and such dials
/// fail definitely.
pub proof fn lemma_compile_definite_failure(r: RouteView)
    ensures
        r matches RouteView::Race(cs) && cs.len() == 0 ==> compile_route(r)
            == DialerView::Failing,
        r matches RouteView::Fallback(cs) && cs.len() == 0 ==> compile_route(r)
            == DialerView::Failing,
        r matches RouteView::Other(p) ==> compile_route(r) == DialerView::Failing,
{
    match r {
        RouteView::Race(cs) => {
            if cs.len() == 0 {
                assert(compile_route(r) == compile_fold(cs, true));
                assert(compile_fold(cs, true) == DialerView::Failing);
            }
        },
        RouteView::Fallback(cs) => {
            if cs.len() == 0 {
                assert(compile_route(r) == compile_fold(cs, false));
                assert(compile_fold(cs, false) == DialerView::Failing);
            }
        },
        _ => {},
    }
}

/// Compiles a route descriptor into a composed dialer, variant by variant.
pub fn route_to_dialer(route: &RouteDescriptor) -> (r: Dialer)
    ensures
        r@ == compile_route(route@),
    decreases *route,
{
    match route {
        RouteDescriptor::Tcp(e) => Dialer::Tcp(e.clone_endpoint()),
        RouteDescriptor::Sosistab3 { cookie, lower } => {
            let inner = route_to_dialer(lower);
            Dialer::Sosistab3(crate::net::clone_byte_vec(cookie), Box::new(inner))
        },
        RouteDescriptor::Race(cs) => fold_children(cs, true),
        RouteDescriptor::Fallback(cs) => fold_children(cs, false),
        RouteDescriptor::Timeout { milliseconds, lower } => {
            let inner = route_to_dialer(lower);
            Dialer::Timeout(*milliseconds, Box::new(inner))
        },
        RouteDescriptor::Delay { milliseconds, lower } => {
            let inner = route_to_dialer(lower);
            Dialer::Delay(*milliseconds, Box::new(inner))
        },
        RouteDescriptor::Other(_) => Dialer::Failing,
    }
}

fn fold_children(cs: &Vec<RouteDescriptor>, racing: bool) -> (r: Dialer)
    ensures
        r@ == compile_fold(routes_view(cs@), racing),
    decreases *cs,
{
    proof {
        lemma_routes_view_index(cs@);
    }
    let ghost cv = routes_view(cs@);
    if cs.len() == 0 {
        assert(cv.len() == 0);
        return Dialer::Failing;
    }
    let mut acc = route_to_dialer(&cs[0]);
    assert(cv.subrange(0, 1) =~= seq![cv[0]]);
    assert(acc@ == compile_fold(cv.subrange(0, 1), racing));
    let mut k: usize = 1;
    while k < cs.len()
        invariant
            1 <= k <= cs.len(),
            cv == routes_view(cs@),
            cv.len() == cs.len(),
            forall|j: int| 0 <= j < cs.len() ==> cv[j] == route_view(cs@[j]),
            acc@ == compile_fold(cv.subrange(0, k as int), racing),
        decreases cs.len() - k,
    {
        let next = route_to_dialer(&cs[k]);
        proof {
            assert(cv.subrange(0, k + 1).drop_last() =~= cv.subrange(0, k as int));
            assert(cv.subrange(0, k + 1).last() == cv[k as int]);
        }
        acc = if racing {
            Dialer::Race(Box::new(acc), Box::new(next))
        } else {
            Dialer::Fallback(Box::new(acc), Box::new(next))
        };
        k += 1;
    }
    assert(cv.subrange(0, cv.len() as int) =~= cv);
    acc
}

// ---------------------------------------------------------------------------
// Bridge-mode composition
// ---------------------------------------------------------------------------
/// How the client weighs a direct connection against bridge routes.
#[derive(Debug, PartialEq, Eq)]
pub enum BridgeMode {
    Auto,
    ForceBridges,
    ForceDirect,
}

/// Milliseconds of head start the direct dialer gets under `Auto`.
pub const DIRECT_HEAD_START_MS: u32 = 1000;

/// Composes the final dialer from the direct and bridge dialers: under
/// `Auto` they race with the bridge side delayed by the head start; the
/// force modes take one side alone.
pub fn compose_dialer(direct: Dialer, bridge: Dialer, mode: &BridgeMode) -> (r: Dialer)
    ensures
        mode is Auto ==> r@ == DialerView::Race(
            Box::new(direct@),
            Box::new(DialerView::Delay(DIRECT_HEAD_START_MS, Box::new(bridge@))),
        ),
        mode is ForceBridges ==> r@ == bridge@,
        mode is ForceDirect ==> r@ == direct@,
{
    match mode {
        BridgeMode::Auto => {
            let ghost bv = bridge@;
            let ghost dv = direct@;
            let delayed = Dialer::Delay(DIRECT_HEAD_START_MS, Box::new(bridge));
            assert(delayed@ == DialerView::Delay(DIRECT_HEAD_START_MS, Box::new(bv)));
            let r = Dialer::Race(Box::new(direct), Box::new(delayed));
            assert(r@ == DialerView::Race(
                Box::new(dv),
                Box::new(DialerView::Delay(DIRECT_HEAD_START_MS, Box::new(bv))),
            ));
            r
        },
        BridgeMode::ForceBridges => bridge,
        BridgeMode::ForceDirect => direct,
    }
}

// ---------------------------------------------------------------------------
// Wire codec for route descriptors: a tag byte per variant, children counted
// with a four-byte prefix, with the proof that decoding an encoding embedded
// in a larger buffer yields the route encoded.
// ---------------------------------------------------------------------------
pub open spec fn wf_route(r: RouteView) -> bool
    decreases r,
{
    match r {
        RouteView::Tcp(e) => e.wf(),
        RouteView::Sosistab3 { cookie, lower } => cookie.len() <= u32::MAX && wf_route(*lower),
        RouteView::Race(cs) => cs.len() <= u32::MAX && wf_routes(cs),
        RouteView::Fallback(cs) => cs.len() <= u32::MAX && wf_routes(cs),
        RouteView::Timeout { milliseconds, lower } => wf_route(*lower),
        RouteView::Delay { milliseconds, lower } => wf_route(*lower),
        RouteView::Other(p) => p.len() <= u32::MAX,
    }
}

pub open spec fn wf_routes(cs: Seq<RouteView>) -> bool
    decreases cs,
{
    if cs.len() == 0 {
        true
    } else {
        wf_route(cs[0]) && wf_routes(cs.drop_first())
    }
}

pub open spec fn enc_route(r: RouteView) -> Seq<u8>
    decreases r,
{
    match r {
        RouteView::Tcp(e) => seq![0u8] + enc_endpoint(e),
        RouteView::Sosistab3 { cookie, lower } => seq![1u8] + enc_var_bytes(cookie) + enc_route(
            *lower,
        ),
        RouteView::Race(cs) => seq![2u8] + enc_u32(cs.len() as u32) + enc_routes(cs),
        RouteView::Fallback(cs) => seq![3u8] + enc_u32(cs.len() as u32) + enc_routes(cs),
        RouteView::Timeout { milliseconds, lower } => seq![4u8] + enc_u32(milliseconds)
            + enc_route(*lower),
        RouteView::Delay { milliseconds, lower } => seq![5u8] + enc_u32(milliseconds) + enc_route(
            *lower,
        ),
        RouteView::Other(p) => seq![6u8] + enc_var_bytes(p),
    }
}

pub open spec fn enc_routes(cs: Seq<RouteView>) -> Seq<u8>
    decreases cs,
{
    if cs.len() == 0 {
        Seq::empty()
    } else {
        enc_route(cs[0]) + enc_routes(cs.drop_first())
    }
}

pub open spec fn dec_route(s: Seq<u8>, i: int) -> Option<(RouteView, int)>
    decreases s.len() - i, 0int, 0int,
{
    match dec_u8(s, i) {
        Some((tag, j)) => if tag == 0 {
            match dec_endpoint(s, j) {
                Some((e, k)) => Some((RouteView::Tcp(e), k)),
                None => None,
            }
        } else if tag == 1 {
            match dec_var_bytes(s, j) {
                Some((cookie, j2)) => if i < j2 && j2 <= s.len() {
                    match dec_route(s, j2) {
                        Some((lower, k)) => Some(
                            (RouteView::Sosistab3 { cookie, lower: Box::new(lower) }, k),
                        ),
                        None => None,
                    }
                } else {
                    None
                },
                None => None,
            }
        } else if tag == 2 {
            match dec_u32(s, j) {
                Some((n, j2)) => match dec_routes(s, j2, n as int) {
                    Some((cs, k)) => Some((RouteView::Race(cs), k)),
                    None => None,
                },
                None => None,
            }
        } else if tag == 3 {
            match dec_u32(s, j) {
                Some((n, j2)) => match dec_routes(s, j2, n as int) {
                    Some((cs, k)) => Some((RouteView::Fallback(cs), k)),
                    None => None,
                },
                None => None,
            }
        } else if tag == 4 {
            match dec_u32(s, j) {
                Some((ms, j2)) => match dec_route(s, j2) {
                    Some((lower, k)) => Some(
                        (RouteView::Timeout { milliseconds: ms, lower: Box::new(lower) }, k),
                    ),
                    None => None,
                },
                None => None,
            }
        } else if tag == 5 {
            match dec_u32(s, j) {
                Some((ms, j2)) => match dec_route(s, j2) {
                    Some((lower, k)) => Some(
                        (RouteView::Delay { milliseconds: ms, lower: Box::new(lower) }, k),
                    ),
                    None => None,
                },
                None => None,
            }
        } else if tag == 6 {
            match dec_var_bytes(s, j) {
                Some((p, k)) => Some((RouteView::Other(p), k)),
                None => None,
            }
        } else {
            None
        },
        None => None,
    }
}

pub open spec fn dec_routes(s: Seq<u8>, i: int, n: int) -> Option<(Seq<RouteView>, int)>
    decreases s.len() - i, 1int, n,
{
    if n <= 0 {
        if n == 0 {
            Some((Seq::empty(), i))
        } else {
            None
        }
    } else {
        match dec_route(s, i) {
            Some((r, j)) => if i < j && j <= s.len() {
                match dec_routes(s, j, n - 1) {
                    Some((rest, k)) => Some((seq![r] + rest, k)),
                    None => None,
                }
            } else {
                None
            },
            None => None,
        }
    }
}

/// Every route encoding starts with its tag byte.
pub proof fn lemma_enc_route_nonempty(r: RouteView)
    ensures
        enc_route(r).len() >= 1,
        0 <= enc_route(r)[0] <= 6,
{
    match r {
        RouteView::Tcp(e) => {
            assert(enc_route(r)[0] == 0);
        },
        RouteView::Sosistab3 { cookie, lower } => {
            assert(enc_route(r)[0] == 1);
        },
        RouteView::Race(cs) => {
            assert(enc_route(r)[0] == 2);
        },
        RouteView::Fallback(cs) => {
            assert(enc_route(r)[0] == 3);
        },
        RouteView::Timeout { milliseconds, lower } => {
            assert(enc_route(r)[0] == 4);
        },
        RouteView::Delay { milliseconds, lower } => {
            assert(enc_route(r)[0] == 5);
        },
        RouteView::Other(p) => {
            assert(enc_route(r)[0] == 6);
        },
    }
}

/// Decoding an encoded route embedded at `i` in a larger buffer yields the
/// route back.
pub proof fn lemma_dec_route(r: RouteView, s: Seq<u8>, i: int)
    requires
        wf_route(r),
        0 <= i,
        i + enc_route(r).len() <= s.len(),
        s.subrange(i, i + enc_route(r).len()) == enc_route(r),
    ensures
        dec_route(s, i) == Some((r, i + enc_route(r).len())),
    decreases r, 0int,
{
    lemma_enc_lens();
    let whole = enc_route(r);
    let n: int = whole.len() as int;
    assert(s[i + 0] == whole[0]) by {
        assert(s.subrange(i, i + n)[0] == whole[0]);
    }
    match r {
        RouteView::Tcp(e) => {
            let e1 = enc_endpoint(e);
            assert(whole.subrange(1, n) =~= e1);
            lemma_nested_subrange(s, i, whole, 1, n);
            lemma_dec_endpoint(e, s, i + 1);
        },
        RouteView::Sosistab3 { cookie, lower } => {
            let e1 = enc_var_bytes(cookie);
            let e2 = enc_route(*lower);
            let m1: int = 1 + e1.len() as int;
            assert(whole.subrange(1, m1) =~= e1);
            assert(whole.subrange(m1, n) =~= e2);
            lemma_nested_subrange(s, i, whole, 1, m1);
            lemma_dec_var_bytes(cookie, s, i + 1);
            lemma_nested_subrange(s, i, whole, m1, n);
            lemma_dec_route(*lower, s, i + m1);
        },
        RouteView::Race(cs) => {
            let e1 = enc_u32(cs.len() as u32);
            let e2 = enc_routes(cs);
            assert(whole.subrange(1, 5) =~= e1);
            assert(whole.subrange(5, n) =~= e2);
            lemma_nested_subrange(s, i, whole, 1, 5);
            lemma_dec_u32(cs.len() as u32, s, i + 1);
            lemma_nested_subrange(s, i, whole, 5, n);
            lemma_dec_routes(cs, s, i + 5);
        },
        RouteView::Fallback(cs) => {
            let e1 = enc_u32(cs.len() as u32);
            let e2 = enc_routes(cs);
            assert(whole.subrange(1, 5) =~= e1);
            assert(whole.subrange(5, n) =~= e2);
            lemma_nested_subrange(s, i, whole, 1, 5);
            lemma_dec_u32(cs.len() as u32, s, i + 1);
            lemma_nested_subrange(s, i, whole, 5, n);
            lemma_dec_routes(cs, s, i + 5);
        },
        RouteView::Timeout { milliseconds, lower } => {
            let e1 = enc_u32(milliseconds);
            let e2 = enc_route(*lower);
            assert(whole.subrange(1, 5) =~= e1);
            assert(whole.subrange(5, n) =~= e2);
            lemma_nested_subrange(s, i, whole, 1, 5);
            lemma_dec_u32(milliseconds, s, i + 1);
            lemma_nested_subrange(s, i, whole, 5, n);
            lemma_dec_route(*lower, s, i + 5);
        },
        RouteView::Delay { milliseconds, lower } => {
            let e1 = enc_u32(milliseconds);
            let e2 = enc_route(*lower);
            assert(whole.subrange(1, 5) =~= e1);
            assert(whole.subrange(5, n) =~= e2);
            lemma_nested_subrange(s, i, whole, 1, 5);
            lemma_dec_u32(milliseconds, s, i + 1);
            lemma_nested_subrange(s, i, whole, 5, n);
            lemma_dec_route(*lower, s, i + 5);
        },
        RouteView::Other(p) => {
            let e1 = enc_var_bytes(p);
            assert(whole.subrange(1, n) =~= e1);
            lemma_nested_subrange(s, i, whole, 1, n);
            lemma_dec_var_bytes(p, s, i + 1);
        },
    }
}

pub proof fn lemma_dec_routes(cs: Seq<RouteView>, s: Seq<u8>, i: int)
    requires
        wf_routes(cs),
        0 <= i,
        i + enc_routes(cs).len() <= s.len(),
        s.subrange(i, i + enc_routes(cs).len()) == enc_routes(cs),
    ensures
        dec_routes(s, i, cs.len() as int) == Some((cs, i + enc_routes(cs).len())),
    decreases cs, 1int,
{
    if cs.len() == 0 {
        assert(cs =~= Seq::<RouteView>::empty());
    } else {
        let whole = enc_routes(cs);
        let e0 = enc_route(cs[0]);
        let rest = enc_routes(cs.drop_first());
        let n: int = whole.len() as int;
        let m: int = e0.len() as int;
        assert(whole.subrange(0, m) =~= e0);
        assert(whole.subrange(m, n) =~= rest);
        lemma_nested_subrange(s, i, whole, 0, m);
        lemma_dec_route(cs[0], s, i);
        lemma_enc_route_nonempty(cs[0]);
        lemma_nested_subrange(s, i, whole, m, n);
        lemma_dec_routes(cs.drop_first(), s, i + m);
        assert(seq![cs[0]] + cs.drop_first() =~= cs);
    }
}

/// Decode-of-encode is the identity on route descriptors.
pub proof fn lemma_route_round_trip(r: RouteView)
    requires
        wf_route(r),
    ensures
        dec_route(enc_route(r), 0) == Some((r, enc_route(r).len() as int)),
{
    let whole = enc_route(r);
    assert(whole.subrange(0, whole.len() as int) =~= whole);
    lemma_dec_route(r, whole, 0);
}

impl RouteDescriptor {
    pub fn encode_onto(&self, out: &mut Vec<u8>)
        requires
            wf_route(self@),
        ensures
            final(out)@ == old(out)@ + enc_route(self@),
        decreases *self,
    {
        match self {
            RouteDescriptor::Tcp(e) => {
                push_u8(out, 0);
                e.encode_onto(out);
                assert(final(out)@ =~= old(out)@ + enc_route(self@));
            },
            RouteDescriptor::Sosistab3 { cookie, lower } => {
                push_u8(out, 1);
                push_var_bytes(out, cookie.as_slice());
                lower.encode_onto(out);
                assert(final(out)@ =~= old(out)@ + enc_route(self@));
            },
            RouteDescriptor::Race(cs) => {
                push_u8(out, 2);
                encode_routes_onto(cs, out);
                assert(final(out)@ =~= old(out)@ + enc_route(self@));
            },
            RouteDescriptor::Fallback(cs) => {
                push_u8(out, 3);
                encode_routes_onto(cs, out);
                assert(final(out)@ =~= old(out)@ + enc_route(self@));
            },
            RouteDescriptor::Timeout { milliseconds, lower } => {
                push_u8(out, 4);
                push_u32(out, *milliseconds);
                lower.encode_onto(out);
                assert(final(out)@ =~= old(out)@ + enc_route(self@));
            },
            RouteDescriptor::Delay { milliseconds, lower } => {
                push_u8(out, 5);
                push_u32(out, *milliseconds);
                lower.encode_onto(out);
                assert(final(out)@ =~= old(out)@ + enc_route(self@));
            },
            RouteDescriptor::Other(p) => {
                push_u8(out, 6);
                push_var_bytes(out, p.as_slice());
                assert(final(out)@ =~= old(out)@ + enc_route(self@));
            },
        }
    }

    pub fn encode(&self) -> (r: Vec<u8>)
        requires
            wf_route(self@),
        ensures
            r@ == enc_route(self@),
    {
        let mut out: Vec<u8> = Vec::new();
        self.encode_onto(&mut out);
        assert(out@ =~= enc_route(self@));
        out
    }

    pub fn decode_from(s: &[u8], pos: usize) -> (r: Option<(RouteDescriptor, usize)>)
        ensures
            match r {
                Some((d, j)) => dec_route(s@, pos as int) == Some((d@, j as int)),
                None => dec_route(s@, pos as int) is None,
            },
        decreases s@.len() - pos, 0int, 0int,
    {
        let (tag, j) = match read_u8(s, pos) {
            Some(x) => x,
            None => {
                return None;
            },
        };
        if tag == 0 {
            match Endpoint::decode_from(s, j) {
                Some((e, k)) => Some((RouteDescriptor::Tcp(e), k)),
                None => None,
            }
        } else if tag == 1 {
            let (cookie, j2) = match read_var_bytes(s, j) {
                Some(x) => x,
                None => {
                    return None;
                },
            };
            if pos < j2 && j2 <= s.len() {
                match Self::decode_from(s, j2) {
                    Some((lower, k)) => Some(
                        (RouteDescriptor::Sosistab3 { cookie, lower: Box::new(lower) }, k),
                    ),
                    None => None,
                }
            } else {
                None
            }
        } else if tag == 2 {
            let (n, j2) = match read_u32(s, j) {
                Some(x) => x,
                None => {
                    return None;
                },
            };
            match decode_routes_from(s, j2, n) {
                Some((cs, k)) => Some((RouteDescriptor::Race(cs), k)),
                None => None,
            }
        } else if tag == 3 {
            let (n, j2) = match read_u32(s, j) {
                Some(x) => x,
                None => {
                    return None;
                },
            };
            match decode_routes_from(s, j2, n) {
                Some((cs, k)) => Some((RouteDescriptor::Fallback(cs), k)),
                None => None,
            }
        } else if tag == 4 {
            let (ms, j2) = match read_u32(s, j) {
                Some(x) => x,
                None => {
                    return None;
                },
            };
            match Self::decode_from(s, j2) {
                Some((lower, k)) => Some(
                    (RouteDescriptor::Timeout { milliseconds: ms, lower: Box::new(lower) }, k),
                ),
                None => None,
            }
        } else if tag == 5 {
            let (ms, j2) = match read_u32(s, j) {
                Some(x) => x,
                None => {
                    return None;
                },
            };
            match Self::decode_from(s, j2) {
                Some((lower, k)) => Some(
                    (RouteDescriptor::Delay { milliseconds: ms, lower: Box::new(lower) }, k),
                ),
                None => None,
            }
        } else if tag == 6 {
            match read_var_bytes(s, j) {
                Some((p, k)) => Some((RouteDescriptor::Other(p), k)),
                None => None,
            }
        } else {
            None
        }
    }

    pub fn decode(s: &[u8]) -> (r: Option<RouteDescriptor>)
        ensures
            match r {
                Some(d) => dec_route(s@, 0) matches Some((dv, _)) && dv == d@,
                None => dec_route(s@, 0) is None,
            },
    {
        match Self::decode_from(s, 0) {
            Some((d, _)) => Some(d),
            None => None,
        }
    }
}

/// Writes the four-byte child count, then each child in order.
fn encode_routes_onto(cs: &Vec<RouteDescriptor>, out: &mut Vec<u8>)
    requires
        routes_view(cs@).len() <= u32::MAX,
        wf_routes(routes_view(cs@)),
    ensures
        final(out)@ == old(out)@ + enc_u32(routes_view(cs@).len() as u32) + enc_routes(
            routes_view(cs@),
        ),
    decreases *cs,
{
    proof {
        lemma_routes_view_index(cs@);
    }
    let ghost cv = routes_view(cs@);
    push_u32(out, cs.len() as u32);
    let ghost base = out@;
    proof {
        assert(cv.skip(0) =~= cv);
    }
    let mut k: usize = 0;
    while k < cs.len()
        invariant
            k <= cs.len(),
            cv == routes_view(cs@),
            cv.len() == cs.len(),
            wf_routes_upto(cv, k as int),
            forall|j: int| 0 <= j < cs.len() ==> cv[j] == route_view(cs@[j]),
            out@ + enc_routes(cv.skip(k as int)) == base + enc_routes(cv),
        decreases cs.len() - k,
    {
        proof {
            lemma_wf_routes_at(cv, k as int);
            assert(cv.skip(k as int)[0] == cv[k as int]);
            assert(cv.skip(k as int).drop_first() =~= cv.skip(k + 1 as int));
        }
        cs[k].encode_onto(out);
        proof {
            assert(out@ + enc_routes(cv.skip(k + 1 as int)) =~= base + enc_routes(cv));
        }
        k += 1;
    }
    proof {
        assert(cv.skip(cv.len() as int) =~= Seq::<RouteView>::empty());
        assert(out@ =~= base + enc_routes(cv));
        assert(final(out)@ =~= old(out)@ + enc_u32(cv.len() as u32) + enc_routes(cv));
    }
}

/// Well-formedness of the suffix of a route list from position `k` on.
pub open spec fn wf_routes_upto(cs: Seq<RouteView>, k: int) -> bool {
    wf_routes(cs.skip(k))
}

proof fn lemma_wf_routes_at(cs: Seq<RouteView>, k: int)
    requires
        0 <= k < cs.len(),
        wf_routes(cs.skip(k)),
    ensures
        wf_route(cs[k]),
        wf_routes(cs.skip(k + 1)),
{
    assert(cs.skip(k)[0] == cs[k]);
    assert(cs.skip(k).drop_first() =~= cs.skip(k + 1));
}

fn decode_routes_from(s: &[u8], pos: usize, n: u32) -> (r: Option<(Vec<RouteDescriptor>, usize)>)
    ensures
        match r {
            Some((v, j)) => dec_routes(s@, pos as int, n as int) == Some(
                (routes_view(v@), j as int),
            ),
            None => dec_routes(s@, pos as int, n as int) is None,
        },
    decreases s@.len() - pos, 1int, n,
{
    if n == 0 {
        let v: Vec<RouteDescriptor> = Vec::new();
        assert(routes_view(v@) =~= Seq::<RouteView>::empty());
        return Some((v, pos));
    }
    let (rd, j) = match RouteDescriptor::decode_from(s, pos) {
        Some(x) => x,
        None => {
            return None;
        },
    };
    if pos < j && j <= s.len() {
        match decode_routes_from(s, j, n - 1) {
            Some((mut rest, k)) => {
                let ghost old_rest = rest@;
                rest.insert(0, rd);
                proof {
                    let nv = rest@;
                    assert(nv[0] == rd);
                    assert(nv.drop_first() =~= old_rest);
                    assert(routes_view(nv) == seq![route_view(nv[0])] + routes_view(
                        nv.drop_first(),
                    ));
                    assert(routes_view(nv) == seq![rd@] + routes_view(old_rest));
                }
                Some((rest, k))
            },
            None => None,
        }
    } else {
        None
    }
}

} // verus!
