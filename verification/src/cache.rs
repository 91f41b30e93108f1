//! Per-address failure cache: a strike count per socket endpoint, bumped by
//! upper layers when a dial fails and read back as a whole-second additive
//! dial delay. An entry expires a fixed time after its most recent write.
//! The caller supplies the clock as seconds since epoch, so every fact here
//! holds for any clock value.

use crate::net::{byte_vecs_equal, Endpoint, EndpointView, IpAddrBytes};
use vstd::prelude::*;

verus! {

/// Seconds an entry stays live after its most recent write.
pub const STRIKE_TTL_SECS: u64 = 600;

pub ghost struct StrikeView {
    pub addr: EndpointView,
    pub strikes: u64,
    pub expiry: u64,
}

pub struct StrikeEntry {
    pub addr: Endpoint,
    pub strikes: u64,
    pub expiry: u64,
}

impl View for StrikeEntry {
    type V = StrikeView;

    open spec fn view(&self) -> StrikeView {
        StrikeView { addr: self.addr@, strikes: self.strikes, expiry: self.expiry }
    }
}

/// First entry for `a`, if any.
pub open spec fn find_strike(s: Seq<StrikeView>, a: EndpointView) -> Option<StrikeView>
    decreases s.len(),
{
    if s.len() == 0 {
        None
    } else if s[0].addr == a {
        Some(s[0])
    } else {
        find_strike(s.drop_first(), a)
    }
}

/// What `penalty` returns for an entry under clock `now`: the strike count
/// while the entry is live, and zero otherwise.
pub open spec fn penalty_of(e: Option<StrikeView>, now: u64) -> u64 {
    match e {
        Some(v) => if now < v.expiry {
            v.strikes
        } else {
            0
        },
        None => 0,
    }
}

/// The strike count a bump writes: one more than a live prior count
/// (saturating), and one where no live entry stood.
pub open spec fn bumped_strikes(e: Option<StrikeView>, now: u64) -> u64 {
    match e {
        Some(v) => if now < v.expiry {
            if v.strikes < u64::MAX {
                (v.strikes + 1) as u64
            } else {
                u64::MAX
            }
        } else {
            1
        },
        None => 1,
    }
}

proof fn lemma_find_update(s: Seq<StrikeView>, i: int, e: StrikeView, a: EndpointView)
    requires
        0 <= i < s.len(),
        forall|j: int| 0 <= j < i ==> s[j].addr != a,
        s[i].addr == a,
        e.addr == a,
    ensures
        find_strike(s.update(i, e), a) == Some(e),
        forall|b: EndpointView| b != a ==> find_strike(s.update(i, e), b) == find_strike(s, b),
    decreases s.len(),
{
    let t = s.update(i, e);
    if i == 0 {
        assert(t[0] == e);
        assert(find_strike(t, a) == Some(e));
        assert forall|b: EndpointView| b != a implies find_strike(t, b) == find_strike(s, b) by {
            assert(t.drop_first() =~= s.drop_first());
            assert(t[0].addr == a);
            assert(s[0].addr == a);
            assert(find_strike(t, b) == find_strike(t.drop_first(), b));
            assert(find_strike(s, b) == find_strike(s.drop_first(), b));
        }
    } else {
        assert(s.drop_first().update(i - 1, e) =~= t.drop_first());
        lemma_find_update(s.drop_first(), i - 1, e, a);
        assert(t[0] == s[0]);
        assert(s[0].addr != a);
        assert(find_strike(t, a) == find_strike(t.drop_first(), a));
        assert forall|b: EndpointView| b != a implies find_strike(t, b) == find_strike(s, b) by {
            if t[0].addr == b {
                assert(find_strike(t, b) == Some(t[0]));
                assert(find_strike(s, b) == Some(s[0]));
            } else {
                assert(find_strike(t, b) == find_strike(t.drop_first(), b));
                assert(find_strike(s, b) == find_strike(s.drop_first(), b));
            }
        }
    }
}

proof fn lemma_find_push(s: Seq<StrikeView>, e: StrikeView, a: EndpointView)
    requires
        forall|j: int| 0 <= j < s.len() ==> s[j].addr != a,
        e.addr == a,
    ensures
        find_strike(s.push(e), a) == Some(e),
        forall|b: EndpointView| b != a ==> find_strike(s.push(e), b) == find_strike(s, b),
    decreases s.len(),
{
    let t = s.push(e);
    if s.len() == 0 {
        assert(t[0] == e);
        assert(find_strike(t, a) == Some(e));
        assert forall|b: EndpointView| b != a implies find_strike(t, b) == find_strike(s, b) by {
            assert(t.drop_first() =~= Seq::<StrikeView>::empty());
            assert(t[0].addr == a);
            assert(find_strike(t, b) == find_strike(t.drop_first(), b));
            assert(find_strike(t.drop_first(), b) is None);
            assert(find_strike(s, b) is None);
        }
    } else {
        assert(s.drop_first().push(e) =~= t.drop_first());
        lemma_find_push(s.drop_first(), e, a);
        assert(t[0] == s[0]);
        assert(s[0].addr != a);
        assert(find_strike(t, a) == find_strike(t.drop_first(), a));
        assert forall|b: EndpointView| b != a implies find_strike(t, b) == find_strike(s, b) by {
            if t[0].addr == b {
                assert(find_strike(t, b) == Some(t[0]));
                assert(find_strike(s, b) == Some(s[0]));
            } else {
                assert(find_strike(t, b) == find_strike(t.drop_first(), b));
                assert(find_strike(s, b) == find_strike(s.drop_first(), b));
            }
        }
    }
}

proof fn lemma_find_at(s: Seq<StrikeView>, i: int)
    requires
        0 <= i < s.len(),
        forall|j: int| 0 <= j < i ==> s[j].addr != s[i].addr,
    ensures
        find_strike(s, s[i].addr) == Some(s[i]),
    decreases i,
{
    if i > 0 {
        lemma_find_at(s.drop_first(), i - 1);
    }
}

proof fn lemma_find_none(s: Seq<StrikeView>, a: EndpointView)
    requires
        forall|j: int| 0 <= j < s.len() ==> s[j].addr != a,
    ensures
        find_strike(s, a) is None,
    decreases s.len(),
{
    if s.len() > 0 {
        lemma_find_none(s.drop_first(), a);
    }
}

/// True when the two endpoints are the same address.
pub fn endpoint_eq(a: &Endpoint, b: &Endpoint) -> (r: bool)
    ensures
        r == (a@ == b@),
{
    if a.port != b.port {
        return false;
    }
    match (&a.ip, &b.ip) {
        (IpAddrBytes::V4(x), IpAddrBytes::V4(y)) => byte_vecs_equal(x.as_slice(), y.as_slice()),
        (IpAddrBytes::V6(x), IpAddrBytes::V6(y)) => byte_vecs_equal(x.as_slice(), y.as_slice()),
        _ => false,
    }
}

/// The failure cache itself. One lives per process, owned by the outer
/// runtime and shared behind whatever lock it chooses.
pub struct FailureCache {
    pub entries: Vec<StrikeEntry>,
}

impl View for FailureCache {
    type V = Seq<StrikeView>;

    open spec fn view(&self) -> Seq<StrikeView> {
        self.entries@.map(|i: int, e: StrikeEntry| e@)
    }
}

impl FailureCache {
    pub open spec fn entry_of(self, a: EndpointView) -> Option<StrikeView> {
        find_strike(self@, a)
    }

    pub fn new() -> (r: FailureCache)
        ensures
            forall|a: EndpointView| r.entry_of(a) is None,
    {
        let r = FailureCache { entries: Vec::new() };
        proof {
            assert forall|a: EndpointView| r.entry_of(a) is None by {
                assert(r@ =~= Seq::<StrikeView>::empty());
                lemma_find_none(r@, a);
            }
        }
        r
    }

    /// Records one more dial failure against `addr`: a live entry's strike
    /// count rises by one (saturating), an absent or expired entry restarts
    /// at one, and the entry's expiry moves to `now` plus the TTL. Every
    /// other address is untouched.
    pub fn deprioritize_route(&mut self, addr: &Endpoint, now: u64)
        requires
            now + STRIKE_TTL_SECS <= u64::MAX,
        ensures
            final(self).entry_of(addr@) == Some(
                StrikeView {
                    addr: addr@,
                    strikes: bumped_strikes(old(self).entry_of(addr@), now),
                    expiry: (now + STRIKE_TTL_SECS) as u64,
                },
            ),
            forall|b: EndpointView|
                b != addr@ ==> final(self).entry_of(b) == old(self).entry_of(b),
    {
        let new_expiry = now + STRIKE_TTL_SECS;
        let mut i: usize = 0;
        while i < self.entries.len()
            invariant
                *self == *old(self),
                i <= self.entries.len(),
                new_expiry == now + STRIKE_TTL_SECS,
                forall|j: int| 0 <= j < i ==> self@[j].addr != addr@,
            decreases self.entries.len() - i,
        {
            if endpoint_eq(&self.entries[i].addr, addr) {
                proof {
                    assert(self@[i as int] == self.entries@[i as int]@);
                }
                let prior = self.entries[i].strikes;
                let prior_expiry = self.entries[i].expiry;
                let strikes = if now < prior_expiry {
                    if prior < u64::MAX {
                        prior + 1
                    } else {
                        u64::MAX
                    }
                } else {
                    1
                };
                let e = StrikeEntry { addr: addr.clone_endpoint(), strikes, expiry: new_expiry };
                proof {
                    assert(self@[i as int] == self.entries@[i as int]@);
                    lemma_find_at(self@, i as int);
                    assert(old(self).entry_of(addr@) == Some(self@[i as int]));
                    assert(strikes == bumped_strikes(old(self).entry_of(addr@), now));
                    lemma_find_update(
                        self@,
                        i as int,
                        StrikeView { addr: addr@, strikes, expiry: new_expiry },
                        addr@,
                    );
                }
                self.entries.set(i, e);
                proof {
                    assert(new_expiry == (now + STRIKE_TTL_SECS) as u64);
                    assert(self@ =~= old(self)@.update(
                        i as int,
                        StrikeView { addr: addr@, strikes, expiry: new_expiry },
                    ));
                    assert(self.entry_of(addr@) == Some(
                        StrikeView { addr: addr@, strikes, expiry: new_expiry },
                    ));
                }
                return ;
            }
            proof {
                assert(self@[i as int] == self.entries@[i as int]@);
            }
            i += 1;
        }
        proof {
            lemma_find_none(self@, addr@);
            lemma_find_push(
                self@,
                StrikeView { addr: addr@, strikes: 1, expiry: new_expiry },
                addr@,
            );
        }
        let e = StrikeEntry { addr: addr.clone_endpoint(), strikes: 1, expiry: new_expiry };
        self.entries.push(e);
        proof {
            assert(self@ =~= old(self)@.push(
                StrikeView { addr: addr@, strikes: 1, expiry: new_expiry },
            ));
        }
    }

    /// The additive dial delay, in whole seconds, that `addr` has earned:
    /// its live strike count, or zero.
    pub fn penalty(&self, addr: &Endpoint, now: u64) -> (r: u64)
        ensures
            r == penalty_of(self.entry_of(addr@), now),
    {
        let mut i: usize = 0;
        while i < self.entries.len()
            invariant
                i <= self.entries.len(),
                forall|j: int| 0 <= j < i ==> self@[j].addr != addr@,
            decreases self.entries.len() - i,
        {
            if endpoint_eq(&self.entries[i].addr, addr) {
                proof {
                    assert(self@[i as int] == self.entries@[i as int]@);
                    lemma_find_at(self@, i as int);
                }
                if now < self.entries[i].expiry {
                    return self.entries[i].strikes;
                } else {
                    return 0;
                }
            }
            proof {
                assert(self@[i as int] == self.entries@[i as int]@);
            }
            i += 1;
        }
        proof {
            lemma_find_none(self@, addr@);
        }
        0
    }
}

/// Bumping an address never lowers its penalty as read under the same
/// clock: part of the guarantee that failures only deprioritize further
/// until the TTL has passed.
pub proof fn lemma_bump_monotone(e: Option<StrikeView>, a: EndpointView, now: u64)
    requires
        now + STRIKE_TTL_SECS <= u64::MAX,
    ensures
        penalty_of(
            Some(
                StrikeView {
                    addr: a,
                    strikes: bumped_strikes(e, now),
                    expiry: (now + STRIKE_TTL_SECS) as u64,
                },
            ),
            now,
        ) >= penalty_of(e, now),
{
}

/// Until its expiry an entry's penalty does not change with the clock: the
/// value moves only through further bumps.
pub proof fn lemma_penalty_stable_before_expiry(e: StrikeView, now1: u64, now2: u64)
    requires
        now1 <= now2 < e.expiry,
    ensures
        penalty_of(Some(e), now1) == penalty_of(Some(e), now2),
{
}

/// Once the TTL has passed with no further write, the penalty resets to
/// zero.
pub proof fn lemma_penalty_expires(e: StrikeView, now: u64)
    requires
        now >= e.expiry,
    ensures
        penalty_of(Some(e), now) == 0,
{
}

} // verus!
