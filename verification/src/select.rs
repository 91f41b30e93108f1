//! Exit selection: constraint-based filtering over the directory, the
//! minimum-load choice with its empty-filter fallback, and the parsing of a
//! direct constraint of the form `host:port/hex-pubkey`.

use crate::crypto::{hex_decode, hex_decode_spec, random_index};
use crate::directory::{dec_exit_list, decode_exit_list, ExitEntry, ExitEntryView};
use crate::envelope::{domain_exit_descriptor, domain_exit_descriptor_bytes, envelope_accepted, SignedEnvelope};
use crate::net::{byte_vecs_equal, ip_text, ip_text_spec, Country, Endpoint};
use vstd::prelude::*;

verus! {

/// How the caller narrows the choice of exit.
#[derive(Debug, PartialEq, Eq)]
pub enum ExitConstraint {
    Auto,
    Direct(Vec<u8>),
    Hostname(Vec<u8>),
    Country(Country),
    CountryCity(Country, Vec<u8>),
}

pub ghost enum ExitConstraintView {
    Auto,
    Direct(Seq<u8>),
    Hostname(Seq<u8>),
    Country(Country),
    CountryCity(Country, Seq<u8>),
}

impl View for ExitConstraint {
    type V = ExitConstraintView;

    open spec fn view(&self) -> ExitConstraintView {
        match self {
            ExitConstraint::Auto => ExitConstraintView::Auto,
            ExitConstraint::Direct(s) => ExitConstraintView::Direct(s@),
            ExitConstraint::Hostname(s) => ExitConstraintView::Hostname(s@),
            ExitConstraint::Country(c) => ExitConstraintView::Country(*c),
            ExitConstraint::CountryCity(c, s) => ExitConstraintView::CountryCity(*c, s@),
        }
    }
}

/// Whether one directory entry fits the constraint: country by equality,
/// city by exact string equality, hostname against the textual form of the
/// bridge-facing IP. `Auto` and `Direct` impose no filter.
pub open spec fn entry_matches(c: ExitConstraintView, e: ExitEntryView) -> bool {
    match c {
        ExitConstraintView::Auto => true,
        ExitConstraintView::Direct(_) => true,
        ExitConstraintView::Hostname(h) => ip_text_spec(e.descriptor.b2e_listen.ip) == h,
        ExitConstraintView::Country(country) => e.descriptor.country == country,
        ExitConstraintView::CountryCity(country, city) => e.descriptor.country == country
            && e.descriptor.city == city,
    }
}

/// Index `i` holds the first entry of minimum load among those selected:
/// all entries where `filtered` demands a match, every selected entry
/// carries at least its load, and every earlier selected entry carries more.
pub open spec fn is_first_min_load(
    exits: Seq<ExitEntryView>,
    c: ExitConstraintView,
    filtered: bool,
    i: int,
) -> bool {
    &&& 0 <= i < exits.len()
    &&& (filtered ==> entry_matches(c, exits[i]))
    &&& forall|j: int|
        0 <= j < exits.len() && (filtered ==> entry_matches(c, exits[j]))
            ==> exits[i].descriptor.load_millis <= exits[j].descriptor.load_millis
    &&& forall|j: int|
        0 <= j < i && (filtered ==> entry_matches(c, exits[j]))
            ==> exits[j].descriptor.load_millis > exits[i].descriptor.load_millis
}

/// True when some entry fits the constraint.
pub open spec fn some_entry_matches(exits: Seq<ExitEntryView>, c: ExitConstraintView) -> bool {
    exists|j: int| 0 <= j < exits.len() && entry_matches(c, exits[j])
}

/// Whether an entry fits the constraint.
fn entry_matches_exec(c: &ExitConstraint, e: &ExitEntry) -> (r: bool)
    requires
        e@.wf(),
    ensures
        r == entry_matches(c@, e@),
{
    match c {
        ExitConstraint::Auto => true,
        ExitConstraint::Direct(_) => true,
        ExitConstraint::Hostname(h) => {
            let text = ip_text(&e.descriptor.b2e_listen.ip);
            byte_vecs_equal(text.as_slice(), h.as_slice())
        },
        ExitConstraint::Country(country) => e.descriptor.country == *country,
        ExitConstraint::CountryCity(country, city) => e.descriptor.country == *country
            && byte_vecs_equal(e.descriptor.city.as_slice(), city.as_slice()),
    }
}

/// Picks the exit: the first minimum-load entry among those fitting the
/// constraint; where none fits, the first minimum-load entry overall; and
/// `None` exactly when the directory is empty.
pub fn choose_exit(exits: &Vec<ExitEntry>, constraint: &ExitConstraint) -> (r: Option<usize>)
    requires
        forall|j: int| 0 <= j < exits@.len() ==> (#[trigger] exits@[j])@.wf(),
    ensures
        r is None <==> exits@.len() == 0,
        match r {
            Some(i) => {
                let ev = exits@.map(|k: int, e: ExitEntry| e@);
                if some_entry_matches(ev, constraint@) {
                    is_first_min_load(ev, constraint@, true, i as int)
                } else {
                    is_first_min_load(ev, constraint@, false, i as int)
                }
            },
            None => true,
        },
{
    let ghost ev = exits@.map(|k: int, e: ExitEntry| e@);
    assert(ev.len() == exits@.len());
    let mut best: Option<usize> = None;
    let mut k: usize = 0;
    while k < exits.len()
        invariant
            k <= exits.len(),
            ev == exits@.map(|j: int, e: ExitEntry| e@),
            ev.len() == exits@.len(),
            forall|j: int| 0 <= j < exits@.len() ==> (#[trigger] exits@[j])@.wf(),
            forall|j: int| 0 <= j < ev.len() ==> ev[j] == exits@[j]@,
            match best {
                Some(b) => b < k && entry_matches(constraint@, ev[b as int]) && (forall|j: int|
                    0 <= j < k && entry_matches(constraint@, ev[j])
                        ==> ev[b as int].descriptor.load_millis <= ev[j].descriptor.load_millis)
                    && (forall|j: int|
                    0 <= j < b && entry_matches(constraint@, ev[j])
                        ==> ev[j].descriptor.load_millis > ev[b as int].descriptor.load_millis),
                None => forall|j: int| 0 <= j < k ==> !entry_matches(constraint@, ev[j]),
            },
        decreases exits.len() - k,
    {
        if entry_matches_exec(constraint, &exits[k]) {
            match best {
                Some(b) => {
                    if exits[k].descriptor.load_millis < exits[b].descriptor.load_millis {
                        best = Some(k);
                    }
                },
                None => {
                    best = Some(k);
                },
            }
        }
        k += 1;
    }
    match best {
        Some(b) => {
            assert(some_entry_matches(ev, constraint@));
            Some(b)
        },
        None => {
            assert(!some_entry_matches(ev, constraint@));
            if exits.len() == 0 {
                return None;
            }
            let mut b: usize = 0;
            let mut k2: usize = 1;
            while k2 < exits.len()
                invariant
                    b < k2 <= exits.len(),
                    ev == exits@.map(|j: int, e: ExitEntry| e@),
                    ev.len() == exits@.len(),
                    forall|j: int| 0 <= j < ev.len() ==> ev[j] == exits@[j]@,
                    forall|j: int|
                        0 <= j < k2 ==> ev[b as int].descriptor.load_millis
                            <= ev[j].descriptor.load_millis,
                    forall|j: int|
                        0 <= j < b ==> ev[j].descriptor.load_millis
                            > ev[b as int].descriptor.load_millis,
                decreases exits.len() - k2,
            {
                if exits[k2].descriptor.load_millis < exits[b].descriptor.load_millis {
                    b = k2;
                }
                k2 += 1;
            }
            Some(b)
        },
    }
}

/// Integer load ordering is total: of any two loads exactly one of
/// less-than, equal, greater-than holds, so the selection is deterministic
/// within a call.
pub proof fn lemma_load_order_total(a: u64, b: u64)
    ensures
        (a < b && !(a == b) && !(a > b)) || (a == b && !(a < b) && !(a > b)) || (a > b && !(a < b)
            && !(a == b)),
{
}

// ---------------------------------------------------------------------------
// Direct constraints: `host:port/hex-pubkey`.
// ---------------------------------------------------------------------------
/// Why a direct constraint was rejected.
#[derive(Debug, PartialEq, Eq)]
pub enum DirectParseError {
    NoSlash,
    BadHex,
    WrongKeyLength,
}

/// The first slash at or after `i`.
pub open spec fn find_slash(s: Seq<u8>, i: int) -> Option<int>
    decreases s.len() - i,
{
    if i < 0 || i >= s.len() {
        None
    } else if s[i] == 47 {
        Some(i)
    } else {
        find_slash(s, i + 1)
    }
}

/// What parsing a direct constraint yields: the part before the first
/// slash, and the 32 bytes the part after it hex-decodes to.
pub open spec fn parse_direct_spec(s: Seq<u8>) -> Option<(Seq<u8>, Seq<u8>)> {
    match find_slash(s, 0) {
        Some(k) => match hex_decode_spec(s.skip(k + 1)) {
            Some(pk) => if pk.len() == 32 {
                Some((s.subrange(0, k), pk))
            } else {
                None
            },
            None => None,
        },
        None => None,
    }
}

/// Splits a direct constraint at its first slash and hex-decodes the
/// verifying key after it, which must come to exactly 32 bytes. Errors say
/// which of the three steps failed.
pub fn parse_direct_constraint(s: &Vec<u8>) -> (r: Result<(Vec<u8>, Vec<u8>), DirectParseError>)
    ensures
        match r {
            Ok((host, pk)) => parse_direct_spec(s@) == Some((host@, pk@)) && pk@.len() == 32,
            Err(e) => parse_direct_spec(s@) is None && match e {
                DirectParseError::NoSlash => find_slash(s@, 0) is None,
                DirectParseError::BadHex => find_slash(s@, 0) matches Some(k) && hex_decode_spec(
                    s@.skip(k + 1),
                ) is None,
                DirectParseError::WrongKeyLength => find_slash(s@, 0) matches Some(k)
                    && hex_decode_spec(s@.skip(k + 1)) matches Some(pk) && pk.len() != 32,
            },
        },
{
    let mut k: usize = 0;
    let mut found: bool = false;
    while k < s.len() && !found
        invariant
            k <= s.len(),
            found ==> k < s.len() && s@[k as int] == 47,
            find_slash(s@, 0) == find_slash(s@, k as int),
        decreases s.len() - k + if found {
            0int
        } else {
            1int
        },
    {
        if s[k] == 47 {
            found = true;
        } else {
            k += 1;
        }
    }
    if !found {
        assert(find_slash(s@, k as int) is None);
        return Err(DirectParseError::NoSlash);
    }
    assert(find_slash(s@, 0) == Some(k as int));
    let mut host: Vec<u8> = Vec::new();
    let mut j: usize = 0;
    while j < k
        invariant
            j <= k,
            k < s@.len(),
            host@ == s@.subrange(0, j as int),
        decreases k - j,
    {
        host.push(s[j]);
        assert(host@ =~= s@.subrange(0, j + 1 as int));
        j += 1;
    }
    let mut tail: Vec<u8> = Vec::new();
    let mut m: usize = k + 1;
    while m < s.len()
        invariant
            k + 1 <= m <= s@.len(),
            tail@ == s@.subrange(k + 1 as int, m as int),
        decreases s.len() - m,
    {
        tail.push(s[m]);
        assert(tail@ =~= s@.subrange(k + 1 as int, m + 1 as int));
        m += 1;
    }
    assert(tail@ =~= s@.skip(k + 1 as int));
    match hex_decode(tail.as_slice()) {
        Some(pk) => {
            if pk.len() == 32 {
                Ok((host, pk))
            } else {
                Err(DirectParseError::WrongKeyLength)
            }
        },
        None => Err(DirectParseError::BadHex),
    }
}

/// Picks one of the resolved addresses uniformly at random: some address
/// whenever any was resolved.
pub fn pick_resolved_addr(addrs: &Vec<Endpoint>) -> (r: Option<usize>)
    ensures
        r is Some <==> addrs@.len() > 0,
        r matches Some(i) ==> i < addrs@.len(),
{
    if addrs.len() == 0 {
        None
    } else {
        Some(random_index(addrs.len()))
    }
}

/// Why the broker's exit list was rejected.
#[derive(Debug, PartialEq, Eq)]
pub enum ExitListError {
    BadSignature,
    Malformed,
}

/// Opens the broker's signed exit list: the signature must verify under the
/// exit-descriptor domain and the pinned broker key where one is configured
/// (any signer is accepted without a pin), and the payload must decode as a
/// directory. Each error names the check that failed.
pub fn open_exit_list(env: &SignedEnvelope, pin: Option<&Vec<u8>>) -> (r: Result<
    Vec<ExitEntry>,
    ExitListError,
>)
    requires
        env@.wf(),
    ensures
        match r {
            Ok(v) => envelope_accepted(
                env@,
                domain_exit_descriptor(),
                match pin {
                    Some(k) => Some(k@),
                    None => None,
                },
            ) && (dec_exit_list(env@.payload, 0) matches Some((cs, _)) && cs == v@.map(
                |k: int, e: ExitEntry| e@,
            )) && forall|q: int| 0 <= q < v@.len() ==> (#[trigger] v@[q])@.wf(),
            Err(ExitListError::BadSignature) => !envelope_accepted(
                env@,
                domain_exit_descriptor(),
                match pin {
                    Some(k) => Some(k@),
                    None => None,
                },
            ),
            Err(ExitListError::Malformed) => dec_exit_list(env@.payload, 0) is None,
        },
{
    let domain = domain_exit_descriptor_bytes();
    if !env.verify(&domain, pin) {
        return Err(ExitListError::BadSignature);
    }
    match decode_exit_list(env.payload.as_slice()) {
        Some(v) => Ok(v),
        None => Err(ExitListError::Malformed),
    }
}

} // verus!
