//! The exit directory: the descriptor an exit publishes, the entries the
//! broker serves back, and their wire codec, with the proof that decoding an
//! encoding returns the value encoded.

use crate::codec::{
    dec_bytes, dec_u32, dec_u64, dec_var_bytes, enc_u32, enc_u64, enc_var_bytes, lemma_dec_u32,
    lemma_dec_u64, lemma_dec_var_bytes, lemma_enc_lens, lemma_nested_subrange, push_bytes,
    push_u32, push_u64, push_var_bytes, read_bytes, read_u64, read_var_bytes,
};
use crate::net::{
    dec_endpoint, enc_endpoint, lemma_dec_endpoint, Country, Endpoint, EndpointView,
};
use vstd::prelude::*;

verus! {

/// What an exit publishes about itself: where clients and bridges reach it,
/// where it is, how loaded it is (thousandths, kept as an integer so ordering
/// is total), and when the record lapses.
#[derive(Debug, PartialEq, Eq)]
pub struct ExitDescriptor {
    pub c2e_listen: Endpoint,
    pub b2e_listen: Endpoint,
    pub country: Country,
    pub city: Vec<u8>,
    pub load_millis: u64,
    pub expiry: u64,
}

pub ghost struct ExitDescriptorView {
    pub c2e_listen: EndpointView,
    pub b2e_listen: EndpointView,
    pub country: Country,
    pub city: Seq<u8>,
    pub load_millis: u64,
    pub expiry: u64,
}

impl View for ExitDescriptor {
    type V = ExitDescriptorView;

    open spec fn view(&self) -> ExitDescriptorView {
        ExitDescriptorView {
            c2e_listen: self.c2e_listen@,
            b2e_listen: self.b2e_listen@,
            country: self.country,
            city: self.city@,
            load_millis: self.load_millis,
            expiry: self.expiry,
        }
    }
}

impl ExitDescriptorView {
    pub open spec fn wf(self) -> bool {
        self.c2e_listen.wf() && self.b2e_listen.wf() && self.city.len() <= u32::MAX
    }
}

impl ExitDescriptor {
    pub fn clone_descriptor(&self) -> (r: ExitDescriptor)
        ensures
            r@ == self@,
    {
        ExitDescriptor {
            c2e_listen: self.c2e_listen.clone_endpoint(),
            b2e_listen: self.b2e_listen.clone_endpoint(),
            country: self.country,
            city: crate::net::clone_byte_vec(&self.city),
            load_millis: self.load_millis,
            expiry: self.expiry,
        }
    }
}

/// One directory entry: the exit's signing key beside its descriptor.
#[derive(Debug, PartialEq, Eq)]
pub struct ExitEntry {
    pub pubkey: Vec<u8>,
    pub descriptor: ExitDescriptor,
}

pub ghost struct ExitEntryView {
    pub pubkey: Seq<u8>,
    pub descriptor: ExitDescriptorView,
}

impl View for ExitEntry {
    type V = ExitEntryView;

    open spec fn view(&self) -> ExitEntryView {
        ExitEntryView { pubkey: self.pubkey@, descriptor: self.descriptor@ }
    }
}

impl ExitEntryView {
    pub open spec fn wf(self) -> bool {
        self.pubkey.len() == 32 && self.descriptor.wf()
    }
}

// ---------------------------------------------------------------------------
// Codec
// ---------------------------------------------------------------------------
pub open spec fn enc_country(c: Country) -> Seq<u8> {
    seq![c.a, c.b]
}

pub open spec fn dec_country(s: Seq<u8>, i: int) -> Option<(Country, int)> {
    if 0 <= i && i + 2 <= s.len() {
        Some((Country { a: s[i], b: s[i + 1] }, i + 2))
    } else {
        None
    }
}

pub open spec fn enc_exit_descriptor(d: ExitDescriptorView) -> Seq<u8> {
    enc_endpoint(d.c2e_listen) + enc_endpoint(d.b2e_listen) + enc_country(d.country)
        + enc_var_bytes(d.city) + enc_u64(d.load_millis) + enc_u64(d.expiry)
}

pub open spec fn dec_exit_descriptor(s: Seq<u8>, i: int) -> Option<(ExitDescriptorView, int)> {
    match dec_endpoint(s, i) {
        Some((c2e, j1)) => match dec_endpoint(s, j1) {
            Some((b2e, j2)) => match dec_country(s, j2) {
                Some((country, j3)) => match dec_var_bytes(s, j3) {
                    Some((city, j4)) => match dec_u64(s, j4) {
                        Some((load_millis, j5)) => match dec_u64(s, j5) {
                            Some((expiry, j6)) => Some(
                                (
                                    ExitDescriptorView {
                                        c2e_listen: c2e,
                                        b2e_listen: b2e,
                                        country,
                                        city,
                                        load_millis,
                                        expiry,
                                    },
                                    j6,
                                ),
                            ),
                            None => None,
                        },
                        None => None,
                    },
                    None => None,
                },
                None => None,
            },
            None => None,
        },
        None => None,
    }
}

pub proof fn lemma_dec_country(c: Country, s: Seq<u8>, i: int)
    requires
        0 <= i,
        i + 2 <= s.len(),
        s.subrange(i, i + 2) == enc_country(c),
    ensures
        dec_country(s, i) == Some((c, i + 2)),
{
    assert(s[i + 0] == s.subrange(i, i + 2)[0]);
    assert(s[i + 1] == s.subrange(i, i + 2)[1]);
}

/// Decoding an encoded descriptor embedded at `i` in a larger buffer yields
/// the descriptor back.
pub proof fn lemma_dec_exit_descriptor(d: ExitDescriptorView, s: Seq<u8>, i: int)
    requires
        d.wf(),
        0 <= i,
        i + enc_exit_descriptor(d).len() <= s.len(),
        s.subrange(i, i + enc_exit_descriptor(d).len()) == enc_exit_descriptor(d),
    ensures
        dec_exit_descriptor(s, i) == Some((d, i + enc_exit_descriptor(d).len())),
{
    lemma_enc_lens();
    let whole = enc_exit_descriptor(d);
    let e1 = enc_endpoint(d.c2e_listen);
    let e2 = enc_endpoint(d.b2e_listen);
    let e3 = enc_country(d.country);
    let e4 = enc_var_bytes(d.city);
    let e5 = enc_u64(d.load_millis);
    let e6 = enc_u64(d.expiry);
    let n1: int = e1.len() as int;
    let n2: int = n1 + e2.len() as int;
    let n3: int = n2 + e3.len() as int;
    let n4: int = n3 + e4.len() as int;
    let n5: int = n4 + e5.len() as int;
    let n6: int = n5 + e6.len() as int;
    assert(whole.len() == n6);
    assert(whole.subrange(0, n1) =~= e1);
    assert(whole.subrange(n1, n2) =~= e2);
    assert(whole.subrange(n2, n3) =~= e3);
    assert(whole.subrange(n3, n4) =~= e4);
    assert(whole.subrange(n4, n5) =~= e5);
    assert(whole.subrange(n5, n6) =~= e6);
    lemma_nested_subrange(s, i, whole, 0, n1);
    lemma_dec_endpoint(d.c2e_listen, s, i);
    lemma_nested_subrange(s, i, whole, n1, n2);
    lemma_dec_endpoint(d.b2e_listen, s, i + n1);
    lemma_nested_subrange(s, i, whole, n2, n3);
    lemma_dec_country(d.country, s, i + n2);
    lemma_nested_subrange(s, i, whole, n3, n4);
    lemma_dec_var_bytes(d.city, s, i + n3);
    lemma_nested_subrange(s, i, whole, n4, n5);
    lemma_dec_u64(d.load_millis, s, i + n4);
    lemma_nested_subrange(s, i, whole, n5, n6);
    lemma_dec_u64(d.expiry, s, i + n5);
}

/// Decode-of-encode is the identity on exit descriptors.
pub proof fn lemma_exit_descriptor_round_trip(d: ExitDescriptorView)
    requires
        d.wf(),
    ensures
        dec_exit_descriptor(enc_exit_descriptor(d), 0) == Some(
            (d, enc_exit_descriptor(d).len() as int),
        ),
{
    let whole = enc_exit_descriptor(d);
    assert(whole.subrange(0, whole.len() as int) =~= whole);
    lemma_dec_exit_descriptor(d, whole, 0);
}

impl ExitDescriptor {
    pub fn encode_onto(&self, out: &mut Vec<u8>)
        requires
            self@.wf(),
        ensures
            final(out)@ == old(out)@ + enc_exit_descriptor(self@),
    {
        self.c2e_listen.encode_onto(out);
        self.b2e_listen.encode_onto(out);
        out.push(self.country.a);
        out.push(self.country.b);
        push_var_bytes(out, self.city.as_slice());
        push_u64(out, self.load_millis);
        push_u64(out, self.expiry);
        assert(final(out)@ =~= old(out)@ + enc_exit_descriptor(self@));
    }

    pub fn encode(&self) -> (r: Vec<u8>)
        requires
            self@.wf(),
        ensures
            r@ == enc_exit_descriptor(self@),
    {
        let mut out: Vec<u8> = Vec::new();
        self.encode_onto(&mut out);
        assert(out@ =~= enc_exit_descriptor(self@));
        out
    }

    pub fn decode_from(s: &[u8], pos: usize) -> (r: Option<(ExitDescriptor, usize)>)
        ensures
            match r {
                Some((d, j)) => dec_exit_descriptor(s@, pos as int) == Some((d@, j as int))
                    && d@.wf(),
                None => dec_exit_descriptor(s@, pos as int) is None,
            },
    {
        let (c2e_listen, j1) = match Endpoint::decode_from(s, pos) {
            Some(x) => x,
            None => {
                return None;
            },
        };
        let (b2e_listen, j2) = match Endpoint::decode_from(s, j1) {
            Some(x) => x,
            None => {
                return None;
            },
        };
        let (country, j3) = if s.len() >= 2 && j2 <= s.len() - 2 {
            let a = *vstd::slice::slice_index_get(s, j2);
            let b = *vstd::slice::slice_index_get(s, j2 + 1);
            (Country { a, b }, j2 + 2)
        } else {
            return None;
        };
        let (city, j4) = match read_var_bytes(s, j3) {
            Some(x) => x,
            None => {
                return None;
            },
        };
        let (load_millis, j5) = match read_u64(s, j4) {
            Some(x) => x,
            None => {
                return None;
            },
        };
        let (expiry, j6) = match read_u64(s, j5) {
            Some(x) => x,
            None => {
                return None;
            },
        };
        Some((ExitDescriptor { c2e_listen, b2e_listen, country, city, load_millis, expiry }, j6))
    }

    pub fn decode(s: &[u8]) -> (r: Option<ExitDescriptor>)
        ensures
            match r {
                Some(d) => dec_exit_descriptor(s@, 0) matches Some((dv, _)) && dv == d@ && d@.wf(),
                None => dec_exit_descriptor(s@, 0) is None,
            },
    {
        match Self::decode_from(s, 0) {
            Some((d, _)) => Some(d),
            None => None,
        }
    }
}

// ---------------------------------------------------------------------------
// The exit list: what the broker serves, a counted list of entries.
// ---------------------------------------------------------------------------
pub open spec fn enc_exit_entry(e: ExitEntryView) -> Seq<u8> {
    e.pubkey + enc_exit_descriptor(e.descriptor)
}

pub open spec fn dec_exit_entry(s: Seq<u8>, i: int) -> Option<(ExitEntryView, int)> {
    match dec_bytes(s, i, 32) {
        Some((pubkey, j)) => match dec_exit_descriptor(s, j) {
            Some((descriptor, k)) => Some((ExitEntryView { pubkey, descriptor }, k)),
            None => None,
        },
        None => None,
    }
}

pub open spec fn enc_entries(cs: Seq<ExitEntryView>) -> Seq<u8>
    decreases cs,
{
    if cs.len() == 0 {
        Seq::empty()
    } else {
        enc_exit_entry(cs[0]) + enc_entries(cs.drop_first())
    }
}

pub open spec fn enc_exit_list(cs: Seq<ExitEntryView>) -> Seq<u8>
    recommends
        cs.len() <= u32::MAX,
{
    enc_u32(cs.len() as u32) + enc_entries(cs)
}

pub open spec fn dec_entries(s: Seq<u8>, i: int, n: int) -> Option<(Seq<ExitEntryView>, int)>
    decreases n,
{
    if n <= 0 {
        if n == 0 {
            Some((Seq::empty(), i))
        } else {
            None
        }
    } else {
        match dec_exit_entry(s, i) {
            Some((e, j)) => match dec_entries(s, j, n - 1) {
                Some((rest, k)) => Some((seq![e] + rest, k)),
                None => None,
            },
            None => None,
        }
    }
}

pub open spec fn dec_exit_list(s: Seq<u8>, i: int) -> Option<(Seq<ExitEntryView>, int)> {
    match dec_u32(s, i) {
        Some((n, j)) => dec_entries(s, j, n as int),
        None => None,
    }
}

pub open spec fn wf_entries(cs: Seq<ExitEntryView>) -> bool {
    forall|j: int| 0 <= j < cs.len() ==> (#[trigger] cs[j]).wf()
}

pub proof fn lemma_dec_exit_entry(e: ExitEntryView, s: Seq<u8>, i: int)
    requires
        e.wf(),
        0 <= i,
        i + enc_exit_entry(e).len() <= s.len(),
        s.subrange(i, i + enc_exit_entry(e).len()) == enc_exit_entry(e),
    ensures
        dec_exit_entry(s, i) == Some((e, i + enc_exit_entry(e).len())),
{
    let whole = enc_exit_entry(e);
    let ed = enc_exit_descriptor(e.descriptor);
    let n: int = whole.len() as int;
    assert(whole.subrange(0, 32) =~= e.pubkey);
    assert(whole.subrange(32, n) =~= ed);
    lemma_nested_subrange(s, i, whole, 0, 32);
    lemma_nested_subrange(s, i, whole, 32, n);
    lemma_dec_exit_descriptor(e.descriptor, s, i + 32);
}

pub proof fn lemma_dec_entries(cs: Seq<ExitEntryView>, s: Seq<u8>, i: int)
    requires
        wf_entries(cs),
        0 <= i,
        i + enc_entries(cs).len() <= s.len(),
        s.subrange(i, i + enc_entries(cs).len()) == enc_entries(cs),
    ensures
        dec_entries(s, i, cs.len() as int) == Some((cs, i + enc_entries(cs).len())),
    decreases cs,
{
    if cs.len() == 0 {
        assert(cs =~= Seq::<ExitEntryView>::empty());
    } else {
        let whole = enc_entries(cs);
        let e0 = enc_exit_entry(cs[0]);
        let rest = enc_entries(cs.drop_first());
        let n: int = whole.len() as int;
        let m: int = e0.len() as int;
        assert(whole.subrange(0, m) =~= e0);
        assert(whole.subrange(m, n) =~= rest);
        lemma_nested_subrange(s, i, whole, 0, m);
        lemma_dec_exit_entry(cs[0], s, i);
        lemma_nested_subrange(s, i, whole, m, n);
        assert(wf_entries(cs.drop_first())) by {
            assert forall|j: int| 0 <= j < cs.drop_first().len() implies (#[trigger] cs.drop_first()[j]).wf() by {
                assert(cs.drop_first()[j] == cs[j + 1]);
            }
        }
        lemma_dec_entries(cs.drop_first(), s, i + m);
        assert(seq![cs[0]] + cs.drop_first() =~= cs);
    }
}

/// Decode-of-encode is the identity on exit lists.
pub proof fn lemma_exit_list_round_trip(cs: Seq<ExitEntryView>)
    requires
        wf_entries(cs),
        cs.len() <= u32::MAX,
    ensures
        dec_exit_list(enc_exit_list(cs), 0) == Some((cs, enc_exit_list(cs).len() as int)),
{
    lemma_enc_lens();
    let whole = enc_exit_list(cs);
    let e1 = enc_u32(cs.len() as u32);
    let e2 = enc_entries(cs);
    let n: int = whole.len() as int;
    assert(whole.subrange(0, n) =~= whole);
    assert(whole.subrange(0, 4) =~= e1);
    assert(whole.subrange(4, n) =~= e2);
    lemma_nested_subrange(whole, 0, whole, 0, 4);
    lemma_dec_u32(cs.len() as u32, whole, 0);
    lemma_nested_subrange(whole, 0, whole, 4, n);
    lemma_dec_entries(cs, whole, 4);
}

/// Encodes the directory list: a four-byte count, then each entry.
pub fn encode_exit_list(entries: &Vec<ExitEntry>) -> (r: Vec<u8>)
    requires
        entries@.len() <= u32::MAX,
        forall|j: int| 0 <= j < entries@.len() ==> (#[trigger] entries@[j])@.wf(),
    ensures
        r@ == enc_exit_list(entries@.map(|k: int, e: ExitEntry| e@)),
{
    let ghost ev = entries@.map(|k: int, e: ExitEntry| e@);
    let mut out: Vec<u8> = Vec::new();
    push_u32(&mut out, entries.len() as u32);
    let ghost base = out@;
    proof {
        assert(ev.skip(0) =~= ev);
    }
    let mut k: usize = 0;
    while k < entries.len()
        invariant
            k <= entries.len(),
            ev == entries@.map(|j: int, e: ExitEntry| e@),
            ev.len() == entries@.len(),
            forall|j: int| 0 <= j < entries@.len() ==> (#[trigger] entries@[j])@.wf(),
            out@ + enc_entries(ev.skip(k as int)) == base + enc_entries(ev),
        decreases entries.len() - k,
    {
        proof {
            assert(ev[k as int] == entries@[k as int]@);
            assert(ev.skip(k as int)[0] == ev[k as int]);
            assert(ev.skip(k as int).drop_first() =~= ev.skip(k + 1 as int));
        }
        push_bytes(&mut out, entries[k].pubkey.as_slice());
        entries[k].descriptor.encode_onto(&mut out);
        proof {
            assert(out@ + enc_entries(ev.skip(k + 1 as int)) =~= base + enc_entries(ev));
        }
        k += 1;
    }
    proof {
        assert(ev.skip(ev.len() as int) =~= Seq::<ExitEntryView>::empty());
        assert(out@ =~= base + enc_entries(ev));
        assert(out@ =~= enc_exit_list(ev));
    }
    out
}

fn decode_entries(s: &[u8], pos: usize, n: u32) -> (r: Option<(Vec<ExitEntry>, usize)>)
    ensures
        match r {
            Some((v, j)) => dec_entries(s@, pos as int, n as int) == Some(
                (v@.map(|k: int, e: ExitEntry| e@), j as int),
            ) && forall|q: int| 0 <= q < v@.len() ==> (#[trigger] v@[q])@.wf(),
            None => dec_entries(s@, pos as int, n as int) is None,
        },
    decreases n,
{
    if n == 0 {
        let v: Vec<ExitEntry> = Vec::new();
        assert(v@.map(|k: int, e: ExitEntry| e@) =~= Seq::<ExitEntryView>::empty());
        return Some((v, pos));
    }
    let (pubkey, j1) = match read_bytes(s, pos, 32) {
        Some(x) => x,
        None => {
            return None;
        },
    };
    let (descriptor, j2) = match ExitDescriptor::decode_from(s, j1) {
        Some(x) => x,
        None => {
            return None;
        },
    };
    let entry = ExitEntry { pubkey, descriptor };
    match decode_entries(s, j2, n - 1) {
        Some((mut rest, k)) => {
            let ghost old_rest = rest@;
            rest.insert(0, entry);
            proof {
                let nv = rest@.map(|q: int, e: ExitEntry| e@);
                assert(rest@[0] == entry);
                assert(rest@.drop_first() =~= old_rest);
                assert forall|q: int| 0 <= q < nv.len() implies nv[q] == rest@[q]@ by {}
                assert(nv =~= seq![entry@] + old_rest.map(|q: int, e: ExitEntry| e@));
            }
            Some((rest, k))
        },
        None => None,
    }
}

/// Decodes the directory list the broker serves.
pub fn decode_exit_list(s: &[u8]) -> (r: Option<Vec<ExitEntry>>)
    ensures
        match r {
            Some(v) => dec_exit_list(s@, 0) matches Some((cs, _)) && cs == v@.map(
                |k: int, e: ExitEntry| e@,
            ) && forall|q: int| 0 <= q < v@.len() ==> (#[trigger] v@[q])@.wf(),
            None => dec_exit_list(s@, 0) is None,
        },
{
    let (n, j) = match crate::codec::read_u32(s, 0) {
        Some(x) => x,
        None => {
            return None;
        },
    };
    match decode_entries(s, j, n) {
        Some((v, _)) => Some(v),
        None => None,
    }
}

} // verus!
