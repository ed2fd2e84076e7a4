//! Network names (SSIDs) per access point: batching of device IDs into
//! radio-information requests, first-wins deduplication by network name,
//! and the mapping from device ID to its deduplicated names.
use vstd::prelude::*;
use std::collections::HashMap;
use crate::decimal::{dec, push_decimal};

verus! {

broadcast use vstd::std_specs::hash::group_hash_axioms;

/// One configured network as a radio reports it.
#[derive(Debug, Clone)]
pub struct Wlan {
    pub ssid: String,
    pub ssid_status: Option<String>,
    pub ssid_security_type: Option<String>,
    pub bssid: Option<String>,
    pub network_policy_name: Option<String>,
}

/// One radio of a device, with the networks it serves.
#[derive(Debug)]
pub struct Radio {
    pub wlans: Vec<Wlan>,
}

/// The radios of one device, as the radio-information endpoint reports them.
#[derive(Debug)]
pub struct RadioDeviceInfo {
    pub device_id: u64,
    pub radios: Vec<Radio>,
}

/// The networks of every radio, radio after radio.
pub open spec fn radio_wlans(radios: Seq<Radio>) -> Seq<Wlan>
    decreases radios.len(),
{
    if radios.len() == 0 {
        Seq::empty()
    } else {
        radio_wlans(radios.drop_last()) + radios.last().wlans@
    }
}

/// Whether some record of `ws` carries the network name `name`.
pub open spec fn has_ssid(ws: Seq<Wlan>, name: Seq<char>) -> bool {
    exists|j: int| 0 <= j < ws.len() && (#[trigger] ws[j]).ssid@ == name
}

/// The records of `ws` whose name no earlier record carries: for each name,
/// the first record seen, in order of first appearance.
pub open spec fn dedup_first(ws: Seq<Wlan>) -> Seq<Wlan>
    decreases ws.len(),
{
    if ws.len() == 0 {
        Seq::empty()
    } else {
        let p = dedup_first(ws.drop_last());
        if has_ssid(p, ws.last().ssid@) {
            p
        } else {
            p.push(ws.last())
        }
    }
}

/// The network names of `ws`, in order.
pub open spec fn ssid_names(ws: Seq<Wlan>) -> Seq<Seq<char>> {
    ws.map_values(|w: Wlan| w.ssid@)
}

/// The `i`th batch of `ids` cut into batches of `size`.
pub open spec fn chunk_at(ids: Seq<u64>, size: nat, i: int) -> Seq<u64> {
    let lo = i * size;
    let hi = if (i + 1) * size <= ids.len() {
        (i + 1) * size
    } else {
        ids.len() as int
    };
    ids.subrange(lo, hi)
}

/// The decimal IDs of `ids`, separated by commas.
pub open spec fn join_ids(ids: Seq<u64>) -> Seq<char>
    decreases ids.len(),
{
    if ids.len() == 0 {
        Seq::empty()
    } else if ids.len() == 1 {
        dec(ids[0] as nat)
    } else {
        join_ids(ids.drop_last()) + seq![','] + dec(ids.last() as nat)
    }
}

/// Whether some record of `ws` carries the name `name`.
pub fn contains_ssid(ws: &Vec<Wlan>, name: &String) -> (r: bool)
    ensures
        r == has_ssid(ws@, name@),
{
    let mut i: usize = 0;
    while i < ws.len()
        invariant
            i <= ws@.len(),
            forall|j: int| 0 <= j < i ==> (#[trigger] ws@[j]).ssid@ != name@,
        decreases ws@.len() - i,
    {
        if ws[i].ssid == *name {
            return true;
        }
        i = i + 1;
    }
    false
}

/// The networks of all `radios`, radio after radio, reduced to the first
/// record of each network name.
pub fn dedup_wlans(radios: Vec<Radio>) -> (r: Vec<Wlan>)
    ensures
        r@ == dedup_first(radio_wlans(radios@)),
{
    let ghost rs = radios@;
    let nr = radios.len();
    let mut rest = radios;
    let mut all: Vec<Wlan> = Vec::new();
    let mut i: usize = 0;
    while rest.len() > 0
        invariant
            i <= rs.len(),
            nr == rs.len(),
            rest@ == rs.skip(i as int),
            all@ == radio_wlans(rs.take(i as int)),
        decreases rest.len(),
    {
        let mut radio = rest.remove(0);
        assert(rs.take(i + 1).drop_last() =~= rs.take(i as int));
        assert(rest@ =~= rs.skip(i + 1));
        all.append(&mut radio.wlans);
        i = i + 1;
    }
    assert(rs.take(i as int) =~= rs);
    let ghost ws = all@;
    let nw = all.len();
    let mut out: Vec<Wlan> = Vec::new();
    let mut k: usize = 0;
    while all.len() > 0
        invariant
            k <= ws.len(),
            nw == ws.len(),
            all@ == ws.skip(k as int),
            out@ == dedup_first(ws.take(k as int)),
        decreases all.len(),
    {
        let w = all.remove(0);
        assert(ws.take(k + 1).drop_last() =~= ws.take(k as int));
        assert(all@ =~= ws.skip(k + 1));
        if !contains_ssid(&out, &w.ssid) {
            out.push(w);
        }
        k = k + 1;
    }
    assert(ws.take(k as int) =~= ws);
    out
}

/// The names kept by the deduplication are pairwise distinct, each name of
/// the input is kept, and each kept record is the first record of the input
/// that carries its name.
pub proof fn lemma_dedup_first_wins(ws: Seq<Wlan>)
    ensures
        forall|i: int, j: int|
            0 <= i < j < dedup_first(ws).len() ==> (#[trigger] dedup_first(ws)[i]).ssid@
                != (#[trigger] dedup_first(ws)[j]).ssid@,
        forall|name: Seq<char>| #[trigger] has_ssid(ws, name) <==> has_ssid(dedup_first(ws), name),
        forall|i: int|
            0 <= i < dedup_first(ws).len() ==> exists|k: int|
                0 <= k < ws.len() && ws[k] == #[trigger] dedup_first(ws)[i] && !has_ssid(
                    ws.take(k),
                    ws[k].ssid@,
                ),
    decreases ws.len(),
{
    if ws.len() > 0 {
        let p = ws.drop_last();
        let d = dedup_first(p);
        lemma_dedup_first_wins(p);
        assert forall|name: Seq<char>| #[trigger] has_ssid(ws, name) <==> has_ssid(
            dedup_first(ws),
            name,
        ) by {
            if has_ssid(ws, name) {
                let j = choose|j: int| 0 <= j < ws.len() && (#[trigger] ws[j]).ssid@ == name;
                if j < ws.len() - 1 {
                    assert(p[j] == ws[j]);
                    assert(has_ssid(p, name));
                    let m = choose|m: int| 0 <= m < d.len() && (#[trigger] d[m]).ssid@ == name;
                    assert(dedup_first(ws)[m] == d[m]);
                } else if !has_ssid(d, name) {
                    assert(dedup_first(ws)[d.len() as int] == ws.last());
                }
            }
            if has_ssid(dedup_first(ws), name) {
                let m = choose|m: int|
                    0 <= m < dedup_first(ws).len() && (#[trigger] dedup_first(ws)[m]).ssid@
                        == name;
                if m < d.len() {
                    assert(dedup_first(ws)[m] == d[m]);
                    assert(has_ssid(d, name));
                    let j = choose|j: int| 0 <= j < p.len() && (#[trigger] p[j]).ssid@ == name;
                    assert(ws[j] == p[j]);
                } else {
                    assert(ws[ws.len() - 1] == ws.last());
                }
            }
        }
        assert forall|i: int|
            0 <= i < dedup_first(ws).len() implies exists|k: int|
                0 <= k < ws.len() && ws[k] == #[trigger] dedup_first(ws)[i] && !has_ssid(
                    ws.take(k),
                    ws[k].ssid@,
                ) by {
            if i < d.len() {
                assert(dedup_first(ws)[i] == d[i]);
                let k = choose|k: int|
                    0 <= k < p.len() && p[k] == #[trigger] d[i] && !has_ssid(p.take(k), p[k].ssid@);
                assert(ws.take(k) =~= p.take(k));
                assert(ws[k] == p[k]);
            } else {
                let k = ws.len() - 1;
                assert(ws.take(k) =~= p);
                assert(!has_ssid(d, ws.last().ssid@));
                assert(dedup_first(ws)[i] == ws.last());
            }
        }
    }
}

/// `ids` cut into consecutive batches of at most `size`, every batch but the
/// last holding exactly `size`.
pub fn chunk_ids(ids: &Vec<u64>, size: usize) -> (r: Vec<Vec<u64>>)
    requires
        size > 0,
    ensures
        r@.len() * size >= ids@.len(),
        r@.len() == 0 || (r@.len() - 1) * size < ids@.len(),
        forall|i: int| 0 <= i < r@.len() ==> (#[trigger] r@[i])@ == chunk_at(ids@, size as nat, i),
{
    let len = ids.len();
    let mut out: Vec<Vec<u64>> = Vec::new();
    let mut start: usize = 0;
    assert(0 * size == 0) by (nonlinear_arith);
    while start < len
        invariant
            start <= len == ids@.len(),
            size > 0,
            start < len ==> start == out@.len() * size,
            start == len ==> out@.len() * size >= len,
            out@.len() == 0 || (out@.len() - 1) * size < len,
            forall|i: int|
                0 <= i < out@.len() ==> (#[trigger] out@[i])@ == chunk_at(ids@, size as nat, i),
        decreases len - start,
    {
        let end = if len - start > size {
            start + size
        } else {
            len
        };
        let mut c: Vec<u64> = Vec::new();
        let mut j: usize = start;
        while j < end
            invariant
                start <= j <= end <= len == ids@.len(),
                c@ == ids@.subrange(start as int, j as int),
            decreases end - j,
        {
            c.push(ids[j]);
            j = j + 1;
            assert(c@ =~= ids@.subrange(start as int, j as int));
        }
        let ghost n = out@.len() as int;
        proof {
            assert((n + 1) * size == n * size + size) by (nonlinear_arith);
        }
        assert(c@ == chunk_at(ids@, size as nat, n));
        out.push(c);
        start = end;
    }
    out
}

/// The value of the device-ID parameter for `ids`: their decimal forms,
/// separated by commas.
pub fn device_ids_param(ids: &Vec<u64>) -> (r: String)
    ensures
        r@ == join_ids(ids@),
{
    let mut s = String::new();
    let mut i: usize = 0;
    while i < ids.len()
        invariant
            i <= ids@.len(),
            s@ == join_ids(ids@.take(i as int)),
        decreases ids@.len() - i,
    {
        proof {
            reveal_strlit(",");
        }
        assert(ids@.take(i + 1).drop_last() =~= ids@.take(i as int));
        if i > 0 {
            s.append(",");
        }
        push_decimal(&mut s, ids[i]);
        i = i + 1;
        assert(s@ =~= join_ids(ids@.take(i as int)));
    }
    assert(ids@.take(i as int) =~= ids@);
    s
}

/// The deduplicated networks of each device seen in radio-information
/// responses, by device ID.
pub struct SsidCollector {
    map: HashMap<u64, Vec<Wlan>>,
}

/// The mapping after absorbing `infos`, the response to a request for the
/// devices of `batch`, one device after another: a device of the batch gets
/// its deduplicated networks, replacing any earlier entry; a device outside
/// the batch is passed over.
pub open spec fn absorb(m: Map<u64, Seq<Wlan>>, batch: Seq<u64>, infos: Seq<RadioDeviceInfo>) -> Map<
    u64,
    Seq<Wlan>,
>
    decreases infos.len(),
{
    if infos.len() == 0 {
        m
    } else if batch.contains(infos.last().device_id) {
        absorb(m, batch, infos.drop_last()).insert(
            infos.last().device_id,
            dedup_first(radio_wlans(infos.last().radios@)),
        )
    } else {
        absorb(m, batch, infos.drop_last())
    }
}

/// Absorbing a response adds keys of the batch only.
pub proof fn lemma_absorb_keys(m: Map<u64, Seq<Wlan>>, batch: Seq<u64>, infos: Seq<RadioDeviceInfo>)
    ensures
        forall|k: u64|
            #[trigger] absorb(m, batch, infos).contains_key(k) ==> m.contains_key(k)
                || batch.contains(k),
    decreases infos.len(),
{
    if infos.len() > 0 {
        let p = infos.drop_last();
        lemma_absorb_keys(m, batch, p);
        assert forall|k: u64| #[trigger] absorb(m, batch, infos).contains_key(k) implies m.contains_key(
            k,
        ) || batch.contains(k) by {
            if k != infos.last().device_id || !batch.contains(k) {
                assert(absorb(m, batch, p).contains_key(k));
            }
        }
    }
}

/// Whether `id` is one of `ids`.
pub fn contains_id(ids: &Vec<u64>, id: u64) -> (r: bool)
    ensures
        r == ids@.contains(id),
{
    let mut i: usize = 0;
    while i < ids.len()
        invariant
            i <= ids@.len(),
            forall|j: int| 0 <= j < i ==> ids@[j] != id,
        decreases ids@.len() - i,
    {
        if ids[i] == id {
            return true;
        }
        i = i + 1;
    }
    false
}

impl View for SsidCollector {
    type V = Map<u64, Seq<Wlan>>;

    closed spec fn view(&self) -> Map<u64, Seq<Wlan>> {
        Map::new(|k: u64| self.map@.contains_key(k), |k: u64| self.map@[k]@)
    }
}

impl SsidCollector {
    /// A collector that has seen no device.
    pub fn new() -> (r: SsidCollector)
        ensures
            r@ == Map::<u64, Seq<Wlan>>::empty(),
    {
        let r = SsidCollector { map: HashMap::new() };
        assert(r@ =~= Map::<u64, Seq<Wlan>>::empty());
        r
    }

    /// Takes in the response to a radio-information request for the devices
    /// of `batch`: each device of the batch that it reports gets the first
    /// record of each of its network names; a device outside the batch is
    /// passed over, so every key is a device that was asked for.
    pub fn accept(&mut self, batch: &Vec<u64>, infos: Vec<RadioDeviceInfo>)
        ensures
            final(self)@ == absorb(old(self)@, batch@, infos@),
            forall|k: u64|
                #[trigger] final(self)@.contains_key(k) ==> old(self)@.contains_key(k)
                    || batch@.contains(k),
    {
        let ghost start = self@;
        let ghost all = infos@;
        let n = infos.len();
        let mut rest = infos;
        let mut i: usize = 0;
        while rest.len() > 0
            invariant
                i <= all.len(),
                n == all.len(),
                rest@ == all.skip(i as int),
                self@ == absorb(start, batch@, all.take(i as int)),
            decreases rest.len(),
        {
            let info = rest.remove(0);
            assert(all.take(i + 1).drop_last() =~= all.take(i as int));
            assert(rest@ =~= all.skip(i + 1));
            let id = info.device_id;
            if contains_id(batch, id) {
                let ws = dedup_wlans(info.radios);
                let ghost before = self@;
                let ghost wsv = ws@;
                self.map.insert(id, ws);
                assert(self@ =~= before.insert(id, wsv));
            }
            i = i + 1;
        }
        assert(all.take(i as int) =~= all);
        proof {
            lemma_absorb_keys(start, batch@, all);
        }
    }

    /// The deduplicated networks of device `id`, if any response reported it.
    pub fn get(&self, id: u64) -> (r: Option<&Vec<Wlan>>)
        ensures
            match r {
                Some(v) => self@.contains_key(id) && v@ == self@[id],
                None => !self@.contains_key(id),
            },
    {
        self.map.get(&id)
    }

    /// The number of devices reported.
    pub fn len(&self) -> (r: usize)
        ensures
            r == self@.dom().len(),
    {
        proof {
            assert(self@.dom() =~= self.map@.dom());
        }
        self.map.len()
    }
}

} // verus!
