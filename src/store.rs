//! The store writer: the commands that mirror each access point into the
//! key-value store, and a model of the store that says what they do.
use vstd::prelude::*;
use crate::decimal::{dec, is_digit, lemma_dec_digits, lemma_dec_injective, push_decimal};
use crate::inventory::Device;
use crate::policy::SyncPolicy;
use crate::radio::{ssid_names, SsidCollector, Wlan};

verus! {

/// One command to the key-value store.
#[derive(Debug, Clone)]
pub enum StoreCommand {
    /// Store `value` under `key`, replacing whatever was there.
    Put { key: String, value: String },
    /// Remove `key`.
    Delete { key: String },
    /// Append `values` to the list under `key`, creating it if absent.
    PushAll { key: String, values: Vec<String> },
    /// Let `key` expire `secs` seconds from now.
    Expire { key: String, secs: u64 },
}

/// A store command over plain text.
pub enum Cmd {
    Put(Seq<char>, Seq<char>),
    Delete(Seq<char>),
    PushAll(Seq<char>, Seq<Seq<char>>),
    Expire(Seq<char>, nat),
}

/// The texts of a list of strings.
pub open spec fn texts(v: Seq<String>) -> Seq<Seq<char>> {
    v.map_values(|s: String| s@)
}

impl View for StoreCommand {
    type V = Cmd;

    open spec fn view(&self) -> Cmd {
        match self {
            StoreCommand::Put { key, value } => Cmd::Put(key@, value@),
            StoreCommand::Delete { key } => Cmd::Delete(key@),
            StoreCommand::PushAll { key, values } => Cmd::PushAll(key@, texts(values@)),
            StoreCommand::Expire { key, secs } => Cmd::Expire(key@, *secs as nat),
        }
    }
}

/// The commands of a sequence, over plain text.
pub open spec fn cmds_view(cs: Seq<StoreCommand>) -> Seq<Cmd> {
    cs.map_values(|c: StoreCommand| c@)
}

/// A value held in the store.
pub enum StoredValue {
    Text(Seq<char>),
    List(Seq<Seq<char>>),
}

/// A key's value and its expiry, if one is set.
pub struct Entry {
    pub value: StoredValue,
    pub ttl: Option<nat>,
}

/// The store after one command. Storing text clears an expiry; appending to
/// a key that holds text changes nothing (the store refuses it); setting an
/// expiry on an absent key changes nothing.
pub open spec fn apply_cmd(s: Map<Seq<char>, Entry>, c: Cmd) -> Map<Seq<char>, Entry> {
    match c {
        Cmd::Put(k, v) => s.insert(k, Entry { value: StoredValue::Text(v), ttl: None }),
        Cmd::Delete(k) => s.remove(k),
        Cmd::PushAll(k, xs) => if !s.contains_key(k) {
            s.insert(k, Entry { value: StoredValue::List(xs), ttl: None })
        } else {
            match s[k].value {
                StoredValue::List(ys) => s.insert(
                    k,
                    Entry { value: StoredValue::List(ys + xs), ttl: s[k].ttl },
                ),
                StoredValue::Text(_) => s,
            }
        },
        Cmd::Expire(k, t) => if s.contains_key(k) {
            s.insert(k, Entry { value: s[k].value, ttl: Some(t) })
        } else {
            s
        },
    }
}

/// The store after the commands `cs`, in order.
pub open spec fn run(s: Map<Seq<char>, Entry>, cs: Seq<Cmd>) -> Map<Seq<char>, Entry>
    decreases cs.len(),
{
    if cs.len() == 0 {
        s
    } else {
        apply_cmd(run(s, cs.drop_last()), cs.last())
    }
}

/// The key of a device's record: `ap:` and its decimal ID.
pub open spec fn record_key_spec(id: u64) -> Seq<char> {
    seq!['a', 'p', ':'] + dec(id as nat)
}

/// The key of a device's list of network names: its record key and `:ssids`.
pub open spec fn ssid_key_spec(id: u64) -> Seq<char> {
    record_key_spec(id) + seq![':', 's', 's', 'i', 'd', 's']
}

/// What is written for one device: its ID, its serialized record, and its
/// network names.
pub struct DeviceWrite {
    pub id: u64,
    pub record: Seq<char>,
    pub names: Seq<Seq<char>>,
}

/// The commands for one device: store its record, remove its old list of
/// names, store the new list when it is not empty, and set the record's
/// expiry.
pub open spec fn device_plan(w: DeviceWrite, ttl: nat) -> Seq<Cmd> {
    let rk = record_key_spec(w.id);
    let lk = ssid_key_spec(w.id);
    let head = seq![Cmd::Put(rk, w.record), Cmd::Delete(lk)];
    let body = if w.names.len() > 0 {
        head.push(Cmd::PushAll(lk, w.names))
    } else {
        head
    };
    body.push(Cmd::Expire(rk, ttl))
}

/// The commands for each device of `ws`, device after device.
pub open spec fn full_plan(ws: Seq<DeviceWrite>, ttl: nat) -> Seq<Cmd>
    decreases ws.len(),
{
    if ws.len() == 0 {
        Seq::empty()
    } else {
        full_plan(ws.drop_last(), ttl) + device_plan(ws.last(), ttl)
    }
}

/// The names of the networks known for `id` in `m`; none if it is absent.
pub open spec fn names_for(m: Map<u64, Seq<Wlan>>, id: u64) -> Seq<Seq<char>> {
    if m.contains_key(id) {
        ssid_names(m[id])
    } else {
        Seq::empty()
    }
}

/// What is written for each access point of `aps`, given its serialized
/// record in `records` and the networks known by device ID in `m`.
pub open spec fn writes_of(aps: Seq<Device>, records: Seq<String>, m: Map<u64, Seq<Wlan>>) -> Seq<
    DeviceWrite,
> {
    Seq::new(
        aps.len(),
        |i: int| DeviceWrite { id: aps[i].id, record: records[i]@, names: names_for(m, aps[i].id) },
    )
}

/// The key of device `id`'s record.
pub fn record_key(id: u64) -> (r: String)
    ensures
        r@ == record_key_spec(id),
{
    proof {
        reveal_strlit("ap:");
    }
    let mut s = String::from_str("ap:");
    push_decimal(&mut s, id);
    s
}

/// The key of device `id`'s list of network names.
pub fn ssid_key(id: u64) -> (r: String)
    ensures
        r@ == ssid_key_spec(id),
{
    proof {
        reveal_strlit(":ssids");
    }
    let mut s = record_key(id);
    s.append(":ssids");
    s
}

/// The network names of `ws`, in order.
pub fn names_of(ws: &Vec<Wlan>) -> (r: Vec<String>)
    ensures
        texts(r@) == ssid_names(ws@),
{
    let mut out: Vec<String> = Vec::new();
    let mut i: usize = 0;
    while i < ws.len()
        invariant
            i <= ws@.len(),
            out@.len() == i,
            texts(out@) =~= ssid_names(ws@.take(i as int)),
        decreases ws@.len() - i,
    {
        let name = ws[i].ssid.clone();
        assert(name@ == ws@[i as int].ssid@);
        let ghost prev = out@;
        out.push(name);
        assert forall|j: int| 0 <= j <= i implies #[trigger] texts(out@)[j] == ssid_names(
            ws@.take(i + 1),
        )[j] by {
            if j < i {
                assert(out@[j] == prev[j]);
                assert(texts(prev)[j] == ssid_names(ws@.take(i as int))[j]);
            }
        }
        i = i + 1;
        assert(texts(out@) =~= ssid_names(ws@.take(i as int)));
    }
    assert(ws@.take(i as int) =~= ws@);
    out
}

/// The commands for device `id` with serialized record `record` and the
/// networks `ssids` known for it, if any.
pub fn device_commands(id: u64, record: String, ssids: Option<&Vec<Wlan>>, ttl_secs: u64) -> (r: Vec<
    StoreCommand,
>)
    ensures
        cmds_view(r@) == device_plan(
            DeviceWrite {
                id,
                record: record@,
                names: match ssids {
                    Some(v) => ssid_names(v@),
                    None => Seq::empty(),
                },
            },
            ttl_secs as nat,
        ),
{
    let ghost rec = record@;
    let names: Vec<String> = match ssids {
        Some(v) => names_of(v),
        None => Vec::new(),
    };
    let mut out: Vec<StoreCommand> = Vec::new();
    out.push(StoreCommand::Put { key: record_key(id), value: record });
    out.push(StoreCommand::Delete { key: ssid_key(id) });
    if names.len() > 0 {
        out.push(StoreCommand::PushAll { key: ssid_key(id), values: names });
    }
    out.push(StoreCommand::Expire { key: record_key(id), secs: ttl_secs });
    assert(texts(Seq::<String>::empty()) =~= Seq::<Seq<char>>::empty());
    assert(cmds_view(out@) =~= device_plan(
        DeviceWrite {
            id,
            record: rec,
            names: match ssids {
                Some(v) => ssid_names(v@),
                None => Seq::empty(),
            },
        },
        ttl_secs as nat,
    ));
    out
}

/// The commands that mirror every access point of `aps` into the store,
/// device after device; `records` holds each one's serialized record.
pub fn store_plan(
    aps: &Vec<Device>,
    records: Vec<String>,
    ssids: &SsidCollector,
    policy: &SyncPolicy,
) -> (r: Vec<StoreCommand>)
    requires
        records@.len() == aps@.len(),
    ensures
        cmds_view(r@) == full_plan(
            writes_of(aps@, records@, ssids@),
            policy.record_ttl_secs as nat,
        ),
{
    let ghost recs = records@;
    let ghost ws = writes_of(aps@, recs, ssids@);
    let ghost ttl = policy.record_ttl_secs as nat;
    let mut rest = records;
    let mut out: Vec<StoreCommand> = Vec::new();
    let mut i: usize = 0;
    while i < aps.len()
        invariant
            i <= aps@.len() == recs.len(),
            rest@ == recs.skip(i as int),
            ws == writes_of(aps@, recs, ssids@),
            ttl == policy.record_ttl_secs as nat,
            cmds_view(out@) == full_plan(ws.take(i as int), ttl),
        decreases aps@.len() - i,
    {
        let record = rest.remove(0);
        assert(rest@ =~= recs.skip(i + 1));
        let id = aps[i].id;
        let mut cmds = device_commands(id, record, ssids.get(id), policy.record_ttl_secs);
        let ghost before = out@;
        let ghost added = cmds@;
        out.append(&mut cmds);
        assert(ws.take(i + 1).drop_last() =~= ws.take(i as int));
        assert(ws[i as int].names == names_for(ssids@, id));
        assert(cmds_view(out@) =~= cmds_view(before) + cmds_view(added));
        i = i + 1;
    }
    assert(ws.take(i as int) =~= ws);
    out
}

/// A change to some keys of the store: a new entry, or removal (`None`).
pub open spec fn apply_patch(p: Map<Seq<char>, Option<Entry>>, s: Map<Seq<char>, Entry>) -> Map<
    Seq<char>,
    Entry,
> {
    Map::new(
        |k: Seq<char>|
            if p.contains_key(k) {
                p[k] is Some
            } else {
                s.contains_key(k)
            },
        |k: Seq<char>|
            if p.contains_key(k) {
                p[k]->Some_0
            } else {
                s[k]
            },
    )
}

/// The change that one device's commands make.
pub open spec fn device_patch(w: DeviceWrite, ttl: nat) -> Map<Seq<char>, Option<Entry>> {
    map![
        record_key_spec(w.id) => Some(Entry { value: StoredValue::Text(w.record), ttl: Some(ttl) }),
        ssid_key_spec(w.id) => if w.names.len() > 0 {
            Some(Entry { value: StoredValue::List(w.names), ttl: None })
        } else {
            None
        },
    ]
}

/// The change that the commands for all of `ws` make.
pub open spec fn plan_patch(ws: Seq<DeviceWrite>, ttl: nat) -> Map<Seq<char>, Option<Entry>>
    decreases ws.len(),
{
    if ws.len() == 0 {
        Map::empty()
    } else {
        plan_patch(ws.drop_last(), ttl).union_prefer_right(device_patch(ws.last(), ttl))
    }
}

proof fn lemma_run_concat(s: Map<Seq<char>, Entry>, a: Seq<Cmd>, b: Seq<Cmd>)
    ensures
        run(s, a + b) == run(run(s, a), b),
    decreases b.len(),
{
    if b.len() == 0 {
        assert(a + b =~= a);
    } else {
        lemma_run_concat(s, a, b.drop_last());
        assert((a + b).drop_last() =~= a + b.drop_last());
        assert((a + b).last() == b.last());
    }
}

/// The commands for one device overwrite its record with an expiry, remove
/// its list of names, and recreate that list only when it has names; no
/// other key changes, whatever the store held before.
pub proof fn lemma_device_write(s: Map<Seq<char>, Entry>, w: DeviceWrite, ttl: nat)
    ensures
        run(s, device_plan(w, ttl)) == apply_patch(device_patch(w, ttl), s),
        run(s, device_plan(w, ttl))[record_key_spec(w.id)] == (Entry {
            value: StoredValue::Text(w.record),
            ttl: Some(ttl),
        }),
        w.names.len() == 0 ==> !run(s, device_plan(w, ttl)).contains_key(ssid_key_spec(w.id)),
        w.names.len() > 0 ==> run(s, device_plan(w, ttl))[ssid_key_spec(w.id)] == (Entry {
            value: StoredValue::List(w.names),
            ttl: None,
        }),
        forall|k: Seq<char>|
            k != record_key_spec(w.id) && k != ssid_key_spec(w.id) ==> (#[trigger] run(
                s,
                device_plan(w, ttl),
            ).contains_key(k) == s.contains_key(k) && run(s, device_plan(w, ttl))[k] == s[k]),
{
    let rk = record_key_spec(w.id);
    let lk = ssid_key_spec(w.id);
    assert(rk.len() != lk.len());
    let head = seq![Cmd::Put(rk, w.record), Cmd::Delete(lk)];
    let plan = device_plan(w, ttl);
    assert(head.drop_last() =~= seq![Cmd::Put(rk, w.record)]);
    assert(seq![Cmd::Put(rk, w.record)].drop_last() =~= Seq::<Cmd>::empty());
    let s1 = s.insert(rk, Entry { value: StoredValue::Text(w.record), ttl: None });
    let s2 = s1.remove(lk);
    assert(run(s, Seq::<Cmd>::empty()) == s);
    assert(run(s, seq![Cmd::Put(rk, w.record)]) == s1);
    assert(run(s, head) == s2);
    let body = if w.names.len() > 0 {
        head.push(Cmd::PushAll(lk, w.names))
    } else {
        head
    };
    assert(plan.drop_last() =~= body);
    if w.names.len() > 0 {
        assert(body.drop_last() =~= head);
        assert(run(s, body) == s2.insert(lk, Entry { value: StoredValue::List(w.names), ttl: None }));
    }
    assert(run(s, plan) =~= apply_patch(device_patch(w, ttl), s));
}

/// The commands for all of `ws` make the change `plan_patch(ws)`.
proof fn lemma_plan_is_patch(s: Map<Seq<char>, Entry>, ws: Seq<DeviceWrite>, ttl: nat)
    ensures
        run(s, full_plan(ws, ttl)) == apply_patch(plan_patch(ws, ttl), s),
    decreases ws.len(),
{
    if ws.len() == 0 {
        assert(apply_patch(Map::empty(), s) =~= s);
    } else {
        let p = ws.drop_last();
        lemma_plan_is_patch(s, p, ttl);
        lemma_run_concat(s, full_plan(p, ttl), device_plan(ws.last(), ttl));
        lemma_device_write(run(s, full_plan(p, ttl)), ws.last(), ttl);
        assert(apply_patch(device_patch(ws.last(), ttl), apply_patch(plan_patch(p, ttl), s))
            =~= apply_patch(plan_patch(ws, ttl), s));
    }
}

/// Writing the same devices twice leaves the store as writing them once:
/// same records, same lists of names, same expiries.
pub proof fn lemma_store_idempotent(s: Map<Seq<char>, Entry>, ws: Seq<DeviceWrite>, ttl: nat)
    ensures
        run(run(s, full_plan(ws, ttl)), full_plan(ws, ttl)) == run(s, full_plan(ws, ttl)),
{
    let once = run(s, full_plan(ws, ttl));
    lemma_plan_is_patch(s, ws, ttl);
    lemma_plan_is_patch(once, ws, ttl);
    assert(apply_patch(plan_patch(ws, ttl), once) =~= once);
}

/// Store keys of different devices never meet: no record key is a list
/// key, and two devices share a list key only when they share an ID.
pub proof fn lemma_keys_distinct(x: u64, y: u64)
    ensures
        record_key_spec(x) != ssid_key_spec(y),
        ssid_key_spec(x) == ssid_key_spec(y) ==> x == y,
{
    lemma_dec_digits(x as nat);
    lemma_dec_digits(y as nat);
    let dx = dec(x as nat);
    let dy = dec(y as nat);
    if record_key_spec(x) == ssid_key_spec(y) {
        let at: int = 3 + dy.len() as int;
        assert(ssid_key_spec(y)[at] == ':');
        assert(record_key_spec(x)[at] == dx[dy.len() as int]);
        assert(is_digit(dx[dy.len() as int]));
    }
    if ssid_key_spec(x) == ssid_key_spec(y) {
        assert(ssid_key_spec(x).len() == dx.len() + 9);
        assert(ssid_key_spec(y).len() == dy.len() + 9);
        assert(dx.len() == dy.len());
        assert(dx =~= ssid_key_spec(x).subrange(3, 3 + dx.len() as int));
        assert(dy =~= ssid_key_spec(y).subrange(3, 3 + dy.len() as int));
        lemma_dec_injective(x as nat, y as nat);
    }
}

proof fn lemma_patch_removes_list(ws: Seq<DeviceWrite>, ttl: nat, i: int)
    requires
        0 <= i < ws.len(),
        ws[i].names.len() == 0,
        forall|j: int| i < j < ws.len() ==> (#[trigger] ws[j]).id != ws[i].id,
    ensures
        plan_patch(ws, ttl).contains_key(ssid_key_spec(ws[i].id)),
        plan_patch(ws, ttl)[ssid_key_spec(ws[i].id)] is None,
    decreases ws.len(),
{
    let lk = ssid_key_spec(ws[i].id);
    let last = ws.last();
    if i < ws.len() - 1 {
        let p = ws.drop_last();
        assert(p[i] == ws[i]);
        assert forall|j: int| i < j < p.len() implies (#[trigger] p[j]).id != p[i].id by {
            assert(p[j] == ws[j]);
        }
        lemma_patch_removes_list(p, ttl, i);
        assert(last.id != ws[i].id);
        lemma_keys_distinct(last.id, ws[i].id);
        assert(!device_patch(last, ttl).contains_key(lk));
    } else {
        assert(device_patch(last, ttl).contains_key(lk));
    }
}

/// A device whose last write in a plan has no network names ends without a
/// list of names in the store, whatever the store held before and whatever
/// the other devices of the plan write: an existing list is removed and not
/// recreated.
pub proof fn lemma_absent_ssids_over_plan(
    s: Map<Seq<char>, Entry>,
    ws: Seq<DeviceWrite>,
    ttl: nat,
    i: int,
)
    requires
        0 <= i < ws.len(),
        ws[i].names.len() == 0,
        forall|j: int| i < j < ws.len() ==> (#[trigger] ws[j]).id != ws[i].id,
    ensures
        !run(s, full_plan(ws, ttl)).contains_key(ssid_key_spec(ws[i].id)),
{
    lemma_plan_is_patch(s, ws, ttl);
    lemma_patch_removes_list(ws, ttl, i);
}

} // verus!
