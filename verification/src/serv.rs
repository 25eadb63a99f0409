//! The server: clients, their environments, and the pool of resources.
//!
//! The server's state is kept here; the operations that touch the disk or
//! the clock are split so that the decisions stand here and the caller
//! performs the outside work between them.
use vstd::prelude::*;
use crate::env::{
    Env, Resource, Vm, MIN_START_STOP_ITV, hardware_change_fits, hardware_updated, infos_of, fresh_pool, life_verdict, same_but_vms, start_fits,
    started_pool, stop_fits, stopped_pool, vms_during_stop,
};
use crate::error::CoreError;
use crate::table::{
    Table, has_key, pos_of, lemma_pos_of, lemma_remove_insert, unique_keys, without_keys, lookup,
    lemma_lookup_none, law_without_keys_lookup,
};
use crate::text::push_str;
use crate::types::{CliId, CliIdRef, EnvId, EnvIdRef, EnvInfo, EnvMeta, PubPort, VmId};

verus! {

/// The environments of one client.
pub type EnvTable = Table<EnvId, Env>;

/// The clients and their environments, seen as nested sequences of entries.
pub type Clients = Seq<(Seq<char>, Seq<(Seq<char>, Env)>)>;

/// Where the configuration of environments is stored.
#[derive(Debug)]
pub struct CfgDB {
    path: String,
}

impl CfgDB {
    /// A store rooted at the directory `path`.
    pub fn new(path: &str) -> (db: CfgDB)
        ensures
            db.path() == path@,
    {
        CfgDB { path: path.to_owned() }
    }

    /// The directory of the store.
    pub closed spec fn path(&self) -> Seq<char> {
        self.path@
    }

    /// The directory of the store.
    pub fn dir(&self) -> (s: &str)
        ensures
            s@ == self.path(),
    {
        self.path.as_str()
    }
}

/// Where one environment's configuration is written: the file `file_name`
/// in the directory `dir_name` under `root`.
pub struct CfgLocation {
    pub root: String,
    pub dir_name: String,
    pub file_name: String,
}

/// The standard base64 encoding, with padding, of the UTF-8 bytes of a text.
pub uninterp spec fn base64_of(s: Seq<char>) -> Seq<char>;

/// `base64::encode` of the UTF-8 bytes of `s`; its result is named `base64_of`.
#[verifier::external_body]
fn base64_encode(s: &str) -> (r: String)
    ensures
        r@ == base64_of(s@),
{
    base64::encode(s)
}

impl CfgDB {
    /// Where the configuration of `env` is written for client `cli_id`:
    /// a directory named by the base64 encoding of the client id, and a
    /// file named by the environment id and `.json`.
    pub fn location(&self, cli_id: &CliIdRef, env: &Env) -> (l: CfgLocation)
        ensures
            l.root@ == self.path(),
            l.dir_name@ == base64_of(cli_id@),
            l.file_name@ == env.id@ + ".json"@,
    {
        let mut file_name = env.id.clone();
        push_str(&mut file_name, ".json");
        CfgLocation { root: self.path.clone(), dir_name: base64_encode(cli_id), file_name }
    }
}

/// The server.
pub struct Serv {
    cli: Table<CliId, EnvTable>,
    env_id_inuse: Table<EnvId, ()>,
    vm_id_inuse: Table<VmId, ()>,
    pub_port_inuse: Table<PubPort, ()>,
    resource: Resource,
    pub cfg_db: CfgDB,
}

/// The nested view of a table of clients.
pub open spec fn nested(cli: Seq<(Seq<char>, EnvTable)>) -> Clients {
    cli.map_values(|c: (Seq<char>, EnvTable)| (c.0, c.1@))
}

/// The nested view has the same keys, at the same positions.
pub proof fn lemma_nested_keys(cli: Seq<(Seq<char>, EnvTable)>)
    ensures
        nested(cli).len() == cli.len(),
        forall|i: int| 0 <= i < cli.len() ==> (#[trigger] nested(cli)[i]).0 == cli[i].0,
        forall|i: int| 0 <= i < cli.len() ==> (#[trigger] nested(cli)[i]).1 == cli[i].1@,
        forall|k: Seq<char>| #[trigger] has_key(nested(cli), k) <==> has_key(cli, k),
        unique_keys(cli) ==> unique_keys(nested(cli)),
        forall|k: Seq<char>| #[trigger] pos_of(nested(cli), k) == pos_of(cli, k) || !has_key(cli, k)
            || !unique_keys(cli),
{
    let n = nested(cli);
    assert forall|k: Seq<char>| #[trigger] has_key(n, k) <==> has_key(cli, k) by {
        if has_key(n, k) {
            let i = choose|i: int| 0 <= i < n.len() && #[trigger] n[i].0 == k;
            assert(cli[i].0 == k);
        }
        if has_key(cli, k) {
            let i = choose|i: int| 0 <= i < cli.len() && #[trigger] cli[i].0 == k;
            assert(n[i].0 == k);
        }
    }
    if unique_keys(cli) {
        assert(unique_keys(n)) by {
            assert forall|i: int, j: int| 0 <= i < j < n.len() implies #[trigger] n[i].0
                != #[trigger] n[j].0 by {
                assert(n[i].0 == cli[i].0 && n[j].0 == cli[j].0);
            }
        }
        assert forall|k: Seq<char>| #[trigger] pos_of(n, k) == pos_of(cli, k) || !has_key(cli, k) by {
            if has_key(cli, k) {
                let i = choose|i: int| 0 <= i < cli.len() && #[trigger] cli[i].0 == k;
                lemma_pos_of(cli, i);
                assert(n[i].0 == k);
                lemma_pos_of(n, i);
            }
        }
    }
}

/// Replacing the value of one environment in place is an `env_replaced` step.
pub proof fn lemma_env_replaced(
    before: Seq<(Seq<char>, EnvTable)>,
    after: Seq<(Seq<char>, EnvTable)>,
    ci: int,
    ei: int,
    t: EnvTable,
    new_env: Env,
    p: spec_fn(Env, Env) -> bool,
)
    requires
        unique_keys(before),
        0 <= ci < before.len(),
        unique_keys(before[ci].1@),
        0 <= ei < before[ci].1@.len(),
        t@ == before[ci].1@.update(ei, (before[ci].1@[ei].0, new_env)),
        after == before.update(ci, (before[ci].0, t)),
        p(before[ci].1@[ei].1, new_env),
    ensures
        env_replaced(nested(before), nested(after), before[ci].0, before[ci].1@[ei].0, p),
        has_env(nested(before), before[ci].0, before[ci].1@[ei].0),
{
    lemma_nested_keys(before);
    lemma_nested_keys(after);
    lemma_pos_of(before, ci);
    lemma_pos_of(before[ci].1@, ei);
    let nb = nested(before);
    assert(nb[ci].1 == before[ci].1@);
    assert(pos_of(nb, before[ci].0) == ci);
    assert(has_key(nb, before[ci].0));
    assert(has_key(before[ci].1@, before[ci].1@[ei].0));
}

/// The environments of client `c`, if it is known.
pub open spec fn envs_of(cs: Clients, c: Seq<char>) -> Option<Seq<(Seq<char>, Env)>> {
    if has_key(cs, c) {
        Some(cs[pos_of(cs, c)].1)
    } else {
        None
    }
}

/// Client `c` is known and has environment `e`.
pub open spec fn has_env(cs: Clients, c: Seq<char>, e: Seq<char>) -> bool {
    has_key(cs, c) && has_key(cs[pos_of(cs, c)].1, e)
}

/// The environment `e` of client `c` (meaningful when `has_env`).
pub open spec fn env_of(cs: Clients, c: Seq<char>, e: Seq<char>) -> Env {
    let envs = cs[pos_of(cs, c)].1;
    envs[pos_of(envs, e)].1
}

/// `after` is `before` with the environment `e` of client `c` replaced by
/// one that satisfies `p` together with the old one; nothing else changes.
pub open spec fn env_replaced(
    before: Clients,
    after: Clients,
    c: Seq<char>,
    e: Seq<char>,
    p: spec_fn(Env, Env) -> bool,
) -> bool {
    let ci = pos_of(before, c);
    let envs = before[ci].1;
    let ei = pos_of(envs, e);
    &&& after.len() == before.len()
    &&& forall|i: int| 0 <= i < before.len() && i != ci ==> #[trigger] after[i] == before[i]
    &&& after[ci].0 == c
    &&& after[ci].1.len() == envs.len()
    &&& forall|j: int| 0 <= j < envs.len() && j != ei ==> #[trigger] after[ci].1[j] == envs[j]
    &&& after[ci].1[ei].0 == e
    &&& p(envs[ei].1, after[ci].1[ei].1)
}

/// The keys of every level are unique.
pub open spec fn clients_unique(cs: Clients) -> bool {
    &&& unique_keys(cs)
    &&& forall|i: int| 0 <= i < cs.len() ==> unique_keys(#[trigger] cs[i].1)
}

/// `after` is `before` with every machine marked as having its image
/// cached (or not), and nothing else changed.
pub open spec fn all_cached(before: Env, after: Env) -> bool {
    cached_as(before, after, true)
}

/// `after` is `before` with every machine's image marked `cached`.
pub open spec fn cached_as(before: Env, after: Env, cached: bool) -> bool {
    &&& same_but_vms(after, before)
    &&& after.vm@.len() == before.vm@.len()
    &&& forall|i: int|
        0 <= i < before.vm@.len() ==> (#[trigger] after.vm@[i]).0 == before.vm@[i].0 && after.vm@[i].1
            == (Vm { image_cached: cached, ..before.vm@[i].1 })
}

/// `after` is `before` owned by client `c`.
pub open spec fn owned_by(before: Env, after: Env, c: Seq<char>) -> bool {
    &&& after.cli_belong_to matches Some(o) && o@ == c
    &&& after.id == before.id
    &&& after.start_timestamp == before.start_timestamp
    &&& after.end_timestamp == before.end_timestamp
    &&& after.is_stopped == before.is_stopped
    &&& after.outgoing_denied == before.outgoing_denied
    &&& after.last_mgmt_ts == before.last_mgmt_ts
    &&& after.vm == before.vm
}

/// Marks every machine of `env` as having its image cached, or not.
pub fn mark_cached(env: &mut Env, cached: bool)
    ensures
        cached_as(*old(env), *final(env), cached),
{
    let n = env.vm.len();
    let ghost vms = env.vm@;
    let mut i: usize = 0;
    while i < n
        invariant
            n == vms.len(),
            i <= n,
            env.vm@.len() == n,
            same_but_vms(*env, *old(env)),
            vms == old(env).vm@,
            forall|j: int|
                0 <= j < i ==> #[trigger] env.vm@[j] == (vms[j].0, Vm { image_cached: cached, ..vms[j].1 }),
            forall|j: int| i <= j < n ==> #[trigger] env.vm@[j] == vms[j],
        decreases n - i,
    {
        env.vm.lemma_unique();
        let ghost before = env.vm@;
        let (k, mut vm) = env.vm.remove_at(i);
        vm.image_cached = cached;
        proof {
            lemma_remove_insert(before, i as int, vm);
        }
        env.vm.insert_at(i, k, vm);
        i = i + 1;
    }
}

/// An environment may not be started or stopped again within
/// [`MIN_START_STOP_ITV`] seconds of its last start or stop.
pub open spec fn too_soon(last_mgmt_ts: u64, now: u64) -> bool {
    last_mgmt_ts + MIN_START_STOP_ITV > now
}

/// `after` is `before` started at `now`.
pub open spec fn env_started(before: Env, after: Env, now: u64) -> bool {
    &&& after.vm@ == vms_during_stop(before.vm@, false)
    &&& after.is_stopped == false
    &&& after.last_mgmt_ts == now
    &&& after.id == before.id
    &&& after.start_timestamp == before.start_timestamp
    &&& after.end_timestamp == before.end_timestamp
    &&& after.outgoing_denied == before.outgoing_denied
    &&& after.cli_belong_to == before.cli_belong_to
}

/// `after` is `before` stopped at `now`.
pub open spec fn env_stopped(before: Env, after: Env, now: u64) -> bool {
    &&& after.vm@ == vms_during_stop(before.vm@, true)
    &&& after.is_stopped == true
    &&& after.last_mgmt_ts == now
    &&& after.id == before.id
    &&& after.start_timestamp == before.start_timestamp
    &&& after.end_timestamp == before.end_timestamp
    &&& after.outgoing_denied == before.outgoing_denied
    &&& after.cli_belong_to == before.cli_belong_to
}

/// `after` is `before` with its end moved to `end`.
pub open spec fn env_life_set(before: Env, after: Env, end: u64) -> bool {
    &&& after.end_timestamp == end
    &&& after.vm == before.vm
    &&& after.id == before.id
    &&& after.start_timestamp == before.start_timestamp
    &&& after.is_stopped == before.is_stopped
    &&& after.outgoing_denied == before.outgoing_denied
    &&& after.last_mgmt_ts == before.last_mgmt_ts
    &&& after.cli_belong_to == before.cli_belong_to
}

/// `after` is `before` without the machines whose ids are in `ids`.
pub open spec fn env_vms_removed(before: Env, after: Env, ids: Seq<VmId>) -> bool {
    &&& after.vm@ == without_keys(before.vm@, ids)
    &&& same_but_vms(after, before)
}

/// The environments that are still alive at `ts`: those whose end is not before it.
pub open spec fn alive_at(envs: Seq<(Seq<char>, Env)>, ts: u64) -> Seq<(Seq<char>, Env)>
    decreases envs.len(),
{
    if envs.len() == 0 {
        envs
    } else if envs.last().1.end_timestamp < ts {
        alive_at(envs.drop_last(), ts)
    } else {
        alive_at(envs.drop_last(), ts).push(envs.last())
    }
}

/// Every client keeps only its environments that are alive at `ts`.
pub open spec fn cleaned_at(cs: Clients, ts: u64) -> Clients {
    cs.map_values(|c: (Seq<char>, Seq<(Seq<char>, Env)>)| (c.0, alive_at(c.1, ts)))
}

/// A kept environment was there before.
pub proof fn lemma_alive_keys(envs: Seq<(Seq<char>, Env)>, ts: u64, k: Seq<char>)
    ensures
        has_key(alive_at(envs, ts), k) ==> has_key(envs, k),
    decreases envs.len(),
{
    if envs.len() > 0 {
        lemma_alive_keys(envs.drop_last(), ts, k);
        let a = alive_at(envs.drop_last(), ts);
        if has_key(alive_at(envs, ts), k) {
            if envs.last().1.end_timestamp >= ts && envs.last().0 == k {
                assert(envs[envs.len() - 1].0 == k);
            } else {
                if envs.last().1.end_timestamp >= ts {
                    let i = choose|i: int| 0 <= i < a.push(envs.last()).len() && #[trigger] a.push(
                        envs.last(),
                    )[i].0 == k;
                    assert(a[i].0 == k);
                }
                assert(has_key(a, k));
                let i = choose|i: int| 0 <= i < envs.drop_last().len() && #[trigger] envs.drop_last()[i].0 == k;
                assert(envs[i].0 == k);
            }
        }
    }
}

/// `m` describes environment `e`.
pub open spec fn is_meta_of(m: EnvMeta, e: Env) -> bool {
    &&& m.id@ == e.id@
    &&& m.start_timestamp == e.start_timestamp
    &&& m.end_timestamp == e.end_timestamp
    &&& m.vm_cnt == e.vm@.len()
    &&& m.is_stopped == e.is_stopped
}

/// `ms` describes the environments `es`, one after another.
pub open spec fn metas_of(ms: Seq<EnvMeta>, es: Seq<(Seq<char>, Env)>) -> bool {
    &&& ms.len() == es.len()
    &&& forall|i: int| 0 <= i < ms.len() ==> is_meta_of(#[trigger] ms[i], es[i].1)
}

/// `info` describes environment `e`.
pub open spec fn is_env_info_of(info: EnvInfo, e: Env) -> bool {
    &&& info.id@ == e.id@
    &&& info.start_timestamp == e.start_timestamp
    &&& info.end_timestamp == e.end_timestamp
    &&& info.is_stopped == e.is_stopped
    &&& infos_of(info.vm@, e.vm@)
}

/// `infos` describes the environments `es`, one after another.
pub open spec fn env_infos_of(infos: Seq<EnvInfo>, es: Seq<(Seq<char>, Env)>) -> bool {
    &&& infos.len() == es.len()
    &&& forall|i: int| 0 <= i < infos.len() ==> is_env_info_of(#[trigger] infos[i], es[i].1)
}

/// The environments of all clients, client after client.
pub open spec fn all_envs(cs: Clients) -> Seq<(Seq<char>, Env)>
    decreases cs.len(),
{
    if cs.len() == 0 {
        Seq::empty()
    } else {
        all_envs(cs.drop_last()) + cs.last().1
    }
}

/// The environments whose id is among `ids`, in order.
pub open spec fn selected(es: Seq<(Seq<char>, Env)>, ids: Seq<Seq<char>>) -> Seq<(Seq<char>, Env)>
    decreases es.len(),
{
    if es.len() == 0 {
        es
    } else if ids.contains(es.last().1.id@) {
        selected(es.drop_last(), ids).push(es.last())
    } else {
        selected(es.drop_last(), ids)
    }
}

/// Forgetting a client that was just added gives back the clients as they were.
pub proof fn law_del_client_undoes_add_client(cs: Clients, id: Seq<char>)
    requires
        unique_keys(cs),
        !has_key(cs, id),
    ensures
        ({
            let added = cs.push((id, Seq::<(Seq<char>, Env)>::empty()));
            &&& has_key(added, id)
            &&& added.remove(pos_of(added, id)) == cs
        }),
{
    let added = cs.push((id, Seq::<(Seq<char>, Env)>::empty()));
    assert(unique_keys(added)) by {
        assert forall|i: int, j: int| 0 <= i < j < added.len() implies #[trigger] added[i].0
            != #[trigger] added[j].0 by {
            if j == cs.len() {
                assert(added[i] == cs[i]);
                assert(has_key(cs, cs[i].0));
            } else {
                assert(added[i] == cs[i] && added[j] == cs[j]);
            }
        }
    }
    lemma_pos_of(added, cs.len() as int);
    assert(added.remove(cs.len() as int) =~= cs);
}

/// After cleaning at `ts`, the environments left are exactly those whose end
/// is not before `ts`: each left one was there and is alive, and each alive
/// one is left.
pub proof fn law_cleaning_keeps_alive(envs: Seq<(Seq<char>, Env)>, ts: u64)
    ensures
        forall|i: int|
            0 <= i < alive_at(envs, ts).len() ==> (#[trigger] alive_at(envs, ts)[i]).1.end_timestamp
                >= ts,
        forall|i: int|
            0 <= i < envs.len() && (#[trigger] envs[i]).1.end_timestamp >= ts ==> alive_at(
                envs,
                ts,
            ).contains(envs[i]),
        forall|e: (Seq<char>, Env)| alive_at(envs, ts).contains(e) ==> envs.contains(e),
    decreases envs.len(),
{
    if envs.len() > 0 {
        let d = envs.drop_last();
        law_cleaning_keeps_alive(d, ts);
        let a = alive_at(d, ts);
        assert forall|i: int| 0 <= i < envs.len() && (#[trigger] envs[i]).1.end_timestamp >= ts implies alive_at(
            envs,
            ts,
        ).contains(envs[i]) by {
            if i < envs.len() - 1 {
                assert(d[i] == envs[i]);
                assert(a.contains(d[i]));
                let j = choose|j: int| 0 <= j < a.len() && a[j] == d[i];
                if envs.last().1.end_timestamp >= ts {
                    assert(a.push(envs.last())[j] == envs[i]);
                }
            } else {
                assert(a.push(envs.last())[a.len() as int] == envs[i]);
            }
        }
        assert forall|e: (Seq<char>, Env)| alive_at(envs, ts).contains(e) implies envs.contains(e) by {
            let j = choose|j: int| 0 <= j < alive_at(envs, ts).len() && alive_at(envs, ts)[j] == e;
            if j < a.len() {
                assert(a[j] == e);
                assert(d.contains(e));
                let k = choose|k: int| 0 <= k < d.len() && d[k] == e;
                assert(envs[k] == e);
            } else {
                assert(envs[envs.len() - 1] == e);
            }
        }
    }
}

/// Removing the machines `ids` from an environment leaves none of them,
/// whatever their position in `ids`, and keeps every other machine as it was.
pub proof fn law_removed_machines_gone(before: Env, after: Env, ids: Seq<VmId>)
    requires
        env_vms_removed(before, after, ids),
    ensures
        forall|k: VmId| ids.contains(k) ==> !has_key(after.vm@, k),
        forall|k: VmId| !ids.contains(k) ==> lookup(after.vm@, k) == lookup(before.vm@, k),
        forall|k: VmId| !ids.contains(k) ==> (has_key(after.vm@, k) <==> has_key(before.vm@, k)),
        after.id == before.id && after.is_stopped == before.is_stopped
            && after.end_timestamp == before.end_timestamp,
{
    assert forall|k: VmId| ids.contains(k) implies !has_key(after.vm@, k) by {
        law_without_keys_lookup(before.vm@, ids, k);
        lemma_lookup_none(after.vm@, k);
    }
    assert forall|k: VmId| !ids.contains(k) implies lookup(after.vm@, k) == lookup(before.vm@, k)
        && (has_key(after.vm@, k) <==> has_key(before.vm@, k)) by {
        law_without_keys_lookup(before.vm@, ids, k);
        lemma_lookup_none(after.vm@, k);
        lemma_lookup_none(before.vm@, k);
    }
}

/// A stop at `now` records `now` as the environment's last management
/// time, so starting or stopping it again before `now + MIN_START_STOP_ITV`
/// is too soon; the environment is then stopped.
pub proof fn law_stop_records_time(before: Env, after: Env, now: u64, later: u64)
    requires
        env_stopped(before, after, now),
        later < now + MIN_START_STOP_ITV,
    ensures
        after.last_mgmt_ts == now,
        after.is_stopped,
        too_soon(after.last_mgmt_ts, later),
        after.last_mgmt_ts + MIN_START_STOP_ITV > later,
{
}

/// A start at `now` records `now` as the environment's last management
/// time, so stopping or starting it again before `now + MIN_START_STOP_ITV`
/// is too soon; the environment is then running.
pub proof fn law_start_records_time(before: Env, after: Env, now: u64, later: u64)
    requires
        env_started(before, after, now),
        later < now + MIN_START_STOP_ITV,
    ensures
        after.last_mgmt_ts == now,
        !after.is_stopped,
        too_soon(after.last_mgmt_ts, later),
        after.last_mgmt_ts + MIN_START_STOP_ITV > later,
{
}

/// The environments selected by `ids` are exactly those of `es` whose id
/// occurs anywhere in `ids`, in their order in `es`: each such environment
/// is selected, nothing else is, and there are as many as `es` has.
pub proof fn law_selected_by_any_id(es: Seq<(Seq<char>, Env)>, ids: Seq<Seq<char>>)
    ensures
        selected(es, ids) == es.filter(|e: (Seq<char>, Env)| ids.contains(e.1.id@)),
        forall|i: int|
            0 <= i < es.len() && ids.contains((#[trigger] es[i]).1.id@) ==> selected(es, ids).contains(es[i]),
        forall|e: (Seq<char>, Env)| selected(es, ids).contains(e) ==> es.contains(e) && ids.contains(e.1.id@),
    decreases es.len(),
{
    reveal(Seq::filter);
    if es.len() > 0 {
        let d = es.drop_last();
        law_selected_by_any_id(d, ids);
        let a = selected(d, ids);
        assert(es.filter(|e: (Seq<char>, Env)| ids.contains(e.1.id@)) == {
            let sub = d.filter(|e: (Seq<char>, Env)| ids.contains(e.1.id@));
            if ids.contains(es.last().1.id@) {
                sub.push(es.last())
            } else {
                sub
            }
        });
        assert forall|i: int|
            0 <= i < es.len() && ids.contains((#[trigger] es[i]).1.id@) implies selected(es, ids).contains(es[i]) by {
            if i < es.len() - 1 {
                assert(d[i] == es[i]);
                assert(a.contains(d[i]));
                let j = choose|j: int| 0 <= j < a.len() && a[j] == d[i];
                if ids.contains(es.last().1.id@) {
                    assert(a.push(es.last())[j] == es[i]);
                }
            } else {
                assert(a.push(es.last())[a.len() as int] == es[i]);
            }
        }
        assert forall|e: (Seq<char>, Env)| selected(es, ids).contains(e) implies es.contains(e) && ids.contains(e.1.id@) by {
            let j = choose|j: int| 0 <= j < selected(es, ids).len() && selected(es, ids)[j] == e;
            if j < a.len() {
                assert(a[j] == e);
                assert(d.contains(e));
                let k = choose|k: int| 0 <= k < d.len() && d[k] == e;
                assert(es[k] == e);
            } else {
                assert(es[es.len() - 1] == e);
            }
        }
    }
}

/// After an `env_replaced` step, looking up environment `e` of client `c`
/// finds the new environment, which stands in relation `p` to the old one,
/// and every other environment of every client is found as it was.
pub proof fn law_replaced_env_found(
    before: Clients,
    after: Clients,
    c: Seq<char>,
    e: Seq<char>,
    p: spec_fn(Env, Env) -> bool,
)
    requires
        clients_unique(before),
        has_env(before, c, e),
        env_replaced(before, after, c, e, p),
    ensures
        clients_unique(after),
        has_env(after, c, e),
        p(env_of(before, c, e), env_of(after, c, e)),
        forall|c2: Seq<char>, e2: Seq<char>|
            !(c2 == c && e2 == e) && #[trigger] has_env(before, c2, e2) ==> has_env(after, c2, e2)
                && env_of(after, c2, e2) == env_of(before, c2, e2),
{
    let ci = pos_of(before, c);
    let envs = before[ci].1;
    let ei = pos_of(envs, e);
    let na = after[ci].1;
    assert(0 <= ci < before.len() && before[ci].0 == c);
    assert(unique_keys(envs));
    assert(0 <= ei < envs.len() && envs[ei].0 == e);
    assert forall|i: int| 0 <= i < after.len() implies #[trigger] after[i].0 == before[i].0 by {
        if i != ci {
            assert(after[i] == before[i]);
        }
    }
    assert forall|j: int| 0 <= j < na.len() implies #[trigger] na[j].0 == envs[j].0 by {
        if j != ei {
            assert(na[j] == envs[j]);
        }
    }
    assert(unique_keys(after)) by {
        assert forall|i: int, j: int| 0 <= i < j < after.len() implies #[trigger] after[i].0
            != #[trigger] after[j].0 by {
            assert(after[i].0 == before[i].0 && after[j].0 == before[j].0);
        }
    }
    assert(unique_keys(na)) by {
        assert forall|i: int, j: int| 0 <= i < j < na.len() implies #[trigger] na[i].0
            != #[trigger] na[j].0 by {
            assert(na[i].0 == envs[i].0 && na[j].0 == envs[j].0);
        }
    }
    assert forall|i: int| 0 <= i < after.len() implies unique_keys(#[trigger] after[i].1) by {
        if i != ci {
            assert(after[i] == before[i]);
        }
    }
    lemma_pos_of(after, ci);
    lemma_pos_of(na, ei);
    assert(has_key(after, c));
    assert(has_key(na, e));
    assert forall|c2: Seq<char>, e2: Seq<char>|
        !(c2 == c && e2 == e) && #[trigger] has_env(before, c2, e2) implies has_env(after, c2, e2)
            && env_of(after, c2, e2) == env_of(before, c2, e2) by {
        let cj = pos_of(before, c2);
        assert(0 <= cj < before.len() && before[cj].0 == c2);
        lemma_pos_of(before, cj);
        lemma_pos_of(after, cj);
        assert(has_key(after, c2));
        if cj != ci {
            assert(after[cj] == before[cj]);
            let es = before[cj].1;
            let ej = pos_of(es, e2);
            assert(0 <= ej < es.len() && es[ej].0 == e2);
            assert(has_key(after[cj].1, e2));
        } else {
            assert(c2 == c);
            let ej = pos_of(envs, e2);
            assert(0 <= ej < envs.len() && envs[ej].0 == e2);
            lemma_pos_of(envs, ej);
            assert(ej != ei);
            assert(na[ej] == envs[ej]);
            lemma_pos_of(na, ej);
            assert(has_key(na, e2));
        }
    }
}

/// The current time by `std::time::SystemTime::now`, in whole seconds since
/// the Unix epoch (0 for a clock set before it). Nothing is stated of the
/// value: it is the machine's clock.
#[verifier::external_body]
pub(crate) fn now_secs() -> u64 {
    match std::time::SystemTime::now().duration_since(std::time::UNIX_EPOCH) {
        Ok(d) => d.as_secs(),
        Err(_) => 0,
    }
}

impl Serv {
    /// The clients and their environments.
    pub closed spec fn clients(&self) -> Clients {
        nested(self.cli@)
    }

    /// The server's pool of resources.
    pub closed spec fn pool(&self) -> Resource {
        self.resource
    }

    /// The directory of the configuration store.
    pub closed spec fn cfg_dir(&self) -> Seq<char> {
        self.cfg_db.path()
    }

    /// The public ports in use.
    pub closed spec fn ports_in_use(&self) -> Seq<(PubPort, ())> {
        self.pub_port_inuse@
    }

    /// The keys of every level are unique.
    pub fn lemma_clients_unique(&self)
        ensures
            clients_unique(self.clients()),
    {
        self.cli.lemma_unique();
        let n = self.cli.len();
        let mut i: usize = 0;
        while i < n
            invariant
                n == self.cli@.len(),
                i <= n,
                forall|j: int| 0 <= j < i ==> unique_keys(#[trigger] self.clients()[j].1),
            decreases n - i,
        {
            self.cli.value_at(i).lemma_unique();
            i = i + 1;
        }
    }

    /// A server without clients, with an empty pool, storing its
    /// configuration under `cfg_path`.
    pub fn new(cfg_path: &str) -> (s: Serv)
        ensures
            s.clients() == Clients::empty(),
            s.pool() == (Resource {
                vm_active: 0,
                cpu_total: 0,
                cpu_used: 0,
                memory_total: 0,
                memory_used: 0,
                disk_total: 0,
                disk_used: 0,
            }),
            s.ports_in_use() == Seq::<(PubPort, ())>::empty(),
            s.cfg_dir() == cfg_path@,
    {
        let s = Serv {
            cli: Table::new(),
            env_id_inuse: Table::new(),
            vm_id_inuse: Table::new(),
            pub_port_inuse: Table::new(),
            resource: Resource::default(),
            cfg_db: CfgDB::new(cfg_path),
        };
        assert(s.clients() =~= Clients::empty());
        s
    }

    /// Sets the totals of the pool; nothing is in use afterwards.
    pub fn set_resource(&mut self, rsc: Resource)
        ensures
            final(self).pool() == fresh_pool(rsc.cpu_total, rsc.memory_total, rsc.disk_total),
            final(self).clients() == old(self).clients(),
            final(self).ports_in_use() == old(self).ports_in_use(),
    {
        self.resource = Resource::new(rsc.cpu_total, rsc.memory_total, rsc.disk_total);
    }

    /// The pool of resources.
    pub fn get_resource(&self) -> (r: Resource)
        ensures
            r == self.pool(),
    {
        self.resource
    }

    /// Registers a new client without environments.
    pub fn add_client(&mut self, id: CliId) -> (r: Result<(), CoreError>)
        ensures
            has_key(old(self).clients(), id@) ==> r == Err::<(), CoreError>(
                CoreError::ClientAlreadyExists,
            ) && final(self).clients() == old(self).clients(),
            !has_key(old(self).clients(), id@) ==> r is Ok && final(self).clients() == old(
                self,
            ).clients().push((id@, Seq::<(Seq<char>, Env)>::empty())),
            final(self).pool() == old(self).pool(),
            final(self).ports_in_use() == old(self).ports_in_use(),
    {
        proof {
            lemma_nested_keys(self.cli@);
        }
        if self.cli.contains_key(&id) {
            Err(CoreError::ClientAlreadyExists)
        } else {
            let envs: EnvTable = Table::new();
            self.cli.push_new(id, envs);
            assert(self.clients() =~= old(self).clients().push(
                (id@, Seq::<(Seq<char>, Env)>::empty()),
            ));
            Ok(())
        }
    }

    /// Forgets a client and its environments.
    pub fn del_client(&mut self, id: &CliIdRef)
        ensures
            has_key(old(self).clients(), id@) ==> final(self).clients() == old(self).clients().remove(
                pos_of(old(self).clients(), id@),
            ),
            !has_key(old(self).clients(), id@) ==> final(self).clients() == old(self).clients(),
            final(self).pool() == old(self).pool(),
            final(self).ports_in_use() == old(self).ports_in_use(),
    {
        self.cli.lemma_unique();
        proof {
            lemma_nested_keys(self.cli@);
        }
        let key: CliId = id.to_owned();
        match self.cli.find(&key) {
            Some(i) => {
                let _ = self.cli.remove_at(i);
                assert(self.clients() =~= old(self).clients().remove(i as int));
            },
            None => {},
        }
    }

    /// Makes sure client `id` is known, then checks that it has no
    /// environment with the id of `env`. If so, every machine of `env` is
    /// marked as having its image cached, and `env` is ready to be stored
    /// and then handed to [`Serv::register_env_commit`].
    pub fn register_env_prepare(&mut self, id: &CliIdRef, env: &mut Env) -> (r: Result<
        (),
        CoreError,
    >)
        ensures
            ({
                let cs = old(self).clients();
                let with_client = if has_key(cs, id@) {
                    cs
                } else {
                    cs.push((id@, Seq::<(Seq<char>, Env)>::empty()))
                };
                &&& final(self).clients() == with_client
                &&& final(self).pool() == old(self).pool()
                &&& final(self).ports_in_use() == old(self).ports_in_use()
                &&& has_env(with_client, id@, old(env).id@) ==> r == Err::<(), CoreError>(
                    CoreError::EnvAlreadyExists,
                ) && *final(env) == *old(env)
                &&& !has_env(with_client, id@, old(env).id@) ==> r is Ok && all_cached(
                    *old(env),
                    *final(env),
                )
            }),
    {
        self.cli.lemma_unique();
        proof {
            lemma_nested_keys(self.cli@);
        }
        let key: CliId = id.to_owned();
        let ci = match self.cli.find(&key) {
            Some(i) => i,
            None => {
                let n = self.cli.len();
                let envs: EnvTable = Table::new();
                self.cli.push_new(key, envs);
                proof {
                    lemma_nested_keys(old(self).cli@);
                    assert(self.clients() =~= old(self).clients().push(
                        (id@, Seq::<(Seq<char>, Env)>::empty()),
                    ));
                }
                n
            },
        };
        self.cli.lemma_unique();
        proof {
            lemma_nested_keys(self.cli@);
            lemma_pos_of(self.cli@, ci as int);
        }
        if self.cli.value_at(ci).contains_key(&env.id) {
            return Err(CoreError::EnvAlreadyExists);
        }
        mark_cached(env, true);
        Ok(())
    }

    /// Stores `env`, which has been prepared and written to the
    /// configuration store, as an environment of client `id`, and records
    /// the client as its owner.
    pub fn register_env_commit(&mut self, id: CliId, env: Env)
        ensures
            ({
                let cs = old(self).clients();
                let with_client = if has_key(cs, id@) {
                    cs
                } else {
                    cs.push((id@, Seq::<(Seq<char>, Env)>::empty()))
                };
                let ci = pos_of(with_client, id@);
                let envs = with_client[ci].1;
                let stored = final(self).clients()[ci].1;
                &&& final(self).clients().len() == with_client.len()
                &&& forall|i: int|
                    0 <= i < with_client.len() && i != ci ==> #[trigger] final(self).clients()[i]
                        == with_client[i]
                &&& final(self).clients()[ci].0 == id@
                &&& has_key(envs, env.id@) ==> stored.len() == envs.len() && stored[pos_of(
                    envs,
                    env.id@,
                )].0 == env.id@ && forall|j: int|
                    0 <= j < envs.len() && j != pos_of(envs, env.id@) ==> #[trigger] stored[j]
                        == envs[j]
                &&& !has_key(envs, env.id@) ==> stored.len() == envs.len() + 1 && stored.drop_last()
                    == envs && stored.last().0 == env.id@
                &&& owned_by(env, stored[pos_of(stored, env.id@)].1, id@)
                &&& final(self).pool() == old(self).pool()
                &&& final(self).ports_in_use() == old(self).ports_in_use()
            }),
    {
        let mut env = env;
        let ghost env0 = env;
        self.cli.lemma_unique();
        proof {
            lemma_nested_keys(self.cli@);
        }
        let ci = match self.cli.find(&id) {
            Some(i) => i,
            None => {
                let n = self.cli.len();
                let envs: EnvTable = Table::new();
                self.cli.push_new(id.clone(), envs);
                proof {
                    lemma_nested_keys(old(self).cli@);
                    assert(self.clients() =~= old(self).clients().push(
                        (id@, Seq::<(Seq<char>, Env)>::empty()),
                    ));
                }
                n
            },
        };
        let ghost mid = self.cli@;
        self.cli.lemma_unique();
        proof {
            lemma_nested_keys(mid);
            lemma_pos_of(mid, ci as int);
        }
        env.cli_belong_to = Some(id);
        let (ck, mut envs) = self.cli.remove_at(ci);
        envs.lemma_unique();
        let ghost envs0 = envs@;
        let ek = env.id.clone();
        envs.insert(ek, env);
        envs.lemma_unique();
        proof {
            lemma_remove_insert(mid, ci as int, envs);
        }
        self.cli.insert_at(ci, ck, envs);
        proof {
            let after = self.cli@;
            assert(after == mid.update(ci as int, (mid[ci as int].0, envs)));
            lemma_nested_keys(after);
            let st = envs@;
            if has_key(envs0, env0.id@) {
                let j = choose|j: int| 0 <= j < envs0.len() && #[trigger] envs0[j].0 == env0.id@ && st
                    == envs0.update(j, (env0.id@, env));
                lemma_pos_of(envs0, j);
                lemma_pos_of(st, j);
            } else {
                assert(st == envs0.push((env0.id@, env)));
                assert(st.drop_last() =~= envs0);
                lemma_pos_of(st, st.len() - 1);
            }
        }
    }

    /// Forgets environment `env_id` of client `cli_id`, if there is one.
    pub fn del_env(&mut self, cli_id: &CliIdRef, env_id: &EnvIdRef)
        ensures
            ({
                let cs = old(self).clients();
                let ci = pos_of(cs, cli_id@);
                &&& has_env(cs, cli_id@, env_id@) ==> final(self).clients() == cs.update(
                    ci,
                    (cli_id@, cs[ci].1.remove(pos_of(cs[ci].1, env_id@))),
                )
                &&& !has_env(cs, cli_id@, env_id@) ==> final(self).clients() == cs
                &&& final(self).pool() == old(self).pool()
                &&& final(self).ports_in_use() == old(self).ports_in_use()
            }),
    {
        self.cli.lemma_unique();
        proof {
            lemma_nested_keys(self.cli@);
        }
        let ckey: CliId = cli_id.to_owned();
        let ekey: EnvId = env_id.to_owned();
        if let Some(ci) = self.cli.find(&ckey) {
            let ghost before = self.cli@;
            proof {
                lemma_pos_of(before, ci as int);
            }
            if self.cli.value_at(ci).contains_key(&ekey) {
                let (ck, mut envs) = self.cli.remove_at(ci);
                envs.lemma_unique();
                let ghost envs0 = envs@;
                let ei = match envs.find(&ekey) {
                    Some(j) => j,
                    None => 0,
                };
                let _ = envs.remove_at(ei);
                proof {
                    lemma_remove_insert(before, ci as int, envs);
                }
                self.cli.insert_at(ci, ck, envs);
                proof {
                    lemma_nested_keys(self.cli@);
                    assert(self.cli@ == before.update(ci as int, (before[ci as int].0, envs)));
                    assert(self.clients() =~= nested(before).update(
                        ci as int,
                        (cli_id@, envs0.remove(ei as int)),
                    ));
                }
            }
        }
    }

    /// Removes the machines `vm_id_set` from environment `env_id` of client
    /// `cli_id`. The environment is then to be written to the configuration store.
    pub fn update_env_del_vm(
        &mut self,
        cli_id: &CliIdRef,
        env_id: &EnvIdRef,
        vm_id_set: &[VmId],
    ) -> (r: Result<(), CoreError>)
        ensures
            ({
                let cs = old(self).clients();
                &&& !has_key(cs, cli_id@) ==> r == Err::<(), CoreError>(CoreError::ClientNotExists)
                    && final(self).clients() == cs
                &&& has_key(cs, cli_id@) && !has_env(cs, cli_id@, env_id@) ==> r == Err::<
                    (),
                    CoreError,
                >(CoreError::EnvNotExists) && final(self).clients() == cs
                &&& has_env(cs, cli_id@, env_id@) ==> r is Ok && env_replaced(
                    cs,
                    final(self).clients(),
                    cli_id@,
                    env_id@,
                    |a: Env, b: Env| env_vms_removed(a, b, vm_id_set@),
                )
                &&& final(self).pool() == old(self).pool()
                &&& final(self).ports_in_use() == old(self).ports_in_use()
            }),
    {
        self.cli.lemma_unique();
        proof {
            lemma_nested_keys(self.cli@);
        }
        let ckey: CliId = cli_id.to_owned();
        let ekey: EnvId = env_id.to_owned();
        let ci = match self.cli.find(&ckey) {
            Some(i) => i,
            None => {
                return Err(CoreError::ClientNotExists);
            },
        };
        let ghost before = self.cli@;
        proof {
            lemma_pos_of(before, ci as int);
        }
        let ei = match self.cli.value_at(ci).find(&ekey) {
            Some(j) => j,
            None => {
                return Err(CoreError::EnvNotExists);
            },
        };
        let (ck, mut envs) = self.cli.remove_at(ci);
        envs.lemma_unique();
        let ghost envs0 = envs@;
        let (ek, mut env) = envs.remove_at(ei);
        let ghost env0 = env;
        let n = vm_id_set.len();
        let mut i: usize = 0;
        while i < n
            invariant
                n == vm_id_set@.len(),
                i <= n,
                env.vm@ == without_keys(env0.vm@, vm_id_set@.take(i as int)),
                same_but_vms(env, env0),
            decreases n - i,
        {
            let _ = env.vm.remove(&vm_id_set[i]);
            assert(vm_id_set@.take(i + 1).drop_last() =~= vm_id_set@.take(i as int));
            i = i + 1;
        }
        assert(vm_id_set@.take(n as int) =~= vm_id_set@);
        proof {
            lemma_remove_insert(envs0, ei as int, env);
        }
        envs.insert_at(ei, ek, env);
        proof {
            lemma_remove_insert(before, ci as int, envs);
        }
        self.cli.insert_at(ci, ck, envs);
        proof {
            lemma_env_replaced(
                before,
                self.cli@,
                ci as int,
                ei as int,
                envs,
                env,
                |a: Env, b: Env| env_vms_removed(a, b, vm_id_set@),
            );
        }
        Ok(())
    }

    /// Sets the life time of an environment; see [`Env::update_life`]. The
    /// client table is searched under `env_id`, and `cli_id` only names the
    /// client under which the environment is then written to the
    /// configuration store.
    pub fn update_env_life(
        &mut self,
        cli_id: &CliIdRef,
        env_id: &EnvIdRef,
        life_time: u64,
        is_fucker: bool,
    ) -> (r: Result<(), CoreError>)
        requires
            has_env(old(self).clients(), env_id@, env_id@) && life_verdict(
                env_of(old(self).clients(), env_id@, env_id@).start_timestamp,
                life_time,
                is_fucker,
            ) is Ok ==> env_of(old(self).clients(), env_id@, env_id@).start_timestamp + life_time
                <= u64::MAX,
        ensures
            ({
                let cs = old(self).clients();
                &&& !has_key(cs, env_id@) ==> r == Err::<(), CoreError>(CoreError::ClientNotExists)
                    && final(self).clients() == cs
                &&& has_key(cs, env_id@) && !has_env(cs, env_id@, env_id@) ==> r == Err::<
                    (),
                    CoreError,
                >(CoreError::EnvNotExists) && final(self).clients() == cs
                &&& has_env(cs, env_id@, env_id@) ==> match life_verdict(
                    env_of(cs, env_id@, env_id@).start_timestamp,
                    life_time,
                    is_fucker,
                ) {
                    Err(e) => r == Err::<(), CoreError>(e) && final(self).clients() == cs,
                    Ok(end) => r is Ok && env_replaced(
                        cs,
                        final(self).clients(),
                        env_id@,
                        env_id@,
                        |a: Env, b: Env| env_life_set(a, b, end),
                    ),
                }
                &&& final(self).pool() == old(self).pool()
                &&& final(self).ports_in_use() == old(self).ports_in_use()
            }),
    {
        self.cli.lemma_unique();
        proof {
            lemma_nested_keys(self.cli@);
        }
        let key: EnvId = env_id.to_owned();
        let ci = match self.cli.find(&key) {
            Some(i) => i,
            None => {
                return Err(CoreError::ClientNotExists);
            },
        };
        let ghost before = self.cli@;
        proof {
            lemma_pos_of(before, ci as int);
        }
        let ei = match self.cli.value_at(ci).find(&key) {
            Some(j) => j,
            None => {
                return Err(CoreError::EnvNotExists);
            },
        };
        let (ck, mut envs) = self.cli.remove_at(ci);
        envs.lemma_unique();
        let ghost envs0 = envs@;
        proof {
            lemma_pos_of(envs0, ei as int);
        }
        let (ek, mut env) = envs.remove_at(ei);
        let ghost env0 = env;
        let r = env.update_life(life_time, is_fucker);
        proof {
            lemma_remove_insert(envs0, ei as int, env);
        }
        envs.insert_at(ei, ek, env);
        proof {
            lemma_remove_insert(before, ci as int, envs);
        }
        self.cli.insert_at(ci, ck, envs);
        proof {
            match life_verdict(env0.start_timestamp, life_time, is_fucker) {
                Ok(end) => {
                    lemma_env_replaced(
                        before,
                        self.cli@,
                        ci as int,
                        ei as int,
                        envs,
                        env,
                        |a: Env, b: Env| env_life_set(a, b, end),
                    );
                },
                Err(_) => {
                    assert(envs@ =~= envs0);
                    lemma_pos_of(before, ci as int);
                    assert(envs0 == before[ci as int].1@);
                    assert(self.clients() =~= nested(before));
                },
            }
        }
        r
    }

    /// Starts environment `env_id` at time `now`. The client table is
    /// searched under `env_id`; `cli_id` is not used. Nothing happens when
    /// there is no such environment; an environment started or stopped less
    /// than [`MIN_START_STOP_ITV`] seconds ago is refused; otherwise every
    /// machine is resumed and charged to the pool.
    pub fn start_env_at(&mut self, cli_id: &CliIdRef, env_id: &EnvIdRef, now: u64) -> (r: Result<
        (),
        CoreError,
    >)
        requires
            has_env(old(self).clients(), env_id@, env_id@) && !too_soon(
                env_of(old(self).clients(), env_id@, env_id@).last_mgmt_ts,
                now,
            ) ==> start_fits(old(self).pool(), env_of(old(self).clients(), env_id@, env_id@).vm@),
        ensures
            ({
                let cs = old(self).clients();
                let env = env_of(cs, env_id@, env_id@);
                &&& !has_env(cs, env_id@, env_id@) ==> r is Ok && final(self).clients() == cs
                    && final(self).pool() == old(self).pool()
                &&& has_env(cs, env_id@, env_id@) && too_soon(env.last_mgmt_ts, now) ==> r == Err::<
                    (),
                    CoreError,
                >(CoreError::TooSoon { wait_secs: MIN_START_STOP_ITV }) && final(self).clients()
                    == cs && final(self).pool() == old(self).pool()
                &&& has_env(cs, env_id@, env_id@) && !too_soon(env.last_mgmt_ts, now) ==> {
                    &&& r is Ok
                    &&& env_replaced(
                        cs,
                        final(self).clients(),
                        env_id@,
                        env_id@,
                        |a: Env, b: Env| env_started(a, b, now),
                    )
                    &&& final(self).pool() == started_pool(old(self).pool(), env.vm@)
                }
                &&& final(self).ports_in_use() == old(self).ports_in_use()
            }),
    {
        self.cli.lemma_unique();
        proof {
            lemma_nested_keys(self.cli@);
        }
        let key: EnvId = env_id.to_owned();
        let ci = match self.cli.find(&key) {
            Some(i) => i,
            None => {
                return Ok(());
            },
        };
        let ghost before = self.cli@;
        proof {
            lemma_pos_of(before, ci as int);
        }
        let ei = match self.cli.value_at(ci).find(&key) {
            Some(j) => j,
            None => {
                return Ok(());
            },
        };
        let last = self.cli.value_at(ci).value_at(ei).last_mgmt_ts;
        if last > now || now - last < MIN_START_STOP_ITV {
            return Err(CoreError::TooSoon { wait_secs: MIN_START_STOP_ITV });
        }
        let (ck, mut envs) = self.cli.remove_at(ci);
        envs.lemma_unique();
        let ghost envs0 = envs@;
        proof {
            lemma_pos_of(envs0, ei as int);
        }
        let (ek, mut env) = envs.remove_at(ei);
        let ghost env0 = env;
        env.last_mgmt_ts = now;
        match env.start_all(&mut self.resource) {
            Ok(()) => {},
            Err(e) => {
                return Err(e);
            },
        }
        env.is_stopped = false;
        proof {
            lemma_remove_insert(envs0, ei as int, env);
        }
        envs.insert_at(ei, ek, env);
        proof {
            lemma_remove_insert(before, ci as int, envs);
        }
        self.cli.insert_at(ci, ck, envs);
        proof {
            lemma_env_replaced(
                before,
                self.cli@,
                ci as int,
                ei as int,
                envs,
                env,
                |a: Env, b: Env| env_started(a, b, now),
            );
        }
        Ok(())
    }

    /// Starts environment `env_id` now; see [`Serv::start_env_at`]. The pool
    /// must be able to take the machines unless the environment is too
    /// recently managed to be started at any time the clock can show.
    pub fn start_env(&mut self, cli_id: &CliIdRef, env_id: &EnvIdRef) -> (r: Result<(), CoreError>)
        requires
            has_env(old(self).clients(), env_id@, env_id@) && !too_soon(
                env_of(old(self).clients(), env_id@, env_id@).last_mgmt_ts,
                u64::MAX,
            ) ==> start_fits(old(self).pool(), env_of(old(self).clients(), env_id@, env_id@).vm@),
        ensures
            ({
                let cs = old(self).clients();
                let env = env_of(cs, env_id@, env_id@);
                &&& !has_env(cs, env_id@, env_id@) ==> r is Ok && final(self).clients() == cs
                    && final(self).pool() == old(self).pool()
                &&& has_env(cs, env_id@, env_id@) && r is Err ==> r == Err::<(), CoreError>(
                    CoreError::TooSoon { wait_secs: MIN_START_STOP_ITV },
                ) && final(self).clients() == cs && final(self).pool() == old(self).pool()
                &&& has_env(cs, env_id@, env_id@) && r is Ok ==> exists|now: u64|
                    !too_soon(env.last_mgmt_ts, now) && env_replaced(
                        cs,
                        final(self).clients(),
                        env_id@,
                        env_id@,
                        |a: Env, b: Env| env_started(a, b, now),
                    ) && final(self).pool() == started_pool(old(self).pool(), env.vm@)
                &&& final(self).ports_in_use() == old(self).ports_in_use()
            }),
    {
        let now = now_secs();
        self.start_env_at(cli_id, env_id, now)
    }

    /// Stops environment `env_id` of client `cli_id` at time `now`. Nothing
    /// happens when there is no such environment; an environment started or
    /// stopped less than [`MIN_START_STOP_ITV`] seconds ago is refused;
    /// otherwise every machine is paused and released from the pool.
    pub fn stop_env_at(&mut self, cli_id: &CliIdRef, env_id: &EnvIdRef, now: u64) -> (r: Result<
        (),
        CoreError,
    >)
        requires
            has_env(old(self).clients(), cli_id@, env_id@) && !too_soon(
                env_of(old(self).clients(), cli_id@, env_id@).last_mgmt_ts,
                now,
            ) ==> stop_fits(old(self).pool(), env_of(old(self).clients(), cli_id@, env_id@).vm@),
        ensures
            ({
                let cs = old(self).clients();
                let env = env_of(cs, cli_id@, env_id@);
                &&& !has_env(cs, cli_id@, env_id@) ==> r is Ok && final(self).clients() == cs
                    && final(self).pool() == old(self).pool()
                &&& has_env(cs, cli_id@, env_id@) && too_soon(env.last_mgmt_ts, now) ==> r == Err::<
                    (),
                    CoreError,
                >(CoreError::TooSoon { wait_secs: MIN_START_STOP_ITV }) && final(self).clients()
                    == cs && final(self).pool() == old(self).pool()
                &&& has_env(cs, cli_id@, env_id@) && !too_soon(env.last_mgmt_ts, now) ==> {
                    &&& r is Ok
                    &&& env_replaced(
                        cs,
                        final(self).clients(),
                        cli_id@,
                        env_id@,
                        |a: Env, b: Env| env_stopped(a, b, now),
                    )
                    &&& final(self).pool() == stopped_pool(old(self).pool(), env.vm@)
                }
                &&& final(self).ports_in_use() == old(self).ports_in_use()
            }),
    {
        self.cli.lemma_unique();
        proof {
            lemma_nested_keys(self.cli@);
        }
        let ckey: CliId = cli_id.to_owned();
        let ekey: EnvId = env_id.to_owned();
        let ci = match self.cli.find(&ckey) {
            Some(i) => i,
            None => {
                return Ok(());
            },
        };
        let ghost before = self.cli@;
        proof {
            lemma_pos_of(before, ci as int);
        }
        let ei = match self.cli.value_at(ci).find(&ekey) {
            Some(j) => j,
            None => {
                return Ok(());
            },
        };
        let last = self.cli.value_at(ci).value_at(ei).last_mgmt_ts;
        if last > now || now - last < MIN_START_STOP_ITV {
            return Err(CoreError::TooSoon { wait_secs: MIN_START_STOP_ITV });
        }
        let (ck, mut envs) = self.cli.remove_at(ci);
        envs.lemma_unique();
        let ghost envs0 = envs@;
        proof {
            lemma_pos_of(envs0, ei as int);
        }
        let (ek, mut env) = envs.remove_at(ei);
        env.last_mgmt_ts = now;
        match env.stop_all(&mut self.resource) {
            Ok(()) => {},
            Err(e) => {
                return Err(e);
            },
        }
        env.is_stopped = true;
        proof {
            lemma_remove_insert(envs0, ei as int, env);
        }
        envs.insert_at(ei, ek, env);
        proof {
            lemma_remove_insert(before, ci as int, envs);
        }
        self.cli.insert_at(ci, ck, envs);
        proof {
            lemma_env_replaced(
                before,
                self.cli@,
                ci as int,
                ei as int,
                envs,
                env,
                |a: Env, b: Env| env_stopped(a, b, now),
            );
        }
        Ok(())
    }

    /// Stops environment `env_id` of client `cli_id` now; see
    /// [`Serv::stop_env_at`]. The pool must be able to release the machines
    /// unless the environment is too recently managed to be stopped at any
    /// time the clock can show.
    pub fn stop_env(&mut self, cli_id: &CliIdRef, env_id: &EnvIdRef) -> (r: Result<(), CoreError>)
        requires
            has_env(old(self).clients(), cli_id@, env_id@) && !too_soon(
                env_of(old(self).clients(), cli_id@, env_id@).last_mgmt_ts,
                u64::MAX,
            ) ==> stop_fits(old(self).pool(), env_of(old(self).clients(), cli_id@, env_id@).vm@),
        ensures
            ({
                let cs = old(self).clients();
                let env = env_of(cs, cli_id@, env_id@);
                &&& !has_env(cs, cli_id@, env_id@) ==> r is Ok && final(self).clients() == cs
                    && final(self).pool() == old(self).pool()
                &&& has_env(cs, cli_id@, env_id@) && r is Err ==> r == Err::<(), CoreError>(
                    CoreError::TooSoon { wait_secs: MIN_START_STOP_ITV },
                ) && final(self).clients() == cs && final(self).pool() == old(self).pool()
                &&& has_env(cs, cli_id@, env_id@) && r is Ok ==> exists|now: u64|
                    !too_soon(env.last_mgmt_ts, now) && env_replaced(
                        cs,
                        final(self).clients(),
                        cli_id@,
                        env_id@,
                        |a: Env, b: Env| env_stopped(a, b, now),
                    ) && final(self).pool() == stopped_pool(old(self).pool(), env.vm@)
                &&& final(self).ports_in_use() == old(self).ports_in_use()
            }),
    {
        let now = now_secs();
        self.stop_env_at(cli_id, env_id, now)
    }

    /// Forgets every environment whose end is before `ts`.
    pub fn clean_expired_env_at(&mut self, ts: u64)
        ensures
            final(self).clients() == cleaned_at(old(self).clients(), ts),
            final(self).pool() == old(self).pool(),
            final(self).ports_in_use() == old(self).ports_in_use(),
    {
        let n = self.cli.len();
        let ghost cs = self.clients();
        let mut ci: usize = 0;
        while ci < n
            invariant
                n == cs.len(),
                cs == old(self).clients(),
                ci <= n,
                self.clients().len() == n,
                forall|i: int| 0 <= i < ci ==> #[trigger] self.clients()[i] == (cs[i].0, alive_at(cs[i].1, ts)),
                forall|i: int| ci <= i < n ==> #[trigger] self.clients()[i] == cs[i],
                self.pool() == old(self).pool(),
                self.ports_in_use() == old(self).ports_in_use(),
            decreases n - ci,
        {
            self.cli.lemma_unique();
            let ghost before = self.cli@;
            let ghost cur = self.clients();
            proof {
                lemma_nested_keys(before);
                assert(self.clients()[ci as int] == cs[ci as int]);
                assert(nested(before)[ci as int].1 == before[ci as int].1@);
            }
            let (ck, mut envs) = self.cli.remove_at(ci);
            envs.lemma_unique();
            let ghost orig = envs@;
            assert(orig == cs[ci as int].1);
            let m = envs.len();
            let mut out: EnvTable = Table::new();
            let mut j: usize = 0;
            assert(orig.take(0) =~= Seq::<(Seq<char>, Env)>::empty());
            assert(orig.skip(0) =~= orig);
            while j < m
                invariant
                    m == orig.len(),
                    unique_keys(orig),
                    j <= m,
                    envs@ == orig.skip(j as int),
                    out@ == alive_at(orig.take(j as int), ts),
                decreases m - j,
            {
                let (ek, env) = envs.remove_at(0);
                assert(orig.skip(j as int).remove(0) =~= orig.skip(j + 1));
                assert(orig.take(j + 1).drop_last() =~= orig.take(j as int));
                assert(orig.take(j + 1).last() == orig[j as int]);
                if env.end_timestamp < ts {
                } else {
                    proof {
                        lemma_alive_keys(orig.take(j as int), ts, ek@);
                        if has_key(orig.take(j as int), ek@) {
                            let i = choose|i: int| 0 <= i < orig.take(j as int).len() && #[trigger] orig.take(j as int)[i].0 == ek@;
                            assert(orig[i].0 == orig[j as int].0);
                        }
                    }
                    out.push_new(ek, env);
                }
                j = j + 1;
            }
            assert(orig.take(m as int) =~= orig);
            proof {
                lemma_remove_insert(before, ci as int, out);
            }
            self.cli.insert_at(ci, ck, out);
            proof {
                lemma_nested_keys(self.cli@);
                assert(self.cli@ == before.update(ci as int, (before[ci as int].0, out)));
                assert(self.clients() =~= cur.update(
                    ci as int,
                    (cs[ci as int].0, alive_at(cs[ci as int].1, ts)),
                ));
            }
            ci = ci + 1;
        }
        assert(self.clients() =~= cleaned_at(cs, ts));
    }

    /// Forgets every environment whose end has passed.
    pub fn clean_expired_env(&mut self)
        ensures
            exists|ts: u64| final(self).clients() == #[trigger] cleaned_at(old(self).clients(), ts),
            final(self).pool() == old(self).pool(),
            final(self).ports_in_use() == old(self).ports_in_use(),
    {
        let ts = now_secs();
        self.clean_expired_env_at(ts);
    }

    /// Short descriptions of all environments of all clients.
    pub fn get_env_meta_all(&self) -> (r: Vec<EnvMeta>)
        ensures
            metas_of(r@, all_envs(self.clients())),
    {
        let ghost cs = self.clients();
        proof {
            lemma_nested_keys(self.cli@);
        }
        let n = self.cli.len();
        let mut out: Vec<EnvMeta> = Vec::new();
        let mut ci: usize = 0;
        assert(cs.take(0) =~= Clients::empty());
        while ci < n
            invariant
                n == cs.len(),
                cs == self.clients(),
                ci <= n,
                metas_of(out@, all_envs(cs.take(ci as int))),
            decreases n - ci,
        {
            let envs = self.cli.value_at(ci);
            let m = envs.len();
            let ghost base = all_envs(cs.take(ci as int));
            let ghost es = cs[ci as int].1;
            assert(es == envs@);
            let mut j: usize = 0;
            assert(base + es.take(0) =~= base);
            while j < m
                invariant
                    m == es.len(),
                    es == envs@,
                    j <= m,
                    metas_of(out@, base + es.take(j as int)),
                decreases m - j,
            {
                let meta = envs.value_at(j).as_meta();
                out.push(meta);
                assert(base + es.take(j + 1) =~= (base + es.take(j as int)).push(es[j as int]));
                j = j + 1;
            }
            assert(es.take(m as int) =~= es);
            assert(cs.take(ci + 1).drop_last() =~= cs.take(ci as int));
            assert(cs.take(ci + 1).last() == cs[ci as int]);
            ci = ci + 1;
        }
        assert(cs.take(n as int) =~= cs);
        out
    }

    /// Short descriptions of the environments of the client keyed `env_id`.
    pub fn get_env_meta(&self, env_id: &EnvIdRef) -> (r: Vec<EnvMeta>)
        ensures
            match envs_of(self.clients(), env_id@) {
                Some(es) => metas_of(r@, es),
                None => r@.len() == 0,
            },
    {
        self.cli.lemma_unique();
        proof {
            lemma_nested_keys(self.cli@);
        }
        let key: EnvId = env_id.to_owned();
        let mut out: Vec<EnvMeta> = Vec::new();
        match self.cli.find(&key) {
            None => {},
            Some(ci) => {
                proof {
                    lemma_pos_of(self.cli@, ci as int);
                }
                let envs = self.cli.value_at(ci);
                let m = envs.len();
                let mut j: usize = 0;
                while j < m
                    invariant
                        m == envs@.len(),
                        j <= m,
                        metas_of(out@, envs@.take(j as int)),
                    decreases m - j,
                {
                    let meta = envs.value_at(j).as_meta();
                    out.push(meta);
                    assert(envs@.take(j + 1) =~= envs@.take(j as int).push(envs@[j as int]));
                    j = j + 1;
                }
                assert(envs@.take(m as int) =~= envs@);
            },
        }
        out
    }

    /// Full descriptions of the environments of client `cli_id` whose ids are in `env_set`.
    pub fn get_env_details(&self, cli_id: &CliIdRef, env_set: Vec<EnvId>) -> (r: Vec<EnvInfo>)
        ensures
            match envs_of(self.clients(), cli_id@) {
                Some(es) => env_infos_of(
                    r@,
                    selected(es, env_set@.map_values(|x: EnvId| x@)),
                ),
                None => r@.len() == 0,
            },
    {
        self.cli.lemma_unique();
        proof {
            lemma_nested_keys(self.cli@);
        }
        let ghost ids = env_set@.map_values(|x: EnvId| x@);
        let key: CliId = cli_id.to_owned();
        let mut out: Vec<EnvInfo> = Vec::new();
        match self.cli.find(&key) {
            None => {},
            Some(ci) => {
                proof {
                    lemma_pos_of(self.cli@, ci as int);
                }
                let envs = self.cli.value_at(ci);
                let m = envs.len();
                let mut j: usize = 0;
                while j < m
                    invariant
                        m == envs@.len(),
                        j <= m,
                        ids == env_set@.map_values(|x: EnvId| x@),
                        env_infos_of(out@, selected(envs@.take(j as int), ids)),
                    decreases m - j,
                {
                    let env = envs.value_at(j);
                    let k = env_set.len();
                    let mut wanted = false;
                    let mut t: usize = 0;
                    while t < k
                        invariant
                            k == env_set@.len(),
                            t <= k,
                            ids == env_set@.map_values(|x: EnvId| x@),
                            wanted == exists|u: int| 0 <= u < t && #[trigger] ids[u] == env.id@,
                        decreases k - t,
                    {
                        assert(ids[t as int] == env_set@[t as int]@);
                        if env_set[t] == env.id {
                            wanted = true;
                        }
                        t = t + 1;
                    }
                    assert(wanted == ids.contains(env.id@));
                    assert(envs@.take(j + 1).drop_last() =~= envs@.take(j as int));
                    assert(envs@.take(j + 1).last() == envs@[j as int]);
                    if wanted {
                        let info = env.as_info();
                        out.push(info);
                    }
                    j = j + 1;
                }
                assert(envs@.take(m as int) =~= envs@);
            },
        }
        out
    }

    /// Environment `env_id` of client `cli_id`, if there is one.
    pub fn env(&self, cli_id: &CliIdRef, env_id: &EnvIdRef) -> (r: Option<&Env>)
        ensures
            has_env(self.clients(), cli_id@, env_id@) ==> r == Some(&env_of(self.clients(), cli_id@, env_id@)),
            !has_env(self.clients(), cli_id@, env_id@) ==> r is None,
    {
        self.cli.lemma_unique();
        proof {
            lemma_nested_keys(self.cli@);
        }
        let ckey: CliId = cli_id.to_owned();
        let ekey: EnvId = env_id.to_owned();
        match self.cli.find(&ckey) {
            None => None,
            Some(ci) => {
                proof {
                    lemma_pos_of(self.cli@, ci as int);
                }
                let envs = self.cli.value_at(ci);
                envs.lemma_unique();
                match envs.find(&ekey) {
                    None => None,
                    Some(ei) => {
                        proof {
                            lemma_pos_of(envs@, ei as int);
                        }
                        Some(envs.value_at(ei))
                    },
                }
            },
        }
    }

    /// Changes the hardware or releases the ports of environment `env_id`
    /// of client `cli_id`, against the pool and the ports of this server;
    /// see [`Env::update_hardware`].
    pub fn update_env_hardware(
        &mut self,
        cli_id: &CliIdRef,
        env_id: &EnvIdRef,
        cpu: Option<i32>,
        memory: Option<i32>,
        disk: Option<i32>,
        vm_port: &[PubPort],
        out_going: Option<bool>,
    ) -> (r: Result<(), CoreError>)
        requires
            has_env(old(self).clients(), cli_id@, env_id@) ==> hardware_change_fits(
                env_of(old(self).clients(), cli_id@, env_id@),
                old(self).pool(),
                cpu,
                memory,
                disk,
            ),
        ensures
            ({
                let cs = old(self).clients();
                &&& !has_key(cs, cli_id@) ==> r == Err::<(), CoreError>(CoreError::ClientNotExists)
                    && final(self).clients() == cs && final(self).pool() == old(self).pool()
                    && final(self).ports_in_use() == old(self).ports_in_use()
                &&& has_key(cs, cli_id@) && !has_env(cs, cli_id@, env_id@) ==> r == Err::<
                    (),
                    CoreError,
                >(CoreError::EnvNotExists) && final(self).clients() == cs && final(self).pool()
                    == old(self).pool() && final(self).ports_in_use() == old(self).ports_in_use()
                &&& has_env(cs, cli_id@, env_id@) ==> env_replaced(
                    cs,
                    final(self).clients(),
                    cli_id@,
                    env_id@,
                    |a: Env, b: Env|
                        hardware_updated(
                            a,
                            b,
                            old(self).pool(),
                            final(self).pool(),
                            old(self).ports_in_use(),
                            final(self).ports_in_use(),
                            cpu,
                            memory,
                            disk,
                            vm_port@.len() > 0,
                            r,
                        ),
                )
            }),
    {
        self.cli.lemma_unique();
        proof {
            lemma_nested_keys(self.cli@);
        }
        let ckey: CliId = cli_id.to_owned();
        let ekey: EnvId = env_id.to_owned();
        let ci = match self.cli.find(&ckey) {
            Some(i) => i,
            None => {
                return Err(CoreError::ClientNotExists);
            },
        };
        let ghost before = self.cli@;
        proof {
            lemma_pos_of(before, ci as int);
        }
        let ei = match self.cli.value_at(ci).find(&ekey) {
            Some(j) => j,
            None => {
                return Err(CoreError::EnvNotExists);
            },
        };
        let (ck, mut envs) = self.cli.remove_at(ci);
        envs.lemma_unique();
        let ghost envs0 = envs@;
        proof {
            lemma_pos_of(envs0, ei as int);
        }
        let (ek, mut env) = envs.remove_at(ei);
        let r = env.update_hardware(
            &mut self.resource,
            &mut self.pub_port_inuse,
            cpu,
            memory,
            disk,
            vm_port,
            out_going,
        );
        proof {
            lemma_remove_insert(envs0, ei as int, env);
        }
        envs.insert_at(ei, ek, env);
        proof {
            lemma_remove_insert(before, ci as int, envs);
        }
        self.cli.insert_at(ci, ck, envs);
        proof {
            lemma_env_replaced(
                before,
                self.cli@,
                ci as int,
                ei as int,
                envs,
                env,
                |a: Env, b: Env|
                    hardware_updated(
                        a,
                        b,
                        old(self).pool(),
                        self.pool(),
                        old(self).ports_in_use(),
                        self.ports_in_use(),
                        cpu,
                        memory,
                        disk,
                        vm_port@.len() > 0,
                        r,
                    ),
            );
        }
        r
    }
}

} // verus!
