//! Agent bookkeeping: the single task-running agent, the store of agent
//! configurations keyed by numeric id with a per-owner index, and outputs
//! stored under their digest.

use vstd::prelude::*;
use crate::crypto::{sha256_hex, sha256_hex_of};
use crate::kv::{
    kv_find, kv_get, kv_has, kv_keys_distinct, lemma_kv_absent, lemma_kv_distinct_push,
    lemma_kv_found, lemma_kv_push_point, lemma_kv_update_point,
};
use crate::tasks::Task;

verus! {

/// The single task-running agent of a process.
pub struct Agent {
    pub owner: Vec<u8>,
    pub tasks: Vec<Task>,
    pub active: bool,
    pub created_at: u64,
}

impl Agent {
    /// A fresh agent with no tasks.
    pub fn new(owner: Vec<u8>, created_at: u64) -> (r: Agent)
        ensures
            r.owner == owner,
            r.tasks@.len() == 0,
            r.active == true,
            r.created_at == created_at,
    {
        Agent { owner, tasks: Vec::new(), active: true, created_at }
    }

    /// Whether the caller is this agent's owner: the test that guards every
    /// privileged agent operation.
    pub fn owned_by(&self, caller: &Vec<u8>) -> (r: bool)
        ensures
            r == (self.owner@ == caller@),
    {
        crate::account::bytes_eq(&self.owner, caller)
    }
}

/// When a configured agent runs.
pub enum Schedule {
    Interval { interval_seconds: u64 },
    Cron { expression: String },
}

/// The mathematical content of a schedule.
pub enum ScheduleV {
    Interval { interval_seconds: u64 },
    Cron { expression: Seq<char> },
}

impl View for Schedule {
    type V = ScheduleV;

    open spec fn view(&self) -> ScheduleV {
        match *self {
            Schedule::Interval { interval_seconds } => ScheduleV::Interval { interval_seconds },
            Schedule::Cron { expression } => ScheduleV::Cron { expression: expression@ },
        }
    }
}

impl Clone for Schedule {
    fn clone(&self) -> (r: Self)
        ensures
            r@ == self@,
    {
        match self {
            Schedule::Interval { interval_seconds } => Schedule::Interval {
                interval_seconds: *interval_seconds,
            },
            Schedule::Cron { expression } => Schedule::Cron { expression: expression.clone() },
        }
    }
}

/// One produced output together with its time.
pub struct Outputs {
    pub output: String,
    pub timestamp: i128,
}

/// A bare produced output.
pub struct Output(pub String);

/// One configured agent.
pub struct AgentConfig {
    pub agent_id: u64,
    pub name: String,
    pub description: String,
    pub owner: Vec<u8>,
    pub schedule: Schedule,
    pub created_at: i128,
    pub prompt: String,
    pub outputs: Vec<String>,
}

/// The mathematical content of an agent configuration.
pub struct AgentConfigV {
    pub agent_id: u64,
    pub name: Seq<char>,
    pub description: Seq<char>,
    pub owner: Seq<u8>,
    pub schedule: ScheduleV,
    pub created_at: i128,
    pub prompt: Seq<char>,
    pub outputs: Seq<Seq<char>>,
}

impl View for AgentConfig {
    type V = AgentConfigV;

    open spec fn view(&self) -> AgentConfigV {
        AgentConfigV {
            agent_id: self.agent_id,
            name: self.name@,
            description: self.description@,
            owner: self.owner@,
            schedule: self.schedule@,
            created_at: self.created_at,
            prompt: self.prompt@,
            outputs: self.outputs.deep_view(),
        }
    }
}

impl Clone for AgentConfig {
    fn clone(&self) -> (r: Self)
        ensures
            r@ == self@,
    {
        let outputs = self.outputs.clone();
        proof {
            assert(outputs.deep_view() =~= self.outputs.deep_view());
        }
        AgentConfig {
            agent_id: self.agent_id,
            name: self.name.clone(),
            description: self.description.clone(),
            owner: self.owner.clone(),
            schedule: self.schedule.clone(),
            created_at: self.created_at,
            prompt: self.prompt.clone(),
            outputs,
        }
    }
}

/// The store behind the agent call surface: configurations by id, agent
/// ids by owner, outputs by digest.
pub struct AgentStore {
    pub agents: Vec<(u64, AgentConfig)>,
    pub user_agents: Vec<(Vec<u8>, Vec<u64>)>,
    pub outputs: Vec<(String, String)>,
}

impl AgentStore {
    /// Well-formedness: distinct keys in each table.
    pub open spec fn wf(self) -> bool {
        &&& kv_keys_distinct(self.agents@)
        &&& kv_keys_distinct(self.user_agents@)
        &&& kv_keys_distinct(self.outputs@)
    }

    /// An empty store, constructed once at process start.
    pub fn new() -> (r: AgentStore)
        ensures
            r.wf(),
            r.agents@.len() == 0,
            r.user_agents@.len() == 0,
            r.outputs@.len() == 0,
    {
        AgentStore { agents: Vec::new(), user_agents: Vec::new(), outputs: Vec::new() }
    }

    /// The agent ids recorded for an owner, empty for an unseen owner.
    pub open spec fn user_ids(self, owner: Seq<u8>) -> Seq<u64> {
        ids_at(self.user_agents@, owner)
    }
}

/// The agent ids recorded under an owner key, empty for an unseen owner.
pub open spec fn ids_at(s: Seq<(Vec<u8>, Vec<u64>)>, owner: Seq<u8>) -> Seq<u64> {
    match kv_get(s, owner) {
        Some(v) => v@,
        None => Seq::empty(),
    }
}

/// Whether `id` is the id a new agent receives: the first id, counting up
/// from the table's size, that no stored agent carries.
pub open spec fn agent_id_fresh(s: Seq<(u64, AgentConfig)>, id: u64) -> bool {
    &&& !kv_has(s, id)
    &&& s.len() <= id as int
    &&& forall|j: int| s.len() <= j < id as int ==> kv_has(s, #[trigger] (j as u64))
}

/// The id a new agent receives.
pub open spec fn fresh_agent_id(s: Seq<(u64, AgentConfig)>) -> u64 {
    choose|id: u64| agent_id_fresh(s, id)
}

/// A block of ids all present under distinct keys cannot outnumber the
/// entries.
proof fn lemma_dense_ids_bound(s: Seq<(u64, AgentConfig)>, a: int, b: int)
    requires
        kv_keys_distinct(s),
        0 <= a <= b,
        b <= u64::MAX as int + 1,
        forall|j: int| a <= j < b ==> kv_has(s, #[trigger] (j as u64)),
    ensures
        b - a <= s.len(),
    decreases b - a,
{
    if a < b {
        assert(kv_has(s, ((b - 1) as u64)));
        let k = choose|k: int| 0 <= k < s.len() && s[k].0@ == ((b - 1) as u64);
        let s2 = s.remove(k);
        assert(forall|x: int|
            0 <= x < s2.len() ==> s2[x] == if x < k {
                s[x]
            } else {
                s[x + 1]
            });
        assert(kv_keys_distinct(s2));
        assert forall|j: int| a <= j < b - 1 implies kv_has(s2, #[trigger] (j as u64)) by {
            assert(kv_has(s, (j as u64)));
            let k2 = choose|k2: int| 0 <= k2 < s.len() && s[k2].0@ == (j as u64);
            assert((j as u64) != ((b - 1) as u64));
            assert(k2 != k);
            if k2 < k {
                assert(s2[k2].0@ == (j as u64));
            } else {
                assert(s2[k2 - 1].0@ == (j as u64));
            }
        }
        lemma_dense_ids_bound(s2, a, b - 1);
    }
}

/// Registers a new agent configuration under the first free id counting
/// up from the table's size, and records the id under its owner.
pub fn create_agent(
    store: &mut AgentStore,
    name: String,
    description: String,
    schedule: Schedule,
    created_at: i128,
    prompt: String,
    owner: Vec<u8>,
) -> (r: String)
    requires
        old(store).wf(),
        old(store).agents@.len() < (u64::MAX / 2) as usize,
    ensures
        final(store).wf(),
        r@ == "agent created successfully"@,
        final(store).outputs == old(store).outputs,
        ({
            let id = fresh_agent_id(old(store).agents@);
            &&& agent_id_fresh(old(store).agents@, id)
            &&& final(store).agents@.len() == old(store).agents@.len() + 1
            &&& kv_get(final(store).agents@, id) matches Some(c) && c@ == (AgentConfigV {
                agent_id: id,
                name: name@,
                description: description@,
                owner: owner@,
                schedule: schedule@,
                created_at: created_at,
                prompt: prompt@,
                outputs: Seq::empty(),
            })
            &&& forall|x: u64|
                x != id ==> kv_get(final(store).agents@, x) == kv_get(old(store).agents@, x)
            &&& final(store).user_ids(owner@) == old(store).user_ids(owner@).push(id)
            &&& forall|o: Seq<u8>|
                o != owner@ ==> final(store).user_ids(o) == old(store).user_ids(o)
        }),
{
    let n = store.agents.len();
    let ghost n0 = n as int;
    let mut id: u64 = n as u64;
    let mut found = kv_find(&store.agents, &id);
    while found.is_some()
        invariant
            *store == *old(store),
            store.wf(),
            n0 == store.agents@.len(),
            n0 < u64::MAX as int / 2,
            n0 <= id as int <= n0 + store.agents@.len(),
            forall|j: int| n0 <= j < id as int ==> kv_has(store.agents@, #[trigger] (j as u64)),
            found matches Some(i) ==> i < store.agents@.len() && store.agents@[i as int].0@ == id,
            found is None ==> !kv_has(store.agents@, id),
        decreases n0 + store.agents@.len() - id,
    {
        proof {
            assert(kv_has(store.agents@, id)) by {
                let i = found->0;
                assert(store.agents@[i as int].0@ == id);
            }
            assert forall|j: int| n0 <= j < id as int + 1 implies kv_has(
                store.agents@,
                #[trigger] (j as u64),
            ) by {
                if j == id as int {
                    assert((j as u64) == id);
                }
            }
            lemma_dense_ids_bound(store.agents@, n0, id as int + 1);
        }
        id = id + 1;
        found = kv_find(&store.agents, &id);
    }
    proof {
        assert(agent_id_fresh(store.agents@, id));
        let c = fresh_agent_id(store.agents@);
        assert(agent_id_fresh(store.agents@, c));
        if c != id {
            if c < id {
                assert(kv_has(store.agents@, ((c as int) as u64)));
            } else {
                assert(kv_has(store.agents@, ((id as int) as u64)));
            }
        }
        assert(fresh_agent_id(store.agents@) == id);
    }
    let config = AgentConfig {
        agent_id: id,
        name,
        description,
        owner: owner.clone(),
        schedule,
        created_at,
        prompt,
        outputs: Vec::new(),
    };
    let entry = (id, config);
    let ghost pre_agents = store.agents@;
    proof {
        lemma_kv_distinct_push(pre_agents, entry);
    }
    store.agents.push(entry);
    proof {
        lemma_kv_push_point(pre_agents, entry, id@);
        assert forall|x: u64| x != id implies kv_get(store.agents@, x) == kv_get(
            pre_agents,
            x,
        ) by {
            lemma_kv_push_point(pre_agents, entry, x);
        }
        assert(entry.1.outputs.deep_view() =~= Seq::<Seq<char>>::empty());
    }
    match kv_find(&store.user_agents, &owner) {
        Some(i) => {
            proof {
                lemma_kv_found(store.user_agents@, i as int);
            }
            let ghost pre_ua = store.user_agents@;
            let (key, mut ids) = store.user_agents.remove(i);
            let ghost old_ids = ids@;
            ids.push(id);
            let entry2 = (key, ids);
            store.user_agents.insert(i, entry2);
            proof {
                assert(store.user_agents@ =~= pre_ua.update(i as int, entry2));
                lemma_kv_update_point(pre_ua, i as int, entry2, owner@);
                assert forall|o: Seq<u8>| o != owner@ implies ids_at(store.user_agents@, o)
                    == ids_at(pre_ua, o) by {
                    lemma_kv_update_point(pre_ua, i as int, entry2, o);
                }
            }
        },
        None => {
            proof {
                lemma_kv_absent(store.user_agents@, owner@);
            }
            let mut ids: Vec<u64> = Vec::new();
            ids.push(id);
            let entry2 = (owner, ids);
            let ghost pre_ua = store.user_agents@;
            proof {
                lemma_kv_distinct_push(pre_ua, entry2);
            }
            store.user_agents.push(entry2);
            proof {
                lemma_kv_push_point(pre_ua, entry2, entry2.0@);
                assert(entry2.1@ =~= Seq::<u64>::empty().push(id));
                assert forall|o: Seq<u8>| o != entry2.0@ implies ids_at(store.user_agents@, o)
                    == ids_at(pre_ua, o) by {
                    lemma_kv_push_point(pre_ua, entry2, o);
                }
            }
        },
    }
    "agent created successfully".to_owned()
}

/// A copy of every stored agent configuration, with its id.
pub fn get_all_agents(store: &AgentStore) -> (r: Vec<(u64, AgentConfig)>)
    ensures
        r@.len() == store.agents@.len(),
        forall|i: int|
            0 <= i < r@.len() ==> (#[trigger] r@[i]).0 == store.agents@[i].0 && r@[i].1@
                == store.agents@[i].1@,
{
    let n = store.agents.len();
    let mut r: Vec<(u64, AgentConfig)> = Vec::new();
    let mut i: usize = 0;
    while i < n
        invariant
            i <= n,
            n == store.agents@.len(),
            r@.len() == i,
            forall|j: int|
                0 <= j < i ==> (#[trigger] r@[j]).0 == store.agents@[j].0 && r@[j].1@
                    == store.agents@[j].1@,
        decreases n - i,
    {
        let entry = (store.agents[i].0, store.agents[i].1.clone());
        r.push(entry);
        i = i + 1;
    }
    r
}

/// The views of a list of agent configurations.
pub open spec fn config_views(s: Seq<AgentConfig>) -> Seq<AgentConfigV> {
    s.map(|i: int, c: AgentConfig| c@)
}

/// The configurations found for a list of ids, skipping unknown ids.
pub open spec fn configs_of(agents: Seq<(u64, AgentConfig)>, ids: Seq<u64>) -> Seq<AgentConfigV>
    decreases ids.len(),
{
    if ids.len() == 0 {
        Seq::empty()
    } else {
        let rec = configs_of(agents, ids.drop_last());
        match kv_get(agents, ids.last()) {
            Some(c) => rec.push(c@),
            None => rec,
        }
    }
}

/// A copy of every configuration recorded for `owner`, in recording order.
pub fn get_user_agents(store: &AgentStore, owner: &Vec<u8>) -> (r: Vec<AgentConfig>)
    requires
        store.wf(),
    ensures
        config_views(r@) == configs_of(store.agents@, store.user_ids(owner@)),
{
    let mut r: Vec<AgentConfig> = Vec::new();
    match kv_find(&store.user_agents, owner) {
        Some(i) => {
            proof {
                lemma_kv_found(store.user_agents@, i as int);
            }
            let ids = &store.user_agents[i].1;
            let m = ids.len();
            proof {
                assert(ids@.take(0) =~= Seq::<u64>::empty());
                assert(config_views(r@) =~= configs_of(store.agents@, ids@.take(0)));
            }
            let mut j: usize = 0;
            while j < m
                invariant
                    j <= m,
                    m == ids@.len(),
                    store.wf(),
                    config_views(r@) =~= configs_of(store.agents@, ids@.take(j as int)),
                decreases m - j,
            {
                match kv_find(&store.agents, &ids[j]) {
                    Some(k) => {
                        proof {
                            lemma_kv_found(store.agents@, k as int);
                        }
                        let c = store.agents[k].1.clone();
                        r.push(c);
                    },
                    None => {
                        proof {
                            lemma_kv_absent(store.agents@, ids@[j as int]);
                        }
                    },
                }
                proof {
                    let t = ids@.take(j + 1);
                    assert(t.drop_last() =~= ids@.take(j as int));
                    assert(t.last() == ids@[j as int]);
                    assert(config_views(r@) =~= configs_of(store.agents@, t));
                }
                j = j + 1;
            }
            proof {
                assert(ids@.take(m as int) =~= ids@);
                assert(config_views(r@) == configs_of(store.agents@, store.user_ids(owner@)));
            }
        },
        None => {
            proof {
                lemma_kv_absent(store.user_agents@, owner@);
                assert(config_views(r@) =~= configs_of(store.agents@, Seq::<u64>::empty()));
            }
        },
    }
    r
}

/// The stored text under a digest key, if any.
pub open spec fn output_at(s: Seq<(String, String)>, k: Seq<char>) -> Option<Seq<char>> {
    match kv_get(s, k) {
        Some(v) => Some(v@),
        None => None,
    }
}

/// An agent configuration after recording one output digest: appended
/// unless already present.
pub open spec fn config_with_output(c: AgentConfigV, h: Seq<char>) -> AgentConfigV {
    if c.outputs.contains(h) {
        c
    } else {
        AgentConfigV { outputs: c.outputs.push(h), ..c }
    }
}

/// Whether some element of `v` reads as `s`.
fn contains_string(v: &Vec<String>, s: &String) -> (r: bool)
    ensures
        r == v.deep_view().contains(s@),
{
    let n = v.len();
    let mut i: usize = 0;
    while i < n
        invariant
            i <= n,
            n == v@.len(),
            forall|j: int| 0 <= j < i ==> v.deep_view()[j] != s@,
        decreases n - i,
    {
        if v[i].eq(s) {
            proof {
                assert(v.deep_view()[i as int] == s@);
            }
            return true;
        }
        i = i + 1;
    }
    proof {
        if v.deep_view().contains(s@) {
            let j = choose|j: int| 0 <= j < v.deep_view().len() && v.deep_view()[j] == s@;
            assert(v.deep_view()[j] != s@);
        }
    }
    false
}

/// Stores `output` under its SHA-256 digest and records that digest on
/// agent `id` when the agent exists and does not hold it yet.
pub fn store_output(store: &mut AgentStore, output: String, id: u64) -> (r: String)
    requires
        old(store).wf(),
    ensures
        final(store).wf(),
        r@ == "Output Stored"@,
        final(store).user_agents == old(store).user_agents,
        output_at(final(store).outputs@, sha256_hex_of(output@)) == Some(output@),
        forall|k: Seq<char>|
            k != sha256_hex_of(output@) ==> #[trigger] output_at(final(store).outputs@, k)
                == output_at(old(store).outputs@, k),
        !kv_has(old(store).agents@, id) ==> final(store).agents@ == old(store).agents@,
        kv_has(old(store).agents@, id) ==> {
            &&& forall|x: u64|
                x != id ==> kv_get(final(store).agents@, x) == kv_get(old(store).agents@, x)
            &&& kv_get(old(store).agents@, id) matches Some(c) && (kv_get(
                final(store).agents@,
                id,
            ) matches Some(c2) && c2@ == config_with_output(c@, sha256_hex_of(output@)))
        },
{
    let h = sha256_hex(&output);
    match kv_find(&store.agents, &id) {
        Some(i) => {
            proof {
                lemma_kv_found(store.agents@, i as int);
            }
            let ghost pre_agents = store.agents@;
            let (key, mut cfg) = store.agents.remove(i);
            let ghost old_cfg = cfg;
            if !contains_string(&cfg.outputs, &h) {
                let hc = h.clone();
                let ghost pre_outs = cfg.outputs.deep_view();
                cfg.outputs.push(hc);
                proof {
                    assert(cfg.outputs.deep_view() =~= pre_outs.push(h@));
                }
            }
            let entry = (key, cfg);
            store.agents.insert(i, entry);
            proof {
                assert(store.agents@ =~= pre_agents.update(i as int, entry));
                lemma_kv_update_point(pre_agents, i as int, entry, id@);
                assert forall|x: u64| x != id implies kv_get(store.agents@, x) == kv_get(
                    pre_agents,
                    x,
                ) by {
                    lemma_kv_update_point(pre_agents, i as int, entry, x);
                }
                assert(entry.1@ == config_with_output(old_cfg@, h@));
            }
        },
        None => {
            proof {
                lemma_kv_absent(store.agents@, id@);
            }
        },
    }
    match kv_find(&store.outputs, &h) {
        Some(i) => {
            proof {
                lemma_kv_found(store.outputs@, i as int);
            }
            let entry = (h, output);
            let ghost pre_outputs = store.outputs@;
            proof {
                lemma_kv_update_point(pre_outputs, i as int, entry, entry.0@);
            }
            store.outputs.set(i, entry);
            proof {
                assert forall|k: Seq<char>| k != sha256_hex_of(entry.1@) implies #[trigger] output_at(
                    store.outputs@,
                    k,
                ) == output_at(pre_outputs, k) by {
                    lemma_kv_update_point(pre_outputs, i as int, entry, k);
                }
            }
        },
        None => {
            let entry = (h, output);
            let ghost pre_outputs = store.outputs@;
            proof {
                lemma_kv_distinct_push(pre_outputs, entry);
                lemma_kv_push_point(pre_outputs, entry, entry.0@);
            }
            store.outputs.push(entry);
            proof {
                assert forall|k: Seq<char>| k != sha256_hex_of(entry.1@) implies #[trigger] output_at(
                    store.outputs@,
                    k,
                ) == output_at(pre_outputs, k) by {
                    lemma_kv_push_point(pre_outputs, entry, k);
                }
            }
        },
    }
    "Output Stored".to_owned()
}

/// The stored output under `hash`, if any.
pub fn get_outputs(store: &AgentStore, hash: &String) -> (r: Option<String>)
    requires
        store.wf(),
    ensures
        output_at(store.outputs@, hash@) is Some ==> (r matches Some(v) && Some(v@) == output_at(
            store.outputs@,
            hash@,
        )),
        output_at(store.outputs@, hash@) is None ==> r is None,
{
    match kv_find(&store.outputs, hash) {
        Some(i) => {
            proof {
                lemma_kv_found(store.outputs@, i as int);
            }
            Some(store.outputs[i].1.clone())
        },
        None => {
            proof {
                lemma_kv_absent(store.outputs@, hash@);
            }
            None
        },
    }
}

} // verus!
