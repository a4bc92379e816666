use vstd::prelude::*;
use crate::control::{
    control_summary, is_safe_code, lookup_in, option_text, required_directions,
    safe_control_diagnostic_code, summary_state, texts, ApplyResult, ControlPlatform, ControlRule, LiveClient,
    NssPathObservation, NSS_CPU_DOWNLOAD, NSS_CPU_UPLOAD,
};
use crate::keyed::{
    find_name, lemma_name_has_first, lemma_name_lookup_in, lemma_name_upsert_lookup, name_lookup,
    name_upsert, names_view, upsert_name, Named, NamedView,
};

verus! {

/// The directions of a client's traffic that each path state holds.
#[derive(Clone, Copy, Debug, Default, Eq, PartialEq, Structural)]
pub struct PathDirections {
    pub proven: u8,
    pub path_ready: u8,
    pub cpu: u8,
    pub active_nss: u8,
    pub active_cpu: u8,
}

/// The directions a rule controls: upload where it limits upload, download
/// where it limits download.
pub open spec fn direction_bits(rule: ControlRule) -> u8 {
    (if rule.upload_bps != 0 {
        NSS_CPU_UPLOAD
    } else {
        0u8
    }) | (if rule.download_bps != 0 {
        NSS_CPU_DOWNLOAD
    } else {
        0u8
    })
}

/// The directions filed under `name`, or none.
pub open spec fn dir_value(m: Seq<NamedView<u8>>, name: Seq<char>) -> u8 {
    match name_lookup(m, name) {
        Some(v) => v,
        None => 0u8,
    }
}

/// A direction set as a map entry: present only where it is not empty.
pub open spec fn nonzero(v: u8) -> Option<u8> {
    if v != 0 {
        Some(v)
    } else {
        None
    }
}

/// One client's path state after a probe window.
///
/// What was proven stays proven for the directions the rule still controls,
/// and a path is ready only where it is proven or runs on the CPU. A fresh
/// observation adds the directions it saw active and proven; directions seen
/// active on a path and not yet verified there stay pending.
pub open spec fn spec_path_step(
    conf: u8,
    prev: PathDirections,
    nss_verified: u8,
    cpu_verified: u8,
    observation: Option<NssPathObservation>,
) -> PathDirections {
    let proven = prev.proven & conf;
    let cpu = prev.cpu & conf;
    let ready = prev.path_ready & conf & (proven | cpu);
    let pending_nss = prev.active_nss & conf & !nss_verified;
    let pending_cpu = prev.active_cpu & conf & !cpu_verified;
    match observation {
        None => PathDirections {
            proven,
            path_ready: ready,
            cpu,
            active_nss: pending_nss,
            active_cpu: pending_cpu,
        },
        Some(o) => {
            let valid = o.valid_directions & (NSS_CPU_UPLOAD | NSS_CPU_DOWNLOAD);
            let active = o.active_directions & valid & conf;
            let newly_proven = o.proven_directions & active;
            let newly_nss = o.nss_directions & active;
            let newly_cpu = o.cpu_directions & active;
            let cpu2 = (cpu | newly_cpu) & conf;
            let direct = (proven | newly_nss) & conf;
            PathDirections {
                proven: direct,
                path_ready: (ready | newly_proven) & (direct | cpu2),
                cpu: cpu2,
                active_nss: pending_nss | (newly_nss & !nss_verified),
                active_cpu: pending_cpu | (newly_cpu & !cpu_verified),
            }
        },
    }
}

fn path_step(
    conf: u8,
    prev: PathDirections,
    nss_verified: u8,
    cpu_verified: u8,
    observation: Option<NssPathObservation>,
) -> (r: PathDirections)
    ensures
        r == spec_path_step(conf, prev, nss_verified, cpu_verified, observation),
{
    let proven = prev.proven & conf;
    let cpu = prev.cpu & conf;
    let ready = prev.path_ready & conf & (proven | cpu);
    let pending_nss = prev.active_nss & conf & !nss_verified;
    let pending_cpu = prev.active_cpu & conf & !cpu_verified;
    match observation {
        None => PathDirections {
            proven,
            path_ready: ready,
            cpu,
            active_nss: pending_nss,
            active_cpu: pending_cpu,
        },
        Some(o) => {
            let valid = o.valid_directions & (NSS_CPU_UPLOAD | NSS_CPU_DOWNLOAD);
            let active = o.active_directions & valid & conf;
            let newly_proven = o.proven_directions & active;
            let newly_nss = o.nss_directions & active;
            let newly_cpu = o.cpu_directions & active;
            let cpu2 = (cpu | newly_cpu) & conf;
            let direct = (proven | newly_nss) & conf;
            PathDirections {
                proven: direct,
                path_ready: (ready | newly_proven) & (direct | cpu2),
                cpu: cpu2,
                active_nss: pending_nss | (newly_nss & !nss_verified),
                active_cpu: pending_cpu | (newly_cpu & !cpu_verified),
            }
        },
    }
}

/// The rule filed under `name`.
pub open spec fn rule_for(rules: Seq<ControlRule>, name: Seq<char>) -> Option<ControlRule>
    decreases rules.len(),
{
    if rules.len() == 0 {
        None
    } else if rules.last().identity_key@ == name {
        Some(rules.last())
    } else {
        rule_for(rules.drop_last(), name)
    }
}

/// No two rules share an identity.
pub open spec fn rule_keys_distinct(rules: Seq<ControlRule>) -> bool {
    forall|i: int, j: int|
        0 <= i < j < rules.len() ==> rules[i].identity_key@ != rules[j].identity_key@
}

proof fn lemma_rule_for_absent(rules: Seq<ControlRule>, name: Seq<char>)
    requires
        forall|j: int| 0 <= j < rules.len() ==> rules[j].identity_key@ != name,
    ensures
        rule_for(rules, name) is None,
    decreases rules.len(),
{
    if rules.len() > 0 {
        lemma_rule_for_absent(rules.drop_last(), name);
    }
}

/// The per-client path state of the accelerated control executor.
#[derive(Clone, Debug, Default)]
pub struct NssControlState {
    pub nss_proven_directions: Vec<Named<u8>>,
    pub nss_path_ready_directions: Vec<Named<u8>>,
    pub nss_cpu_directions: Vec<Named<u8>>,
    pub nss_active_nss_directions: Vec<Named<u8>>,
    pub nss_active_cpu_directions: Vec<Named<u8>>,
    /// The attachment edge and its generation, by client.
    pub nss_attachment_generations: Vec<Named<(String, u64)>>,
    /// A reload may keep proof across one generation change on the same edge.
    pub nss_reload_attachment_rebase_pending: bool,
}

/// The state's maps, each by its entries.
pub struct NssStateView {
    pub proven: Seq<NamedView<u8>>,
    pub path_ready: Seq<NamedView<u8>>,
    pub cpu: Seq<NamedView<u8>>,
    pub active_nss: Seq<NamedView<u8>>,
    pub active_cpu: Seq<NamedView<u8>>,
    pub attachment_generations: Seq<(Seq<char>, (Seq<char>, u64))>,
    pub rebase_pending: bool,
}

/// The attachment edges and generations, by client, as texts.
pub open spec fn generations_view(v: Seq<Named<(String, u64)>>) -> Seq<(Seq<char>, (Seq<char>, u64))> {
    v.map_values(|e: Named<(String, u64)>| (e.name@, (e.value.0@, e.value.1)))
}

impl View for NssControlState {
    type V = NssStateView;

    open spec fn view(&self) -> NssStateView {
        NssStateView {
            proven: names_view(self.nss_proven_directions@),
            path_ready: names_view(self.nss_path_ready_directions@),
            cpu: names_view(self.nss_cpu_directions@),
            active_nss: names_view(self.nss_active_nss_directions@),
            active_cpu: names_view(self.nss_active_cpu_directions@),
            attachment_generations: generations_view(self.nss_attachment_generations@),
            rebase_pending: self.nss_reload_attachment_rebase_pending,
        }
    }
}

/// What the state holds of one client.
pub open spec fn previous_dirs(v: NssStateView, name: Seq<char>) -> PathDirections {
    PathDirections {
        proven: dir_value(v.proven, name),
        path_ready: dir_value(v.path_ready, name),
        cpu: dir_value(v.cpu, name),
        active_nss: dir_value(v.active_nss, name),
        active_cpu: dir_value(v.active_cpu, name),
    }
}

/// One client's path state after observing `observations`: none where no
/// rule names the client.
pub open spec fn observed_dirs(
    rules: Seq<ControlRule>,
    v: NssStateView,
    result: ApplyResult,
    observations: Seq<NamedView<NssPathObservation>>,
    name: Seq<char>,
) -> PathDirections {
    match rule_for(rules, name) {
        Some(rule) => spec_path_step(
            direction_bits(rule),
            previous_dirs(v, name),
            dir_value(names_view(result.nss_verified_directions@), name),
            dir_value(names_view(result.cpu_verified_directions@), name),
            name_lookup(observations, name),
        ),
        None => PathDirections { proven: 0, path_ready: 0, cpu: 0, active_nss: 0, active_cpu: 0 },
    }
}

/// The directions filed under `name`.
fn dir_get(m: &Vec<Named<u8>>, name: &String) -> (r: u8)
    ensures
        r == dir_value(names_view(m@), name@),
{
    match find_name(m, name) {
        Some(i) => m[i].value,
        None => 0,
    }
}

fn observation_for(observations: &Vec<Named<NssPathObservation>>, name: &String) -> (r: Option<
    NssPathObservation,
>)
    ensures
        r == name_lookup(names_view(observations@), name@),
{
    match find_name(observations, name) {
        Some(i) => Some(observations[i].value),
        None => None,
    }
}

/// Whether two direction maps file the same directions under every name.
pub fn same_dirs(a: &Vec<Named<u8>>, b: &Vec<Named<u8>>) -> (r: bool)
    ensures
        r == (forall|n: Seq<char>|
            #[trigger] name_lookup(names_view(a@), n) == name_lookup(names_view(b@), n)),
{
    let ghost sa = names_view(a@);
    let ghost sb = names_view(b@);
    let mut i: usize = 0;
    while i < a.len()
        invariant
            i <= a.len(),
            sa == names_view(a@),
            sb == names_view(b@),
            forall|j: int| 0 <= j < i ==> name_lookup(sa, #[trigger] sa[j].name) == name_lookup(sb, sa[j].name),
        decreases a.len() - i,
    {
        let name = &a[i].name;
        let x = match find_name(a, name) {
            Some(k) => Some(a[k].value),
            None => None,
        };
        let y = match find_name(b, name) {
            Some(k) => Some(b[k].value),
            None => None,
        };
        assert(sa[i as int].name == name@);
        if x != y {
            return false;
        }
        i += 1;
    }
    let mut i: usize = 0;
    while i < b.len()
        invariant
            i <= b.len(),
            sa == names_view(a@),
            sb == names_view(b@),
            forall|j: int| 0 <= j < a.len() ==> name_lookup(sa, #[trigger] sa[j].name) == name_lookup(sb, sa[j].name),
            forall|j: int| 0 <= j < i ==> name_lookup(sa, #[trigger] sb[j].name) == name_lookup(sb, sb[j].name),
        decreases b.len() - i,
    {
        let name = &b[i].name;
        let x = match find_name(a, name) {
            Some(k) => Some(a[k].value),
            None => None,
        };
        let y = match find_name(b, name) {
            Some(k) => Some(b[k].value),
            None => None,
        };
        assert(sb[i as int].name == name@);
        if x != y {
            return false;
        }
        i += 1;
    }
    assert forall|n: Seq<char>| #[trigger] name_lookup(sa, n) == name_lookup(sb, n) by {
        lemma_name_lookup_in(sa, n);
        lemma_name_lookup_in(sb, n);
        if name_lookup(sa, n) is Some {
            let j = choose|j: int| 0 <= j < sa.len() && sa[j].value == name_lookup(sa, n)->0 && sa[j].name == n;
            assert(name_lookup(sa, sa[j].name) == name_lookup(sb, sa[j].name));
        } else if name_lookup(sb, n) is Some {
            let j = choose|j: int| 0 <= j < sb.len() && sb[j].value == name_lookup(sb, n)->0 && sb[j].name == n;
            assert(name_lookup(sa, sb[j].name) == name_lookup(sb, sb[j].name));
        }
    }
    true
}


fn rule_direction_bits(rule: &ControlRule) -> (r: u8)
    ensures
        r == direction_bits(*rule),
{
    (if rule.upload_bps != 0 {
        NSS_CPU_UPLOAD
    } else {
        0u8
    }) | (if rule.download_bps != 0 {
        NSS_CPU_DOWNLOAD
    } else {
        0u8
    })
}

/// One step of building a direction map: filing `v` under `key` where it is
/// not empty turns a map that agrees with `before_of` into one that agrees
/// with `after_of`.
proof fn lemma_file_step(
    before: Seq<NamedView<u8>>,
    after: Seq<NamedView<u8>>,
    key: Seq<char>,
    v: u8,
    before_of: spec_fn(Seq<char>) -> Option<u8>,
    after_of: spec_fn(Seq<char>) -> Option<u8>,
)
    requires
        v != 0 ==> after == name_upsert(before, key, v),
        v == 0 ==> after == before,
        forall|n: Seq<char>| #[trigger] name_lookup(before, n) == before_of(n),
        after_of(key) == nonzero(v),
        before_of(key) is None,
        forall|n: Seq<char>| n != key ==> #[trigger] after_of(n) == before_of(n),
    ensures
        forall|n: Seq<char>| #[trigger] name_lookup(after, n) == after_of(n),
{
    lemma_name_upsert_lookup(before, key, v);
    assert forall|n: Seq<char>| #[trigger] name_lookup(after, n) == after_of(n) by {
        if n != key {
            assert(after_of(n) == before_of(n));
            assert(name_lookup(before, n) == before_of(n));
        } else {
            assert(name_lookup(before, key) == before_of(key));
        }
    }
}

impl NssControlState {
    /// Folds one probe window into the path state of every client with a
    /// rule, and says whether the proven executor paths changed.
    pub fn observe_nss_paths(
        &mut self,
        rules: &Vec<ControlRule>,
        result: &ApplyResult,
        observations: &Vec<Named<NssPathObservation>>,
    ) -> (executor_changed: bool)
        requires
            rule_keys_distinct(rules@),
        ensures
            forall|n: Seq<char>|
                #[trigger] name_lookup(final(self)@.proven, n) == nonzero(
                    observed_dirs(rules@, old(self)@, *result, names_view(observations@), n).proven,
                ),
            forall|n: Seq<char>|
                #[trigger] name_lookup(final(self)@.path_ready, n) == nonzero(
                    observed_dirs(
                        rules@,
                        old(self)@,
                        *result,
                        names_view(observations@),
                        n,
                    ).path_ready,
                ),
            forall|n: Seq<char>|
                #[trigger] name_lookup(final(self)@.cpu, n) == nonzero(
                    observed_dirs(rules@, old(self)@, *result, names_view(observations@), n).cpu,
                ),
            forall|n: Seq<char>|
                #[trigger] name_lookup(final(self)@.active_nss, n) == nonzero(
                    observed_dirs(
                        rules@,
                        old(self)@,
                        *result,
                        names_view(observations@),
                        n,
                    ).active_nss,
                ),
            forall|n: Seq<char>|
                #[trigger] name_lookup(final(self)@.active_cpu, n) == nonzero(
                    observed_dirs(
                        rules@,
                        old(self)@,
                        *result,
                        names_view(observations@),
                        n,
                    ).active_cpu,
                ),
            executor_changed == !(forall|n: Seq<char>|
                #![trigger name_lookup(old(self)@.proven, n)]
                #![trigger name_lookup(old(self)@.cpu, n)]
                name_lookup(old(self)@.proven, n) == nonzero(
                    observed_dirs(rules@, old(self)@, *result, names_view(observations@), n).proven,
                ) && name_lookup(old(self)@.cpu, n) == nonzero(
                    observed_dirs(rules@, old(self)@, *result, names_view(observations@), n).cpu,
                )),
            final(self).nss_attachment_generations@ == old(self).nss_attachment_generations@,
            final(self).nss_reload_attachment_rebase_pending
                == old(self).nss_reload_attachment_rebase_pending,
    {
        let ghost v0 = self@;
        let ghost obs = names_view(observations@);
        let mut proven: Vec<Named<u8>> = Vec::new();
        let mut ready: Vec<Named<u8>> = Vec::new();
        let mut cpu: Vec<Named<u8>> = Vec::new();
        let mut active_nss: Vec<Named<u8>> = Vec::new();
        let mut active_cpu: Vec<Named<u8>> = Vec::new();
        let mut i: usize = 0;
        while i < rules.len()
            invariant
                i <= rules.len(),
                rule_keys_distinct(rules@),
                self@ == v0,
                v0 == old(self)@,
                obs == names_view(observations@),
                forall|n: Seq<char>|
                    #[trigger] name_lookup(names_view(proven@), n) == nonzero(
                        observed_dirs(rules@.take(i as int), v0, *result, obs, n).proven,
                    ),
                forall|n: Seq<char>|
                    #[trigger] name_lookup(names_view(ready@), n) == nonzero(
                        observed_dirs(rules@.take(i as int), v0, *result, obs, n).path_ready,
                    ),
                forall|n: Seq<char>|
                    #[trigger] name_lookup(names_view(cpu@), n) == nonzero(
                        observed_dirs(rules@.take(i as int), v0, *result, obs, n).cpu,
                    ),
                forall|n: Seq<char>|
                    #[trigger] name_lookup(names_view(active_nss@), n) == nonzero(
                        observed_dirs(rules@.take(i as int), v0, *result, obs, n).active_nss,
                    ),
                forall|n: Seq<char>|
                    #[trigger] name_lookup(names_view(active_cpu@), n) == nonzero(
                        observed_dirs(rules@.take(i as int), v0, *result, obs, n).active_cpu,
                    ),
            decreases rules.len() - i,
        {
            let rule = &rules[i];
            let key = &rule.identity_key;
            let conf = rule_direction_bits(rule);
            let prev = PathDirections {
                proven: dir_get(&self.nss_proven_directions, key),
                path_ready: dir_get(&self.nss_path_ready_directions, key),
                cpu: dir_get(&self.nss_cpu_directions, key),
                active_nss: dir_get(&self.nss_active_nss_directions, key),
                active_cpu: dir_get(&self.nss_active_cpu_directions, key),
            };
            let nss_verified = dir_get(&result.nss_verified_directions, key);
            let cpu_verified = dir_get(&result.cpu_verified_directions, key);
            let observation = observation_for(observations, key);
            let next = path_step(conf, prev, nss_verified, cpu_verified, observation);
            let ghost before_take = rules@.take(i as int);
            let ghost after_take = rules@.take(i + 1);
            proof {
                assert(after_take.drop_last() =~= before_take);
                assert(after_take.last() == rules@[i as int]);
                assert(rule_for(after_take, key@) == Some(rules@[i as int]));
                assert forall|n: Seq<char>| n != key@ implies #[trigger] rule_for(after_take, n)
                    == rule_for(before_take, n) by {}
                lemma_rule_for_absent(before_take, key@);
                assert(observed_dirs(after_take, v0, *result, obs, key@) == next);
            }
            let ghost p0 = names_view(proven@);
            let ghost r0 = names_view(ready@);
            let ghost c0 = names_view(cpu@);
            let ghost an0 = names_view(active_nss@);
            let ghost ac0 = names_view(active_cpu@);
            if next.proven != 0 {
                upsert_name(&mut proven, key, next.proven);
            }
            if next.path_ready != 0 {
                upsert_name(&mut ready, key, next.path_ready);
            }
            if next.cpu != 0 {
                upsert_name(&mut cpu, key, next.cpu);
            }
            if next.active_nss != 0 {
                upsert_name(&mut active_nss, key, next.active_nss);
            }
            if next.active_cpu != 0 {
                upsert_name(&mut active_cpu, key, next.active_cpu);
            }
            proof {
                lemma_file_step(
                    p0,
                    names_view(proven@),
                    key@,
                    next.proven,
                    |n: Seq<char>| nonzero(observed_dirs(before_take, v0, *result, obs, n).proven),
                    |n: Seq<char>| nonzero(observed_dirs(after_take, v0, *result, obs, n).proven),
                );
                lemma_file_step(
                    r0,
                    names_view(ready@),
                    key@,
                    next.path_ready,
                    |n: Seq<char>|
                        nonzero(observed_dirs(before_take, v0, *result, obs, n).path_ready),
                    |n: Seq<char>|
                        nonzero(observed_dirs(after_take, v0, *result, obs, n).path_ready),
                );
                lemma_file_step(
                    c0,
                    names_view(cpu@),
                    key@,
                    next.cpu,
                    |n: Seq<char>| nonzero(observed_dirs(before_take, v0, *result, obs, n).cpu),
                    |n: Seq<char>| nonzero(observed_dirs(after_take, v0, *result, obs, n).cpu),
                );
                lemma_file_step(
                    an0,
                    names_view(active_nss@),
                    key@,
                    next.active_nss,
                    |n: Seq<char>|
                        nonzero(observed_dirs(before_take, v0, *result, obs, n).active_nss),
                    |n: Seq<char>|
                        nonzero(observed_dirs(after_take, v0, *result, obs, n).active_nss),
                );
                lemma_file_step(
                    ac0,
                    names_view(active_cpu@),
                    key@,
                    next.active_cpu,
                    |n: Seq<char>|
                        nonzero(observed_dirs(before_take, v0, *result, obs, n).active_cpu),
                    |n: Seq<char>|
                        nonzero(observed_dirs(after_take, v0, *result, obs, n).active_cpu),
                );
            }
            i += 1;
        }
        proof {
            assert(rules@.take(rules.len() as int) =~= rules@);
        }
        let changed = !same_dirs(&self.nss_proven_directions, &proven) || !same_dirs(
            &self.nss_cpu_directions,
            &cpu,
        );
        self.nss_path_ready_directions = ready;
        self.nss_active_nss_directions = active_nss;
        self.nss_active_cpu_directions = active_cpu;
        if changed {
            self.nss_proven_directions = proven;
            self.nss_cpu_directions = cpu;
        }
        changed
    }
}


/// How many of the two directions a set holds.
pub open spec fn dir_count(x: u8) -> nat {
    (if x & 1u8 != 0 {
        1nat
    } else {
        0nat
    }) + (if x & 2u8 != 0 {
        1nat
    } else {
        0nat
    })
}

fn dir_count_exec(x: u8) -> (r: u32)
    ensures
        r == dir_count(x),
{
    (if x & 1u8 != 0 {
        1u32
    } else {
        0u32
    }) + (if x & 2u8 != 0 {
        1u32
    } else {
        0u32
    })
}

/// The live client filed under `name`.
pub open spec fn live_for(live: Seq<LiveClient>, name: Seq<char>) -> Option<LiveClient> {
    if exists|i: int| 0 <= i < live.len() && live[i].identity_key@ == name {
        Some(live[choose|i: int| 0 <= i < live.len() && live[i].identity_key@ == name])
    } else {
        None
    }
}

/// No two live clients share an identity.
pub open spec fn live_keys_distinct(live: Seq<LiveClient>) -> bool {
    forall|i: int, j: int|
        0 <= i < j < live.len() ==> live[i].identity_key@ != live[j].identity_key@
}

fn find_live<'a>(live: &'a Vec<LiveClient>, name: &String) -> (r: Option<&'a LiveClient>)
    requires
        live_keys_distinct(live@),
    ensures
        match r {
            Some(l) => live_for(live@, name@) == Some(*l),
            None => live_for(live@, name@) is None,
        },
{
    let mut i: usize = 0;
    while i < live.len()
        invariant
            i <= live.len(),
            live_keys_distinct(live@),
            forall|j: int| 0 <= j < i ==> live@[j].identity_key@ != name@,
        decreases live.len() - i,
    {
        if crate::text::str_eq(live[i].identity_key.as_str(), name.as_str()) {
            proof {
                let c = choose|c: int| 0 <= c < live@.len() && live@[c].identity_key@ == name@;
                if c > i {
                    assert(live@[i as int].identity_key@ != live@[c].identity_key@);
                }
            }
            return Some(&live[i]);
        }
        i += 1;
    }
    None
}

/// The counts the accelerated control reports, over the rules seen so far.
pub struct DiagTally {
    pub active: nat,
    pub effective: nat,
    pub pending: nat,
    pub error: nat,
    pub queue_overflow: nat,
    pub rate_limited: nat,
    pub internet_disabled: nat,
    pub block_active: nat,
    pub required: nat,
    pub verified: nat,
    pub nss_verified: nat,
    pub cpu_verified: nat,
    pub pending_reason: Option<Seq<char>>,
    pub error_detail: Option<Seq<char>>,
}

pub open spec fn one_if(b: bool) -> nat {
    if b {
        1nat
    } else {
        0nat
    }
}

/// What one rule adds to the tally. Every rule counts towards the rate
/// limited and Internet disabled clients; a rule whose client is live also
/// counts by its shown state, its directions, and the first reason of each
/// kind.
pub open spec fn tally_step(
    t: DiagTally,
    rule: ControlRule,
    live: Option<LiveClient>,
    result: ApplyResult,
    preempted: Seq<Seq<char>>,
    dae_empty: bool,
) -> DiagTally {
    let key = rule.identity_key@;
    let t1 = DiagTally {
        rate_limited: t.rate_limited + one_if(rule.upload_bps != 0 || rule.download_bps != 0),
        internet_disabled: t.internet_disabled + one_if(rule.internet_disabled),
        ..t
    };
    if live is None {
        t1
    } else {
        let st = summary_state(ControlPlatform::Nss, Some(rule), live, result, key, preempted, dae_empty);
        let required = required_directions(rule);
        let verified = dir_value(names_view(result.verified_directions@), key) & required;
        let nss_verified = dir_value(names_view(result.nss_verified_directions@), key) & required;
        let cpu_verified = dir_value(names_view(result.cpu_verified_directions@), key) & required;
        let overflow = lookup_in(result.verification_failures@, key) matches Some(f) && f@
            == "queue_overflow"@;
        let effective = st.0 == "verified"@ || st.0 == "applied"@;
        let failed = st.0 == "error"@ || st.0 == "unsupported"@;
        let blocking = rule.internet_disabled && (st.0 == "applied"@ || st.0 == "verified"@ || st.0
            == "pending_new_connections"@);
        DiagTally {
            active: t1.active + 1,
            effective: t1.effective + one_if(effective),
            pending: t1.pending + one_if(!effective && !failed),
            error: t1.error + one_if(failed),
            queue_overflow: t1.queue_overflow + one_if(overflow),
            block_active: t1.block_active + one_if(blocking),
            required: t1.required + dir_count(required),
            verified: t1.verified + dir_count(verified),
            nss_verified: t1.nss_verified + dir_count(nss_verified),
            cpu_verified: t1.cpu_verified + dir_count(cpu_verified),
            pending_reason: if !effective && !failed && t1.pending_reason is None {
                st.1
            } else {
                t1.pending_reason
            },
            error_detail: if failed && t1.error_detail is None {
                st.1
            } else {
                t1.error_detail
            },
            ..t1
        }
    }
}

/// The tally over `rules`, in order.
pub open spec fn diag_tally(
    rules: Seq<ControlRule>,
    live: Seq<LiveClient>,
    result: ApplyResult,
    preempted: Seq<Seq<char>>,
    dae_empty: bool,
) -> DiagTally
    decreases rules.len(),
{
    if rules.len() == 0 {
        DiagTally {
            active: 0,
            effective: 0,
            pending: 0,
            error: 0,
            queue_overflow: 0,
            rate_limited: 0,
            internet_disabled: 0,
            block_active: 0,
            required: 0,
            verified: 0,
            nss_verified: 0,
            cpu_verified: 0,
            pending_reason: None,
            error_detail: None,
        }
    } else {
        tally_step(
            diag_tally(rules.drop_last(), live, result, preempted, dae_empty),
            rules.last(),
            live_for(live, rules.last().identity_key@),
            result,
            preempted,
            dae_empty,
        )
    }
}

/// What the accelerated control reports of itself as a whole.
#[derive(Clone, Debug, Eq, PartialEq)]
pub struct NssControlDiagnostics {
    pub state: String,
    pub reason_code: Option<String>,
    pub detail_code: Option<String>,
    pub shaping_supported: bool,
    pub blocking_supported: bool,
    pub configured_clients: usize,
    pub active_clients: usize,
    pub effective_clients: usize,
    pub pending_clients: usize,
    pub error_clients: usize,
    pub queue_overflow_clients: usize,
    pub rate_limited_clients: usize,
    pub internet_disabled_clients: usize,
    pub block_active_clients: usize,
    pub required_directions: u32,
    pub verified_directions: u32,
    pub nss_verified_directions: u32,
    pub cpu_verified_directions: u32,
}

/// The overall state and reason: unavailable without any kind of control,
/// else inactive without rules, an error where a client failed, inactive
/// without a live client, pending while a client or a direction waits (with
/// the first pending client's reason where it is a safe code), and verified
/// otherwise.
pub open spec fn diag_state(
    supported: bool,
    configured: nat,
    t: DiagTally,
) -> (Seq<char>, Option<Seq<char>>) {
    if !supported {
        ("unavailable"@, Some("nss_client_control_unavailable"@))
    } else if configured == 0 {
        ("inactive"@, Some("nss_control_not_configured"@))
    } else if t.error != 0 {
        ("error"@, Some("nss_control_executor_failed"@))
    } else if t.active == 0 {
        ("inactive"@, Some("nss_control_no_active_client"@))
    } else if t.pending != 0 || t.verified < t.required {
        (
            "pending"@,
            match t.pending_reason {
                Some(r) => if is_safe_code(r) {
                    Some(r)
                } else {
                    Some("nss_control_verification_pending"@)
                },
                None => Some("nss_control_verification_pending"@),
            },
        )
    } else {
        ("verified"@, None)
    }
}

fn take_safe(code: &Option<String>) -> (r: Option<String>)
    ensures
        option_text(r) == match option_text(*code) {
            Some(c) => if is_safe_code(c) {
                Some(c)
            } else {
                None
            },
            None => None,
        },
{
    match code {
        Some(c) => match safe_control_diagnostic_code(c.as_str()) {
            Some(x) => Some(x.to_owned()),
            None => None,
        },
        None => None,
    }
}

/// A running tally, in machine integers.
struct Tally {
    active: usize,
    effective: usize,
    pending: usize,
    errors: usize,
    overflow: usize,
    rate_limited: usize,
    disabled: usize,
    block_active: usize,
    required: u32,
    verified: u32,
    nss_verified: u32,
    cpu_verified: u32,
    pending_reason: Option<String>,
    error_detail: Option<String>,
}

spec fn tally_view(t: Tally) -> DiagTally {
    DiagTally {
        active: t.active as nat,
        effective: t.effective as nat,
        pending: t.pending as nat,
        error: t.errors as nat,
        queue_overflow: t.overflow as nat,
        rate_limited: t.rate_limited as nat,
        internet_disabled: t.disabled as nat,
        block_active: t.block_active as nat,
        required: t.required as nat,
        verified: t.verified as nat,
        nss_verified: t.nss_verified as nat,
        cpu_verified: t.cpu_verified as nat,
        pending_reason: option_text(t.pending_reason),
        error_detail: option_text(t.error_detail),
    }
}

/// The tally after `n` rules stays within what `n` rules can add.
spec fn tally_bounded(t: Tally, n: int) -> bool {
    &&& t.active <= n
    &&& t.effective <= n
    &&& t.pending <= n
    &&& t.errors <= n
    &&& t.overflow <= n
    &&& t.rate_limited <= n
    &&& t.disabled <= n
    &&& t.block_active <= n
    &&& t.required <= 2 * n
    &&& t.verified <= 2 * n
    &&& t.nss_verified <= 2 * n
    &&& t.cpu_verified <= 2 * n
}

fn clone_text_opt(o: &Option<String>) -> (r: Option<String>)
    ensures
        option_text(r) == option_text(*o),
{
    match o {
        Some(x) => Some(x.clone()),
        None => None,
    }
}

fn add_rule(
    t: &mut Tally,
    n: usize,
    rule: &ControlRule,
    live: Option<&LiveClient>,
    result: &ApplyResult,
    preempted_upload_devices: &Vec<String>,
    dae_upload_devices: &Vec<String>,
    max_rate_bps: u64,
)
    requires
        tally_bounded(*old(t), n as int),
        n < 0x7fff_ffff,
    ensures
        tally_bounded(*final(t), n + 1),
        tally_view(*final(t)) == tally_step(
            tally_view(*old(t)),
            *rule,
            match live {
                Some(l) => Some(*l),
                None => None,
            },
            *result,
            texts(preempted_upload_devices@),
            dae_upload_devices@.len() == 0,
        ),
{
    let key = &rule.identity_key;
    if rule.upload_bps != 0 || rule.download_bps != 0 {
        t.rate_limited += 1;
    }
    if rule.internet_disabled {
        t.disabled += 1;
    }
    let l = match live {
        Some(l) => l,
        None => {
            return;
        },
    };
    t.active += 1;
    let summary = control_summary(
        Some(rule),
        Some(l),
        result,
        key,
        preempted_upload_devices,
        dae_upload_devices,
        max_rate_bps,
        ControlPlatform::Nss,
    );
    let req: u8 = (if rule.upload_bps != 0 {
        1u8
    } else {
        0u8
    }) | (if rule.download_bps != 0 {
        2u8
    } else {
        0u8
    });
    let v = dir_get(&result.verified_directions, key) & req;
    let nv = dir_get(&result.nss_verified_directions, key) & req;
    let cv = dir_get(&result.cpu_verified_directions, key) & req;
    t.required = t.required + dir_count_exec(req);
    t.verified = t.verified + dir_count_exec(v);
    t.nss_verified = t.nss_verified + dir_count_exec(nv);
    t.cpu_verified = t.cpu_verified + dir_count_exec(cv);
    let state = summary.state.as_str();
    let is_effective = crate::text::str_eq(state, "verified") || crate::text::str_eq(
        state,
        "applied",
    );
    let is_failed = crate::text::str_eq(state, "error") || crate::text::str_eq(state, "unsupported");
    if rule.internet_disabled && (crate::text::str_eq(state, "applied") || crate::text::str_eq(
        state,
        "verified",
    ) || crate::text::str_eq(state, "pending_new_connections")) {
        t.block_active += 1;
    }
    if summary.queue_overflow {
        t.overflow += 1;
    }
    if is_effective {
        t.effective += 1;
    }
    if is_failed {
        t.errors += 1;
        if t.error_detail.is_none() {
            t.error_detail = clone_text_opt(&summary.reason);
        }
    }
    if !is_effective && !is_failed {
        t.pending += 1;
        if t.pending_reason.is_none() {
            t.pending_reason = clone_text_opt(&summary.reason);
        }
    }
}

/// The report of the accelerated control over all rules and live clients.
pub fn nss_control_diagnostics(
    rules: &Vec<ControlRule>,
    live: &Vec<LiveClient>,
    result: &ApplyResult,
    preempted_upload_devices: &Vec<String>,
    dae_upload_devices: &Vec<String>,
    max_rate_bps: u64,
) -> (r: NssControlDiagnostics)
    requires
        live_keys_distinct(live@),
        rules.len() < 0x7fff_ffff,
    ensures
        ({
            let t = diag_tally(
                rules@,
                live@,
                *result,
                texts(preempted_upload_devices@),
                dae_upload_devices@.len() == 0,
            );
            let st = diag_state(
                result.shaping_supported || result.blocking_supported,
                rules@.len(),
                t,
            );
            &&& r.state@ == st.0
            &&& option_text(r.reason_code) == st.1
            &&& option_text(r.detail_code) == match t.error_detail {
                Some(d) => if is_safe_code(d) {
                    Some(d)
                } else {
                    None
                },
                None => None,
            }
            &&& r.shaping_supported == result.shaping_supported
            &&& r.blocking_supported == result.blocking_supported
            &&& r.configured_clients == rules@.len()
            &&& r.active_clients == t.active
            &&& r.effective_clients == t.effective
            &&& r.pending_clients == t.pending
            &&& r.error_clients == t.error
            &&& r.queue_overflow_clients == t.queue_overflow
            &&& r.rate_limited_clients == t.rate_limited
            &&& r.internet_disabled_clients == t.internet_disabled
            &&& r.block_active_clients == t.block_active
            &&& r.required_directions == t.required
            &&& r.verified_directions == t.verified
            &&& r.nss_verified_directions == t.nss_verified
            &&& r.cpu_verified_directions == t.cpu_verified
        }),
{
    let ghost pre = texts(preempted_upload_devices@);
    let ghost dae_empty = dae_upload_devices@.len() == 0;
    let mut t = Tally {
        active: 0,
        effective: 0,
        pending: 0,
        errors: 0,
        overflow: 0,
        rate_limited: 0,
        disabled: 0,
        block_active: 0,
        required: 0,
        verified: 0,
        nss_verified: 0,
        cpu_verified: 0,
        pending_reason: None,
        error_detail: None,
    };
    let mut i: usize = 0;
    while i < rules.len()
        invariant
            i <= rules.len(),
            rules.len() < 0x7fff_ffff,
            live_keys_distinct(live@),
            pre == texts(preempted_upload_devices@),
            dae_empty == (dae_upload_devices@.len() == 0),
            tally_view(t) == diag_tally(rules@.take(i as int), live@, *result, pre, dae_empty),
            tally_bounded(t, i as int),
        decreases rules.len() - i,
    {
        proof {
            assert(rules@.take(i + 1).drop_last() =~= rules@.take(i as int));
            assert(rules@.take(i + 1).last() == rules@[i as int]);
        }
        let l = find_live(live, &rules[i].identity_key);
        add_rule(
            &mut t,
            i,
            &rules[i],
            l,
            result,
            preempted_upload_devices,
            dae_upload_devices,
            max_rate_bps,
        );
        i += 1;
    }
    proof {
        assert(rules@.take(rules.len() as int) =~= rules@);
    }
    let supported = result.shaping_supported || result.blocking_supported;
    let (state, reason_code): (&str, Option<String>) = if !supported {
        ("unavailable", Some("nss_client_control_unavailable".to_owned()))
    } else if rules.len() == 0 {
        ("inactive", Some("nss_control_not_configured".to_owned()))
    } else if t.errors != 0 {
        ("error", Some("nss_control_executor_failed".to_owned()))
    } else if t.active == 0 {
        ("inactive", Some("nss_control_no_active_client".to_owned()))
    } else if t.pending != 0 || t.verified < t.required {
        let code = match take_safe(&t.pending_reason) {
            Some(c) => Some(c),
            None => Some("nss_control_verification_pending".to_owned()),
        };
        ("pending", code)
    } else {
        ("verified", None)
    };
    NssControlDiagnostics {
        state: state.to_owned(),
        reason_code,
        detail_code: take_safe(&t.error_detail),
        shaping_supported: result.shaping_supported,
        blocking_supported: result.blocking_supported,
        configured_clients: rules.len(),
        active_clients: t.active,
        effective_clients: t.effective,
        pending_clients: t.pending,
        error_clients: t.errors,
        queue_overflow_clients: t.overflow,
        rate_limited_clients: t.rate_limited,
        internet_disabled_clients: t.disabled,
        block_active_clients: t.block_active,
        required_directions: t.required,
        verified_directions: t.verified,
        nss_verified_directions: t.nss_verified,
        cpu_verified_directions: t.cpu_verified,
    }
}

} // verus!

verus! {

/// A path step never holds a direction the rule does not control, keeps a
/// path ready only where it is proven or runs on the CPU, and never leaves a
/// direction pending on a path where it is already verified.
pub proof fn lemma_path_step_within_rule(
    conf: u8,
    prev: PathDirections,
    nss_verified: u8,
    cpu_verified: u8,
    observation: Option<NssPathObservation>,
)
    ensures
        ({
            let r = spec_path_step(conf, prev, nss_verified, cpu_verified, observation);
            &&& r.proven & !conf == 0
            &&& r.cpu & !conf == 0
            &&& r.path_ready & !(r.proven | r.cpu) == 0
            &&& r.active_nss & !conf == 0
            &&& r.active_cpu & !conf == 0
            &&& r.active_nss & nss_verified == 0
            &&& r.active_cpu & cpu_verified == 0
        }),
{
    let (p, rd, c, an, ac) = (prev.proven, prev.path_ready, prev.cpu, prev.active_nss, prev.active_cpu);
    assert((NSS_CPU_UPLOAD | NSS_CPU_DOWNLOAD) == 3u8) by (bit_vector);
    match observation {
        None => {
            assert((p & conf) & !conf == 0 && (c & conf) & !conf == 0 && (rd & conf & ((p & conf) | (
                c & conf))) & !((p & conf) | (c & conf)) == 0 && (an & conf & !nss_verified) & !conf
                == 0 && (ac & conf & !cpu_verified) & !conf == 0 && (an & conf & !nss_verified)
                & nss_verified == 0 && (ac & conf & !cpu_verified) & cpu_verified == 0)
                by (bit_vector);
        },
        Some(o) => {
            let (v, a, pr, n, cp) = (
                o.valid_directions,
                o.active_directions,
                o.proven_directions,
                o.nss_directions,
                o.cpu_directions,
            );
            assert({
                let proven = p & conf;
                let cpu = c & conf;
                let ready = rd & conf & (proven | cpu);
                let pending_nss = an & conf & !nss_verified;
                let pending_cpu = ac & conf & !cpu_verified;
                let active = a & (v & 3u8) & conf;
                let newly_proven = pr & active;
                let newly_nss = n & active;
                let newly_cpu = cp & active;
                let cpu2 = (cpu | newly_cpu) & conf;
                let direct = (proven | newly_nss) & conf;
                let ready2 = (ready | newly_proven) & (direct | cpu2);
                let an2 = pending_nss | (newly_nss & !nss_verified);
                let ac2 = pending_cpu | (newly_cpu & !cpu_verified);
                &&& direct & !conf == 0
                &&& cpu2 & !conf == 0
                &&& ready2 & !(direct | cpu2) == 0
                &&& an2 & !conf == 0
                &&& ac2 & !conf == 0
                &&& an2 & nss_verified == 0
                &&& ac2 & cpu_verified == 0
            }) by (bit_vector);
        },
    }
}

} // verus!

verus! {

/// `lookup` after appending `x`: an earlier entry wins.
pub proof fn lemma_lookup_push<T>(s: Seq<NamedView<T>>, x: NamedView<T>, m: Seq<char>)
    ensures
        name_lookup(s.push(x), m) == (if name_lookup(s, m) is Some {
            name_lookup(s, m)
        } else if x.name == m {
            Some(x.value)
        } else {
            None
        }),
{
    let t = s.push(x);
    let i = crate::keyed::name_index(s, m);
    if i >= 0 {
        assert(crate::keyed::is_first_name(s, m, i));
        assert(crate::keyed::is_first_name(t, m, i));
        crate::keyed::lemma_name_index_found(t, m, i);
    } else {
        assert forall|j: int| 0 <= j < s.len() implies s[j].name != m by {
            if s[j].name == m {
                lemma_name_has_first(s, m, j);
            }
        }
        if x.name == m {
            assert(crate::keyed::is_first_name(t, m, s.len() as int));
            crate::keyed::lemma_name_index_found(t, m, s.len() as int);
        } else {
            crate::keyed::lemma_name_index_absent(t, m);
        }
    }
}

/// Removes every entry filed under `name`.
pub fn remove_named(v: &mut Vec<Named<u8>>, name: &String)
    ensures
        forall|m: Seq<char>|
            #[trigger] name_lookup(names_view(final(v)@), m) == if m == name@ {
                None
            } else {
                name_lookup(names_view(old(v)@), m)
            },
{
    let ghost src = names_view(v@);
    let mut kept: Vec<Named<u8>> = Vec::new();
    let mut i: usize = 0;
    while i < v.len()
        invariant
            i <= v.len(),
            src == names_view(v@),
            forall|m: Seq<char>|
                #[trigger] name_lookup(names_view(kept@), m) == if m == name@ {
                    None
                } else {
                    name_lookup(src.take(i as int), m)
                },
        decreases v.len() - i,
    {
        let ghost cur = src.take(i as int);
        let ghost nxt = src.take(i + 1);
        let ghost before = names_view(kept@);
        proof {
            assert(nxt =~= cur.push(src[i as int]));
        }
        if !crate::text::str_eq(v[i].name.as_str(), name.as_str()) {
            let e = Named { name: v[i].name.clone(), value: v[i].value };
            proof {
                assert(names_view(kept@.push(e)) =~= before.push(e@));
            }
            kept.push(e);
            proof {
                assert forall|m: Seq<char>| #[trigger] name_lookup(names_view(kept@), m) == if m == name@ {
                    None
                } else {
                    name_lookup(nxt, m)
                } by {
                    lemma_lookup_push(before, e@, m);
                    lemma_lookup_push(cur, src[i as int], m);
                }
            }
        } else {
            proof {
                assert forall|m: Seq<char>| #[trigger] name_lookup(names_view(kept@), m) == if m == name@ {
                    None
                } else {
                    name_lookup(nxt, m)
                } by {
                    lemma_lookup_push(cur, src[i as int], m);
                }
            }
        }
        i += 1;
    }
    proof {
        assert(src.take(v.len() as int) =~= src);
    }
    *v = kept;
}

/// The edge and generation filed under `name`.
pub open spec fn generation_of(m: Seq<NamedView<(String, u64)>>, name: Seq<char>) -> Option<(Seq<char>, u64)> {
    match name_lookup(m, name) {
        Some(g) => Some((g.0@, g.1)),
        None => None,
    }
}

/// Whether a client's path proof is void after the attachment observation:
/// a rule names it, its attachment changed (other than the one generation
/// change on the same edge that a reload may rebase), and it held proof.
pub open spec fn attachment_invalidates(
    rules: Seq<ControlRule>,
    v: NssStateView,
    result: ApplyResult,
    previous: Seq<NamedView<(String, u64)>>,
    rebase: bool,
    next: Seq<NamedView<(String, u64)>>,
    name: Seq<char>,
) -> bool {
    let p = generation_of(previous, name);
    let c = generation_of(next, name);
    let same_edge = match (p, c) {
        (Some(a), Some(b)) => a.0 == b.0,
        _ => false,
    };
    let reload_generation_only = rebase && same_edge;
    &&& rule_for(rules, name) is Some
    &&& p != c
    &&& !reload_generation_only
    &&& (name_lookup(v.proven, name) is Some || name_lookup(v.path_ready, name) is Some
        || name_lookup(v.cpu, name) is Some || name_lookup(
        names_view(result.verified_directions@),
        name,
    ) is Some)
}

fn generation_get(m: &Vec<Named<(String, u64)>>, name: &String) -> (r: Option<(String, u64)>)
    ensures
        match r {
            Some(g) => generation_of(names_view(m@), name@) == Some((g.0@, g.1)),
            None => generation_of(names_view(m@), name@) is None,
        },
{
    match find_name(m, name) {
        Some(i) => Some((m[i].value.0.clone(), m[i].value.1)),
        None => None,
    }
}

fn holds_name(m: &Vec<Named<u8>>, name: &String) -> (r: bool)
    ensures
        r == name_lookup(names_view(m@), name@) is Some,
{
    find_name(m, name).is_some()
}

/// The directions a structural rebuild re-arms for one client: those of
/// its ready path that were proven on the accelerated path, and those that
/// ran on the CPU.
pub open spec fn rearmed_dirs(rules: Seq<ControlRule>, v: NssStateView, name: Seq<char>) -> (u8, u8) {
    match rule_for(rules, name) {
        Some(rule) => {
            let ready = dir_value(v.path_ready, name) & direction_bits(rule);
            (dir_value(v.proven, name) & ready, dir_value(v.cpu, name) & ready)
        },
        None => (0u8, 0u8),
    }
}

impl NssControlState {
    /// After a structural rebuild, marks verification pending again only for
    /// executors whose path was already proven and ready.
    pub fn rearm_nss_executor_verification(&mut self, rules: &Vec<ControlRule>)
        requires
            rule_keys_distinct(rules@),
        ensures
            final(self)@.proven == old(self)@.proven,
            final(self)@.path_ready == old(self)@.path_ready,
            final(self)@.cpu == old(self)@.cpu,
            forall|n: Seq<char>|
                #[trigger] name_lookup(final(self)@.active_nss, n) == nonzero(
                    rearmed_dirs(rules@, old(self)@, n).0,
                ),
            forall|n: Seq<char>|
                #[trigger] name_lookup(final(self)@.active_cpu, n) == nonzero(
                    rearmed_dirs(rules@, old(self)@, n).1,
                ),
    {
        let ghost v0 = self@;
        let mut active_nss: Vec<Named<u8>> = Vec::new();
        let mut active_cpu: Vec<Named<u8>> = Vec::new();
        let mut i: usize = 0;
        while i < rules.len()
            invariant
                i <= rules.len(),
                rule_keys_distinct(rules@),
                self@ == v0,
                v0 == old(self)@,
                forall|n: Seq<char>|
                    #[trigger] name_lookup(names_view(active_nss@), n) == nonzero(
                        rearmed_dirs(rules@.take(i as int), v0, n).0,
                    ),
                forall|n: Seq<char>|
                    #[trigger] name_lookup(names_view(active_cpu@), n) == nonzero(
                        rearmed_dirs(rules@.take(i as int), v0, n).1,
                    ),
            decreases rules.len() - i,
        {
            let rule = &rules[i];
            let key = &rule.identity_key;
            let ready = dir_get(&self.nss_path_ready_directions, key) & rule_direction_bits(rule);
            let nss = dir_get(&self.nss_proven_directions, key) & ready;
            let cpu = dir_get(&self.nss_cpu_directions, key) & ready;
            let ghost before_take = rules@.take(i as int);
            let ghost after_take = rules@.take(i + 1);
            proof {
                assert(after_take.drop_last() =~= before_take);
                assert(after_take.last() == rules@[i as int]);
                assert forall|n: Seq<char>| n != key@ implies #[trigger] rule_for(after_take, n)
                    == rule_for(before_take, n) by {}
                lemma_rule_for_absent(before_take, key@);
            }
            let ghost a0 = names_view(active_nss@);
            let ghost c0 = names_view(active_cpu@);
            if nss != 0 {
                upsert_name(&mut active_nss, key, nss);
            }
            if cpu != 0 {
                upsert_name(&mut active_cpu, key, cpu);
            }
            proof {
                lemma_file_step(
                    a0,
                    names_view(active_nss@),
                    key@,
                    nss,
                    |n: Seq<char>| nonzero(rearmed_dirs(before_take, v0, n).0),
                    |n: Seq<char>| nonzero(rearmed_dirs(after_take, v0, n).0),
                );
                lemma_file_step(
                    c0,
                    names_view(active_cpu@),
                    key@,
                    cpu,
                    |n: Seq<char>| nonzero(rearmed_dirs(before_take, v0, n).1),
                    |n: Seq<char>| nonzero(rearmed_dirs(after_take, v0, n).1),
                );
            }
            i += 1;
        }
        proof {
            assert(rules@.take(rules.len() as int) =~= rules@);
        }
        self.nss_active_nss_directions = active_nss;
        self.nss_active_cpu_directions = active_cpu;
    }
}


impl NssControlState {
    /// Takes the clients' current attachments. A client whose attachment
    /// changed loses every path proof and verification it held, unless a
    /// reload is rebasing and only the generation moved on the same edge.
    /// Says whether any client lost proof.
    pub fn observe_nss_attachment_generations(
        &mut self,
        rules: &Vec<ControlRule>,
        result: &mut ApplyResult,
        next: Vec<Named<(String, u64)>>,
    ) -> (dirty: bool)
        requires
            rule_keys_distinct(rules@),
        ensures
            ({
                let previous = names_view(old(self).nss_attachment_generations@);
                let rebase = old(self).nss_reload_attachment_rebase_pending;
                let nx = names_view(next@);
                &&& forall|n: Seq<char>|
                    #[trigger] name_lookup(final(self)@.proven, n) == if attachment_invalidates(
                        rules@,
                        old(self)@,
                        *old(result),
                        previous,
                        rebase,
                        nx,
                        n,
                    ) {
                        None
                    } else {
                        name_lookup(old(self)@.proven, n)
                    }
                &&& forall|n: Seq<char>|
                    #[trigger] name_lookup(final(self)@.path_ready, n) == if attachment_invalidates(
                        rules@,
                        old(self)@,
                        *old(result),
                        previous,
                        rebase,
                        nx,
                        n,
                    ) {
                        None
                    } else {
                        name_lookup(old(self)@.path_ready, n)
                    }
                &&& forall|n: Seq<char>|
                    #[trigger] name_lookup(final(self)@.cpu, n) == if attachment_invalidates(
                        rules@,
                        old(self)@,
                        *old(result),
                        previous,
                        rebase,
                        nx,
                        n,
                    ) {
                        None
                    } else {
                        name_lookup(old(self)@.cpu, n)
                    }
                &&& forall|n: Seq<char>|
                    #[trigger] name_lookup(final(self)@.active_nss, n) == if attachment_invalidates(
                        rules@,
                        old(self)@,
                        *old(result),
                        previous,
                        rebase,
                        nx,
                        n,
                    ) {
                        None
                    } else {
                        name_lookup(old(self)@.active_nss, n)
                    }
                &&& forall|n: Seq<char>|
                    #[trigger] name_lookup(final(self)@.active_cpu, n) == if attachment_invalidates(
                        rules@,
                        old(self)@,
                        *old(result),
                        previous,
                        rebase,
                        nx,
                        n,
                    ) {
                        None
                    } else {
                        name_lookup(old(self)@.active_cpu, n)
                    }
                &&& forall|n: Seq<char>|
                    #[trigger] name_lookup(names_view(final(result).verified_directions@), n)
                        == if attachment_invalidates(
                        rules@,
                        old(self)@,
                        *old(result),
                        previous,
                        rebase,
                        nx,
                        n,
                    ) {
                        None
                    } else {
                        name_lookup(names_view(old(result).verified_directions@), n)
                    }
                &&& forall|n: Seq<char>|
                    #[trigger] name_lookup(names_view(final(result).nss_verified_directions@), n)
                        == if attachment_invalidates(
                        rules@,
                        old(self)@,
                        *old(result),
                        previous,
                        rebase,
                        nx,
                        n,
                    ) {
                        None
                    } else {
                        name_lookup(names_view(old(result).nss_verified_directions@), n)
                    }
                &&& forall|n: Seq<char>|
                    #[trigger] name_lookup(names_view(final(result).cpu_verified_directions@), n)
                        == if attachment_invalidates(
                        rules@,
                        old(self)@,
                        *old(result),
                        previous,
                        rebase,
                        nx,
                        n,
                    ) {
                        None
                    } else {
                        name_lookup(names_view(old(result).cpu_verified_directions@), n)
                    }
                &&& dirty == exists|n: Seq<char>|
                    #[trigger] attachment_invalidates(
                        rules@,
                        old(self)@,
                        *old(result),
                        previous,
                        rebase,
                        nx,
                        n,
                    )
            }),
            !final(self).nss_reload_attachment_rebase_pending,
            final(self).nss_attachment_generations@ == next@,
    {
        let ghost v0 = self@;
        let ghost r0 = *result;
        let ghost previous = names_view(self.nss_attachment_generations@);
        let ghost nx = names_view(next@);
        let rebase = self.nss_reload_attachment_rebase_pending;
        let mut dirty = false;
        let mut i: usize = 0;
        while i < rules.len()
            invariant
                i <= rules.len(),
                rule_keys_distinct(rules@),
                v0 == old(self)@,
                r0 == *old(result),
                previous == names_view(self.nss_attachment_generations@),
                previous == names_view(old(self).nss_attachment_generations@),
                rebase == old(self).nss_reload_attachment_rebase_pending,
                nx == names_view(next@),
                forall|n: Seq<char>|
                    #[trigger] name_lookup(self@.proven, n) == if attachment_invalidates(
                        rules@.take(i as int),
                        v0,
                        r0,
                        previous,
                        rebase,
                        nx,
                        n,
                    ) {
                        None
                    } else {
                        name_lookup(v0.proven, n)
                    },
                forall|n: Seq<char>|
                    #[trigger] name_lookup(self@.path_ready, n) == if attachment_invalidates(
                        rules@.take(i as int),
                        v0,
                        r0,
                        previous,
                        rebase,
                        nx,
                        n,
                    ) {
                        None
                    } else {
                        name_lookup(v0.path_ready, n)
                    },
                forall|n: Seq<char>|
                    #[trigger] name_lookup(self@.cpu, n) == if attachment_invalidates(
                        rules@.take(i as int),
                        v0,
                        r0,
                        previous,
                        rebase,
                        nx,
                        n,
                    ) {
                        None
                    } else {
                        name_lookup(v0.cpu, n)
                    },
                forall|n: Seq<char>|
                    #[trigger] name_lookup(self@.active_nss, n) == if attachment_invalidates(
                        rules@.take(i as int),
                        v0,
                        r0,
                        previous,
                        rebase,
                        nx,
                        n,
                    ) {
                        None
                    } else {
                        name_lookup(v0.active_nss, n)
                    },
                forall|n: Seq<char>|
                    #[trigger] name_lookup(self@.active_cpu, n) == if attachment_invalidates(
                        rules@.take(i as int),
                        v0,
                        r0,
                        previous,
                        rebase,
                        nx,
                        n,
                    ) {
                        None
                    } else {
                        name_lookup(v0.active_cpu, n)
                    },
                forall|n: Seq<char>|
                    #[trigger] name_lookup(names_view(result.verified_directions@), n)
                        == if attachment_invalidates(
                        rules@.take(i as int),
                        v0,
                        r0,
                        previous,
                        rebase,
                        nx,
                        n,
                    ) {
                        None
                    } else {
                        name_lookup(names_view(r0.verified_directions@), n)
                    },
                forall|n: Seq<char>|
                    #[trigger] name_lookup(names_view(result.nss_verified_directions@), n)
                        == if attachment_invalidates(
                        rules@.take(i as int),
                        v0,
                        r0,
                        previous,
                        rebase,
                        nx,
                        n,
                    ) {
                        None
                    } else {
                        name_lookup(names_view(r0.nss_verified_directions@), n)
                    },
                forall|n: Seq<char>|
                    #[trigger] name_lookup(names_view(result.cpu_verified_directions@), n)
                        == if attachment_invalidates(
                        rules@.take(i as int),
                        v0,
                        r0,
                        previous,
                        rebase,
                        nx,
                        n,
                    ) {
                        None
                    } else {
                        name_lookup(names_view(r0.cpu_verified_directions@), n)
                    },
                dirty == exists|n: Seq<char>|
                    #[trigger] attachment_invalidates(
                        rules@.take(i as int),
                        v0,
                        r0,
                        previous,
                        rebase,
                        nx,
                        n,
                    ),
            decreases rules.len() - i,
        {
            let key = &rules[i].identity_key;
            let ghost before_take = rules@.take(i as int);
            let ghost after_take = rules@.take(i + 1);
            proof {
                assert(after_take.drop_last() =~= before_take);
                assert(after_take.last() == rules@[i as int]);
                assert forall|n: Seq<char>| n != key@ implies #[trigger] rule_for(after_take, n)
                    == rule_for(before_take, n) by {}
                lemma_rule_for_absent(before_take, key@);
                assert(rule_for(after_take, key@) is Some);
            }
            let prev = generation_get(&self.nss_attachment_generations, key);
            let cur = generation_get(&next, key);
            let (differ, same_edge) = match (&prev, &cur) {
                (Some(a), Some(b)) => {
                    let edge = crate::text::str_eq(a.0.as_str(), b.0.as_str());
                    (!(edge && a.1 == b.1), edge)
                },
                (None, None) => (false, false),
                _ => (true, false),
            };
            let held = holds_name(&self.nss_proven_directions, key) || holds_name(
                &self.nss_path_ready_directions,
                key,
            ) || holds_name(&self.nss_cpu_directions, key) || holds_name(
                &result.verified_directions,
                key,
            );
            let changed = differ && !(rebase && same_edge) && held;
            let ghost pre = self@;
            proof {
                assert(name_lookup(pre.active_nss, key@) == name_lookup(v0.active_nss, key@));
                assert(name_lookup(pre.active_cpu, key@) == name_lookup(v0.active_cpu, key@));
                assert(!attachment_invalidates(before_take, v0, r0, previous, rebase, nx, key@));
                assert(name_lookup(self@.proven, key@) == name_lookup(v0.proven, key@));
                assert(name_lookup(self@.path_ready, key@) == name_lookup(v0.path_ready, key@));
                assert(name_lookup(self@.cpu, key@) == name_lookup(v0.cpu, key@));
                assert(name_lookup(names_view(result.verified_directions@), key@) == name_lookup(
                    names_view(r0.verified_directions@),
                    key@,
                ));
                let p = generation_of(previous, key@);
                let c = generation_of(nx, key@);
                assert(differ == (p != c));
                assert(same_edge == (match (p, c) {
                    (Some(a), Some(b)) => a.0 == b.0,
                    _ => false,
                }));
                assert(changed == attachment_invalidates(after_take, v0, r0, previous, rebase, nx, key@));
                assert(!attachment_invalidates(before_take, v0, r0, previous, rebase, nx, key@));
                assert forall|n: Seq<char>| n != key@ implies #[trigger] attachment_invalidates(
                    after_take,
                    v0,
                    r0,
                    previous,
                    rebase,
                    nx,
                    n,
                ) == attachment_invalidates(before_take, v0, r0, previous, rebase, nx, n) by {}
            }
            if changed {
                remove_named(&mut self.nss_proven_directions, key);
                remove_named(&mut self.nss_path_ready_directions, key);
                remove_named(&mut self.nss_cpu_directions, key);
                remove_named(&mut self.nss_active_nss_directions, key);
                remove_named(&mut self.nss_active_cpu_directions, key);
                remove_named(&mut result.verified_directions, key);
                remove_named(&mut result.nss_verified_directions, key);
                remove_named(&mut result.cpu_verified_directions, key);
                dirty = true;
            }
            proof {
                assert forall|n: Seq<char>| #[trigger] name_lookup(self@.active_nss, n) == if attachment_invalidates(
                    after_take,
                    v0,
                    r0,
                    previous,
                    rebase,
                    nx,
                    n,
                ) {
                    None
                } else {
                    name_lookup(v0.active_nss, n)
                } by {
                    if n != key@ {
                        assert(attachment_invalidates(after_take, v0, r0, previous, rebase, nx, n)
                            == attachment_invalidates(before_take, v0, r0, previous, rebase, nx, n));
                        assert(name_lookup(pre.active_nss, n) == (if attachment_invalidates(
                            before_take,
                            v0,
                            r0,
                            previous,
                            rebase,
                            nx,
                            n,
                        ) {
                            None
                        } else {
                            name_lookup(v0.active_nss, n)
                        }));
                    }
                }
                assert forall|n: Seq<char>| #[trigger] name_lookup(self@.active_cpu, n) == if attachment_invalidates(
                    after_take,
                    v0,
                    r0,
                    previous,
                    rebase,
                    nx,
                    n,
                ) {
                    None
                } else {
                    name_lookup(v0.active_cpu, n)
                } by {
                    if n != key@ {
                        assert(attachment_invalidates(after_take, v0, r0, previous, rebase, nx, n)
                            == attachment_invalidates(before_take, v0, r0, previous, rebase, nx, n));
                        assert(name_lookup(pre.active_cpu, n) == (if attachment_invalidates(
                            before_take,
                            v0,
                            r0,
                            previous,
                            rebase,
                            nx,
                            n,
                        ) {
                            None
                        } else {
                            name_lookup(v0.active_cpu, n)
                        }));
                    }
                }
                if changed {
                    assert(attachment_invalidates(after_take, v0, r0, previous, rebase, nx, key@));
                } else {
                    if exists|n: Seq<char>| #[trigger] attachment_invalidates(after_take, v0, r0, previous, rebase, nx, n) {
                        let w = choose|n: Seq<char>| #[trigger] attachment_invalidates(after_take, v0, r0, previous, rebase, nx, n);
                        assert(w != key@);
                        assert(attachment_invalidates(before_take, v0, r0, previous, rebase, nx, w));
                    }
                    if exists|n: Seq<char>| #[trigger] attachment_invalidates(before_take, v0, r0, previous, rebase, nx, n) {
                        let w = choose|n: Seq<char>| #[trigger] attachment_invalidates(before_take, v0, r0, previous, rebase, nx, n);
                        assert(w != key@);
                        assert(attachment_invalidates(after_take, v0, r0, previous, rebase, nx, w));
                    }
                }
            }
            i += 1;
        }
        proof {
            assert(rules@.take(rules.len() as int) =~= rules@);
        }
        let ghost done = self@;
        self.nss_reload_attachment_rebase_pending = false;
        self.nss_attachment_generations = next;
        proof {
            assert(self@.proven == done.proven);
            assert(self@.path_ready == done.path_ready);
            assert(self@.cpu == done.cpu);
            assert(self@.active_nss == done.active_nss);
            assert(self@.active_cpu == done.active_cpu);
            assert(forall|n: Seq<char>|
                #[trigger] name_lookup(self@.proven, n) == if attachment_invalidates(
                    rules@,
                    v0,
                    r0,
                    previous,
                    rebase,
                    nx,
                    n,
                ) {
                    None
                } else {
                    name_lookup(v0.proven, n)
                });
            assert(dirty == exists|n: Seq<char>|
                #[trigger] attachment_invalidates(rules@, v0, r0, previous, rebase, nx, n));
        }
        dirty
    }

    /// Takes over the path state of the runtime being reloaded; the first
    /// attachment observation after it may rebase generations on an
    /// unchanged edge.
    pub fn inherit_nss_reload_state(&mut self, current: &NssControlState)
        ensures
            final(self)@ == (NssStateView { rebase_pending: true, ..current@ }),
            final(self).nss_attachment_generations@.len() == current.nss_attachment_generations@.len(),
            forall|i: int|
                #![trigger current.nss_attachment_generations@[i]]
                0 <= i < current.nss_attachment_generations@.len() ==> {
                    let a = final(self).nss_attachment_generations@[i];
                    let b = current.nss_attachment_generations@[i];
                    a.name@ == b.name@ && a.value.0@ == b.value.0@ && a.value.1 == b.value.1
                },
            final(self).nss_reload_attachment_rebase_pending,
    {
        self.nss_proven_directions = copy_dirs(&current.nss_proven_directions);
        self.nss_path_ready_directions = copy_dirs(&current.nss_path_ready_directions);
        self.nss_cpu_directions = copy_dirs(&current.nss_cpu_directions);
        self.nss_active_nss_directions = copy_dirs(&current.nss_active_nss_directions);
        self.nss_active_cpu_directions = copy_dirs(&current.nss_active_cpu_directions);
        self.nss_attachment_generations = copy_generations(&current.nss_attachment_generations);
        self.nss_reload_attachment_rebase_pending = true;
        assert(self@.attachment_generations =~= current@.attachment_generations);
    }
}

fn copy_dirs(m: &Vec<Named<u8>>) -> (r: Vec<Named<u8>>)
    ensures
        names_view(r@) == names_view(m@),
{
    let mut out: Vec<Named<u8>> = Vec::new();
    let mut i: usize = 0;
    while i < m.len()
        invariant
            i <= m.len(),
            names_view(out@) == names_view(m@).take(i as int),
        decreases m.len() - i,
    {
        let e = Named { name: m[i].name.clone(), value: m[i].value };
        proof {
            assert(e@ =~= m@[i as int]@);
            assert(names_view(out@.push(e)) =~= names_view(out@).push(e@));
            assert(names_view(m@)[i as int] == m@[i as int]@);
            assert(names_view(m@).take(i + 1) =~= names_view(m@).take(i as int).push(
                names_view(m@)[i as int],
            ));
        }
        out.push(e);
        i += 1;
    }
    assert(names_view(m@).take(m.len() as int) =~= names_view(m@));
    out
}

fn copy_generations(m: &Vec<Named<(String, u64)>>) -> (r: Vec<Named<(String, u64)>>)
    ensures
        r@.len() == m@.len(),
        forall|i: int|
            0 <= i < m@.len() ==> r@[i].name@ == m@[i].name@ && r@[i].value.0@ == m@[i].value.0@
                && r@[i].value.1 == m@[i].value.1,
{
    let mut out: Vec<Named<(String, u64)>> = Vec::new();
    let mut i: usize = 0;
    while i < m.len()
        invariant
            i <= m.len(),
            out@.len() == i,
            forall|j: int|
                0 <= j < i ==> out@[j].name@ == m@[j].name@ && out@[j].value.0@ == m@[j].value.0@
                    && out@[j].value.1 == m@[j].value.1,
        decreases m.len() - i,
    {
        out.push(Named { name: m[i].name.clone(), value: (m[i].value.0.clone(), m[i].value.1) });
        i += 1;
    }
    out
}

} // verus!
