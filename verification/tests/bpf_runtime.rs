use lanspeedd::collectors::bpf::runtime::{
    AdapterError, AdapterErrorKind, AttachMode, AyaAdapter, BpfRuntime, HookState, LinkDirection,
    LinkSpec, ObjectFlavor, ReconfigureStrategy, foreign_slot_refusal, primary_load_step,
    reconcile_step, reconcile_conflict, unresolved_step, PrimaryLoadStep, ReconcileStep, UnresolvedStep, EGRESS_PROGRAM_NAME, INGRESS_PROGRAM_NAME,
    EARLY_PRIORITY, NORMAL_HANDLE, NORMAL_PRIORITY,
};
use lanspeedd::collectors::bpf::snapshot::MapRead;
use std::collections::BTreeMap;

#[derive(Default)]
struct Mock {
    hooks: BTreeMap<(String, LinkDirection, u16), HookState>,
    kfunc_incompatible: bool,
    fail_missing: bool,
    fail_attach: bool,
    fail_inspect: bool,
    next_link: u32,
    loads: Vec<ObjectFlavor>,
    unloaded: bool,
    calls: Vec<String>,
}

impl Mock {
    fn state(&self, spec: &LinkSpec) -> HookState {
        *self
            .hooks
            .get(&(spec.interface.clone(), spec.direction, spec.priority))
            .unwrap_or(&HookState::Absent)
    }
    fn set(&mut self, interface: &str, direction: LinkDirection, state: HookState) {
        self.set_at(interface, direction, NORMAL_PRIORITY, state);
    }
    fn set_at(&mut self, interface: &str, direction: LinkDirection, priority: u16, state: HookState) {
        self.hooks.insert((interface.to_owned(), direction, priority), state);
    }
}

impl AyaAdapter for Mock {
    type Link = u32;

    fn load_object(&mut self, _path: &str, flavor: ObjectFlavor) -> Result<(), AdapterError> {
        self.loads.push(flavor);
        if self.fail_missing {
            return Err(AdapterError::new(AdapterErrorKind::ObjectMissing, "no file"));
        }
        if flavor == ObjectFlavor::PrimaryKfunc && self.kfunc_incompatible {
            return Err(AdapterError::new(
                AdapterErrorKind::KfuncIncompatible,
                "kernel lacks the conntrack kfuncs",
            ));
        }
        Ok(())
    }

    fn ensure_clsact(&mut self, _interface: &str) -> Result<(), AdapterError> {
        Ok(())
    }

    fn inspect_hook(&mut self, spec: &LinkSpec) -> Result<HookState, AdapterError> {
        self.calls.push(format!("inspect {}", spec.interface));
        if self.fail_inspect {
            return Err(AdapterError::new(AdapterErrorKind::AttachFailed, "tc failed"));
        }
        Ok(self.state(spec))
    }

    fn attach_netlink(&mut self, spec: &LinkSpec) -> Result<u32, AdapterError> {
        if self.fail_attach {
            return Err(AdapterError::new(AdapterErrorKind::AttachFailed, "attach refused"));
        }
        self.set_at(&spec.interface, spec.direction, spec.priority, HookState::Owned);
        self.next_link += 1;
        Ok(self.next_link)
    }

    fn replace_owned_netlink_atomic(&mut self, spec: &LinkSpec) -> Result<u32, AdapterError> {
        self.attach_netlink(spec)
    }

    fn detach_link(&mut self, spec: &LinkSpec, _link: u32) -> Result<(), AdapterError> {
        self.calls.push(format!("detach {}", spec.interface));
        self.set_at(&spec.interface, spec.direction, spec.priority, HookState::Absent);
        Ok(())
    }

    fn detach_exact(&mut self, spec: &LinkSpec) -> Result<(), AdapterError> {
        self.set_at(&spec.interface, spec.direction, spec.priority, HookState::Absent);
        Ok(())
    }

    fn forget_link(&mut self, spec: &LinkSpec, _link: u32) -> Result<(), AdapterError> {
        self.calls.push(format!("forget {}", spec.interface));
        Ok(())
    }

    fn abandon_link(&mut self, spec: &LinkSpec, _link: u32) -> Result<(), AdapterError> {
        self.calls.push(format!("abandon {}", spec.interface));
        Ok(())
    }

    fn read_clients(&mut self) -> Result<MapRead, AdapterError> {
        Ok(MapRead::default())
    }

    fn interface_name(&mut self, _ifindex: u32) -> Option<String> {
        None
    }

    fn unload(&mut self) {
        self.calls.push("unload".to_string());
        self.unloaded = true;
    }
}

fn attached(adapter: &mut Mock, interfaces: &[&str]) -> BpfRuntime<u32> {
    let mut runtime = BpfRuntime::loaded_for_test();
    let names: Vec<String> = interfaces.iter().map(|s| s.to_string()).collect();
    runtime
        .attach_interfaces(adapter, &names, AttachMode::Normal)
        .unwrap();
    runtime
}

#[test]
fn load_falls_back_to_the_byte_object_when_kfuncs_are_refused() {
    let mut adapter = Mock { kfunc_incompatible: true, ..Default::default() };
    let runtime = BpfRuntime::<u32>::load(&mut adapter, "/primary", "/fallback").unwrap();
    assert_eq!(
        adapter.loads,
        vec![ObjectFlavor::PrimaryKfunc, ObjectFlavor::BytePacketFallback]
    );
    assert_eq!(
        runtime.primary_kfunc_incompatibility(),
        Some("kernel lacks the conntrack kfuncs")
    );
    assert_eq!(runtime.attach_mode(), None);
}

#[test]
fn load_uses_the_kfunc_object_when_it_loads() {
    let mut adapter = Mock::default();
    let runtime = BpfRuntime::<u32>::load(&mut adapter, "/primary", "/fallback").unwrap();
    assert_eq!(adapter.loads, vec![ObjectFlavor::PrimaryKfunc]);
    assert_eq!(runtime.primary_kfunc_incompatibility(), None);
}

#[test]
fn byte_only_load_skips_the_kfunc_object() {
    let mut adapter = Mock::default();
    let runtime = BpfRuntime::<u32>::load_byte_only(&mut adapter, "/fallback").unwrap();
    assert_eq!(adapter.loads, vec![ObjectFlavor::BytePacketFallback]);
    assert!(runtime.health(0, 0).object_loaded);
}

#[test]
fn link_pair_uses_the_mode_programs_and_slots() {
    let [ingress, egress] = LinkSpec::pair("br-lan", AttachMode::Normal);
    assert_eq!(ingress.direction, LinkDirection::Ingress);
    assert_eq!(egress.direction, LinkDirection::Egress);
    assert_eq!(ingress.program, INGRESS_PROGRAM_NAME);
    assert_eq!(egress.program, EGRESS_PROGRAM_NAME);
    assert_eq!(ingress.priority, NORMAL_PRIORITY);
    assert_eq!(ingress.handle, NORMAL_HANDLE);
    assert!(ingress.kernel_program_name().len() <= 15);
}

#[test]
fn attaching_interfaces_owns_every_hook() {
    let mut adapter = Mock::default();
    let runtime = attached(&mut adapter, &["br-lan", "wlan0"]);
    assert!(runtime.is_attached());
    let health = runtime.health(0, 0);
    assert_eq!(health.expected_hook_count, 4);
    assert_eq!(health.attached_hook_count, 4);
    assert_eq!(health.mode, Some(AttachMode::Normal));
    assert_eq!(runtime.reconfigure_strategy(AttachMode::Normal), ReconfigureStrategy::InPlace);
    assert_eq!(
        runtime.reconfigure_strategy(AttachMode::EarlyPassthrough),
        ReconfigureStrategy::SuspendThenAttach
    );
}

#[test]
fn a_foreign_filter_refuses_the_interface() {
    let mut adapter = Mock::default();
    adapter.set("br-lan", LinkDirection::Egress, HookState::Foreign);
    let mut runtime = BpfRuntime::<u32>::loaded_for_test();
    let error = runtime
        .attach_interface(&mut adapter, "br-lan", AttachMode::Normal)
        .unwrap_err();
    assert_eq!(error.kind(), AdapterErrorKind::OwnershipConflict);
    assert_eq!(error.describe(), "foreign filter occupies br-lan Egress");
    assert!(!runtime.is_attached());
}

#[test]
fn a_failed_attach_rolls_back_and_restores_the_expectation() {
    let mut adapter = Mock::default();
    let mut runtime = attached(&mut adapter, &["br-lan"]);
    adapter.fail_attach = true;
    let names = vec!["br-lan".to_string(), "wlan0".to_string()];
    assert!(runtime
        .attach_interfaces(&mut adapter, &names, AttachMode::Normal)
        .is_err());
    let health = runtime.health(0, 0);
    assert_eq!(health.expected_hook_count, 2);
    assert!(runtime.is_attached());
}

#[test]
fn self_heal_reattaches_a_missing_hook() {
    let mut adapter = Mock::default();
    let mut runtime = attached(&mut adapter, &["br-lan"]);
    adapter.set("br-lan", LinkDirection::Ingress, HookState::Absent);
    assert_eq!(runtime.ensure_attached(&mut adapter, "audit").unwrap(), 1);
    assert_eq!(runtime.self_heal_recoveries(), 1);
    assert_eq!(runtime.last_self_heal_reason(), Some("audit"));
    assert_eq!(runtime.last_self_heal_failure(), None);
    assert!(runtime.is_attached());
    assert_eq!(runtime.ensure_attached(&mut adapter, "audit").unwrap(), 0);
    assert_eq!(runtime.self_heal_recoveries(), 1);
}

#[test]
fn self_heal_refuses_a_foreign_filter_and_requires_reconciliation() {
    let mut adapter = Mock::default();
    let mut runtime = attached(&mut adapter, &["br-lan"]);
    adapter.set("br-lan", LinkDirection::Egress, HookState::Foreign);
    let error = runtime.ensure_attached(&mut adapter, "topology").unwrap_err();
    assert_eq!(error.kind(), AdapterErrorKind::OwnershipConflict);
    assert_eq!(runtime.self_heal_failures(), 1);
    assert_eq!(
        runtime.last_self_heal_failure(),
        Some("foreign filter replaced an owned slot")
    );
    assert!(!runtime.is_attached());
    assert_eq!(runtime.health(0, 0).mode, None);

    // Once the slot is free again, reconciliation restores the hooks.
    adapter.set("br-lan", LinkDirection::Egress, HookState::Absent);
    assert!(runtime.ensure_attached(&mut adapter, "topology").is_ok());
    assert!(runtime.is_attached());
    assert_eq!(runtime.health(0, 0).mode, Some(AttachMode::Normal));
}

#[test]
fn health_reports_freshness_against_the_window() {
    let runtime = BpfRuntime::<u32>::loaded_for_test();
    let health = runtime.health(10_000, 5_000);
    assert!(!health.fresh_snapshot);
    assert!(!health.map_read_ok);
    assert_eq!(health.expected_hook_count, 0);
    assert!(!health.all_expected_hooks_attached);
    let probe = runtime.runtime_health(10_000, 5_000);
    assert!(probe.bpf_object_loaded);
    assert_eq!(probe.bpf_freshness_ms, 5_000);
    assert_eq!(probe.now_ms, 10_000);
    assert!(!probe.dae_early_bpf);
}

#[test]
fn shutdown_detaches_everything_and_unloads() {
    let mut adapter = Mock::default();
    let mut runtime = attached(&mut adapter, &["br-lan"]);
    runtime.shutdown(&mut adapter).unwrap();
    assert!(adapter.unloaded);
    assert!(adapter.hooks.values().all(|s| *s == HookState::Absent));
    let health = runtime.health(0, 0);
    assert!(!health.object_loaded);
    assert_eq!(health.expected_hook_count, 0);
    assert_eq!(runtime.attach_mode(), None);
}

#[test]
fn shutdown_gives_each_link_the_call_its_slot_asks_for_then_unloads() {
    let mut adapter = Mock::default();
    let mut runtime = attached(&mut adapter, &["br-lan", "wlan0"]);
    let specs = LinkSpec::pair("wlan0", AttachMode::Normal);
    adapter.set("wlan0", specs[0].direction, HookState::Foreign);
    adapter.set("wlan0", specs[1].direction, HookState::Absent);
    adapter.calls.clear();
    runtime.shutdown(&mut adapter).unwrap();
    assert_eq!(
        adapter.calls,
        vec![
            "inspect br-lan", "detach br-lan", "inspect br-lan", "detach br-lan",
            "inspect wlan0", "abandon wlan0", "inspect wlan0", "forget wlan0", "unload",
        ]
    );
}

#[test]
fn shutdown_keeps_the_object_when_inspection_fails() {
    let mut adapter = Mock::default();
    let mut runtime = attached(&mut adapter, &["br-lan"]);
    adapter.fail_inspect = true;
    assert!(runtime.shutdown(&mut adapter).is_err());
    assert!(!adapter.unloaded);
    assert!(runtime.health(0, 0).object_loaded);
}

#[test]
fn reconfigure_transaction_adds_new_hooks_and_commit_hands_back_obsolete_ones() {
    let mut adapter = Mock::default();
    let mut runtime = attached(&mut adapter, &["br-lan"]);
    let wanted = vec!["wlan0".to_string()];
    let txn = runtime
        .prepare_reconfigure(&mut adapter, &wanted, AttachMode::Normal)
        .unwrap();
    assert!(txn.topology_changed());
    assert_eq!(adapter.state(&LinkSpec::pair("wlan0", AttachMode::Normal)[0]), HookState::Owned);
    let cleanup = runtime.commit_reconfigure(
        txn,
        lanspeedd::collectors::bpf::runtime::ReconfigureRateBaseline::Prepared,
    );
    assert!(runtime.is_attached());
    assert_eq!(runtime.health(0, 0).expected_hook_count, 2);
    runtime.run_postcommit_cleanup(&mut adapter, cleanup).unwrap();
    assert_eq!(adapter.state(&LinkSpec::pair("br-lan", AttachMode::Normal)[0]), HookState::Absent);
    assert_eq!(adapter.state(&LinkSpec::pair("wlan0", AttachMode::Normal)[1]), HookState::Owned);
}

#[test]
fn an_unchanged_topology_is_not_a_change() {
    let mut adapter = Mock::default();
    let mut runtime = attached(&mut adapter, &["br-lan"]);
    let wanted = vec!["br-lan".to_string(), "br-lan".to_string()];
    let txn = runtime
        .prepare_reconfigure(&mut adapter, &wanted, AttachMode::Normal)
        .unwrap();
    assert!(!txn.topology_changed());
    runtime.abort_reconfigure(&mut adapter, txn).unwrap();
    assert!(runtime.is_attached());
}

#[test]
fn reconfigure_refuses_an_occupied_slot_and_detaches_what_it_added() {
    let mut adapter = Mock::default();
    let mut runtime = attached(&mut adapter, &["br-lan"]);
    adapter.set("wlan0", LinkDirection::Egress, HookState::Foreign);
    let wanted = vec!["br-lan".to_string(), "wlan0".to_string()];
    let error = runtime
        .prepare_reconfigure(&mut adapter, &wanted, AttachMode::Normal)
        .unwrap_err();
    assert_eq!(error.kind(), AdapterErrorKind::OwnershipConflict);
    assert_eq!(
        error.describe(),
        "cannot transactionally adopt occupied filter wlan0 Egress"
    );
    assert_eq!(adapter.state(&LinkSpec::pair("wlan0", AttachMode::Normal)[0]), HookState::Absent);
    assert!(runtime.is_attached());
}

#[test]
fn reconfigure_waits_for_reconciliation() {
    let mut adapter = Mock::default();
    let mut runtime = attached(&mut adapter, &["br-lan"]);
    adapter.set("br-lan", LinkDirection::Egress, HookState::Foreign);
    assert!(runtime.ensure_attached(&mut adapter, "audit").is_err());
    let error = runtime
        .prepare_reconfigure(&mut adapter, &vec!["br-lan".to_string()], AttachMode::Normal)
        .err()
        .unwrap();
    assert_eq!(error.kind(), AdapterErrorKind::AttachFailed);
    assert_eq!(error.describe(), "BPF hooks require reconciliation before reconfigure");
}

#[test]
fn suspend_detaches_and_resume_restores_the_same_topology() {
    let mut adapter = Mock::default();
    let mut runtime = attached(&mut adapter, &["br-lan", "wlan0"]);
    let suspended = runtime.suspend_for_replacement(&mut adapter).unwrap();
    assert!(adapter.hooks.values().all(|s| *s == HookState::Absent));
    assert_eq!(runtime.attach_mode(), None);
    assert_eq!(runtime.health(0, 0).expected_hook_count, 0);
    runtime.resume_suspended(&mut adapter, suspended).unwrap();
    assert!(runtime.is_attached());
    assert_eq!(runtime.health(0, 0).expected_hook_count, 4);
    assert_eq!(runtime.attach_mode(), Some(AttachMode::Normal));
}

#[test]
fn suspend_requires_healthy_hooks() {
    let mut adapter = Mock::default();
    let mut runtime = BpfRuntime::<u32>::loaded_for_test();
    let error = runtime.suspend_for_replacement(&mut adapter).err().unwrap();
    assert_eq!(error.kind(), AdapterErrorKind::DetachFailed);
    assert_eq!(error.describe(), "BPF topology is not healthy enough to suspend");
}

#[test]
fn a_suspended_topology_attaches_in_another_mode_over_free_slots_only() {
    let mut adapter = Mock::default();
    let mut runtime = attached(&mut adapter, &["br-lan"]);
    let suspended = runtime.suspend_for_replacement(&mut adapter).unwrap();
    adapter.set_at("br-lan", LinkDirection::Ingress, EARLY_PRIORITY, HookState::Foreign);
    let names = vec!["br-lan".to_string()];
    let error = runtime
        .attach_suspended(&mut adapter, &suspended, &names, AttachMode::EarlyPassthrough)
        .unwrap_err();
    assert_eq!(error.kind(), AdapterErrorKind::OwnershipConflict);
    adapter.set_at("br-lan", LinkDirection::Ingress, EARLY_PRIORITY, HookState::Absent);
    runtime
        .attach_suspended(&mut adapter, &suspended, &names, AttachMode::EarlyPassthrough)
        .unwrap();
    assert!(runtime.is_attached());
    assert_eq!(runtime.attach_mode(), Some(AttachMode::EarlyPassthrough));
    assert!(runtime.runtime_health(0, 0).dae_early_bpf);
}

#[test]
fn switching_mode_replaces_the_hooks() {
    let mut adapter = Mock::default();
    let mut runtime = attached(&mut adapter, &["br-lan"]);
    let names = vec!["br-lan".to_string()];
    runtime
        .switch_mode(&mut adapter, &names, AttachMode::EarlyPassthrough)
        .unwrap();
    assert_eq!(runtime.attach_mode(), Some(AttachMode::EarlyPassthrough));
    assert!(runtime.is_attached());
    assert_eq!(runtime.health(0, 0).expected_hook_count, 2);
    let early = LinkSpec::pair("br-lan", AttachMode::EarlyPassthrough);
    let normal = LinkSpec::pair("br-lan", AttachMode::Normal);
    assert_eq!(adapter.state(&early[0]), HookState::Owned);
    assert_eq!(adapter.state(&normal[0]), HookState::Absent);
    // Switching to the current mode changes nothing.
    runtime
        .switch_mode(&mut adapter, &names, AttachMode::EarlyPassthrough)
        .unwrap();
    assert_eq!(runtime.health(0, 0).expected_hook_count, 2);
}

#[test]
fn an_object_load_outcome_gives_a_fresh_runtime_or_its_error() {
    let runtime = BpfRuntime::<u32>::from_object_load(Ok(()), Some("no kfuncs".to_string())).unwrap();
    assert_eq!(runtime.primary_kfunc_incompatibility(), Some("no kfuncs"));
    assert!(!runtime.is_attached());
    let error = BpfRuntime::<u32>::from_object_load(
        Err(AdapterError::new(AdapterErrorKind::LoadFailed, "bad object")),
        None,
    )
    .err()
    .unwrap();
    assert_eq!(error.kind(), AdapterErrorKind::LoadFailed);
    assert_eq!(error.describe(), "bad object");
}

#[test]
fn a_foreign_slot_refuses_with_the_first_occupied_hook() {
    let specs = LinkSpec::pair("br-lan", AttachMode::Normal);
    assert!(foreign_slot_refusal(&specs, HookState::Owned, HookState::Absent).is_none());
    let first = foreign_slot_refusal(&specs, HookState::Foreign, HookState::Foreign).unwrap();
    assert_eq!(first.kind(), AdapterErrorKind::OwnershipConflict);
    assert_eq!(first.describe(), "foreign filter occupies br-lan Ingress");
    let second = foreign_slot_refusal(&specs, HookState::Absent, HookState::Foreign).unwrap();
    assert_eq!(second.describe(), "foreign filter occupies br-lan Egress");
}

#[test]
fn attaching_no_interfaces_changes_nothing() {
    let mut adapter = Mock::default();
    let mut runtime = BpfRuntime::<u32>::loaded_for_test();
    runtime.attach_interfaces(&mut adapter, &Vec::new(), AttachMode::Normal).unwrap();
    assert_eq!(runtime.attach_mode(), None);
    assert_eq!(runtime.health(0, 0).expected_hook_count, 0);
}

#[test]
fn resuming_into_an_attached_runtime_is_refused() {
    let mut adapter = Mock::default();
    let mut runtime = attached(&mut adapter, &["br-lan"]);
    let suspended = runtime.suspend_for_replacement(&mut adapter).unwrap();
    let mut other = attached(&mut adapter, &["wlan0"]);
    let error = other.resume_suspended(&mut adapter, suspended).unwrap_err();
    assert_eq!(error.kind(), AdapterErrorKind::AttachFailed);
    assert_eq!(error.describe(), "BPF runtime is not in a suspended state");
    assert_eq!(other.health(0, 0).expected_hook_count, 2);
}

#[test]
fn healing_a_runtime_that_expects_nothing_does_nothing() {
    let mut adapter = Mock::default();
    let mut runtime = BpfRuntime::<u32>::loaded_for_test();
    assert_eq!(runtime.ensure_attached(&mut adapter, "tick").unwrap(), 0);
    assert!(adapter.loads.is_empty());
}

#[test]
fn the_primary_load_falls_back_only_on_a_kfunc_refusal() {
    assert_eq!(primary_load_step(Ok(())), PrimaryLoadStep::Loaded);
    let refused = AdapterError::new(AdapterErrorKind::KfuncIncompatible, "no kfuncs");
    assert_eq!(
        primary_load_step(Err(refused)),
        PrimaryLoadStep::Fallback("no kfuncs".to_string())
    );
    let missing = AdapterError::new(AdapterErrorKind::ObjectMissing, "no file");
    assert_eq!(primary_load_step(Err(missing.clone())), PrimaryLoadStep::Failed(missing));
}

#[test]
fn a_load_that_fails_otherwise_does_not_try_the_fallback() {
    let mut adapter = Mock { fail_missing: true, ..Default::default() };
    let error = BpfRuntime::<u32>::load(&mut adapter, "/primary", "/fallback").err().unwrap();
    assert_eq!(error.kind(), AdapterErrorKind::ObjectMissing);
    assert_eq!(adapter.loads, vec![ObjectFlavor::PrimaryKfunc]);
}

#[test]
fn reconciliation_steps_follow_the_slot_state() {
    assert_eq!(reconcile_step(Ok(HookState::Owned), true), ReconcileStep::Keep);
    assert_eq!(reconcile_step(Ok(HookState::Owned), false), ReconcileStep::Replace);
    assert_eq!(reconcile_step(Ok(HookState::Absent), true), ReconcileStep::Reattach);
    assert_eq!(reconcile_step(Ok(HookState::Foreign), false), ReconcileStep::Conflict);
    let error = AdapterError::new(AdapterErrorKind::AttachFailed, "tc failed");
    assert_eq!(reconcile_step(Err(error.clone()), false), ReconcileStep::Failed(error.clone()));
    assert_eq!(unresolved_step(Ok(HookState::Absent)), UnresolvedStep::Gone);
    assert_eq!(unresolved_step(Ok(HookState::Owned)), UnresolvedStep::Detach);
    assert_eq!(unresolved_step(Ok(HookState::Foreign)), UnresolvedStep::Conflict);
    assert_eq!(unresolved_step(Err(error.clone())), UnresolvedStep::Failed(error));
    assert_eq!(reconcile_conflict().kind(), AdapterErrorKind::OwnershipConflict);
}

#[test]
fn a_collection_checkpoint_restores_the_collector_and_leaves_the_hooks() {
    let mut adapter = Mock::default();
    let mut runtime = attached(&mut adapter, &["br-lan"]);
    let before = runtime.health(0, 0);
    let checkpoint = runtime.collection_checkpoint(7u32);
    let mut collector = 1u32;
    runtime.restore_collection_checkpoint(&mut collector, checkpoint);
    assert_eq!(collector, 7);
    assert_eq!(runtime.health(0, 0), before);
    assert!(runtime.is_attached());
}
