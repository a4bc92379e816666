use lanspeedd::control::nss_state::{nss_control_diagnostics, same_dirs, NssControlState};
use lanspeedd::control::{
    ApplyResult, ControlRule, LiveClient, NssPathObservation, NSS_FIRST_CLASS_MINOR, NSS_CPU_DOWNLOAD,
    NSS_CPU_UPLOAD,
};
use lanspeedd::keyed::Named;

const IDENTITY: &str = "02:00:00:00:00:01@lan";

fn get(map: &[Named<u8>], name: &str) -> Option<u8> {
    map.iter().find(|e| e.name == name).map(|e| e.value)
}

fn upsert(map: &mut Vec<Named<u8>>, name: &str, value: u8) {
    if let Some(e) = map.iter_mut().find(|e| e.name == name) {
        e.value = value;
    } else {
        map.push(Named { name: name.to_owned(), value });
    }
}

fn rule(upload_bps: u64, download_bps: u64, internet_disabled: bool) -> ControlRule {
    ControlRule {
        identity_key: IDENTITY.into(),
        mac: "02:00:00:00:00:01".parse().unwrap(),
        upload_bps,
        download_bps,
        internet_disabled,
        class_minor: NSS_FIRST_CLASS_MINOR,
    }
}

fn live() -> LiveClient {
    LiveClient {
        identity_key: IDENTITY.into(),
        interface: Some("edge0".into()),
        ips: vec!["192.0.2.9".into()],
        ambiguous: false,
    }
}

fn observed(name: &str, o: NssPathObservation) -> Vec<Named<NssPathObservation>> {
    vec![Named { name: name.to_owned(), value: o }]
}

fn obs(valid: u8, active: u8, proven: u8, nss: u8, cpu: u8) -> NssPathObservation {
    NssPathObservation {
        valid_directions: valid,
        active_directions: active,
        proven_directions: proven,
        nss_directions: nss,
        cpu_directions: cpu,
    }
}

#[test]
fn nss_control_diagnostics_aggregate_executors_without_identity() {
    let rules = vec![rule(10_000_000, 100_000_000, true)];
    let live = vec![live()];
    let mut result = ApplyResult::ready();
    result.state = "verified".into();
    upsert(&mut result.verified_directions, IDENTITY, NSS_CPU_UPLOAD | NSS_CPU_DOWNLOAD);
    upsert(&mut result.nss_verified_directions, IDENTITY, NSS_CPU_UPLOAD | NSS_CPU_DOWNLOAD);
    upsert(&mut result.cpu_verified_directions, IDENTITY, NSS_CPU_DOWNLOAD);

    let d = nss_control_diagnostics(&rules, &live, &result, &vec![], &vec![], 4_000_000_000);
    assert_eq!(d.state, "verified");
    assert_eq!(d.configured_clients, 1);
    assert_eq!(d.effective_clients, 1);
    assert_eq!(d.required_directions, 2);
    assert_eq!(d.verified_directions, 2);
    assert_eq!(d.nss_verified_directions, 2);
    assert_eq!(d.cpu_verified_directions, 1);
    assert_eq!(d.block_active_clients, 1);
    let text = format!("{:?}", d);
    assert!(!text.contains(IDENTITY));
    assert!(!text.contains("192.0.2.9"));
    assert!(!text.contains("edge0"));
}

#[test]
fn nss_control_diagnostics_never_treat_queue_overflow_as_verified() {
    let rules = vec![rule(10_000_000, 0, false)];
    let live = vec![live()];
    let mut result = ApplyResult::ready();
    result.state = "verified".into();
    result.verification_failures.push(Named {
        name: IDENTITY.into(),
        value: "queue_overflow".into(),
    });

    let d = nss_control_diagnostics(&rules, &live, &result, &vec![], &vec![], 4_000_000_000);
    assert_eq!(d.state, "error");
    assert_eq!(d.reason_code.as_deref(), Some("nss_control_executor_failed"));
    assert_eq!(d.detail_code.as_deref(), Some("queue_overflow"));
    assert_eq!(d.queue_overflow_clients, 1);
    assert_eq!(d.effective_clients, 0);
}

#[test]
fn nss_path_evidence_retains_both_inputs_to_one_aggregate_executor() {
    let rules = vec![rule(10_000_000, 0, false)];
    let result = ApplyResult::ready();
    let mut state = NssControlState::default();

    let dirty = state.observe_nss_paths(
        &rules,
        &result,
        &observed("02:00:00:00:00:02@lan", obs(NSS_CPU_UPLOAD, NSS_CPU_UPLOAD, NSS_CPU_UPLOAD, 0, NSS_CPU_UPLOAD)),
    );
    assert!(!dirty);
    assert!(state.nss_proven_directions.is_empty());

    let dirty = state.observe_nss_paths(
        &rules,
        &result,
        &observed(IDENTITY, obs(NSS_CPU_UPLOAD, NSS_CPU_UPLOAD, NSS_CPU_UPLOAD, 0, NSS_CPU_UPLOAD)),
    );
    assert!(dirty);
    assert!(state.nss_proven_directions.is_empty());
    assert_eq!(get(&state.nss_cpu_directions, IDENTITY), Some(NSS_CPU_UPLOAD));
    assert_eq!(get(&state.nss_path_ready_directions, IDENTITY), Some(NSS_CPU_UPLOAD));

    let dirty = state.observe_nss_paths(&rules, &result, &observed(IDENTITY, obs(NSS_CPU_UPLOAD, 0, 0, 0, 0)));
    assert!(!dirty);
    assert_eq!(get(&state.nss_cpu_directions, IDENTITY), Some(NSS_CPU_UPLOAD));
    assert_eq!(get(&state.nss_path_ready_directions, IDENTITY), Some(NSS_CPU_UPLOAD));

    let dirty = state.observe_nss_paths(&rules, &result, &vec![]);
    assert!(!dirty);
    assert_eq!(get(&state.nss_cpu_directions, IDENTITY), Some(NSS_CPU_UPLOAD));
    assert_eq!(get(&state.nss_path_ready_directions, IDENTITY), Some(NSS_CPU_UPLOAD));

    let dirty = state.observe_nss_paths(
        &rules,
        &result,
        &observed(IDENTITY, obs(NSS_CPU_UPLOAD, NSS_CPU_UPLOAD, 0, 0, 0)),
    );
    assert!(!dirty);
    assert_eq!(get(&state.nss_path_ready_directions, IDENTITY), Some(NSS_CPU_UPLOAD));
    assert_eq!(get(&state.nss_cpu_directions, IDENTITY), Some(NSS_CPU_UPLOAD));

    let dirty = state.observe_nss_paths(
        &rules,
        &result,
        &observed(IDENTITY, obs(NSS_CPU_UPLOAD, NSS_CPU_UPLOAD, NSS_CPU_UPLOAD, NSS_CPU_UPLOAD, 0)),
    );
    assert!(dirty);
    assert_eq!(get(&state.nss_proven_directions, IDENTITY), Some(NSS_CPU_UPLOAD));
    assert_eq!(get(&state.nss_path_ready_directions, IDENTITY), Some(NSS_CPU_UPLOAD));
    assert_eq!(get(&state.nss_cpu_directions, IDENTITY), Some(NSS_CPU_UPLOAD));
    assert_eq!(get(&state.nss_active_nss_directions, IDENTITY), Some(NSS_CPU_UPLOAD));

    let dirty = state.observe_nss_paths(
        &rules,
        &result,
        &observed(
            IDENTITY,
            obs(NSS_CPU_UPLOAD, NSS_CPU_UPLOAD, NSS_CPU_UPLOAD, NSS_CPU_UPLOAD, NSS_CPU_UPLOAD),
        ),
    );
    assert!(!dirty);
    assert_eq!(get(&state.nss_active_nss_directions, IDENTITY), Some(NSS_CPU_UPLOAD));
    assert_eq!(get(&state.nss_active_cpu_directions, IDENTITY), Some(NSS_CPU_UPLOAD));

    state.observe_nss_paths(
        &rules,
        &result,
        &observed(IDENTITY, obs(NSS_CPU_UPLOAD, NSS_CPU_UPLOAD, 0, 0, 0)),
    );
    assert_eq!(get(&state.nss_path_ready_directions, IDENTITY), Some(NSS_CPU_UPLOAD));
    assert_eq!(get(&state.nss_proven_directions, IDENTITY), Some(NSS_CPU_UPLOAD));
    assert_eq!(get(&state.nss_cpu_directions, IDENTITY), Some(NSS_CPU_UPLOAD));
}

#[test]
fn nss_path_feedback_latches_until_counter_verification() {
    let rules = vec![rule(10_000_000, 0, false)];
    let mut result = ApplyResult::ready();
    let mut state = NssControlState::default();
    state.observe_nss_paths(
        &rules,
        &result,
        &observed(IDENTITY, obs(NSS_CPU_UPLOAD, NSS_CPU_UPLOAD, NSS_CPU_UPLOAD, 0, NSS_CPU_UPLOAD)),
    );
    state.observe_nss_paths(
        &rules,
        &result,
        &observed(IDENTITY, obs(NSS_CPU_UPLOAD, NSS_CPU_UPLOAD, 0, 0, 0)),
    );
    assert_eq!(get(&state.nss_path_ready_directions, IDENTITY), Some(NSS_CPU_UPLOAD));
    assert_eq!(get(&state.nss_active_cpu_directions, IDENTITY), Some(NSS_CPU_UPLOAD));

    upsert(&mut result.cpu_verified_directions, IDENTITY, NSS_CPU_UPLOAD);
    state.observe_nss_paths(&rules, &result, &vec![]);
    assert!(state.nss_active_cpu_directions.is_empty());
    assert_eq!(get(&state.nss_path_ready_directions, IDENTITY), Some(NSS_CPU_UPLOAD));
}

#[test]
fn path_state_of_a_client_without_a_rule_is_dropped() {
    let mut state = NssControlState::default();
    upsert(&mut state.nss_proven_directions, "02:00:00:00:00:09@lan", NSS_CPU_UPLOAD);
    upsert(&mut state.nss_cpu_directions, "02:00:00:00:00:09@lan", NSS_CPU_UPLOAD);
    let dirty = state.observe_nss_paths(&vec![], &ApplyResult::ready(), &vec![]);
    assert!(dirty);
    assert!(state.nss_proven_directions.is_empty());
    assert!(state.nss_cpu_directions.is_empty());
}

#[test]
fn directions_outside_the_rule_are_never_proven() {
    // A download-only rule ignores proof of the upload direction.
    let rules = vec![rule(0, 100_000_000, false)];
    let mut state = NssControlState::default();
    let dirty = state.observe_nss_paths(
        &rules,
        &ApplyResult::ready(),
        &observed(IDENTITY, obs(3, 3, 3, 3, 0)),
    );
    assert!(dirty);
    assert_eq!(get(&state.nss_proven_directions, IDENTITY), Some(NSS_CPU_DOWNLOAD));
    assert_eq!(get(&state.nss_path_ready_directions, IDENTITY), Some(NSS_CPU_DOWNLOAD));
    assert_eq!(get(&state.nss_active_nss_directions, IDENTITY), Some(NSS_CPU_DOWNLOAD));
}

#[test]
fn direction_maps_compare_by_content() {
    let a = vec![
        Named { name: "x".to_owned(), value: 1u8 },
        Named { name: "y".to_owned(), value: 2u8 },
    ];
    let b = vec![
        Named { name: "y".to_owned(), value: 2u8 },
        Named { name: "x".to_owned(), value: 1u8 },
    ];
    let c = vec![Named { name: "x".to_owned(), value: 1u8 }];
    assert!(same_dirs(&a, &b));
    assert!(!same_dirs(&a, &c));
    assert!(!same_dirs(&c, &a));
}

#[test]
fn diagnostics_without_rules_are_inactive() {
    let d = nss_control_diagnostics(&vec![], &vec![], &ApplyResult::ready(), &vec![], &vec![], 1);
    assert_eq!(d.state, "inactive");
    assert_eq!(d.reason_code.as_deref(), Some("nss_control_not_configured"));
    assert_eq!(d.configured_clients, 0);
}

#[test]
fn diagnostics_without_a_live_client_are_inactive() {
    let rules = vec![rule(10_000_000, 0, false)];
    let d = nss_control_diagnostics(&rules, &vec![], &ApplyResult::ready(), &vec![], &vec![], 1);
    assert_eq!(d.state, "inactive");
    assert_eq!(d.reason_code.as_deref(), Some("nss_control_no_active_client"));
    assert_eq!(d.rate_limited_clients, 1);
    assert_eq!(d.active_clients, 0);
}

#[test]
fn diagnostics_without_support_are_unavailable() {
    let mut result = ApplyResult::ready();
    result.shaping_supported = false;
    result.blocking_supported = false;
    let d = nss_control_diagnostics(&vec![rule(1, 0, false)], &vec![live()], &result, &vec![], &vec![], 1);
    assert_eq!(d.state, "unavailable");
    assert_eq!(d.reason_code.as_deref(), Some("nss_client_control_unavailable"));
}

#[test]
fn diagnostics_wait_for_unverified_directions() {
    let mut result = ApplyResult::ready();
    result.state = "pending_new_connections".into();
    upsert(&mut result.verified_directions, IDENTITY, NSS_CPU_UPLOAD);
    let d = nss_control_diagnostics(
        &vec![rule(10_000_000, 10_000_000, false)],
        &vec![live()],
        &result,
        &vec![],
        &vec![],
        1,
    );
    assert_eq!(d.state, "pending");
    assert_eq!(d.reason_code.as_deref(), Some("direction_verification_pending"));
    assert_eq!(d.pending_clients, 1);
    assert_eq!(d.required_directions, 2);
    assert_eq!(d.verified_directions, 1);
}

fn generation(name: &str, edge: &str, generation: u64) -> Vec<Named<(String, u64)>> {
    vec![Named { name: name.to_owned(), value: (edge.to_owned(), generation) }]
}

#[test]
fn structural_rebuild_rearms_only_previously_proven_executors() {
    let rules = vec![rule(10_000_000, 100_000_000, false)];
    let directions = NSS_CPU_UPLOAD | NSS_CPU_DOWNLOAD;
    let mut state = NssControlState::default();
    let mut result = ApplyResult::ready();
    state.nss_attachment_generations = generation(IDENTITY, "edge0", 7);
    upsert(&mut state.nss_proven_directions, IDENTITY, NSS_CPU_DOWNLOAD);
    upsert(&mut state.nss_cpu_directions, IDENTITY, NSS_CPU_UPLOAD);
    upsert(&mut state.nss_path_ready_directions, IDENTITY, directions);

    state.rearm_nss_executor_verification(&rules);
    assert_eq!(get(&state.nss_active_nss_directions, IDENTITY), Some(NSS_CPU_DOWNLOAD));
    assert_eq!(get(&state.nss_active_cpu_directions, IDENTITY), Some(NSS_CPU_UPLOAD));

    state.observe_nss_attachment_generations(&rules, &mut result, generation(IDENTITY, "edge1", 8));
    state.rearm_nss_executor_verification(&rules);
    assert!(state.nss_active_nss_directions.is_empty());
    assert!(state.nss_active_cpu_directions.is_empty());
}

#[test]
fn attachment_generation_change_invalidates_all_nss_path_proof() {
    let rules = vec![rule(10_000_000, 100_000_000, false)];
    let directions = NSS_CPU_UPLOAD | NSS_CPU_DOWNLOAD;
    let mut state = NssControlState::default();
    let mut result = ApplyResult::ready();
    state.nss_attachment_generations = generation(IDENTITY, "edge0", 7);
    upsert(&mut state.nss_proven_directions, IDENTITY, directions);
    upsert(&mut state.nss_path_ready_directions, IDENTITY, directions);
    upsert(&mut state.nss_cpu_directions, IDENTITY, directions);
    upsert(&mut state.nss_active_nss_directions, IDENTITY, directions);
    upsert(&mut state.nss_active_cpu_directions, IDENTITY, directions);
    upsert(&mut result.verified_directions, IDENTITY, directions);
    upsert(&mut result.nss_verified_directions, IDENTITY, directions);
    upsert(&mut result.cpu_verified_directions, IDENTITY, directions);

    let dirty =
        state.observe_nss_attachment_generations(&rules, &mut result, generation(IDENTITY, "edge0", 8));
    assert!(dirty);
    assert!(state.nss_proven_directions.is_empty());
    assert!(state.nss_path_ready_directions.is_empty());
    assert!(state.nss_cpu_directions.is_empty());
    assert!(state.nss_active_nss_directions.is_empty());
    assert!(state.nss_active_cpu_directions.is_empty());
    assert!(result.verified_directions.is_empty());
    assert!(result.nss_verified_directions.is_empty());
    assert!(result.cpu_verified_directions.is_empty());
}

#[test]
fn reload_rebases_only_the_first_generation_on_the_same_attachment() {
    let rules = vec![rule(10_000_000, 100_000_000, false)];
    let directions = NSS_CPU_UPLOAD | NSS_CPU_DOWNLOAD;
    let mut current = NssControlState::default();
    let mut current_result = ApplyResult::ready();
    current.nss_attachment_generations = generation(IDENTITY, "edge0", 7);
    upsert(&mut current.nss_proven_directions, IDENTITY, directions);
    upsert(&mut current.nss_path_ready_directions, IDENTITY, directions);
    upsert(&mut current_result.verified_directions, IDENTITY, directions);

    let mut candidate = NssControlState::default();
    candidate.inherit_nss_reload_state(&current);
    let mut result = current_result.clone();
    candidate.observe_nss_attachment_generations(&rules, &mut result, generation(IDENTITY, "edge0", 8));
    assert!(!candidate.nss_reload_attachment_rebase_pending);
    assert_eq!(get(&candidate.nss_proven_directions, IDENTITY), Some(directions));
    assert_eq!(get(&result.verified_directions, IDENTITY), Some(directions));

    candidate.observe_nss_attachment_generations(&rules, &mut result, generation(IDENTITY, "edge0", 9));
    assert!(candidate.nss_proven_directions.is_empty());
    assert!(result.verified_directions.is_empty());
}

#[test]
fn reload_attachment_rebase_rejects_a_changed_or_missing_edge() {
    let rules = vec![rule(10_000_000, 100_000_000, false)];
    for next in [generation(IDENTITY, "edge1", 8), Vec::new()] {
        let mut current = NssControlState::default();
        let mut current_result = ApplyResult::ready();
        current.nss_attachment_generations = generation(IDENTITY, "edge0", 7);
        upsert(&mut current.nss_proven_directions, IDENTITY, NSS_CPU_UPLOAD | NSS_CPU_DOWNLOAD);
        upsert(&mut current_result.verified_directions, IDENTITY, NSS_CPU_UPLOAD | NSS_CPU_DOWNLOAD);
        let mut candidate = NssControlState::default();
        candidate.inherit_nss_reload_state(&current);
        let mut result = current_result.clone();
        candidate.observe_nss_attachment_generations(&rules, &mut result, next);
        assert!(candidate.nss_proven_directions.is_empty());
        assert!(result.verified_directions.is_empty());
    }
}

#[test]
fn an_unchanged_attachment_keeps_its_proof() {
    let rules = vec![rule(10_000_000, 0, false)];
    let mut state = NssControlState::default();
    let mut result = ApplyResult::ready();
    state.nss_attachment_generations = generation(IDENTITY, "edge0", 7);
    upsert(&mut state.nss_proven_directions, IDENTITY, NSS_CPU_UPLOAD);
    let dirty =
        state.observe_nss_attachment_generations(&rules, &mut result, generation(IDENTITY, "edge0", 7));
    assert!(!dirty);
    assert_eq!(get(&state.nss_proven_directions, IDENTITY), Some(NSS_CPU_UPLOAD));
}
