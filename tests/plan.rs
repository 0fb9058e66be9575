use nix_deployments::diff::diff;
use nix_deployments::order::{name_before, sorted_copy};
use nix_deployments::reconcile::{health_actions, reconcile, BuiltImages, HealthAction, ReconcileStep};
use nix_deployments::types::{
    AppError, CloudInit, DeployedState, DeployedVM, DesiredState, FieldChange, StateDiff,
    UpdateAction, VMConfig, VMUpdate,
};

fn vm(name: &str, id: u32, memory: u32, cores: u16, sockets: u8, disk: u32, protected: bool) -> VMConfig {
    VMConfig {
        name: name.to_string(),
        vm_id: id,
        image_type: name.to_string(),
        cores,
        sockets,
        memory_mb: memory,
        storage_location: "local-lvm".to_string(),
        disk_gb: disk,
        disk_slot: "scsi0".to_string(),
        network_bridge: "vmbr0".to_string(),
        scsi_hw: "virtio-scsi-pci".to_string(),
        cloud_init: CloudInit::Disabled,
        protected,
    }
}

fn observed(name: &str, id: u32, mem: u32, cores: u16, sockets: u8, disk_cgb: u64) -> DeployedVM {
    DeployedVM {
        vm_id: id,
        vm_name: name.to_string(),
        commit_hash: None,
        template_id: None,
        mem_mb: mem,
        bootdisk_cgb: disk_cgb,
        status: "running".to_string(),
        pid: 1234,
        cores,
        sockets,
    }
}

fn images() -> BuiltImages {
    BuiltImages {
        images: vec![
            ("web".to_string(), "/tmp/proxnix/repos/abc/web/result/nixos.qcow2".to_string()),
            ("b".to_string(), "/img/b.qcow2".to_string()),
        ],
    }
}

#[test]
fn create_path_plans_one_create() {
    let desired = DesiredState { vms: vec![vm("web", 100, 2048, 2, 1, 20, false)] };
    let plan = diff(&desired, &DeployedState { vms: vec![] });
    assert_eq!(plan.to_create.len(), 1);
    assert_eq!(plan.to_create[0].name, "web");
    assert!(plan.to_update.is_empty());
    assert!(plan.to_delete.is_empty());
    let r = reconcile(&plan, &images());
    assert!(r.failure.is_none());
    assert_eq!(
        r.steps,
        vec![ReconcileStep::Provision {
            config: vm("web", 100, 2048, 2, 1, 20, false),
            image_path: "/tmp/proxnix/repos/abc/web/result/nixos.qcow2".to_string(),
        }]
    );
}

#[test]
fn memory_bump_is_in_place() {
    let desired = DesiredState { vms: vec![vm("web", 100, 4096, 2, 1, 20, false)] };
    let obs = DeployedState { vms: vec![observed("web", 100, 2048, 2, 1, 2000)] };
    let plan = diff(&desired, &obs);
    assert!(plan.to_create.is_empty());
    assert!(plan.to_delete.is_empty());
    assert_eq!(plan.to_update.len(), 1);
    assert_eq!(plan.to_update[0].name, "web");
    assert_eq!(plan.to_update[0].changed_fields, vec![FieldChange::Memory]);
    assert_eq!(plan.to_update[0].required_action, UpdateAction::InPlace);
    let r = reconcile(&plan, &images());
    assert_eq!(
        r.steps,
        vec![ReconcileStep::SetResources {
            vm_id: 100,
            config: vm("web", 100, 4096, 2, 1, 20, false),
            changes: vec![FieldChange::Memory],
        }]
    );
}

#[test]
fn disk_change_is_rebuild() {
    let desired = DesiredState { vms: vec![vm("web", 100, 2048, 2, 1, 40, false)] };
    let obs = DeployedState { vms: vec![observed("web", 100, 2048, 2, 1, 2000)] };
    let plan = diff(&desired, &obs);
    assert_eq!(plan.to_update.len(), 1);
    assert_eq!(plan.to_update[0].changed_fields, vec![FieldChange::Disk]);
    assert_eq!(plan.to_update[0].required_action, UpdateAction::Rebuild);
    let r = reconcile(&plan, &images());
    assert!(r.failure.is_none());
    assert!(matches!(&r.steps[0], ReconcileStep::Rebuild { config, .. } if config.vm_id == 100));
}

#[test]
fn protected_blocks_mutation() {
    let desired = DesiredState { vms: vec![vm("web", 100, 4096, 2, 1, 20, true)] };
    let obs = DeployedState { vms: vec![observed("web", 100, 2048, 2, 1, 2000)] };
    let plan = diff(&desired, &obs);
    assert_eq!(plan.to_update.len(), 1);
    assert_eq!(plan.to_update[0].required_action, UpdateAction::Protected);
    let r = reconcile(&plan, &images());
    assert_eq!(r.steps, vec![ReconcileStep::SkipProtected { name: "web".to_string() }]);
}

#[test]
fn protected_wins_over_disk_change() {
    let desired = DesiredState { vms: vec![vm("web", 100, 2048, 4, 2, 40, true)] };
    let obs = DeployedState { vms: vec![observed("web", 100, 2048, 2, 1, 2000)] };
    let plan = diff(&desired, &obs);
    assert_eq!(
        plan.to_update[0].changed_fields,
        vec![FieldChange::Disk, FieldChange::Cores, FieldChange::Sockets]
    );
    assert_eq!(plan.to_update[0].required_action, UpdateAction::Protected);
}

#[test]
fn mixed_plan_creates_then_deletes() {
    let desired = DesiredState {
        vms: vec![vm("a", 101, 1024, 1, 1, 10, false), vm("b", 102, 1024, 1, 1, 10, false)],
    };
    let obs = DeployedState {
        vms: vec![observed("a", 101, 1024, 1, 1, 1000), observed("c", 103, 1024, 1, 1, 1000)],
    };
    let plan = diff(&desired, &obs);
    assert_eq!(plan.to_create.len(), 1);
    assert_eq!(plan.to_create[0].name, "b");
    assert_eq!(plan.to_delete.len(), 1);
    assert_eq!(plan.to_delete[0].vm_name, "c");
    assert!(plan.to_update.is_empty());
    let r = reconcile(&plan, &images());
    assert_eq!(r.steps.len(), 2);
    assert!(matches!(&r.steps[0], ReconcileStep::Provision { config, .. } if config.name == "b"));
    assert_eq!(r.steps[1], ReconcileStep::Destroy { vm_id: 103, name: "c".to_string() });
}

#[test]
fn missing_create_image_fails_before_any_step() {
    let plan = StateDiff {
        to_create: vec![vm("b", 102, 1024, 1, 1, 10, false), vm("zzz", 104, 1024, 1, 1, 10, false)],
        to_update: vec![],
        to_delete: vec![observed("c", 103, 1024, 1, 1, 1000)],
    };
    let r = reconcile(&plan, &images());
    assert!(r.steps.is_empty());
    assert!(matches!(r.failure, Some(AppError::CmdError(_))));
}

#[test]
fn missing_rebuild_image_stops_at_that_update() {
    let mut rebuilt = vm("zzz", 104, 1024, 1, 1, 40, false);
    rebuilt.image_type = "none".to_string();
    let plan = StateDiff {
        to_create: vec![],
        to_update: vec![
            VMUpdate {
                name: "a".to_string(),
                config: vm("a", 101, 4096, 1, 1, 10, false),
                changed_fields: vec![FieldChange::Memory],
                required_action: UpdateAction::InPlace,
            },
            VMUpdate {
                name: "zzz".to_string(),
                config: rebuilt,
                changed_fields: vec![FieldChange::Disk],
                required_action: UpdateAction::Rebuild,
            },
        ],
        to_delete: vec![observed("c", 103, 1024, 1, 1, 1000)],
    };
    let r = reconcile(&plan, &images());
    assert_eq!(r.steps.len(), 2);
    assert_eq!(r.steps[0], ReconcileStep::Destroy { vm_id: 103, name: "c".to_string() });
    assert!(matches!(r.failure, Some(AppError::CmdError(_))));
}

#[test]
fn listing_order_does_not_change_the_plan() {
    let d1 = DesiredState {
        vms: vec![vm("a", 101, 4096, 1, 1, 10, false), vm("b", 102, 1024, 1, 1, 10, false), vm("d", 104, 1024, 1, 1, 10, false)],
    };
    let d2 = DesiredState {
        vms: vec![vm("d", 104, 1024, 1, 1, 10, false), vm("b", 102, 1024, 1, 1, 10, false), vm("a", 101, 4096, 1, 1, 10, false)],
    };
    let o1 = DeployedState {
        vms: vec![observed("a", 101, 1024, 1, 1, 1000), observed("c", 103, 1024, 1, 1, 1000), observed("b2", 105, 1, 1, 1, 100)],
    };
    let o2 = DeployedState {
        vms: vec![observed("b2", 105, 1, 1, 1, 100), observed("c", 103, 1024, 1, 1, 1000), observed("a", 101, 1024, 1, 1, 1000)],
    };
    let p1 = diff(&d1, &o1);
    let p2 = diff(&d2, &o2);
    assert_eq!(p1, p2);
    let deleted: Vec<&str> = p1.to_delete.iter().map(|d| d.vm_name.as_str()).collect();
    assert_eq!(deleted, vec!["b2", "c"]);
    let created: Vec<&str> = p1.to_create.iter().map(|c| c.name.as_str()).collect();
    assert_eq!(created, vec!["b", "d"]);
}

#[test]
fn matching_state_in_other_order_gives_empty_plan() {
    let desired = DesiredState {
        vms: vec![vm("b", 102, 1024, 1, 2, 33, true), vm("a", 101, 4096, 2, 1, 10, false)],
    };
    let mut obs = DeployedState::from_desired(&desired);
    obs.vms.reverse();
    let plan = diff(&desired, &obs);
    assert!(plan.to_create.is_empty() && plan.to_update.is_empty() && plan.to_delete.is_empty());
}

#[test]
fn desired_names_must_be_unique() {
    assert!(DesiredState::from_vms(vec![vm("a", 1, 1, 1, 1, 1, false), vm("b", 2, 1, 1, 1, 1, false)]).is_some());
    assert!(DesiredState::from_vms(vec![vm("a", 1, 1, 1, 1, 1, false), vm("a", 2, 1, 1, 1, 1, false)]).is_none());
}

#[test]
fn repeated_diff_is_identical() {
    let desired = DesiredState {
        vms: vec![vm("a", 101, 4096, 1, 1, 10, false), vm("b", 102, 1024, 1, 1, 10, false)],
    };
    let obs = DeployedState {
        vms: vec![observed("a", 101, 1024, 1, 1, 1000), observed("c", 103, 1024, 1, 1, 1000)],
    };
    let first = diff(&desired, &obs);
    let second = diff(&desired, &obs);
    assert_eq!(first, second);
}

#[test]
fn plan_parts_share_no_name() {
    let desired = DesiredState {
        vms: vec![vm("a", 101, 4096, 1, 1, 10, false), vm("b", 102, 1024, 1, 1, 10, false)],
    };
    let obs = DeployedState {
        vms: vec![observed("a", 101, 1024, 1, 1, 1000), observed("c", 103, 1024, 1, 1, 1000)],
    };
    let plan = diff(&desired, &obs);
    for c in &plan.to_create {
        assert!(plan.to_update.iter().all(|u| u.name != c.name));
        assert!(plan.to_delete.iter().all(|d| d.vm_name != c.name));
    }
    for u in &plan.to_update {
        assert!(plan.to_delete.iter().all(|d| d.vm_name != u.name));
    }
}

#[test]
fn matching_state_gives_empty_plan() {
    let desired = DesiredState {
        vms: vec![vm("a", 101, 4096, 2, 1, 10, false), vm("b", 102, 1024, 1, 2, 33, true)],
    };
    let obs = DeployedState::from_desired(&desired);
    assert_eq!(obs.vms[1].bootdisk_cgb, 3300);
    assert_eq!(obs.vms[1].status, "stopped");
    let plan = diff(&desired, &obs);
    assert!(plan.to_create.is_empty());
    assert!(plan.to_update.is_empty());
    assert!(plan.to_delete.is_empty());
}

#[test]
fn health_loop_starts_stopped_vms() {
    let desired = DesiredState {
        vms: vec![
            vm("a", 101, 1024, 1, 1, 10, false),
            vm("b", 102, 1024, 1, 1, 10, false),
            vm("c", 103, 1024, 1, 1, 10, false),
        ],
    };
    let mut stopped = observed("b", 102, 1024, 1, 1, 1000);
    stopped.status = "stopped".to_string();
    let obs = DeployedState { vms: vec![observed("a", 101, 1024, 1, 1, 1000), stopped] };
    let actions = health_actions(&desired, &obs);
    assert_eq!(
        actions,
        vec![
            HealthAction::Running { name: "a".to_string() },
            HealthAction::Start { name: "b".to_string(), vm_id: 102 },
            HealthAction::Missing { name: "c".to_string() },
        ]
    );
}

#[test]
fn observed_vms_sort_by_name() {
    let obs = DeployedState {
        vms: vec![
            observed("web", 100, 1, 1, 1, 100),
            observed("db", 101, 1, 1, 1, 100),
            observed("web", 102, 1, 1, 1, 100),
            observed("Zed", 103, 1, 1, 1, 100),
            observed("dbx", 104, 1, 1, 1, 100),
        ],
    };
    let sorted = sorted_copy(&obs.vms);
    let ids: Vec<u32> = sorted.iter().map(|v| v.vm_id).collect();
    assert_eq!(ids, vec![103, 101, 104, 100, 102]);
    assert!(name_before(&"db".to_string(), &"dbx".to_string()));
    assert!(!name_before(&"web".to_string(), &"db".to_string()));
    assert!(name_before(&"".to_string(), &"a".to_string()));
}

#[test]
fn plan_follows_name_order() {
    let desired = DesiredState {
        vms: vec![vm("a", 1, 1024, 1, 1, 10, false), vm("m", 2, 1024, 1, 1, 10, false), vm("x", 3, 1024, 1, 1, 10, false)],
    };
    let obs = DeployedState {
        vms: vec![observed("z", 9, 1, 1, 1, 100), observed("b", 8, 1, 1, 1, 100), observed("m", 2, 2048, 1, 1, 1000)],
    };
    let plan = diff(&desired, &obs);
    let created: Vec<&str> = plan.to_create.iter().map(|c| c.name.as_str()).collect();
    let deleted: Vec<&str> = plan.to_delete.iter().map(|d| d.vm_name.as_str()).collect();
    assert_eq!(created, vec!["a", "x"]);
    assert_eq!(deleted, vec!["b", "z"]);
    assert_eq!(plan.to_update.len(), 1);
}
