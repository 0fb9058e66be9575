use nix_deployments::provision::{ProvisionStep, Provisioning};
use nix_deployments::images::{
    built_images, check_build, choose_credential, config_names, SshCredential, find_in_repo, find_ssh_key, image_path, nix_build_args, out_link,
    ssh_key_candidates, workspace_path,
};
use nix_deployments::qm::{
    check_exit, create_args, destroy_args, importdisk_args, set_agent_args, set_disk_args,
    set_resources_args, start_args, start_outcome, Tool,
};
use nix_deployments::types::{AppError, CloudInit, FieldChange, VMConfig};

fn web() -> VMConfig {
    VMConfig {
        name: "web".to_string(),
        vm_id: 100,
        image_type: "web".to_string(),
        cores: 2,
        sockets: 1,
        memory_mb: 4096,
        storage_location: "local-lvm".to_string(),
        disk_gb: 20,
        disk_slot: "scsi0".to_string(),
        network_bridge: "vmbr0".to_string(),
        scsi_hw: "virtio-scsi-pci".to_string(),
        cloud_init: CloudInit::StorageReference("local:snippets/web.yml".to_string()),
        protected: false,
    }
}

#[test]
fn provision_commands_in_order() {
    let c = web();
    assert_eq!(
        create_args(&c),
        vec!["create", "100", "--name", "web", "--memory", "4096", "--cores", "2", "--net0", "virtio,bridge=vmbr0", "--scsihw", "virtio-scsi-pci"]
    );
    assert_eq!(
        importdisk_args(100, "/img/web.qcow2", "local-lvm"),
        vec!["importdisk", "100", "/img/web.qcow2", "local-lvm", "--format=qcow2"]
    );
    assert_eq!(
        set_disk_args(100, "local-lvm:vm-100-disk-1", "scsi0"),
        vec!["set", "100", "--scsi0", "local-lvm:vm-100-disk-1", "--boot", "order=scsi0"]
    );
    assert_eq!(set_agent_args(100), vec!["set", "100", "--agent", "enabled=1", "--serial0", "socket"]);
    assert_eq!(start_args(100), vec!["start", "100"]);
    assert_eq!(destroy_args(100), vec!["destroy", "100", "--purge"]);
}

#[test]
fn set_resources_carries_only_changed_fields() {
    let c = web();
    assert_eq!(set_resources_args(100, &c, &vec![FieldChange::Memory]), vec!["set", "100", "--memory", "4096"]);
    assert_eq!(
        set_resources_args(100, &c, &vec![FieldChange::Cores, FieldChange::Disk, FieldChange::Sockets]),
        vec!["set", "100", "--cores", "2", "--sockets", "1"]
    );
}

#[test]
fn start_absorbs_already_running() {
    assert_eq!(start_outcome(true, "").unwrap(), true);
    assert_eq!(start_outcome(false, "VM 100 already running").unwrap(), false);
    match start_outcome(false, "no such VM") {
        Err(AppError::CmdError(m)) => assert_eq!(m, "no such VM"),
        other => panic!("unexpected {:?}", other),
    }
}

#[test]
fn exit_codes_become_errors() {
    assert_eq!(check_exit(Tool::VmManager, Some(0), "out".to_string(), "").unwrap(), "out");
    match check_exit(Tool::VmManager, Some(2), String::new(), "boom") {
        Err(AppError::CmdError(m)) => assert_eq!(m, "exit code 2: boom"),
        other => panic!("unexpected {:?}", other),
    }
    match check_exit(Tool::BuildTool, Some(-1), String::new(), "bad flake") {
        Err(AppError::NixError(m)) => assert_eq!(m, "exit code -1: bad flake"),
        other => panic!("unexpected {:?}", other),
    }
    match check_exit(Tool::BuildTool, None, String::new(), "x") {
        Err(AppError::NixError(m)) => assert_eq!(m, "terminated by a signal: x"),
        other => panic!("unexpected {:?}", other),
    }
}

#[test]
fn build_paths_follow_layout() {
    let ws = workspace_path("abc123");
    assert_eq!(ws, "/tmp/proxnix/repos/abc123");
    let link = out_link(&ws, "web");
    assert_eq!(link, "/tmp/proxnix/repos/abc123/web/result");
    assert_eq!(image_path(&link), "/tmp/proxnix/repos/abc123/web/result/nixos.qcow2");
    assert_eq!(
        nix_build_args("web", &link),
        vec!["build", ".#nixosConfigurations.web.config.system.build.qcow2", "--out-link", "/tmp/proxnix/repos/abc123/web/result"]
    );
    let imgs = built_images(&ws, &vec!["web".to_string(), "db".to_string()]);
    assert_eq!(imgs.images[1], ("db".to_string(), "/tmp/proxnix/repos/abc123/db/result/nixos.qcow2".to_string()));
}

#[test]
fn config_names_read_json_list() {
    assert_eq!(config_names("[\"web\",\"db\"]\n").unwrap(), vec!["web", "db"]);
    assert!(config_names("[]").unwrap().is_empty());
    assert!(matches!(config_names("{\"web\":1}"), Err(AppError::SerialisationError(_))));
}

#[test]
fn exactly_one_flake_is_accepted() {
    let one = vec!["/r/flake.nix".to_string()];
    assert_eq!(find_in_repo(&one, "flake.nix").unwrap(), "/r/flake.nix");
    match find_in_repo(&vec![], "flake.nix") {
        Err(AppError::CmdError(m)) => assert_eq!(m, "'flake.nix' not found in repo"),
        other => panic!("unexpected {:?}", other),
    }
    let two = vec!["/r/flake.nix".to_string(), "/r/sub/flake.nix".to_string()];
    match find_in_repo(&two, "flake.nix") {
        Err(AppError::CmdError(m)) => assert_eq!(m, "Found 2 copies of 'flake.nix' in repo, expected exactly 1"),
        other => panic!("unexpected {:?}", other),
    }
}

#[test]
fn first_existing_key_is_used() {
    let c = ssh_key_candidates();
    assert_eq!(c[0], "/root/.ssh/id_ed25519");
    assert_eq!(find_ssh_key(&c, &vec![false, true, true]), Some("/root/.ssh/id_rsa".to_string()));
    assert_eq!(find_ssh_key(&c, &vec![false, false, false]), None);
}

#[test]
fn agent_comes_before_key_files() {
    let c = ssh_key_candidates();
    assert_eq!(choose_credential(true, &c, &vec![true, false, false]).unwrap(), SshCredential::Agent);
    assert_eq!(
        choose_credential(false, &c, &vec![false, false, true]).unwrap(),
        SshCredential::KeyFile("/root/.ssh/id_ecdsa".to_string())
    );
    assert!(matches!(choose_credential(false, &c, &vec![false, false, false]), Err(AppError::GitError(_))));
}

#[test]
fn build_failure_names_the_configuration() {
    assert!(check_build("web", Some(0), "").is_ok());
    match check_build("web", Some(1), "error: attribute missing") {
        Err(AppError::NixError(m)) => assert_eq!(m, "Nix build failed for 'web': exit code 1: error: attribute missing"),
        other => panic!("unexpected {:?}", other),
    }
}

#[test]
fn provisioning_runs_five_commands_in_order() {
    let c = web();
    let mut p = Provisioning::new();
    let mut recorded: Vec<Vec<String>> = Vec::new();
    let outputs = ["", "Successfully imported disk as 'unused0:local-lvm:vm-100-disk-1'", "", "", ""];
    let mut k = 0;
    while let Some(args) = p.command(&c, "/img/web.qcow2") {
        recorded.push(args);
        p.advance(outputs[k]).unwrap();
        k += 1;
    }
    assert_eq!(p.step, ProvisionStep::Done);
    assert_eq!(recorded.len(), 5);
    assert_eq!(recorded[0][0], "create");
    assert_eq!(recorded[1], vec!["importdisk", "100", "/img/web.qcow2", "local-lvm", "--format=qcow2"]);
    assert_eq!(recorded[2], vec!["set", "100", "--scsi0", "local-lvm:vm-100-disk-1", "--boot", "order=scsi0"]);
    assert_eq!(recorded[3], vec!["set", "100", "--agent", "enabled=1", "--serial0", "socket"]);
    assert_eq!(recorded[4], vec!["start", "100"]);
}

#[test]
fn provisioning_stops_on_import_without_disk() {
    let mut p = Provisioning::new();
    p.advance("").unwrap();
    assert!(matches!(p.advance("transferred 1 GiB"), Err(AppError::CmdError(_))));
    assert_eq!(p.step, ProvisionStep::ImportDisk);
}

#[test]
fn import_naming_a_disk_moves_provisioning_on() {
    let mut p = Provisioning::new();
    p.advance("").unwrap();
    p.advance("transferring\nSuccessfully imported disk as 'unused2:ceph:vm-7-disk-0'\n").unwrap();
    assert_eq!(p.step, ProvisionStep::SetDisk);
    assert_eq!(p.disk_ref, Some("ceph:vm-7-disk-0".to_string()));
}
