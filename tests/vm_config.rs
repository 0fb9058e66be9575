use nix_deployments::inventory::apply_config;
use nix_deployments::qm_config::{classify, parse_qm_config, ConfigKey};
use nix_deployments::types::{AppError, DeployedVM};

const CONFIG: &str = "agent: enabled=1
boot: order=scsi0
cores: 4
cpu: x86-64-v2-AES
ide2: local-lvm:vm-100-cloudinit,media=cdrom
ipconfig0: ip=dhcp
memory: 8192
meta: creation-qemu=8.1.5,ctime=1712345678
name: web
net0: virtio=BC:24:11:AA:BB:CC,bridge=vmbr0
numa: 0
onboot: 1
scsi0: local-lvm:vm-100-disk-1,size=20G
scsihw: virtio-scsi-pci
serial0: socket
smbios1: uuid=1234
sockets: 2
vmgenid: 0a1b2c
not a key value line
";

#[test]
fn config_fields_are_read() {
    let cfg = parse_qm_config(CONFIG).unwrap();
    assert_eq!(cfg.agent, "enabled=1");
    assert_eq!(cfg.boot, "order=scsi0");
    assert_eq!(cfg.cores, 4);
    assert_eq!(cfg.sockets, 2);
    assert_eq!(cfg.memory, 8192);
    assert_eq!(cfg.name, "web");
    assert!(!cfg.numa);
    assert!(cfg.onboot);
    assert!(!cfg.protection);
    assert_eq!(cfg.cipassword, None);
    assert_eq!(cfg.vmgenid, "0a1b2c");
    assert_eq!(
        cfg.disks,
        vec![
            ("ide2".to_string(), "local-lvm:vm-100-cloudinit,media=cdrom".to_string()),
            ("scsi0".to_string(), "local-lvm:vm-100-disk-1,size=20G".to_string()),
            ("scsihw".to_string(), "virtio-scsi-pci".to_string()),
        ]
    );
    assert_eq!(cfg.networks, vec![("net0".to_string(), "virtio=BC:24:11:AA:BB:CC,bridge=vmbr0".to_string())]);
    assert_eq!(cfg.ipconfigs, vec![("ipconfig0".to_string(), "ip=dhcp".to_string())]);
    assert_eq!(cfg.serial, vec![("serial0".to_string(), "socket".to_string())]);
}

#[test]
fn later_lines_win_and_keys_stay_unique() {
    let cfg = parse_qm_config("cores: 1\nnet0: a\nnet1: b\nnet0: c\ncores: 3\n").unwrap();
    assert_eq!(cfg.cores, 3);
    assert_eq!(cfg.networks, vec![("net0".to_string(), "c".to_string()), ("net1".to_string(), "b".to_string())]);
}

#[test]
fn bad_number_in_config_fails() {
    assert!(matches!(parse_qm_config("cores: many\n"), Err(AppError::ParseIntError(_))));
    assert!(matches!(parse_qm_config("sockets: 256\n"), Err(AppError::ParseIntError(_))));
    assert!(parse_qm_config("").is_ok());
}

#[test]
fn keys_are_classified() {
    assert_eq!(classify(&"cores".to_string()), ConfigKey::Cores);
    assert_eq!(classify(&"virtio1".to_string()), ConfigKey::Disk);
    assert_eq!(classify(&"net3".to_string()), ConfigKey::Network);
    assert_eq!(classify(&"smbios1".to_string()), ConfigKey::Other);
}

#[test]
fn config_fills_cores_and_sockets() {
    let cfg = parse_qm_config(CONFIG).unwrap();
    let mut vm = DeployedVM {
        vm_id: 100,
        vm_name: "web".to_string(),
        commit_hash: None,
        template_id: None,
        mem_mb: 8192,
        bootdisk_cgb: 2000,
        status: "running".to_string(),
        pid: 42,
        cores: 0,
        sockets: 0,
    };
    apply_config(&mut vm, &cfg);
    assert_eq!(vm.cores, 4);
    assert_eq!(vm.sockets, 2);
    assert_eq!(vm.pid, 42);
}

#[test]
fn values_are_trimmed_of_unicode_whitespace() {
    let cfg = parse_qm_config("name:\u{A0}web\u{2003}\n").unwrap();
    assert_eq!(cfg.name, "web");
}
