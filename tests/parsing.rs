use nix_deployments::inventory::{list_to_deployed_vm, parse_centi, parse_qm_list, parse_u32};
use nix_deployments::qm::parse_import_disk;
use nix_deployments::text::{decimal_text, split_lines, split_words};
use nix_deployments::types::AppError;

const SAMPLE: &str = "      VMID NAME                 STATUS     MEM(MB)    BOOTDISK(GB) PID
       100 master               stopped    8000              52.00 0
       101 plextemp             running    12000             52.00 1476084
       102 master               stopped    1200              60.00 0
       103 k3s-warm             stopped    1200              60.00 0
       104 controltemp          stopped    1200              60.00 0
       105 eos                  stopped    4000              50.00 0
       106 proxmox-staging      running    4000             100.00 160968
       201 k3s-cp-01            running    10240             60.00 1811557
       202 k3s-cp-02            running    10240             60.00 29387
       203 k3s-cp-03            running    10240             60.00 29688
       204 k3s-wrk-fat-01       running    32768             64.00 29513
       205 k3s-wrk-fat-02       running    32768             64.00 1163752
       206 k3s-wrk-01           running    15360             60.00 29816
       207 k3s-wrk-02           running    15360             60.00 29727
       300 discord-bot-guest    stopped    4000               4.00 0
       700 nixos-test           running    4048              24.41 87587
       802 k3s-init             running    4096               3.91 1206131
       810 nix-worker           stopped    4096               3.91 0
       811 nix-control          stopped    4096               3.91 0
       900 Copy-of-VM-k3s-warm  running    6000              60.00 89806
      9000 ubuntu-template      stopped    1024              20.00 0
      9005 nixos-template       stopped    4096               3.91 0
      9006 nixos-template       stopped    4096               3.91 0
      9010 clean-ubuntu         stopped    1024               2.20 0";

#[test]
fn test_parse_qm_list() {
    let result = parse_qm_list(SAMPLE);
    println!("{:#?}", result);
    let rows = result.unwrap();
    assert_eq!(rows.len(), 24);
    assert_eq!(rows[0].vm_id, 100);
    assert_eq!(rows[0].name, "master");
    assert_eq!(rows[0].status, "stopped");
    assert_eq!(rows[0].mem_mb, 8000);
    assert_eq!(rows[0].bootdisk_cgb, 5200);
    assert_eq!(rows[0].pid, 0);
    assert_eq!(rows[15].name, "nixos-test");
    assert_eq!(rows[15].bootdisk_cgb, 2441);
    assert_eq!(rows[15].pid, 87587);
    assert_eq!(rows[23].vm_id, 9010);
    assert_eq!(rows[23].bootdisk_cgb, 220);
}

#[test]
fn list_summaries_keep_every_column() {
    let rows = parse_qm_list(SAMPLE).unwrap();
    let state = list_to_deployed_vm(rows.clone());
    assert_eq!(state.vms.len(), rows.len());
    for (vm, row) in state.vms.iter().zip(rows.iter()) {
        assert_eq!(vm.vm_id, row.vm_id);
        assert_eq!(vm.vm_name, row.name);
        assert_eq!(vm.status, row.status);
        assert_eq!(vm.mem_mb, row.mem_mb);
        assert_eq!(vm.bootdisk_cgb, row.bootdisk_cgb);
        assert_eq!(vm.pid, row.pid);
        assert_eq!(vm.cores, 0);
        assert_eq!(vm.sockets, 0);
    }
    assert_eq!(state.vms[6].vm_name, "proxmox-staging");
    assert_eq!(state.vms[6].bootdisk_cgb, 10000);
    assert_eq!(state.vms[6].pid, 160968);
}

#[test]
fn header_only_list_is_empty() {
    let rows = parse_qm_list("VMID NAME STATUS MEM(MB) BOOTDISK(GB) PID\n").unwrap();
    assert!(rows.is_empty());
    assert!(parse_qm_list("").unwrap().is_empty());
}

#[test]
fn short_row_is_a_parse_error() {
    let r = parse_qm_list("VMID NAME STATUS MEM(MB) BOOTDISK(GB) PID\n 100 web running 2048\n");
    assert!(matches!(r, Err(AppError::CmdError(_))));
}

#[test]
fn bad_numbers_are_typed_errors() {
    let head = "VMID NAME STATUS MEM(MB) BOOTDISK(GB) PID\n";
    let r = parse_qm_list(&format!("{}x100 web running 2048 20.00 0", head));
    assert!(matches!(r, Err(AppError::ParseIntError(_))));
    let r = parse_qm_list(&format!("{}100 web running 2048 20.0.0 0", head));
    assert!(matches!(r, Err(AppError::ParseFloatError(_))));
    let r = parse_qm_list(&format!("{}100 web running 2048 20.00 -1", head));
    assert!(matches!(r, Err(AppError::ParseIntError(_))));
    let r = parse_qm_list(&format!("{}4294967296 web running 2048 20.00 0", head));
    assert!(matches!(r, Err(AppError::ParseIntError(_))));
}

#[test]
fn numbers_read_exactly() {
    assert_eq!(parse_u32(&"4294967295".to_string()), Some(4294967295));
    assert_eq!(parse_u32(&"4294967296".to_string()), None);
    assert_eq!(parse_u32(&"".to_string()), None);
    assert_eq!(parse_centi(&"3.91".to_string()), Some(391));
    assert_eq!(parse_centi(&"52".to_string()), Some(5200));
    assert_eq!(parse_centi(&"2.5".to_string()), Some(250));
    assert_eq!(parse_centi(&"2.555".to_string()), None);
    assert_eq!(parse_centi(&".5".to_string()), None);
    assert_eq!(decimal_text(0), "0");
    assert_eq!(decimal_text(4096), "4096");
}

#[test]
fn lines_and_words_split() {
    assert_eq!(split_lines("a\r\nb\n\nc\n"), vec!["a", "b", "", "c"]);
    assert_eq!(split_words("  100 web\trunning  "), vec!["100", "web", "running"]);
}

#[test]
fn import_disk_reference_is_extracted() {
    let r = parse_import_disk("Successfully imported disk as 'unused0:local-lvm:vm-100-disk-1'");
    assert_eq!(r.unwrap(), "local-lvm:vm-100-disk-1");
}

#[test]
fn import_disk_reads_first_success_line() {
    let out = "importing disk '/tmp/x.qcow2' to VM 100 ...\ntransferred 1.0 GiB\nSuccessfully imported disk as 'unused1:tank:vm-100-disk-2'\n";
    assert_eq!(parse_import_disk(out).unwrap(), "tank:vm-100-disk-2");
}

#[test]
fn import_disk_without_marker_fails() {
    assert!(matches!(parse_import_disk("transferred 1.0 GiB\n"), Err(AppError::CmdError(_))));
    assert!(matches!(
        parse_import_disk("Successfully imported disk as unused0-local"),
        Err(AppError::CmdError(_))
    ));
}

#[test]
fn unicode_whitespace_separates_columns() {
    assert_eq!(split_words("100\u{0B}web\u{A0}running\u{3000}x"), vec!["100", "web", "running", "x"]);
}
