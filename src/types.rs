use vstd::prelude::*;

verus! {

/// Errors of the reconciler and of the adapters around it; each carries a
/// human-readable message.
#[derive(Debug, Clone, PartialEq, Eq)]
pub enum AppError {
    GitError(String),
    NixError(String),
    ProxmoxError(String),
    QMError(String),
    FileIOError(String),
    SerialisationError(String),
    UTF8Error(String),
    CmdError(String),
    ParseIntError(String),
    ParseFloatError(String),
    ParsingModuleError(String),
}

/// Where the cloud-init drive of a VM comes from.
#[derive(Debug, Clone, PartialEq, Eq)]
pub enum CloudInit {
    Disabled,
    StorageReference(String),
}

impl CloudInit {
    /// A copy equal to `self`.
    pub fn duplicate(&self) -> (r: CloudInit)
        ensures
            r == *self,
    {
        match self {
            CloudInit::Disabled => CloudInit::Disabled,
            CloudInit::StorageReference(s) => CloudInit::StorageReference(s.clone()),
        }
    }
}

/// One desired VM, as the repository declares it.
#[derive(Debug, Clone, PartialEq, Eq)]
pub struct VMConfig {
    pub name: String,
    pub vm_id: u32,
    pub image_type: String,
    pub cores: u16,
    pub sockets: u8,
    pub memory_mb: u32,
    pub storage_location: String,
    pub disk_gb: u32,
    pub disk_slot: String,
    pub network_bridge: String,
    pub scsi_hw: String,
    pub cloud_init: CloudInit,
    pub protected: bool,
}

impl VMConfig {
    /// A copy equal to `self`.
    pub fn duplicate(&self) -> (r: VMConfig)
        ensures
            r == *self,
    {
        VMConfig {
            name: self.name.clone(),
            vm_id: self.vm_id,
            image_type: self.image_type.clone(),
            cores: self.cores,
            sockets: self.sockets,
            memory_mb: self.memory_mb,
            storage_location: self.storage_location.clone(),
            disk_gb: self.disk_gb,
            disk_slot: self.disk_slot.clone(),
            network_bridge: self.network_bridge.clone(),
            scsi_hw: self.scsi_hw.clone(),
            cloud_init: self.cloud_init.duplicate(),
            protected: self.protected,
        }
    }
}

/// One row of the VM manager's list table. The boot disk size is held in
/// hundredths of a GiB, the precision with which the table prints it.
#[derive(Debug, Clone, PartialEq, Eq)]
pub struct QMList {
    pub vm_id: u32,
    pub name: String,
    pub status: String,
    pub mem_mb: u32,
    pub bootdisk_cgb: u64,
    pub pid: u32,
}

/// One observed VM. The boot disk size is held in hundredths of a GiB.
#[derive(Debug, Clone, PartialEq, Eq)]
pub struct DeployedVM {
    pub vm_id: u32,
    pub vm_name: String,
    pub commit_hash: Option<String>,
    pub template_id: Option<u32>,
    pub mem_mb: u32,
    pub bootdisk_cgb: u64,
    pub status: String,
    pub pid: u32,
    pub cores: u16,
    pub sockets: u8,
}

/// A copy equal to `o`.
pub fn duplicate_opt_string(o: &Option<String>) -> (r: Option<String>)
    ensures
        r == *o,
{
    match o {
        Some(s) => Some(s.clone()),
        None => None,
    }
}

impl DeployedVM {
    /// A copy equal to `self`.
    pub fn duplicate(&self) -> (r: DeployedVM)
        ensures
            r == *self,
    {
        DeployedVM {
            vm_id: self.vm_id,
            vm_name: self.vm_name.clone(),
            commit_hash: duplicate_opt_string(&self.commit_hash),
            template_id: self.template_id,
            mem_mb: self.mem_mb,
            bootdisk_cgb: self.bootdisk_cgb,
            status: self.status.clone(),
            pid: self.pid,
            cores: self.cores,
            sockets: self.sockets,
        }
    }
}

/// The per-VM configuration that the VM manager reports. The keyed groups
/// (disks, networks, ip configurations, serial ports) are held as
/// `(key, value)` pairs in the order in which their keys first appeared;
/// each key occurs once.
#[derive(Debug, Clone, PartialEq, Eq, Default)]
pub struct QMConfig {
    pub agent: String,
    pub balloon: bool,
    pub boot: String,
    pub bootdisk: String,
    pub cipassword: Option<String>,
    pub ciuser: Option<String>,
    pub cores: u8,
    pub cpu: String,
    pub cpuunits: u16,
    pub disks: Vec<(String, String)>,
    pub ipconfigs: Vec<(String, String)>,
    pub memory: u32,
    pub meta: String,
    pub name: String,
    pub networks: Vec<(String, String)>,
    pub numa: bool,
    pub onboot: bool,
    pub protection: bool,
    pub serial: Vec<(String, String)>,
    pub sockets: u8,
    pub sshkeys: Option<String>,
    pub vga: String,
    pub vmgenid: String,
}

/// The VMs that the repository declares, keyed by their names.
#[derive(Debug, Clone, PartialEq, Eq)]
pub struct DesiredState {
    pub vms: Vec<VMConfig>,
}

/// The VMs that the hypervisor reports, keyed by their names.
#[derive(Debug, Clone, PartialEq, Eq)]
pub struct DeployedState {
    pub vms: Vec<DeployedVM>,
}

/// The plan that brings the observed state to the desired one.
#[derive(Debug, Clone, PartialEq, Eq)]
pub struct StateDiff {
    pub to_create: Vec<VMConfig>,
    pub to_update: Vec<VMUpdate>,
    pub to_delete: Vec<DeployedVM>,
}

/// A VM that exists on both sides but differs.
#[derive(Debug, Clone, PartialEq, Eq)]
pub struct VMUpdate {
    pub name: String,
    pub config: VMConfig,
    pub changed_fields: Vec<FieldChange>,
    pub required_action: UpdateAction,
}

/// What an update does on the hypervisor.
#[derive(Debug, Clone, Copy, PartialEq, Eq, Structural)]
pub enum UpdateAction {
    InPlace,
    Rebuild,
    Protected,
}

/// Which resource of a VM differs between the desired and the observed state.
#[derive(Debug, Clone, Copy, PartialEq, Eq, Structural)]
pub enum FieldChange {
    Memory,
    Cores,
    Sockets,
    Disk,
}

/// How a VM is brought to a new shape.
#[derive(Debug, Clone, Copy, PartialEq, Eq, Structural)]
pub enum RebuildStrategy {
    Rebuild,
    InPlace,
    Protected,
}

/// What a webhook names: the repository to fetch and the commit to build.
#[derive(Debug, Clone, PartialEq, Eq)]
pub struct ParsedWebhook {
    pub repository: String,
    pub hash: String,
}

impl ParsedWebhook {
    /// A copy equal to `self`.
    pub fn duplicate(&self) -> (r: ParsedWebhook)
        ensures
            r == *self,
    {
        ParsedWebhook { repository: self.repository.clone(), hash: self.hash.clone() }
    }
}

} // verus!
