use vstd::prelude::*;

use crate::qm::{
    create_args, create_view, disk_ref_in, first_marker_line, has_disk_ref, importdisk_args, importdisk_view,
    parse_import_disk, set_agent_args, set_agent_view, set_disk_args, set_disk_view, start_args,
    start_view,
};
use crate::text::{lines_of, views_of};
use crate::types::{AppError, VMConfig};

verus! {

/// Where the provisioning of one VM stands.
#[derive(Debug, Clone, Copy, PartialEq, Eq, Structural)]
pub enum ProvisionStep {
    Create,
    ImportDisk,
    SetDisk,
    SetAgent,
    Start,
    Done,
}

/// The provisioning of one VM: create the shell, import the disk image,
/// attach the imported disk, enable the guest agent, start. The disk
/// reference that the import reports is kept for the attach.
#[derive(Debug)]
pub struct Provisioning {
    pub step: ProvisionStep,
    pub disk_ref: Option<String>,
}

/// The step that follows `s` when its command succeeded.
pub open spec fn next_step(s: ProvisionStep) -> ProvisionStep {
    match s {
        ProvisionStep::Create => ProvisionStep::ImportDisk,
        ProvisionStep::ImportDisk => ProvisionStep::SetDisk,
        ProvisionStep::SetDisk => ProvisionStep::SetAgent,
        ProvisionStep::SetAgent => ProvisionStep::Start,
        ProvisionStep::Start => ProvisionStep::Done,
        ProvisionStep::Done => ProvisionStep::Done,
    }
}

impl Provisioning {
    /// A provisioning that has run nothing yet.
    pub fn new() -> (r: Provisioning)
        ensures
            r.step == ProvisionStep::Create,
            r.disk_ref is None,
    {
        Provisioning { step: ProvisionStep::Create, disk_ref: None }
    }

    /// The VM-manager arguments of the current step for `config` and its
    /// disk image `image_path`; none once the VM is started.
    pub fn command(&self, config: &VMConfig, image_path: &str) -> (r: Option<Vec<String>>)
        requires
            self.step == ProvisionStep::SetDisk ==> self.disk_ref is Some,
        ensures
            self.step == ProvisionStep::Create ==> (r matches Some(v) && views_of(v@) == create_view(*config)),
            self.step == ProvisionStep::ImportDisk ==> (r matches Some(v) && views_of(v@) == importdisk_view(
                config.vm_id,
                image_path@,
                config.storage_location@,
            )),
            self.step == ProvisionStep::SetDisk ==> (r matches Some(v) && views_of(v@) == set_disk_view(
                config.vm_id,
                self.disk_ref.unwrap()@,
                config.disk_slot@,
            )),
            self.step == ProvisionStep::SetAgent ==> (r matches Some(v) && views_of(v@) == set_agent_view(config.vm_id)),
            self.step == ProvisionStep::Start ==> (r matches Some(v) && views_of(v@) == start_view(config.vm_id)),
            self.step == ProvisionStep::Done ==> r is None,
    {
        match self.step {
            ProvisionStep::Create => Some(create_args(config)),
            ProvisionStep::ImportDisk => Some(
                importdisk_args(config.vm_id, image_path, config.storage_location.as_str()),
            ),
            ProvisionStep::SetDisk => match &self.disk_ref {
                Some(d) => Some(set_disk_args(config.vm_id, d.as_str(), config.disk_slot.as_str())),
                None => None,
            },
            ProvisionStep::SetAgent => Some(set_agent_args(config.vm_id)),
            ProvisionStep::Start => Some(start_args(config.vm_id)),
            ProvisionStep::Done => None,
        }
    }

    /// Takes the output of the current step's command, which succeeded, and
    /// moves to the next step. The output of the import must name the disk
    /// reference: it fails, staying where it is, exactly when the first line
    /// that reports the import names none, or no line reports it.
    pub fn advance(&mut self, output: &str) -> (r: Result<(), AppError>)
        ensures
            old(self).step != ProvisionStep::ImportDisk ==> r is Ok && final(self).step == next_step(old(self).step)
                && final(self).disk_ref == old(self).disk_ref,
            old(self).step == ProvisionStep::ImportDisk ==> match r {
                Ok(()) => final(self).step == ProvisionStep::SetDisk && final(self).disk_ref is Some && exists|k: int|
                    first_marker_line(lines_of(output@), k) && disk_ref_in(
                        #[trigger] lines_of(output@)[k],
                        final(self).disk_ref.unwrap()@,
                    ),
                Err(e) => (e is CmdError) && final(self).step == old(self).step && final(self).disk_ref
                    == old(self).disk_ref && forall|k: int|
                    first_marker_line(lines_of(output@), k) ==> !has_disk_ref(#[trigger] lines_of(output@)[k]),
            },
    {
        match self.step {
            ProvisionStep::ImportDisk => {
                let d = parse_import_disk(output)?;
                self.disk_ref = Some(d);
                self.step = ProvisionStep::SetDisk;
                Ok(())
            },
            ProvisionStep::Create => {
                self.step = ProvisionStep::ImportDisk;
                Ok(())
            },
            ProvisionStep::SetDisk => {
                self.step = ProvisionStep::SetAgent;
                Ok(())
            },
            ProvisionStep::SetAgent => {
                self.step = ProvisionStep::Start;
                Ok(())
            },
            ProvisionStep::Start => {
                self.step = ProvisionStep::Done;
                Ok(())
            },
            ProvisionStep::Done => Ok(()),
        }
    }
}

} // verus!
