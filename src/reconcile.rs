use vstd::prelude::*;

use crate::diff::{find_observed, observed_named};
use crate::text::{joined, text};
use crate::types::{
    AppError, DeployedState, DeployedVM, DesiredState, FieldChange, StateDiff, UpdateAction,
    VMConfig,
};

verus! {

/// The built disk images: image kind and the path of its image, in the
/// order in which they were built.
pub struct BuiltImages {
    pub images: Vec<(String, String)>,
}

/// The path of the first image built for `kind`.
pub open spec fn image_for(images: Seq<(String, String)>, kind: Seq<char>) -> Option<Seq<char>>
    decreases images.len(),
{
    if images.len() == 0 {
        None
    } else if images[0].0@ == kind {
        Some(images[0].1@)
    } else {
        image_for(images.drop_first(), kind)
    }
}

impl BuiltImages {
    /// The path of the image built for `kind`, if any.
    pub fn lookup(&self, kind: &String) -> (r: Option<String>)
        ensures
            match r {
                Some(p) => image_for(self.images@, kind@) == Some(p@),
                None => image_for(self.images@, kind@) is None,
            },
    {
        let mut i: usize = 0;
        assert(self.images@.subrange(0, self.images@.len() as int) =~= self.images@);
        while i < self.images.len()
            invariant
                i <= self.images@.len(),
                image_for(self.images@, kind@) == image_for(
                    self.images@.subrange(i as int, self.images@.len() as int),
                    kind@,
                ),
            decreases self.images@.len() - i,
        {
            let ghost rest = self.images@.subrange(i as int, self.images@.len() as int);
            assert(rest[0] == self.images@[i as int]);
            assert(rest.drop_first() =~= self.images@.subrange(i + 1, self.images@.len() as int));
            if self.images[i].0 == *kind {
                return Some(self.images[i].1.clone());
            }
            i = i + 1;
        }
        None
    }
}

/// One side effect of the reconciler, in the order in which it runs.
#[derive(Debug, Clone, PartialEq, Eq)]
pub enum ReconcileStep {
    /// Create, import the disk image, attach it, enable the agent, start.
    Provision { config: VMConfig, image_path: String },
    /// Stop and remove the VM with its disks.
    Destroy { vm_id: u32, name: String },
    /// Set the changed resources in place.
    SetResources { vm_id: u32, config: VMConfig, changes: Vec<FieldChange> },
    /// Destroy the VM, then provision it again with the same id.
    Rebuild { config: VMConfig, image_path: String },
    /// A protected VM differs; it is left alone with a warning.
    SkipProtected { name: String },
}

/// The steps of a plan, up to the first one that cannot be taken, and the
/// error that stopped it there.
pub struct ReconcilePlan {
    pub steps: Vec<ReconcileStep>,
    pub failure: Option<AppError>,
}

/// The number of items of a plan: creates, then deletes, then updates.
pub open spec fn plan_len(d: StateDiff) -> int {
    (d.to_create@.len() + d.to_delete@.len() + d.to_update@.len()) as int
}

/// Whether item `i` of the plan can be taken: a create or a rebuild needs a
/// built image for its kind.
pub open spec fn item_ready(d: StateDiff, images: Seq<(String, String)>, i: int) -> bool {
    let c = d.to_create@.len();
    let k = d.to_delete@.len();
    if i < c {
        image_for(images, d.to_create@[i].image_type@) is Some
    } else if i < c + k {
        true
    } else {
        let u = d.to_update@[i - c - k];
        u.required_action == UpdateAction::Rebuild ==> image_for(images, u.config.image_type@) is Some
    }
}

/// Whether `s` is the step that item `i` of the plan calls for.
pub open spec fn step_for(d: StateDiff, images: Seq<(String, String)>, i: int, s: ReconcileStep) -> bool {
    let c = d.to_create@.len();
    let k = d.to_delete@.len();
    if i < c {
        let cfg = d.to_create@[i];
        s matches ReconcileStep::Provision { config, image_path } && config == cfg
            && image_path@ == image_for(images, cfg.image_type@).unwrap()
    } else if i < c + k {
        let vm = d.to_delete@[i - c];
        s matches ReconcileStep::Destroy { vm_id, name } && vm_id == vm.vm_id && name@ == vm.vm_name@
    } else {
        let u = d.to_update@[i - c - k];
        match u.required_action {
            UpdateAction::InPlace => s matches ReconcileStep::SetResources { vm_id, config, changes }
                && vm_id == u.config.vm_id && config == u.config && changes@ == u.changed_fields@,
            UpdateAction::Rebuild => s matches ReconcileStep::Rebuild { config, image_path }
                && config == u.config && image_path@ == image_for(images, u.config.image_type@).unwrap(),
            UpdateAction::Protected => s matches ReconcileStep::SkipProtected { name } && name@ == u.name@,
        }
    }
}

fn copy_changes(v: &Vec<FieldChange>) -> (r: Vec<FieldChange>)
    ensures
        r@ == v@,
{
    let mut r: Vec<FieldChange> = Vec::new();
    let mut i: usize = 0;
    while i < v.len()
        invariant
            i <= v@.len(),
            r@ == v@.subrange(0, i as int),
        decreases v@.len() - i,
    {
        r.push(v[i]);
        i = i + 1;
        assert(r@ =~= v@.subrange(0, i as int));
    }
    r
}

/// Whether every VM to create has a built image for its kind.
pub open spec fn creates_ready(d: StateDiff, images: Seq<(String, String)>) -> bool {
    forall|i: int| 0 <= i < d.to_create@.len() ==> image_for(images, (#[trigger] d.to_create@[i]).image_type@) is Some
}

/// Orders the side effects of a plan: every create, then every delete, then
/// every update. A create whose image kind was not built fails the plan
/// before any step. A rebuild whose image kind was not built stops the plan
/// there with an error; the steps before it stand.
pub fn reconcile(diff: &StateDiff, built: &BuiltImages) -> (r: ReconcilePlan)
    requires
        plan_len(*diff) <= usize::MAX,
    ensures
        !creates_ready(*diff, built.images@) ==> r.steps@.len() == 0 && (r.failure matches Some(AppError::CmdError(_))),
        forall|i: int| 0 <= i < r.steps@.len() ==> item_ready(*diff, built.images@, i),
        forall|i: int| 0 <= i < r.steps@.len() ==> step_for(*diff, built.images@, i, #[trigger] r.steps@[i]),
        r.failure is None ==> r.steps@.len() == plan_len(*diff),
        r.failure is Some && creates_ready(*diff, built.images@) ==> r.steps@.len() < plan_len(*diff)
            && !item_ready(*diff, built.images@, r.steps@.len() as int) && r.failure.unwrap() is CmdError,
{
    let ghost imgs = built.images@;
    let mut steps: Vec<ReconcileStep> = Vec::new();
    let nc = diff.to_create.len();
    let nd = diff.to_delete.len();
    let nu = diff.to_update.len();
    let mut c: usize = 0;
    while c < nc
        invariant
            imgs == built.images@,
            nc == diff.to_create@.len(),
            c <= nc,
            steps@.len() == 0,
            forall|j: int| 0 <= j < c ==> image_for(imgs, (#[trigger] diff.to_create@[j]).image_type@) is Some,
        decreases nc - c,
    {
        let cfg = &diff.to_create[c];
        if built.lookup(&cfg.image_type).is_none() {
            let e = AppError::CmdError(joined("no built image for kind ", cfg.image_type.as_str()));
            return ReconcilePlan { steps, failure: Some(e) };
        }
        c = c + 1;
    }
    let mut i: usize = 0;
    while i < nc
        invariant
            imgs == built.images@,
            creates_ready(*diff, imgs),
            nc == diff.to_create@.len(),
            i <= nc,
            steps@.len() == i,
            forall|j: int| 0 <= j < i ==> item_ready(*diff, imgs, j),
            forall|j: int| 0 <= j < i ==> step_for(*diff, imgs, j, #[trigger] steps@[j]),
        decreases nc - i,
    {
        let cfg = &diff.to_create[i];
        match built.lookup(&cfg.image_type) {
            Some(p) => {
                steps.push(ReconcileStep::Provision { config: cfg.duplicate(), image_path: p });
            },
            None => {
                let e = AppError::CmdError(joined("no built image for kind ", cfg.image_type.as_str()));
                return ReconcilePlan { steps, failure: Some(e) };
            },
        }
        i = i + 1;
    }
    let mut k: usize = 0;
    while k < nd
        invariant
            imgs == built.images@,
            nc == diff.to_create@.len(),
            nd == diff.to_delete@.len(),
            k <= nd,
            steps@.len() == nc + k,
            forall|j: int| 0 <= j < nc + k ==> item_ready(*diff, imgs, j),
            forall|j: int| 0 <= j < nc + k ==> step_for(*diff, imgs, j, #[trigger] steps@[j]),
        decreases nd - k,
    {
        let vm = &diff.to_delete[k];
        steps.push(ReconcileStep::Destroy { vm_id: vm.vm_id, name: vm.vm_name.clone() });
        k = k + 1;
    }
    let mut m: usize = 0;
    while m < nu
        invariant
            imgs == built.images@,
            creates_ready(*diff, imgs),
            plan_len(*diff) <= usize::MAX,
            nc == diff.to_create@.len(),
            nd == diff.to_delete@.len(),
            nu == diff.to_update@.len(),
            m <= nu,
            steps@.len() == nc + nd + m,
            forall|j: int| 0 <= j < nc + nd + m ==> item_ready(*diff, imgs, j),
            forall|j: int| 0 <= j < nc + nd + m ==> step_for(*diff, imgs, j, #[trigger] steps@[j]),
        decreases nu - m,
    {
        let u = &diff.to_update[m];
        match u.required_action {
            UpdateAction::InPlace => {
                steps.push(ReconcileStep::SetResources {
                    vm_id: u.config.vm_id,
                    config: u.config.duplicate(),
                    changes: copy_changes(&u.changed_fields),
                });
            },
            UpdateAction::Rebuild => {
                match built.lookup(&u.config.image_type) {
                    Some(p) => {
                        steps.push(ReconcileStep::Rebuild { config: u.config.duplicate(), image_path: p });
                    },
                    None => {
                        let e = AppError::CmdError(joined("no built image for kind ", u.config.image_type.as_str()));
                        return ReconcilePlan { steps, failure: Some(e) };
                    },
                }
            },
            UpdateAction::Protected => {
                steps.push(ReconcileStep::SkipProtected { name: u.name.clone() });
            },
        }
        m = m + 1;
    }
    ReconcilePlan { steps, failure: None }
}


/// What the health loop does for one desired VM.
#[derive(Debug, Clone, PartialEq, Eq)]
pub enum HealthAction {
    /// The VM runs; nothing to do.
    Running { name: String },
    /// The VM exists but does not run: start it.
    Start { name: String, vm_id: u32 },
    /// The VM does not exist; the next webhook creates it.
    Missing { name: String },
}

/// The action that the health loop takes for the desired VM `c`.
pub open spec fn health_for(c: VMConfig, o: Seq<DeployedVM>, a: HealthAction) -> bool {
    match observed_named(o, c.name@) {
        None => a matches HealthAction::Missing { name } && name@ == c.name@,
        Some(ob) => if ob.status@ == "running"@ {
            a matches HealthAction::Running { name } && name@ == c.name@
        } else {
            a matches HealthAction::Start { name, vm_id } && name@ == c.name@ && vm_id == ob.vm_id
        },
    }
}

/// One health check: for each desired VM, in order, whether it runs, must be
/// started, or is missing.
pub fn health_actions(desired: &DesiredState, observed: &DeployedState) -> (r: Vec<HealthAction>)
    ensures
        r@.len() == desired.vms@.len(),
        forall|i: int| 0 <= i < r@.len() ==> health_for(desired.vms@[i], observed.vms@, #[trigger] r@[i]),
{
    let running = text("running");
    let mut r: Vec<HealthAction> = Vec::new();
    let mut i: usize = 0;
    while i < desired.vms.len()
        invariant
            running@ == "running"@,
            i <= desired.vms@.len(),
            r@.len() == i,
            forall|j: int| 0 <= j < i ==> health_for(desired.vms@[j], observed.vms@, #[trigger] r@[j]),
        decreases desired.vms@.len() - i,
    {
        let c = &desired.vms[i];
        let a = match find_observed(&observed.vms, &c.name) {
            None => HealthAction::Missing { name: c.name.clone() },
            Some(k) => {
                let ob = &observed.vms[k];
                if ob.status == running {
                    HealthAction::Running { name: c.name.clone() }
                } else {
                    HealthAction::Start { name: c.name.clone(), vm_id: ob.vm_id }
                }
            },
        };
        r.push(a);
        i = i + 1;
    }
    r
}

} // verus!
