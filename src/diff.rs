use vstd::prelude::*;

use crate::order::{
    lemma_contains_of_multiset, lemma_distinct_permuted, lemma_sort_by_name, lemma_sorted_unique, name_le, names_distinct,
    sort_by_name, sorted, sorted_copy, Named,
};

use crate::types::{
    DeployedState, DeployedVM, DesiredState, FieldChange, StateDiff, UpdateAction, VMConfig,
    VMUpdate,
};

verus! {

/// Whether some desired VM carries `name`.
pub open spec fn desired_has(d: Seq<VMConfig>, name: Seq<char>) -> bool {
    exists|i: int| 0 <= i < d.len() && (#[trigger] d[i]).name@ == name
}

/// Whether some observed VM carries `name`.
pub open spec fn observed_has(o: Seq<DeployedVM>, name: Seq<char>) -> bool {
    exists|i: int| 0 <= i < o.len() && (#[trigger] o[i]).vm_name@ == name
}

/// The first observed VM that carries `name`.
pub open spec fn observed_named(o: Seq<DeployedVM>, name: Seq<char>) -> Option<DeployedVM>
    decreases o.len(),
{
    if o.len() == 0 {
        None
    } else if o[0].vm_name@ == name {
        Some(o[0])
    } else {
        observed_named(o.drop_first(), name)
    }
}

/// The fields in which a desired VM differs from its observed counterpart,
/// in the order memory, disk, cores, sockets.
pub open spec fn changes_of(c: VMConfig, ob: DeployedVM) -> Seq<FieldChange> {
    let m: Seq<FieldChange> = if c.memory_mb != ob.mem_mb { seq![FieldChange::Memory] } else { seq![] };
    let dk: Seq<FieldChange> = if c.disk_gb * 100 != ob.bootdisk_cgb { seq![FieldChange::Disk] } else { seq![] };
    let co: Seq<FieldChange> = if c.cores != ob.cores { seq![FieldChange::Cores] } else { seq![] };
    let so: Seq<FieldChange> = if c.sockets != ob.sockets { seq![FieldChange::Sockets] } else { seq![] };
    m + dk + co + so
}

/// The action an update takes: protection wins, then a disk change forces a
/// rebuild, anything else is changed in place.
pub open spec fn action_for(protected: bool, changes: Seq<FieldChange>) -> UpdateAction {
    if protected {
        UpdateAction::Protected
    } else if changes.contains(FieldChange::Disk) {
        UpdateAction::Rebuild
    } else {
        UpdateAction::InPlace
    }
}

/// The desired VMs that no observed VM names, in desired order.
pub open spec fn creates_of(d: Seq<VMConfig>, o: Seq<DeployedVM>) -> Seq<VMConfig>
    decreases d.len(),
{
    if d.len() == 0 {
        seq![]
    } else if observed_has(o, d.last().name@) {
        creates_of(d.drop_last(), o)
    } else {
        creates_of(d.drop_last(), o).push(d.last())
    }
}

/// Whether a desired VM has an observed counterpart that differs from it.
pub open spec fn needs_update(c: VMConfig, o: Seq<DeployedVM>) -> bool {
    match observed_named(o, c.name@) {
        Some(ob) => changes_of(c, ob).len() > 0,
        None => false,
    }
}

/// The desired VMs that exist but differ, in desired order.
pub open spec fn updates_of(d: Seq<VMConfig>, o: Seq<DeployedVM>) -> Seq<VMConfig>
    decreases d.len(),
{
    if d.len() == 0 {
        seq![]
    } else if needs_update(d.last(), o) {
        updates_of(d.drop_last(), o).push(d.last())
    } else {
        updates_of(d.drop_last(), o)
    }
}

/// The observed VMs that no desired VM names, in observed order.
pub open spec fn deletes_of(d: Seq<VMConfig>, o: Seq<DeployedVM>) -> Seq<DeployedVM>
    decreases o.len(),
{
    if o.len() == 0 {
        seq![]
    } else if desired_has(d, o.last().vm_name@) {
        deletes_of(d, o.drop_last())
    } else {
        deletes_of(d, o.drop_last()).push(o.last())
    }
}

/// An update entry planned for the desired VM `c` against the observed VMs `o`.
pub open spec fn update_entry_for(u: VMUpdate, c: VMConfig, o: Seq<DeployedVM>) -> bool {
    let ch = changes_of(c, observed_named(o, c.name@).unwrap());
    &&& u.name@ == c.name@
    &&& u.config == c
    &&& u.changed_fields@ == ch
    &&& u.required_action == action_for(c.protected, ch)
}

/// The plan that the diff computes from the desired VMs `d` and the observed VMs `o`.
pub open spec fn is_diff_of(r: StateDiff, d: Seq<VMConfig>, o: Seq<DeployedVM>) -> bool {
    &&& r.to_create@ == creates_of(d, o)
    &&& r.to_delete@ == deletes_of(d, o)
    &&& r.to_update@.len() == updates_of(d, o).len()
    &&& forall|i: int|
        0 <= i < r.to_update@.len() ==> update_entry_for(
            #[trigger] r.to_update@[i],
            updates_of(d, o)[i],
            o,
        )
}


proof fn lemma_named_iff_has(o: Seq<DeployedVM>, name: Seq<char>)
    ensures
        observed_named(o, name).is_some() <==> observed_has(o, name),
        observed_named(o, name).is_some() ==> observed_named(o, name).unwrap().vm_name@ == name,
        observed_named(o, name).is_some() ==> o.contains(observed_named(o, name).unwrap()),
    decreases o.len(),
{
    if o.len() > 0 {
        lemma_named_iff_has(o.drop_first(), name);
        if o[0].vm_name@ != name && observed_named(o, name).is_some() {
            let x = observed_named(o, name).unwrap();
            let i = choose|i: int| 0 <= i < o.drop_first().len() && o.drop_first()[i] == x;
            assert(o[i + 1] == x);
        }
        if o[0].vm_name@ == name {
            assert(o[0] == observed_named(o, name).unwrap());
        }
        if observed_has(o, name) && o[0].vm_name@ != name {
            let i = choose|i: int| 0 <= i < o.len() && (#[trigger] o[i]).vm_name@ == name;
            assert(o.drop_first()[i - 1] == o[i]);
        }
        if observed_has(o.drop_first(), name) {
            let i = choose|i: int|
                0 <= i < o.drop_first().len() && (#[trigger] o.drop_first()[i]).vm_name@ == name;
            assert(o[i + 1] == o.drop_first()[i]);
        }
    }
}

/// The index of the first observed VM named `name`.
pub(crate) fn find_observed(o: &Vec<DeployedVM>, name: &String) -> (r: Option<usize>)
    ensures
        match r {
            Some(i) => i < o@.len() && observed_named(o@, name@) == Some(o@[i as int]),
            None => observed_named(o@, name@) is None,
        },
{
    let mut i: usize = 0;
    assert(o@.subrange(0, o@.len() as int) =~= o@);
    while i < o.len()
        invariant
            i <= o@.len(),
            observed_named(o@, name@) == observed_named(o@.subrange(i as int, o@.len() as int), name@),
        decreases o@.len() - i,
    {
        let ghost rest = o@.subrange(i as int, o@.len() as int);
        if o[i].vm_name == *name {
            return Some(i);
        }
        assert(rest.drop_first() =~= o@.subrange(i + 1, o@.len() as int));
        i = i + 1;
    }
    assert(o@.subrange(i as int, o@.len() as int).len() == 0);
    None
}

/// Whether some desired VM is named `name`.
fn desired_contains(d: &Vec<VMConfig>, name: &String) -> (r: bool)
    ensures
        r == desired_has(d@, name@),
{
    let mut i: usize = 0;
    while i < d.len()
        invariant
            i <= d@.len(),
            forall|j: int| 0 <= j < i ==> (#[trigger] d@[j]).name@ != name@,
        decreases d@.len() - i,
    {
        if d[i].name == *name {
            return true;
        }
        i = i + 1;
    }
    false
}

/// The fields in which `c` differs from `ob`.
fn changed_fields(c: &VMConfig, ob: &DeployedVM) -> (r: Vec<FieldChange>)
    ensures
        r@ == changes_of(*c, *ob),
{
    let mut r: Vec<FieldChange> = Vec::new();
    if c.memory_mb != ob.mem_mb {
        r.push(FieldChange::Memory);
    }
    if (c.disk_gb as u64) * 100 != ob.bootdisk_cgb {
        r.push(FieldChange::Disk);
    }
    if c.cores != ob.cores {
        r.push(FieldChange::Cores);
    }
    if c.sockets != ob.sockets {
        r.push(FieldChange::Sockets);
    }
    assert(r@ =~= changes_of(*c, *ob));
    r
}

/// The action that an update with these changes takes.
fn required_action(protected: bool, changes: &Vec<FieldChange>) -> (r: UpdateAction)
    ensures
        r == action_for(protected, changes@),
{
    if protected {
        return UpdateAction::Protected;
    }
    let mut i: usize = 0;
    while i < changes.len()
        invariant
            !protected,
            i <= changes@.len(),
            forall|j: int| 0 <= j < i ==> changes@[j] != FieldChange::Disk,
        decreases changes@.len() - i,
    {
        if changes[i] == FieldChange::Disk {
            assert(changes@[i as int] == FieldChange::Disk);
            assert(changes@.contains(FieldChange::Disk));
            return UpdateAction::Rebuild;
        }
        i = i + 1;
    }
    UpdateAction::InPlace
}

/// The plan for the desired VMs `d` and the observed VMs `o`, taken in the
/// order in which they are listed.
fn diff_in_order(d: &Vec<VMConfig>, o: &Vec<DeployedVM>) -> (r: StateDiff)
    ensures
        is_diff_of(r, d@, o@),
{
    let mut to_create: Vec<VMConfig> = Vec::new();
    let mut to_update: Vec<VMUpdate> = Vec::new();
    let mut i: usize = 0;
    while i < d.len()
        invariant
            i <= d@.len(),
            to_create@ == creates_of(d@.subrange(0, i as int), o@),
            to_update@.len() == updates_of(d@.subrange(0, i as int), o@).len(),
            forall|j: int|
                0 <= j < to_update@.len() ==> update_entry_for(
                    #[trigger] to_update@[j],
                    updates_of(d@.subrange(0, i as int), o@)[j],
                    o@,
                ),
        decreases d@.len() - i,
    {
        let ghost pre = d@.subrange(0, i as int);
        let ghost next = d@.subrange(0, i + 1);
        assert(next.drop_last() =~= pre);
        assert(next.last() == d@[i as int]);
        let c = &d[i];
        proof {
            lemma_named_iff_has(o@, c.name@);
        }
        match find_observed(o, &c.name) {
            None => {
                to_create.push(c.duplicate());
            },
            Some(k) => {
                let changes = changed_fields(c, &o[k]);
                if changes.len() > 0 {
                    let action = required_action(c.protected, &changes);
                    let u = VMUpdate {
                        name: c.name.clone(),
                        config: c.duplicate(),
                        changed_fields: changes,
                        required_action: action,
                    };
                    to_update.push(u);
                }
            },
        }
        i = i + 1;
    }
    assert(d@.subrange(0, d@.len() as int) =~= d@);
    let mut to_delete: Vec<DeployedVM> = Vec::new();
    let mut k: usize = 0;
    while k < o.len()
        invariant
            k <= o@.len(),
            to_delete@ == deletes_of(d@, o@.subrange(0, k as int)),
        decreases o@.len() - k,
    {
        let ghost pre = o@.subrange(0, k as int);
        let ghost next = o@.subrange(0, k + 1);
        assert(next.drop_last() =~= pre);
        assert(next.last() == o@[k as int]);
        if !desired_contains(d, &o[k].vm_name) {
            to_delete.push(o[k].duplicate());
        }
        k = k + 1;
    }
    assert(o@.subrange(0, o@.len() as int) =~= o@);
    StateDiff { to_create, to_update, to_delete }
}


impl Named for VMConfig {
    open spec fn name_of(&self) -> Seq<char> {
        self.name@
    }

    fn name(&self) -> (r: &String) {
        &self.name
    }

    fn copy_of(&self) -> (r: VMConfig) {
        self.duplicate()
    }
}

impl Named for DeployedVM {
    open spec fn name_of(&self) -> Seq<char> {
        self.vm_name@
    }

    fn name(&self) -> (r: &String) {
        &self.vm_name
    }

    fn copy_of(&self) -> (r: DeployedVM) {
        self.duplicate()
    }
}

/// Computes the plan that brings the observed VMs to the desired ones. Both
/// sides are first put in order of names, equal names keeping their order;
/// then the desired VMs that are missing are created, those that differ are
/// updated with the action their changes call for, and the observed VMs that
/// are not desired are deleted. Each part of the plan is in order of names.
pub fn diff(desired: &DesiredState, observed: &DeployedState) -> (r: StateDiff)
    ensures
        is_plan_of(r, *desired, *observed),
        sorted(r.to_create@),
        forall|i: int, j: int|
            0 <= i < j < r.to_update@.len() ==> name_le(#[trigger] r.to_update@[i].name@, #[trigger] r.to_update@[j].name@),
        sorted(r.to_delete@),
{
    let d = sorted_copy(&desired.vms);
    let o = sorted_copy(&observed.vms);
    let r = diff_in_order(&d, &o);
    proof {
        lemma_creates_sorted(d@, o@);
        lemma_updates_sorted(d@, o@);
        lemma_deletes_sorted(d@, o@);
        lemma_deletes_from_members(d@, o@);
        assert forall|i: int, j: int|
            0 <= i < j < r.to_update@.len() implies name_le(#[trigger] r.to_update@[i].name@, #[trigger] r.to_update@[j].name@) by {
            assert(update_entry_for(r.to_update@[i], updates_of(d@, o@)[i], o@));
            assert(update_entry_for(r.to_update@[j], updates_of(d@, o@)[j], o@));
            assert(name_le(updates_of(d@, o@)[i].name_of(), updates_of(d@, o@)[j].name_of()));
        }
    }
    r
}

/// No two desired VMs share a name: the desired VMs form a map from names.
pub open spec fn names_unique(d: Seq<VMConfig>) -> bool {
    forall|i: int, j: int|
        0 <= i < d.len() && 0 <= j < d.len() && i != j ==> (#[trigger] d[i]).name@ != (#[trigger] d[j]).name@
}

impl DesiredState {
    /// The desired VMs form a map from names to VMs.
    pub open spec fn wf(&self) -> bool {
        names_unique(self.vms@)
    }

    /// The desired state of `vms`, if no two of them share a name.
    pub fn from_vms(vms: Vec<VMConfig>) -> (r: Option<DesiredState>)
        ensures
            r is Some <==> names_unique(vms@),
            r matches Some(s) ==> s.vms@ == vms@ && s.wf(),
    {
        let mut i: usize = 0;
        while i < vms.len()
            invariant
                i <= vms@.len(),
                forall|a: int, b: int|
                    0 <= a < i && 0 <= b < vms@.len() && a != b ==> (#[trigger] vms@[a]).name@ != (#[trigger] vms@[b]).name@,
            decreases vms@.len() - i,
        {
            let mut j: usize = 0;
            while j < vms.len()
                invariant
                    i < vms@.len(),
                    j <= vms@.len(),
                    forall|a: int, b: int|
                        0 <= a < i && 0 <= b < vms@.len() && a != b ==> (#[trigger] vms@[a]).name@ != (#[trigger] vms@[b]).name@,
                    forall|b: int| 0 <= b < j && b != i ==> vms@[i as int].name@ != (#[trigger] vms@[b]).name@,
                decreases vms@.len() - j,
            {
                if j != i && vms[i].name == vms[j].name {
                    assert(!names_unique(vms@)) by {
                        assert(vms@[i as int].name@ == vms@[j as int].name@);
                    }
                    return None;
                }
                j = j + 1;
            }
            i = i + 1;
        }
        assert(names_unique(vms@)) by {
            assert forall|a: int, b: int|
                0 <= a < vms@.len() && 0 <= b < vms@.len() && a != b implies (#[trigger] vms@[a]).name@ != (#[trigger] vms@[b]).name@ by {
                assert(a < i);
            }
        }
        Some(DesiredState { vms })
    }
}

proof fn lemma_unique_distinct(d: Seq<VMConfig>)
    requires
        names_unique(d),
    ensures
        names_distinct(d),
{
    assert forall|i: int, j: int|
        0 <= i < d.len() && 0 <= j < d.len() && (#[trigger] d[i]).name_of() == (#[trigger] d[j]).name_of()
            implies d[i] == d[j] by {
        if i != j {
            assert(d[i].name@ != d[j].name@);
        }
    }
}

/// An observed VM that shows exactly the shape that `c` asks for.
pub open spec fn reflects(ob: DeployedVM, c: VMConfig) -> bool {
    &&& ob.vm_name@ == c.name@
    &&& ob.mem_mb == c.memory_mb
    &&& ob.bootdisk_cgb == c.disk_gb * 100
    &&& ob.cores == c.cores
    &&& ob.sockets == c.sockets
}

proof fn lemma_creates_members(d: Seq<VMConfig>, o: Seq<DeployedVM>)
    ensures
        forall|k: int|
            0 <= k < creates_of(d, o).len() ==> !observed_has(o, (#[trigger] creates_of(d, o)[k]).name@)
                && desired_has(d, creates_of(d, o)[k].name@),
    decreases d.len(),
{
    if d.len() > 0 {
        let p = d.drop_last();
        lemma_creates_members(p, o);
        assert forall|k: int| 0 <= k < creates_of(d, o).len() implies !observed_has(
            o,
            (#[trigger] creates_of(d, o)[k]).name@,
        ) && desired_has(d, creates_of(d, o)[k].name@) by {
            if k < creates_of(p, o).len() {
                let x = creates_of(p, o)[k];
                assert(desired_has(p, x.name@));
                let w = choose|w: int| 0 <= w < p.len() && (#[trigger] p[w]).name@ == x.name@;
                assert(d[w] == p[w]);
            } else {
                assert(d[d.len() - 1] == d.last());
            }
        }
    }
}

proof fn lemma_updates_members(d: Seq<VMConfig>, o: Seq<DeployedVM>)
    ensures
        forall|k: int|
            0 <= k < updates_of(d, o).len() ==> needs_update(#[trigger] updates_of(d, o)[k], o)
                && desired_has(d, updates_of(d, o)[k].name@) && d.contains(updates_of(d, o)[k]),
    decreases d.len(),
{
    if d.len() > 0 {
        let p = d.drop_last();
        lemma_updates_members(p, o);
        assert forall|k: int| 0 <= k < updates_of(d, o).len() implies needs_update(
            #[trigger] updates_of(d, o)[k],
            o,
        ) && desired_has(d, updates_of(d, o)[k].name@) && d.contains(updates_of(d, o)[k]) by {
            if k < updates_of(p, o).len() {
                let x = updates_of(p, o)[k];
                assert(p.contains(x));
                let w = choose|w: int| 0 <= w < p.len() && p[w] == x;
                assert(d[w] == p[w]);
            } else {
                assert(d[d.len() - 1] == d.last());
            }
        }
    }
}

proof fn lemma_deletes_members(d: Seq<VMConfig>, o: Seq<DeployedVM>)
    ensures
        forall|k: int|
            0 <= k < deletes_of(d, o).len() ==> !desired_has(d, (#[trigger] deletes_of(d, o)[k]).vm_name@),
    decreases o.len(),
{
    if o.len() > 0 {
        lemma_deletes_members(d, o.drop_last());
    }
}

proof fn lemma_creates_from(d: Seq<VMConfig>, o: Seq<DeployedVM>)
    ensures
        forall|k: int| 0 <= k < creates_of(d, o).len() ==> d.contains(#[trigger] creates_of(d, o)[k]),
    decreases d.len(),
{
    if d.len() > 0 {
        let p = d.drop_last();
        lemma_creates_from(p, o);
        assert forall|k: int| 0 <= k < creates_of(d, o).len() implies d.contains(#[trigger] creates_of(d, o)[k]) by {
            if k < creates_of(p, o).len() {
                let x = creates_of(p, o)[k];
                assert(p.contains(x));
                let w = choose|w: int| 0 <= w < p.len() && p[w] == x;
                assert(d[w] == p[w]);
            } else {
                assert(d[d.len() - 1] == d.last());
            }
        }
    }
}

proof fn lemma_deletes_from_members(d: Seq<VMConfig>, o: Seq<DeployedVM>)
    ensures
        forall|k: int| 0 <= k < deletes_of(d, o).len() ==> o.contains(#[trigger] deletes_of(d, o)[k]),
    decreases o.len(),
{
    if o.len() > 0 {
        let p = o.drop_last();
        lemma_deletes_from_members(d, p);
        let c = deletes_of(d, o);
        let cp = deletes_of(d, p);
        assert forall|k: int| 0 <= k < c.len() implies o.contains(#[trigger] c[k]) by {
            if k < cp.len() {
                assert(p.contains(cp[k]));
                let w = choose|w: int| 0 <= w < p.len() && p[w] == cp[k];
                assert(o[w] == p[w]);
            } else {
                assert(o[o.len() - 1] == o.last());
            }
        }
    }
}

proof fn lemma_creates_sorted(d: Seq<VMConfig>, o: Seq<DeployedVM>)
    requires
        sorted(d),
    ensures
        sorted(creates_of(d, o)),
    decreases d.len(),
{
    if d.len() > 0 {
        let p = d.drop_last();
        assert(sorted(p)) by {
            assert forall|i: int, j: int| 0 <= i < j < p.len() implies name_le(#[trigger] p[i].name_of(), #[trigger] p[j].name_of()) by {
                assert(p[i] == d[i] && p[j] == d[j]);
            }
        }
        lemma_creates_sorted(p, o);
        lemma_creates_from(p, o);
        let c = creates_of(d, o);
        let cp = creates_of(p, o);
        assert forall|i: int, j: int| 0 <= i < j < c.len() implies name_le(#[trigger] c[i].name_of(), #[trigger] c[j].name_of()) by {
            if j >= cp.len() {
                assert(p.contains(cp[i]));
                let w = choose|w: int| 0 <= w < p.len() && p[w] == cp[i];
                assert(d[w] == p[w]);
                assert(d[d.len() - 1] == d.last());
            }
        }
    }
}

proof fn lemma_updates_sorted(d: Seq<VMConfig>, o: Seq<DeployedVM>)
    requires
        sorted(d),
    ensures
        sorted(updates_of(d, o)),
    decreases d.len(),
{
    if d.len() > 0 {
        let p = d.drop_last();
        assert(sorted(p)) by {
            assert forall|i: int, j: int| 0 <= i < j < p.len() implies name_le(#[trigger] p[i].name_of(), #[trigger] p[j].name_of()) by {
                assert(p[i] == d[i] && p[j] == d[j]);
            }
        }
        lemma_updates_sorted(p, o);
        lemma_updates_members(p, o);
        let c = updates_of(d, o);
        let cp = updates_of(p, o);
        assert forall|i: int, j: int| 0 <= i < j < c.len() implies name_le(#[trigger] c[i].name_of(), #[trigger] c[j].name_of()) by {
            if j >= cp.len() {
                assert(p.contains(cp[i]));
                let w = choose|w: int| 0 <= w < p.len() && p[w] == cp[i];
                assert(d[w] == p[w]);
                assert(d[d.len() - 1] == d.last());
            }
        }
    }
}

proof fn lemma_deletes_sorted(d: Seq<VMConfig>, o: Seq<DeployedVM>)
    requires
        sorted(o),
    ensures
        sorted(deletes_of(d, o)),
    decreases o.len(),
{
    if o.len() > 0 {
        let p = o.drop_last();
        assert(sorted(p)) by {
            assert forall|i: int, j: int| 0 <= i < j < p.len() implies name_le(#[trigger] p[i].name_of(), #[trigger] p[j].name_of()) by {
                assert(p[i] == o[i] && p[j] == o[j]);
            }
        }
        lemma_deletes_sorted(d, p);
        lemma_deletes_from_members(d, p);
        let c = deletes_of(d, o);
        let cp = deletes_of(d, p);
        assert forall|i: int, j: int| 0 <= i < j < c.len() implies name_le(#[trigger] c[i].name_of(), #[trigger] c[j].name_of()) by {
            if j >= cp.len() {
                assert(p.contains(cp[i]));
                let w = choose|w: int| 0 <= w < p.len() && p[w] == cp[i];
                assert(o[w] == p[w]);
                assert(o[o.len() - 1] == o.last());
            }
        }
    }
}

/// The plan that the diff computes from the desired and observed VMs,
/// whatever the order in which they are listed.
pub open spec fn is_plan_of(r: StateDiff, desired: DesiredState, observed: DeployedState) -> bool {
    is_diff_of(r, sort_by_name(desired.vms@), sort_by_name(observed.vms@))
}

proof fn lemma_same_entries(d: Seq<VMConfig>, o: Seq<DeployedVM>, r1: StateDiff, r2: StateDiff)
    requires
        is_diff_of(r1, d, o),
        is_diff_of(r2, d, o),
    ensures
        r1.to_create@ == r2.to_create@,
        r1.to_delete@ == r2.to_delete@,
        r1.to_update@.len() == r2.to_update@.len(),
        forall|i: int|
            0 <= i < r1.to_update@.len() ==> {
                let (u1, u2) = (#[trigger] r1.to_update@[i], r2.to_update@[i]);
                &&& u1.name@ == u2.name@
                &&& u1.config == u2.config
                &&& u1.changed_fields@ == u2.changed_fields@
                &&& u1.required_action == u2.required_action
            },
{
    assert forall|i: int| 0 <= i < r1.to_update@.len() implies {
        let (u1, u2) = (#[trigger] r1.to_update@[i], r2.to_update@[i]);
        &&& u1.name@ == u2.name@
        &&& u1.config == u2.config
        &&& u1.changed_fields@ == u2.changed_fields@
        &&& u1.required_action == u2.required_action
    } by {
        assert(update_entry_for(r1.to_update@[i], updates_of(d, o)[i], o));
        assert(update_entry_for(r2.to_update@[i], updates_of(d, o)[i], o));
    }
}

/// The plan depends on the desired and observed VMs as maps from names, not
/// on the order in which they are listed: two listings of the same VMs, where
/// no two different VMs on one side share a name, give plans that agree entry
/// for entry and in the same order. Equal inputs in particular give equal plans.
pub proof fn diff_ignores_listing_order(
    d1: DesiredState,
    d2: DesiredState,
    o1: DeployedState,
    o2: DeployedState,
    r1: StateDiff,
    r2: StateDiff,
)
    requires
        d1.wf(),
        names_distinct(o1.vms@),
        d1.vms@.to_multiset() == d2.vms@.to_multiset(),
        o1.vms@.to_multiset() == o2.vms@.to_multiset(),
        is_plan_of(r1, d1, o1),
        is_plan_of(r2, d2, o2),
    ensures
        r1.to_create@ == r2.to_create@,
        r1.to_delete@ == r2.to_delete@,
        r1.to_update@.len() == r2.to_update@.len(),
        forall|i: int|
            0 <= i < r1.to_update@.len() ==> {
                let (u1, u2) = (#[trigger] r1.to_update@[i], r2.to_update@[i]);
                &&& u1.name@ == u2.name@
                &&& u1.config == u2.config
                &&& u1.changed_fields@ == u2.changed_fields@
                &&& u1.required_action == u2.required_action
            },
{
    lemma_sort_by_name(d1.vms@);
    lemma_sort_by_name(d2.vms@);
    lemma_sort_by_name(o1.vms@);
    lemma_sort_by_name(o2.vms@);
    lemma_unique_distinct(d1.vms@);
    lemma_distinct_permuted(d1.vms@, sort_by_name(d1.vms@));
    lemma_distinct_permuted(o1.vms@, sort_by_name(o1.vms@));
    lemma_sorted_unique(sort_by_name(d1.vms@), sort_by_name(d2.vms@));
    lemma_sorted_unique(sort_by_name(o1.vms@), sort_by_name(o2.vms@));
    lemma_same_entries(sort_by_name(d1.vms@), sort_by_name(o1.vms@), r1, r2);
}

/// Equal inputs give equal plans: any two results of the diff on the same
/// desired and observed VMs agree entry for entry.
pub proof fn diff_is_deterministic(desired: DesiredState, observed: DeployedState, r1: StateDiff, r2: StateDiff)
    requires
        is_plan_of(r1, desired, observed),
        is_plan_of(r2, desired, observed),
    ensures
        r1.to_create@ == r2.to_create@,
        r1.to_delete@ == r2.to_delete@,
        r1.to_update@.len() == r2.to_update@.len(),
        forall|i: int|
            0 <= i < r1.to_update@.len() ==> {
                let (u1, u2) = (#[trigger] r1.to_update@[i], r2.to_update@[i]);
                &&& u1.name@ == u2.name@
                &&& u1.config == u2.config
                &&& u1.changed_fields@ == u2.changed_fields@
                &&& u1.required_action == u2.required_action
            },
{
    lemma_same_entries(sort_by_name(desired.vms@), sort_by_name(observed.vms@), r1, r2);
}

/// No name occurs in two of the three parts of a plan.
pub proof fn diff_parts_disjoint(desired: DesiredState, observed: DeployedState, r: StateDiff)
    requires
        is_plan_of(r, desired, observed),
    ensures
        forall|i: int, j: int|
            0 <= i < r.to_create@.len() && 0 <= j < r.to_update@.len()
                ==> (#[trigger] r.to_create@[i]).name@ != (#[trigger] r.to_update@[j]).name@,
        forall|i: int, j: int|
            0 <= i < r.to_create@.len() && 0 <= j < r.to_delete@.len()
                ==> (#[trigger] r.to_create@[i]).name@ != (#[trigger] r.to_delete@[j]).vm_name@,
        forall|i: int, j: int|
            0 <= i < r.to_update@.len() && 0 <= j < r.to_delete@.len()
                ==> (#[trigger] r.to_update@[i]).name@ != (#[trigger] r.to_delete@[j]).vm_name@,
{
    let d = sort_by_name(desired.vms@);
    let o = sort_by_name(observed.vms@);
    lemma_creates_members(d, o);
    lemma_updates_members(d, o);
    lemma_deletes_members(d, o);
    assert forall|i: int, j: int|
        0 <= i < r.to_create@.len() && 0 <= j < r.to_update@.len()
            implies (#[trigger] r.to_create@[i]).name@ != (#[trigger] r.to_update@[j]).name@ by {
        let u = updates_of(d, o)[j];
        assert(update_entry_for(r.to_update@[j], u, o));
        lemma_named_iff_has(o, u.name@);
        assert(needs_update(u, o));
    }
    assert forall|i: int, j: int|
        0 <= i < r.to_update@.len() && 0 <= j < r.to_delete@.len()
            implies (#[trigger] r.to_update@[i]).name@ != (#[trigger] r.to_delete@[j]).vm_name@ by {
        let u = updates_of(d, o)[i];
        assert(update_entry_for(r.to_update@[i], u, o));
        assert(desired_has(d, u.name@));
    }
    assert forall|i: int, j: int|
        0 <= i < r.to_create@.len() && 0 <= j < r.to_delete@.len()
            implies (#[trigger] r.to_create@[i]).name@ != (#[trigger] r.to_delete@[j]).vm_name@ by {
        assert(desired_has(d, creates_of(d, o)[i].name@));
    }
}

/// Every planned update has at least one changed field, and its action is
/// Protected exactly when the VM is protected, otherwise Rebuild exactly when
/// the disk changed, otherwise InPlace.
pub proof fn update_action_rule(desired: DesiredState, observed: DeployedState, r: StateDiff)
    requires
        is_plan_of(r, desired, observed),
    ensures
        forall|i: int|
            0 <= i < r.to_update@.len() ==> {
                let u = #[trigger] r.to_update@[i];
                &&& u.changed_fields@.len() > 0
                &&& (u.required_action == UpdateAction::Protected <==> u.config.protected)
                &&& (!u.config.protected ==> (u.required_action == UpdateAction::Rebuild
                    <==> u.changed_fields@.contains(FieldChange::Disk)))
                &&& (!u.config.protected && !u.changed_fields@.contains(FieldChange::Disk)
                    ==> u.required_action == UpdateAction::InPlace)
            },
{
    let d = sort_by_name(desired.vms@);
    let o = sort_by_name(observed.vms@);
    lemma_updates_members(d, o);
    assert forall|i: int| 0 <= i < r.to_update@.len() implies {
        let u = #[trigger] r.to_update@[i];
        &&& u.changed_fields@.len() > 0
        &&& (u.required_action == UpdateAction::Protected <==> u.config.protected)
        &&& (!u.config.protected ==> (u.required_action == UpdateAction::Rebuild
            <==> u.changed_fields@.contains(FieldChange::Disk)))
        &&& (!u.config.protected && !u.changed_fields@.contains(FieldChange::Disk)
            ==> u.required_action == UpdateAction::InPlace)
    } by {
        let c = updates_of(d, o)[i];
        assert(update_entry_for(r.to_update@[i], c, o));
        assert(needs_update(c, o));
    }
}

/// When every desired VM is observed exactly as declared, every observed VM
/// is desired, and no two different observed VMs share a name, the plan is
/// empty, whatever the order in which either side is listed.
pub proof fn diff_of_matching_state_is_empty(desired: DesiredState, observed: DeployedState, r: StateDiff)
    requires
        desired.wf(),
        names_distinct(observed.vms@),
        forall|i: int|
            #![trigger desired.vms@[i]]
            0 <= i < desired.vms@.len() ==> exists|k: int|
                0 <= k < observed.vms@.len() && reflects(#[trigger] observed.vms@[k], desired.vms@[i]),
        forall|k: int| 0 <= k < observed.vms@.len() ==> desired_has(desired.vms@, (#[trigger] observed.vms@[k]).vm_name@),
        is_plan_of(r, desired, observed),
    ensures
        r.to_create@.len() == 0,
        r.to_update@.len() == 0,
        r.to_delete@.len() == 0,
{
    let d0 = desired.vms@;
    let o0 = observed.vms@;
    let d = sort_by_name(d0);
    let o = sort_by_name(o0);
    lemma_sort_by_name(d0);
    lemma_sort_by_name(o0);
    lemma_creates_members(d, o);
    lemma_creates_from(d, o);
    lemma_updates_members(d, o);
    lemma_deletes_members(d, o);
    lemma_deletes_from_members(d, o);
    if creates_of(d, o).len() > 0 {
        let c = creates_of(d, o)[0];
        assert(d.contains(c));
        lemma_contains_of_multiset(d, d0, c);
        let i = choose|i: int| 0 <= i < d0.len() && d0[i] == c;
        let k = choose|k: int| 0 <= k < o0.len() && reflects(#[trigger] o0[k], d0[i]);
        assert(o0.contains(o0[k]));
        lemma_contains_of_multiset(o0, o, o0[k]);
        let w = choose|w: int| 0 <= w < o.len() && o[w] == o0[k];
        assert(o[w].vm_name@ == c.name@);
    }
    if updates_of(d, o).len() > 0 {
        let c = updates_of(d, o)[0];
        assert(d.contains(c));
        lemma_contains_of_multiset(d, d0, c);
        let i = choose|i: int| 0 <= i < d0.len() && d0[i] == c;
        let k = choose|k: int| 0 <= k < o0.len() && reflects(#[trigger] o0[k], d0[i]);
        assert(needs_update(c, o));
        lemma_named_iff_has(o, c.name@);
        let x = observed_named(o, c.name@).unwrap();
        assert(o.contains(x));
        lemma_contains_of_multiset(o, o0, x);
        let m = choose|m: int| 0 <= m < o0.len() && o0[m] == x;
        assert(o0[m].name_of() == o0[k].name_of());
        assert(x == o0[k]);
        assert(changes_of(c, x) =~= seq![]);
    }
    if deletes_of(d, o).len() > 0 {
        let x = deletes_of(d, o)[0];
        assert(o.contains(x));
        lemma_contains_of_multiset(o, o0, x);
        let m = choose|m: int| 0 <= m < o0.len() && o0[m] == x;
        assert(desired_has(d0, x.vm_name@));
        let i = choose|i: int| 0 <= i < d0.len() && (#[trigger] d0[i]).name@ == x.vm_name@;
        assert(d0.contains(d0[i]));
        lemma_contains_of_multiset(d0, d, d0[i]);
        let w = choose|w: int| 0 <= w < d.len() && d[w] == d0[i];
        assert(desired_has(d, x.vm_name@));
    }
}

impl DeployedVM {
    /// The observed VM that a freshly provisioned, still stopped `config` gives.
    pub fn from_config(config: &VMConfig) -> (r: DeployedVM)
        ensures
            reflects(r, *config),
            r.vm_id == config.vm_id,
            r.status@ == "stopped"@,
            r.pid == 0,
            r.commit_hash is None,
            r.template_id is None,
    {
        DeployedVM {
            vm_id: config.vm_id,
            vm_name: config.name.clone(),
            commit_hash: None,
            template_id: None,
            mem_mb: config.memory_mb,
            bootdisk_cgb: config.disk_gb as u64 * 100,
            status: String::from_str("stopped"),
            pid: 0,
            cores: config.cores,
            sockets: config.sockets,
        }
    }
}

impl DeployedState {
    /// The observed state in which every desired VM exists exactly as declared.
    pub fn from_desired(desired: &DesiredState) -> (r: DeployedState)
        ensures
            r.vms@.len() == desired.vms@.len(),
            forall|i: int| 0 <= i < desired.vms@.len() ==> reflects(#[trigger] r.vms@[i], desired.vms@[i]),
    {
        let mut vms: Vec<DeployedVM> = Vec::new();
        let mut i: usize = 0;
        while i < desired.vms.len()
            invariant
                i <= desired.vms@.len(),
                vms@.len() == i,
                forall|j: int| 0 <= j < i ==> reflects(#[trigger] vms@[j], desired.vms@[j]),
            decreases desired.vms@.len() - i,
        {
            vms.push(DeployedVM::from_config(&desired.vms[i]));
            i = i + 1;
        }
        DeployedState { vms }
    }
}

} // verus!
