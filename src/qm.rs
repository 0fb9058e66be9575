use vstd::prelude::*;

use crate::text::{
    chars_of, contains_text, decimal_of, decimal_text, has_sub, joined, lines_of, slice_string,
    split_lines, text, views_of,
};
use crate::types::{AppError, FieldChange, VMConfig};

verus! {

/// The text with which the VM manager reports a finished disk import.
pub const IMPORT_MARKER: &'static str = "Successfully imported disk";

/// The text with which the VM manager refuses to start a running VM.
pub const ALREADY_RUNNING: &'static str = "already running";

/// The arguments of `create_args`.
pub open spec fn create_view(config: VMConfig) -> Seq<Seq<char>> {
    seq![
        "create"@,
        decimal_of(config.vm_id as nat),
        "--name"@,
        config.name@,
        "--memory"@,
        decimal_of(config.memory_mb as nat),
        "--cores"@,
        decimal_of(config.cores as nat),
        "--net0"@,
        "virtio,bridge="@ + config.network_bridge@,
        "--scsihw"@,
        config.scsi_hw@,
    ]
}

/// The arguments of `importdisk_args`.
pub open spec fn importdisk_view(vm_id: u32, image_path: Seq<char>, storage: Seq<char>) -> Seq<Seq<char>> {
    seq![
        "importdisk"@,
        decimal_of(vm_id as nat),
        image_path,
        storage,
        "--format=qcow2"@,
    ]
}

/// The arguments of `set_disk_args`.
pub open spec fn set_disk_view(vm_id: u32, disk_ref: Seq<char>, slot: Seq<char>) -> Seq<Seq<char>> {
    seq![
        "set"@,
        decimal_of(vm_id as nat),
        "--"@ + slot,
        disk_ref,
        "--boot"@,
        "order="@ + slot,
    ]
}

/// The arguments of `set_agent_args`.
pub open spec fn set_agent_view(vm_id: u32) -> Seq<Seq<char>> {
    seq![
        "set"@,
        decimal_of(vm_id as nat),
        "--agent"@,
        "enabled=1"@,
        "--serial0"@,
        "socket"@,
    ]
}

/// The arguments of `start_args`.
pub open spec fn start_view(vm_id: u32) -> Seq<Seq<char>> {
    seq!["start"@, decimal_of(vm_id as nat)]
}

/// The arguments that create the shell of a VM: id, name, memory, cores,
/// network bridge and SCSI controller, no disk.
pub fn create_args(config: &VMConfig) -> (r: Vec<String>)
    ensures
        views_of(r@) == create_view(*config),
{
    let mut r: Vec<String> = Vec::new();
    r.push(text("create"));
    r.push(decimal_text(config.vm_id as u64));
    r.push(text("--name"));
    r.push(config.name.clone());
    r.push(text("--memory"));
    r.push(decimal_text(config.memory_mb as u64));
    r.push(text("--cores"));
    r.push(decimal_text(config.cores as u64));
    r.push(text("--net0"));
    r.push(joined("virtio,bridge=", config.network_bridge.as_str()));
    r.push(text("--scsihw"));
    r.push(config.scsi_hw.clone());
    assert(views_of(r@) =~= create_view(*config));
    r
}

/// The arguments that import the disk image at `image_path` into `storage`
/// for the VM `vm_id`.
pub fn importdisk_args(vm_id: u32, image_path: &str, storage: &str) -> (r: Vec<String>)
    ensures
        views_of(r@) == importdisk_view(vm_id, image_path@, storage@),
{
    let mut r: Vec<String> = Vec::new();
    r.push(text("importdisk"));
    r.push(decimal_text(vm_id as u64));
    r.push(text(image_path));
    r.push(text(storage));
    r.push(text("--format=qcow2"));
    assert(views_of(r@) =~= importdisk_view(vm_id, image_path@, storage@));
    r
}

/// The arguments that attach the imported disk `disk_ref` at `slot` and
/// boot from that slot.
pub fn set_disk_args(vm_id: u32, disk_ref: &str, slot: &str) -> (r: Vec<String>)
    ensures
        views_of(r@) == set_disk_view(vm_id, disk_ref@, slot@),
{
    let mut r: Vec<String> = Vec::new();
    r.push(text("set"));
    r.push(decimal_text(vm_id as u64));
    r.push(joined("--", slot));
    r.push(text(disk_ref));
    r.push(text("--boot"));
    r.push(joined("order=", slot));
    assert(views_of(r@) =~= set_disk_view(vm_id, disk_ref@, slot@));
    r
}

/// The arguments that enable the guest agent and attach a socket serial port.
pub fn set_agent_args(vm_id: u32) -> (r: Vec<String>)
    ensures
        views_of(r@) == set_agent_view(vm_id),
{
    let mut r: Vec<String> = Vec::new();
    r.push(text("set"));
    r.push(decimal_text(vm_id as u64));
    r.push(text("--agent"));
    r.push(text("enabled=1"));
    r.push(text("--serial0"));
    r.push(text("socket"));
    assert(views_of(r@) =~= set_agent_view(vm_id));
    r
}

/// The arguments that start a VM.
pub fn start_args(vm_id: u32) -> (r: Vec<String>)
    ensures
        views_of(r@) == start_view(vm_id),
{
    let mut r: Vec<String> = Vec::new();
    r.push(text("start"));
    r.push(decimal_text(vm_id as u64));
    assert(views_of(r@) =~= start_view(vm_id));
    r
}

/// The arguments that stop a VM.
pub fn stop_args(vm_id: u32) -> (r: Vec<String>)
    ensures
        views_of(r@) == seq!["stop"@, decimal_of(vm_id as nat)],
{
    let mut r: Vec<String> = Vec::new();
    r.push(text("stop"));
    r.push(decimal_text(vm_id as u64));
    assert(views_of(r@) =~= seq!["stop"@, decimal_of(vm_id as nat)]);
    r
}

/// The arguments that remove a stopped VM together with its disks.
pub fn destroy_args(vm_id: u32) -> (r: Vec<String>)
    ensures
        views_of(r@) == seq!["destroy"@, decimal_of(vm_id as nat), "--purge"@],
{
    let mut r: Vec<String> = Vec::new();
    r.push(text("destroy"));
    r.push(decimal_text(vm_id as u64));
    r.push(text("--purge"));
    assert(views_of(r@) =~= seq!["destroy"@, decimal_of(vm_id as nat), "--purge"@]);
    r
}

/// The flag and value that set one changed resource; a disk change sets nothing.
pub open spec fn resource_flags(f: FieldChange, c: VMConfig) -> Seq<Seq<char>> {
    match f {
        FieldChange::Memory => seq!["--memory"@, decimal_of(c.memory_mb as nat)],
        FieldChange::Cores => seq!["--cores"@, decimal_of(c.cores as nat)],
        FieldChange::Sockets => seq!["--sockets"@, decimal_of(c.sockets as nat)],
        FieldChange::Disk => seq![],
    }
}

/// The flags for a list of changed resources, in their order.
pub open spec fn resources_flags(fs: Seq<FieldChange>, c: VMConfig) -> Seq<Seq<char>>
    decreases fs.len(),
{
    if fs.len() == 0 {
        seq![]
    } else {
        resources_flags(fs.drop_last(), c) + resource_flags(fs.last(), c)
    }
}

/// The arguments of one invocation that sets, to the values of `config`,
/// exactly the resources among `changes` other than the disk.
pub fn set_resources_args(vm_id: u32, config: &VMConfig, changes: &Vec<FieldChange>) -> (r: Vec<String>)
    ensures
        views_of(r@) == seq!["set"@, decimal_of(vm_id as nat)] + resources_flags(changes@, *config),
{
    let mut r: Vec<String> = Vec::new();
    r.push(text("set"));
    r.push(decimal_text(vm_id as u64));
    let ghost head = seq!["set"@, decimal_of(vm_id as nat)];
    assert(views_of(r@) =~= head);
    assert(changes@.subrange(0, 0) =~= seq![]);
    let mut i: usize = 0;
    while i < changes.len()
        invariant
            i <= changes@.len(),
            head == seq!["set"@, decimal_of(vm_id as nat)],
            views_of(r@) == head + resources_flags(changes@.subrange(0, i as int), *config),
        decreases changes@.len() - i,
    {
        let ghost pre = changes@.subrange(0, i as int);
        assert(changes@.subrange(0, i + 1).drop_last() =~= pre);
        let ghost before = views_of(r@);
        match changes[i] {
            FieldChange::Memory => {
                r.push(text("--memory"));
                r.push(decimal_text(config.memory_mb as u64));
            },
            FieldChange::Cores => {
                r.push(text("--cores"));
                r.push(decimal_text(config.cores as u64));
            },
            FieldChange::Sockets => {
                r.push(text("--sockets"));
                r.push(decimal_text(config.sockets as u64));
            },
            FieldChange::Disk => {},
        }
        assert(views_of(r@) =~= before + resource_flags(changes@[i as int], *config));
        i = i + 1;
    }
    assert(changes@.subrange(0, changes@.len() as int) =~= changes@);
    r
}


/// `i` is the first position of `c` in `s`.
pub open spec fn first_at(s: Seq<char>, c: char, i: int) -> bool {
    0 <= i < s.len() && s[i] == c && forall|j: int| 0 <= j < i ==> s[j] != c
}

/// `i` is the last position of `c` in `s`.
pub open spec fn last_at(s: Seq<char>, c: char, i: int) -> bool {
    0 <= i < s.len() && s[i] == c && forall|j: int| i < j < s.len() ==> s[j] != c
}

/// `r` is the disk reference that `line` reports: the text between the
/// first and the last single quote, without its first `:`-separated segment.
pub open spec fn disk_ref_in(line: Seq<char>, r: Seq<char>) -> bool {
    exists|q1: int, q2: int, c: int|
        first_at(line, '\'', q1) && last_at(line, '\'', q2) && q1 < q2
            && #[trigger] first_at(line.subrange(q1 + 1, q2), ':', c)
            && r == line.subrange(q1 + 2 + c, q2)
}

/// Whether `line` reports a disk reference.
pub open spec fn has_disk_ref(line: Seq<char>) -> bool {
    exists|r: Seq<char>| disk_ref_in(line, r)
}

/// `k` is the first of the lines `ls` that holds the import marker.
pub open spec fn first_marker_line(ls: Seq<Seq<char>>, k: int) -> bool {
    &&& 0 <= k < ls.len()
    &&& has_sub(ls[k], IMPORT_MARKER@)
    &&& forall|j: int| 0 <= j < k ==> !has_sub(#[trigger] ls[j], IMPORT_MARKER@)
}

/// The first position in `cs[from..to]` that holds `c`.
fn first_index(cs: &Vec<char>, c: char, from: usize, to: usize) -> (r: Option<usize>)
    requires
        from <= to <= cs@.len(),
    ensures
        match r {
            Some(i) => from <= i < to && cs@[i as int] == c && forall|j: int|
                from <= j < i ==> cs@[j] != c,
            None => forall|j: int| from <= j < to ==> cs@[j] != c,
        },
{
    let mut i: usize = from;
    while i < to
        invariant
            from <= i <= to <= cs@.len(),
            forall|j: int| from <= j < i ==> cs@[j] != c,
        decreases to - i,
    {
        if cs[i] == c {
            return Some(i);
        }
        i = i + 1;
    }
    None
}

/// The last position in `cs` that holds `c`.
fn last_index(cs: &Vec<char>, c: char) -> (r: Option<usize>)
    ensures
        match r {
            Some(i) => i < cs@.len() && cs@[i as int] == c && forall|j: int|
                i < j < cs@.len() ==> cs@[j] != c,
            None => forall|j: int| 0 <= j < cs@.len() ==> cs@[j] != c,
        },
{
    let mut i: usize = cs.len();
    while i > 0
        invariant
            i <= cs@.len(),
            forall|j: int| i <= j < cs@.len() ==> cs@[j] != c,
        decreases i,
    {
        if cs[i - 1] == c {
            return Some(i - 1);
        }
        i = i - 1;
    }
    None
}

/// Reads the disk reference out of one line, if it holds one.
fn disk_ref_of_line(line: &String) -> (r: Option<String>)
    ensures
        match r {
            Some(d) => disk_ref_in(line@, d@),
            None => !has_disk_ref(line@),
        },
{
    let cs = chars_of(line.as_str());
    let ghost l = line@;
    let q1 = match first_index(&cs, '\'', 0, cs.len()) {
        Some(q) => q,
        None => {
            return None;
        },
    };
    let q2 = match last_index(&cs, '\'') {
        Some(q) => q,
        None => {
            return None;
        },
    };
    if q1 >= q2 {
        proof {
            assert forall|d: Seq<char>| !disk_ref_in(l, d) by {
                assert forall|a: int, b: int, c: int|
                    !(first_at(l, '\'', a) && last_at(l, '\'', b) && a < b && #[trigger] first_at(l.subrange(a + 1, b), ':', c) && d == l.subrange(a + 2 + c, b)) by {
                    if first_at(l, '\'', a) && last_at(l, '\'', b) && a < b {
                        assert(a == q1 as int);
                        assert(b == q2 as int);
                    }
                }
            }
        }
        return None;
    }
    match first_index(&cs, ':', q1 + 1, q2) {
        None => {
            proof {
                assert forall|d: Seq<char>| !disk_ref_in(l, d) by {
                    assert forall|a: int, b: int, c: int|
                        !(first_at(l, '\'', a) && last_at(l, '\'', b) && a < b && #[trigger] first_at(l.subrange(a + 1, b), ':', c) && d == l.subrange(a + 2 + c, b)) by {
                        if first_at(l, '\'', a) && last_at(l, '\'', b) && a < b && first_at(
                            l.subrange(a + 1, b),
                            ':',
                            c,
                        ) {
                            assert(a == q1 as int);
                            assert(b == q2 as int);
                            assert(l.subrange(a + 1, b)[c] == l[a + 1 + c]);
                        }
                    }
                }
            }
            None
        },
        Some(c) => {
            let ghost rel = c - q1 - 1;
            let d = slice_string(line.as_str(), c + 1, q2);
            proof {
                let inner = l.subrange(q1 + 1, q2 as int);
                assert forall|j: int| 0 <= j < rel implies inner[j] != ':' by {
                    assert(inner[j] == l[q1 + 1 + j]);
                }
                assert(inner[rel] == l[c as int]);
                assert(first_at(inner, ':', rel));
                assert(d@ =~= l.subrange(q1 + 2 + rel, q2 as int));
            }
            Some(d)
        },
    }
}

/// Reads the disk reference out of the output of a disk import: the first
/// line that holds the import marker names it between single quotes, after a
/// leading `unusedN:` segment.
pub fn parse_import_disk(output: &str) -> (r: Result<String, AppError>)
    ensures
        match r {
            Ok(d) => exists|k: int|
                first_marker_line(lines_of(output@), k) && disk_ref_in(
                    #[trigger] lines_of(output@)[k],
                    d@,
                ),
            Err(e) => e is CmdError && forall|k: int|
                first_marker_line(lines_of(output@), k) ==> !has_disk_ref(
                    #[trigger] lines_of(output@)[k],
                ),
        },
{
    let lines = split_lines(output);
    let ghost ls = lines_of(output@);
    assert(views_of(lines@).len() == lines@.len());
    let mut i: usize = 0;
    while i < lines.len()
        invariant
            i <= lines@.len(),
            views_of(lines@) == ls,
            ls == lines_of(output@),
            forall|j: int| 0 <= j < i ==> !has_sub(#[trigger] ls[j], IMPORT_MARKER@),
        decreases lines@.len() - i,
    {
        assert(lines@[i as int]@ == ls[i as int]);
        if contains_text(lines[i].as_str(), IMPORT_MARKER) {
            assert(first_marker_line(ls, i as int));
            match disk_ref_of_line(&lines[i]) {
                Some(d) => {
                    return Ok(d);
                },
                None => {
                    assert forall|k: int| first_marker_line(ls, k) implies !has_disk_ref(
                        #[trigger] ls[k],
                    ) by {
                        assert(k == i as int);
                    }
                    return Err(AppError::CmdError(joined("disk import output names no disk: ", lines[i].as_str())));
                },
            }
        }
        i = i + 1;
    }
    Err(AppError::CmdError(text("disk import output has no success line")))
}

/// What a start of a VM came to: `Ok(true)` when it started, `Ok(false)`
/// when the VM manager says it was already running, else an error that
/// carries the error output.
pub fn start_outcome(success: bool, stderr: &str) -> (r: Result<bool, AppError>)
    ensures
        success ==> r == Ok::<bool, AppError>(true),
        !success && has_sub(stderr@, ALREADY_RUNNING@) ==> r == Ok::<bool, AppError>(false),
        !success && !has_sub(stderr@, ALREADY_RUNNING@) ==> (r matches Err(AppError::CmdError(m)) && m@ == stderr@),
{
    if success {
        Ok(true)
    } else if contains_text(stderr, ALREADY_RUNNING) {
        Ok(false)
    } else {
        Err(AppError::CmdError(text(stderr)))
    }
}


/// The external tool whose failure an error reports.
#[derive(Debug, Clone, Copy, PartialEq, Eq, Structural)]
pub enum Tool {
    /// The hypervisor's VM manager.
    VmManager,
    /// The declarative build tool.
    BuildTool,
}

/// The text of an exit code, with a sign when it is negative.
pub open spec fn exit_code_text(code: i32) -> Seq<char> {
    if code < 0 {
        "-"@ + decimal_of((-code) as nat)
    } else {
        decimal_of(code as nat)
    }
}

/// The message that a failed invocation carries: its exit code, if it had
/// one, and its error output verbatim.
pub open spec fn failure_message(code: Option<i32>, stderr: Seq<char>) -> Seq<char> {
    match code {
        Some(c) => "exit code "@ + exit_code_text(c) + ": "@ + stderr,
        None => "terminated by a signal: "@ + stderr,
    }
}

/// The outcome of one invocation: its output when it exited with code 0,
/// else an error of the tool's kind that carries the exit code and the
/// error output.
pub fn check_exit(tool: Tool, code: Option<i32>, stdout: String, stderr: &str) -> (r: Result<String, AppError>)
    ensures
        code == Some(0i32) ==> r == Ok::<String, AppError>(stdout),
        code != Some(0i32) && tool == Tool::VmManager ==> (r matches Err(AppError::CmdError(m))
            && m@ == failure_message(code, stderr@)),
        code != Some(0i32) && tool == Tool::BuildTool ==> (r matches Err(AppError::NixError(m))
            && m@ == failure_message(code, stderr@)),
{
    let m = match code {
        Some(0i32) => {
            return Ok(stdout);
        },
        Some(c) => {
            let mut m = text("exit code ");
            if c < 0 {
                m.append("-");
                let n = decimal_text((-(c as i64)) as u64);
                m.append(n.as_str());
            } else {
                let n = decimal_text(c as u64);
                m.append(n.as_str());
            }
            m.append(": ");
            m.append(stderr);
            m
        },
        None => joined("terminated by a signal: ", stderr),
    };
    match tool {
        Tool::VmManager => Err(AppError::CmdError(m)),
        Tool::BuildTool => Err(AppError::NixError(m)),
    }
}

} // verus!
