use vstd::prelude::*;

use crate::qm::first_at;
use crate::text::{
    chars_of, digits_in, digits_value, is_number_text, is_space, is_space_char, lines_of, slice_string, split_lines,
    text, views_of,
};
use crate::types::{AppError, QMConfig};

verus! {

/// `s` without its leading whitespace.
pub open spec fn trim_start(s: Seq<char>) -> Seq<char>
    decreases s.len(),
{
    if s.len() > 0 && is_space(s[0]) {
        trim_start(s.drop_first())
    } else {
        s
    }
}

/// `s` without its trailing whitespace.
pub open spec fn trim_end(s: Seq<char>) -> Seq<char>
    decreases s.len(),
{
    if s.len() > 0 && is_space(s.last()) {
        trim_end(s.drop_last())
    } else {
        s
    }
}

/// `s` without leading and trailing whitespace.
pub open spec fn trim(s: Seq<char>) -> Seq<char> {
    trim_end(trim_start(s))
}

proof fn lemma_trim_start_at(s: Seq<char>, a: int)
    requires
        0 <= a <= s.len(),
        forall|j: int| 0 <= j < a ==> is_space(#[trigger] s[j]),
        a == s.len() || !is_space(s[a]),
    ensures
        trim_start(s) == s.subrange(a, s.len() as int),
    decreases a,
{
    if a == 0 {
        assert(s.subrange(0, s.len() as int) =~= s);
    } else {
        let t = s.drop_first();
        assert forall|j: int| 0 <= j < a - 1 implies is_space(#[trigger] t[j]) by {
            assert(t[j] == s[j + 1]);
        }
        if a - 1 < t.len() {
            assert(t[a - 1] == s[a]);
        }
        lemma_trim_start_at(t, a - 1);
        assert(t.subrange(a - 1, t.len() as int) =~= s.subrange(a, s.len() as int));
    }
}

proof fn lemma_trim_end_at(s: Seq<char>, b: int)
    requires
        0 <= b <= s.len(),
        forall|j: int| b <= j < s.len() ==> is_space(#[trigger] s[j]),
        b == 0 || !is_space(s[b - 1]),
    ensures
        trim_end(s) == s.subrange(0, b),
    decreases s.len() - b,
{
    if b == s.len() {
        assert(s.subrange(0, b) =~= s);
    } else {
        let t = s.drop_last();
        assert forall|j: int| b <= j < t.len() implies is_space(#[trigger] t[j]) by {
            assert(t[j] == s[j]);
        }
        if b > 0 {
            assert(t[b - 1] == s[b - 1]);
        }
        lemma_trim_end_at(t, b);
        assert(t.subrange(0, b) =~= s.subrange(0, b));
    }
}

/// The characters `s[from..to]` without leading and trailing whitespace.
fn trimmed(s: &str, cs: &Vec<char>, from: usize, to: usize) -> (r: String)
    requires
        cs@ == s@,
        from <= to <= s@.len(),
    ensures
        r@ == trim(s@.subrange(from as int, to as int)),
{
    let ghost t = s@.subrange(from as int, to as int);
    let mut a: usize = from;
    while a < to && is_space_char(cs[a])
        invariant
            cs@ == s@,
            from <= a <= to <= s@.len(),
            forall|j: int| from <= j < a ==> is_space(#[trigger] s@[j]),
        decreases to - a,
    {
        a = a + 1;
    }
    proof {
        assert forall|j: int| 0 <= j < a - from implies is_space(#[trigger] t[j]) by {
            assert(t[j] == s@[from + j]);
        }
        if a < to {
            assert(t[a - from] == s@[a as int]);
        }
        lemma_trim_start_at(t, a - from);
    }
    let mut b: usize = to;
    while b > a && is_space_char(cs[b - 1])
        invariant
            cs@ == s@,
            from <= a <= b <= to <= s@.len(),
            forall|j: int| b <= j < to ==> is_space(#[trigger] s@[j]),
        decreases b - a,
    {
        b = b - 1;
    }
    proof {
        let u = s@.subrange(a as int, to as int);
        assert(t.subrange(a - from, t.len() as int) =~= u);
        assert forall|j: int| b - a <= j < u.len() implies is_space(#[trigger] u[j]) by {
            assert(u[j] == s@[a + j]);
        }
        if b > a {
            assert(u[b - a - 1] == s@[b - 1]);
        }
        lemma_trim_end_at(u, b - a);
        assert(u.subrange(0, b - a) =~= s@.subrange(a as int, b as int));
    }
    slice_string(s, a, b)
}

/// The key and value of a configuration line: split at the first `:`,
/// each side trimmed; a line without `:` has none.
pub open spec fn pair_of_line(line: Seq<char>) -> Option<(Seq<char>, Seq<char>)> {
    if exists|c: int| first_at(line, ':', c) {
        let c = choose|c: int| first_at(line, ':', c);
        Some((trim(line.subrange(0, c)), trim(line.subrange(c + 1, line.len() as int))))
    } else {
        None
    }
}

/// The key-value pairs of the lines `ls`, in order, skipping lines without `:`.
pub open spec fn pairs_in(ls: Seq<Seq<char>>) -> Seq<(Seq<char>, Seq<char>)>
    decreases ls.len(),
{
    if ls.len() == 0 {
        seq![]
    } else {
        match pair_of_line(ls.last()) {
            Some(kv) => pairs_in(ls.drop_last()).push(kv),
            None => pairs_in(ls.drop_last()),
        }
    }
}

/// Splits one line into its trimmed key and value.
fn split_pair(line: &String) -> (r: Option<(String, String)>)
    ensures
        match r {
            Some(kv) => pair_of_line(line@) == Some((kv.0@, kv.1@)),
            None => pair_of_line(line@) is None,
        },
{
    let cs = chars_of(line.as_str());
    let n = cs.len();
    let mut i: usize = 0;
    while i < n
        invariant
            cs@ == line@,
            n == line@.len(),
            i <= n,
            forall|j: int| 0 <= j < i ==> line@[j] != ':',
        decreases n - i,
    {
        if cs[i] == ':' {
            proof {
                assert(first_at(line@, ':', i as int));
                let c = choose|c: int| first_at(line@, ':', c);
                assert(c == i as int) by {
                    if c < i {
                    } else if c > i {
                        assert(line@[i as int] == ':');
                    }
                }
            }
            let k = trimmed(line.as_str(), &cs, 0, i);
            let v = trimmed(line.as_str(), &cs, i + 1, n);
            return Some((k, v));
        }
        i = i + 1;
    }
    assert(!exists|c: int| first_at(line@, ':', c));
    None
}


/// What a configuration key sets: one of the known fields, one of the
/// keyed groups (by prefix), or nothing.
#[derive(Debug, Clone, Copy, PartialEq, Eq, Structural)]
pub enum ConfigKey {
    Agent,
    Balloon,
    Boot,
    BootDisk,
    CiPassword,
    CiUser,
    Cores,
    Cpu,
    CpuUnits,
    Memory,
    Meta,
    Name,
    Numa,
    OnBoot,
    Protection,
    Sockets,
    SshKeys,
    Vga,
    VmGenId,
    Disk,
    Network,
    IpConfig,
    Serial,
    Other,
}

pub open spec fn has_prefix(k: Seq<char>, p: Seq<char>) -> bool {
    p.len() <= k.len() && k.subrange(0, p.len() as int) == p
}

/// The classification of a key: an exact known key, else `scsi*`, `sata*`,
/// `ide*` and `virtio*` are disks, `net*` networks, `ipconfig*` ip
/// configurations and `serial*` serial ports.
pub open spec fn config_key(k: Seq<char>) -> ConfigKey {
    if k == "agent"@ {
        ConfigKey::Agent
    } else if k == "balloon"@ {
        ConfigKey::Balloon
    } else if k == "boot"@ {
        ConfigKey::Boot
    } else if k == "bootdisk"@ {
        ConfigKey::BootDisk
    } else if k == "cipassword"@ {
        ConfigKey::CiPassword
    } else if k == "ciuser"@ {
        ConfigKey::CiUser
    } else if k == "cores"@ {
        ConfigKey::Cores
    } else if k == "cpu"@ {
        ConfigKey::Cpu
    } else if k == "cpuunits"@ {
        ConfigKey::CpuUnits
    } else if k == "memory"@ {
        ConfigKey::Memory
    } else if k == "meta"@ {
        ConfigKey::Meta
    } else if k == "name"@ {
        ConfigKey::Name
    } else if k == "numa"@ {
        ConfigKey::Numa
    } else if k == "onboot"@ {
        ConfigKey::OnBoot
    } else if k == "protection"@ {
        ConfigKey::Protection
    } else if k == "sockets"@ {
        ConfigKey::Sockets
    } else if k == "sshkeys"@ {
        ConfigKey::SshKeys
    } else if k == "vga"@ {
        ConfigKey::Vga
    } else if k == "vmgenid"@ {
        ConfigKey::VmGenId
    } else if has_prefix(k, "scsi"@) || has_prefix(k, "sata"@) || has_prefix(k, "ide"@) || has_prefix(k, "virtio"@) {
        ConfigKey::Disk
    } else if has_prefix(k, "net"@) {
        ConfigKey::Network
    } else if has_prefix(k, "ipconfig"@) {
        ConfigKey::IpConfig
    } else if has_prefix(k, "serial"@) {
        ConfigKey::Serial
    } else {
        ConfigKey::Other
    }
}

/// The value of the last pair whose key is classified as `key`.
pub open spec fn last_value(ps: Seq<(Seq<char>, Seq<char>)>, key: ConfigKey) -> Option<Seq<char>>
    decreases ps.len(),
{
    if ps.len() == 0 {
        None
    } else if config_key(ps.last().0) == key {
        Some(ps.last().1)
    } else {
        last_value(ps.drop_last(), key)
    }
}

pub open spec fn text_of(v: Option<Seq<char>>) -> Seq<char> {
    match v {
        Some(s) => s,
        None => seq![],
    }
}

/// A flag is set unless its value is `0`.
pub open spec fn flag_of(v: Option<Seq<char>>) -> bool {
    match v {
        Some(s) => s != "0"@,
        None => false,
    }
}

pub open spec fn number_of(v: Option<Seq<char>>) -> nat {
    match v {
        Some(s) => digits_value(s),
        None => 0,
    }
}

pub open spec fn opt_text_is(o: Option<String>, v: Option<Seq<char>>) -> bool {
    match v {
        Some(s) => o matches Some(x) && x@ == s,
        None => o is None,
    }
}

/// The position of the first pair of `b` with key `k`, or the length of `b`.
pub open spec fn key_pos(b: Seq<(Seq<char>, Seq<char>)>, k: Seq<char>) -> int
    decreases b.len(),
{
    if b.len() == 0 {
        0
    } else if b[0].0 == k {
        0
    } else {
        1 + key_pos(b.drop_first(), k)
    }
}

/// `b` with the value of key `k` set to `v`: replaced in place if the key is
/// there, appended otherwise.
pub open spec fn upsert(b: Seq<(Seq<char>, Seq<char>)>, k: Seq<char>, v: Seq<char>) -> Seq<(Seq<char>, Seq<char>)> {
    let i = key_pos(b, k);
    if i < b.len() {
        b.update(i, (k, v))
    } else {
        b.push((k, v))
    }
}

/// The keyed group of the pairs whose keys are classified as `key`.
pub open spec fn bucket(ps: Seq<(Seq<char>, Seq<char>)>, key: ConfigKey) -> Seq<(Seq<char>, Seq<char>)>
    decreases ps.len(),
{
    if ps.len() == 0 {
        seq![]
    } else if config_key(ps.last().0) == key {
        upsert(bucket(ps.drop_last(), key), ps.last().0, ps.last().1)
    } else {
        bucket(ps.drop_last(), key)
    }
}

pub open spec fn pair_views(v: Seq<(String, String)>) -> Seq<(Seq<char>, Seq<char>)> {
    v.map_values(|p: (String, String)| (p.0@, p.1@))
}

/// The largest value that a numeric key holds.
pub open spec fn numeric_limit(key: ConfigKey) -> Option<nat> {
    match key {
        ConfigKey::Cores | ConfigKey::Sockets => Some(255),
        ConfigKey::CpuUnits => Some(65535),
        ConfigKey::Memory => Some(4294967295),
        _ => None,
    }
}

/// A pair whose key is numeric and whose value is not a number in range.
pub open spec fn pair_bad(kv: (Seq<char>, Seq<char>)) -> bool {
    match numeric_limit(config_key(kv.0)) {
        Some(m) => !is_number_text(kv.1, m),
        None => false,
    }
}

/// The configuration holds, for each known key, the value of its last line,
/// and for each keyed group its keys with their last values.
pub open spec fn config_reflects(cfg: QMConfig, ps: Seq<(Seq<char>, Seq<char>)>) -> bool {
    &&& cfg.agent@ == text_of(last_value(ps, ConfigKey::Agent))
    &&& cfg.balloon == flag_of(last_value(ps, ConfigKey::Balloon))
    &&& cfg.boot@ == text_of(last_value(ps, ConfigKey::Boot))
    &&& cfg.bootdisk@ == text_of(last_value(ps, ConfigKey::BootDisk))
    &&& opt_text_is(cfg.cipassword, last_value(ps, ConfigKey::CiPassword))
    &&& opt_text_is(cfg.ciuser, last_value(ps, ConfigKey::CiUser))
    &&& cfg.cores == number_of(last_value(ps, ConfigKey::Cores))
    &&& cfg.cpu@ == text_of(last_value(ps, ConfigKey::Cpu))
    &&& cfg.cpuunits == number_of(last_value(ps, ConfigKey::CpuUnits))
    &&& pair_views(cfg.disks@) == bucket(ps, ConfigKey::Disk)
    &&& pair_views(cfg.ipconfigs@) == bucket(ps, ConfigKey::IpConfig)
    &&& cfg.memory == number_of(last_value(ps, ConfigKey::Memory))
    &&& cfg.meta@ == text_of(last_value(ps, ConfigKey::Meta))
    &&& cfg.name@ == text_of(last_value(ps, ConfigKey::Name))
    &&& pair_views(cfg.networks@) == bucket(ps, ConfigKey::Network)
    &&& cfg.numa == flag_of(last_value(ps, ConfigKey::Numa))
    &&& cfg.onboot == flag_of(last_value(ps, ConfigKey::OnBoot))
    &&& cfg.protection == flag_of(last_value(ps, ConfigKey::Protection))
    &&& pair_views(cfg.serial@) == bucket(ps, ConfigKey::Serial)
    &&& cfg.sockets == number_of(last_value(ps, ConfigKey::Sockets))
    &&& opt_text_is(cfg.sshkeys, last_value(ps, ConfigKey::SshKeys))
    &&& cfg.vga@ == text_of(last_value(ps, ConfigKey::Vga))
    &&& cfg.vmgenid@ == text_of(last_value(ps, ConfigKey::VmGenId))
}

/// Whether `k` starts with `p`.
fn starts_with(k: &String, p: &str) -> (r: bool)
    ensures
        r == has_prefix(k@, p@),
{
    let kc = chars_of(k.as_str());
    let pc = chars_of(p);
    if pc.len() > kc.len() {
        return false;
    }
    let mut i: usize = 0;
    while i < pc.len()
        invariant
            kc@ == k@,
            pc@ == p@,
            pc@.len() <= kc@.len(),
            i <= pc@.len(),
            forall|j: int| 0 <= j < i ==> k@[j] == p@[j],
        decreases pc@.len() - i,
    {
        if kc[i] != pc[i] {
            assert(k@.subrange(0, p@.len() as int)[i as int] != p@[i as int]);
            return false;
        }
        i = i + 1;
    }
    assert(k@.subrange(0, p@.len() as int) =~= p@);
    true
}

/// Sets the value of key `k` in the group `b`.
fn upsert_pair(b: &mut Vec<(String, String)>, k: String, v: String)
    ensures
        pair_views(final(b)@) == upsert(pair_views(old(b)@), k@, v@),
{
    let ghost bv = pair_views(b@);
    let ghost kv = (k@, v@);
    let mut i: usize = 0;
    assert(bv.subrange(0, bv.len() as int) =~= bv);
    while i < b.len()
        invariant
            bv == pair_views(b@),
            bv == pair_views(old(b)@),
            kv == (k@, v@),
            i <= b@.len(),
            key_pos(bv, k@) == i + key_pos(bv.subrange(i as int, bv.len() as int), k@),
        decreases b@.len() - i,
    {
        let ghost rest = bv.subrange(i as int, bv.len() as int);
        assert(rest[0] == bv[i as int]);
        assert(bv[i as int] == (b@[i as int].0@, b@[i as int].1@));
        if b[i].0 == k {
            proof {
                assert(key_pos(rest, k@) == 0);
                assert(key_pos(bv, k@) == i);
            }
            let ghost ob = b@;
            b.set(i, (k, v));
            proof {
                assert(b@ == ob.update(i as int, b@[i as int]));
                assert(b@[i as int].0@ == kv.0 && b@[i as int].1@ == kv.1);
                assert forall|j: int| 0 <= j < bv.len() implies pair_views(b@)[j] == bv.update(i as int, kv)[j] by {
                    if j != i {
                        assert(b@[j] == ob[j]);
                    }
                }
                assert(pair_views(b@) =~= bv.update(i as int, kv));
                assert(key_pos(bv, kv.0) == i);
                assert(upsert(bv, kv.0, kv.1) == bv.update(i as int, kv));
            }
            return;
        }
        assert(rest.drop_first() =~= bv.subrange(i + 1, bv.len() as int));
        i = i + 1;
    }
    proof {
        assert(bv.subrange(i as int, bv.len() as int).len() == 0);
        assert(key_pos(bv, k@) == bv.len());
    }
    b.push((k, v));
    assert(pair_views(b@) =~= bv.push(kv));
}


/// Reads a decimal number of at most `max`.
fn number_value(v: &String, max: u64) -> (r: Option<u64>)
    ensures
        match r {
            Some(x) => is_number_text(v@, max as nat) && x == digits_value(v@) && x <= max,
            None => !is_number_text(v@, max as nat),
        },
{
    let cs = chars_of(v.as_str());
    assert(cs@.subrange(0, cs@.len() as int) =~= v@);
    digits_in(&cs, 0, cs.len(), max)
}

/// Whether `k` is exactly `lit`.
fn is_key(k: &String, lit: &str) -> (r: bool)
    ensures
        r == (k@ == lit@),
{
    *k == text(lit)
}

/// Classifies a configuration key.
pub fn classify(k: &String) -> (r: ConfigKey)
    ensures
        r == config_key(k@),
{
    if is_key(k, "agent") {
        ConfigKey::Agent
    } else if is_key(k, "balloon") {
        ConfigKey::Balloon
    } else if is_key(k, "boot") {
        ConfigKey::Boot
    } else if is_key(k, "bootdisk") {
        ConfigKey::BootDisk
    } else if is_key(k, "cipassword") {
        ConfigKey::CiPassword
    } else if is_key(k, "ciuser") {
        ConfigKey::CiUser
    } else if is_key(k, "cores") {
        ConfigKey::Cores
    } else if is_key(k, "cpu") {
        ConfigKey::Cpu
    } else if is_key(k, "cpuunits") {
        ConfigKey::CpuUnits
    } else if is_key(k, "memory") {
        ConfigKey::Memory
    } else if is_key(k, "meta") {
        ConfigKey::Meta
    } else if is_key(k, "name") {
        ConfigKey::Name
    } else if is_key(k, "numa") {
        ConfigKey::Numa
    } else if is_key(k, "onboot") {
        ConfigKey::OnBoot
    } else if is_key(k, "protection") {
        ConfigKey::Protection
    } else if is_key(k, "sockets") {
        ConfigKey::Sockets
    } else if is_key(k, "sshkeys") {
        ConfigKey::SshKeys
    } else if is_key(k, "vga") {
        ConfigKey::Vga
    } else if is_key(k, "vmgenid") {
        ConfigKey::VmGenId
    } else if starts_with(k, "scsi") || starts_with(k, "sata") || starts_with(k, "ide") || starts_with(k, "virtio") {
        ConfigKey::Disk
    } else if starts_with(k, "net") {
        ConfigKey::Network
    } else if starts_with(k, "ipconfig") {
        ConfigKey::IpConfig
    } else if starts_with(k, "serial") {
        ConfigKey::Serial
    } else {
        ConfigKey::Other
    }
}

/// Applies one key-value pair to the configuration read so far.
fn apply_pair(cfg: &mut QMConfig, k: String, v: String, ps: Ghost<Seq<(Seq<char>, Seq<char>)>>) -> (r: Result<(), AppError>)
    requires
        config_reflects(*old(cfg), ps@),
    ensures
        r is Ok <==> !pair_bad((k@, v@)),
        r is Ok || (r matches Err(AppError::ParseIntError(_))),
        r is Ok ==> config_reflects(*final(cfg), ps@.push((k@, v@))),
{
    let ghost kv = (k@, v@);
    let ghost np = ps@.push(kv);
    proof {
        assert(np.drop_last() =~= ps@);
        assert(np.last() == kv);
    }
    match classify(&k) {
        ConfigKey::Agent => {
            cfg.agent = v;
        },
        ConfigKey::Balloon => {
            cfg.balloon = !is_key(&v, "0");
        },
        ConfigKey::Boot => {
            cfg.boot = v;
        },
        ConfigKey::BootDisk => {
            cfg.bootdisk = v;
        },
        ConfigKey::CiPassword => {
            cfg.cipassword = Some(v);
        },
        ConfigKey::CiUser => {
            cfg.ciuser = Some(v);
        },
        ConfigKey::Cores => {
            match number_value(&v, 255) {
                Some(x) => {
                    cfg.cores = x as u8;
                },
                None => {
                    return Err(AppError::ParseIntError(text("invalid cores value in VM config")));
                },
            }
        },
        ConfigKey::Cpu => {
            cfg.cpu = v;
        },
        ConfigKey::CpuUnits => {
            match number_value(&v, 65535) {
                Some(x) => {
                    cfg.cpuunits = x as u16;
                },
                None => {
                    return Err(AppError::ParseIntError(text("invalid cpuunits value in VM config")));
                },
            }
        },
        ConfigKey::Memory => {
            match number_value(&v, 4294967295) {
                Some(x) => {
                    cfg.memory = x as u32;
                },
                None => {
                    return Err(AppError::ParseIntError(text("invalid memory value in VM config")));
                },
            }
        },
        ConfigKey::Meta => {
            cfg.meta = v;
        },
        ConfigKey::Name => {
            cfg.name = v;
        },
        ConfigKey::Numa => {
            cfg.numa = !is_key(&v, "0");
        },
        ConfigKey::OnBoot => {
            cfg.onboot = !is_key(&v, "0");
        },
        ConfigKey::Protection => {
            cfg.protection = !is_key(&v, "0");
        },
        ConfigKey::Sockets => {
            match number_value(&v, 255) {
                Some(x) => {
                    cfg.sockets = x as u8;
                },
                None => {
                    return Err(AppError::ParseIntError(text("invalid sockets value in VM config")));
                },
            }
        },
        ConfigKey::SshKeys => {
            cfg.sshkeys = Some(v);
        },
        ConfigKey::Vga => {
            cfg.vga = v;
        },
        ConfigKey::VmGenId => {
            cfg.vmgenid = v;
        },
        ConfigKey::Disk => {
            upsert_pair(&mut cfg.disks, k, v);
        },
        ConfigKey::Network => {
            upsert_pair(&mut cfg.networks, k, v);
        },
        ConfigKey::IpConfig => {
            upsert_pair(&mut cfg.ipconfigs, k, v);
        },
        ConfigKey::Serial => {
            upsert_pair(&mut cfg.serial, k, v);
        },
        ConfigKey::Other => {},
    }
    Ok(())
}

/// Reads the per-VM configuration that the VM manager prints as `key: value`
/// lines. Known keys set their field, the last line winning; disk, network,
/// ip and serial keys are grouped by prefix; unknown keys and lines without
/// `:` are ignored. A numeric key whose value is not a number in range fails.
pub fn parse_qm_config(output: &str) -> (r: Result<QMConfig, AppError>)
    ensures
        r is Ok <==> forall|i: int|
            0 <= i < pairs_in(lines_of(output@)).len() ==> !pair_bad(#[trigger] pairs_in(lines_of(output@))[i]),
        r is Ok ==> config_reflects(r->Ok_0, pairs_in(lines_of(output@))),
        r is Ok || (r matches Err(AppError::ParseIntError(_))),
{
    let lines = split_lines(output);
    let ghost ls = lines_of(output@);
    assert(views_of(lines@).len() == lines@.len());
    let mut cfg = QMConfig {
        agent: String::new(),
        balloon: false,
        boot: String::new(),
        bootdisk: String::new(),
        cipassword: None,
        ciuser: None,
        cores: 0,
        cpu: String::new(),
        cpuunits: 0,
        disks: Vec::new(),
        ipconfigs: Vec::new(),
        memory: 0,
        meta: String::new(),
        name: String::new(),
        networks: Vec::new(),
        numa: false,
        onboot: false,
        protection: false,
        serial: Vec::new(),
        sockets: 0,
        sshkeys: None,
        vga: String::new(),
        vmgenid: String::new(),
    };
    proof {
        let e: Seq<(Seq<char>, Seq<char>)> = seq![];
        assert(pair_views(cfg.disks@) =~= e);
        assert(pair_views(cfg.ipconfigs@) =~= e);
        assert(pair_views(cfg.networks@) =~= e);
        assert(pair_views(cfg.serial@) =~= e);
        assert(ls.subrange(0, 0) =~= seq![]);
    }
    let mut i: usize = 0;
    while i < lines.len()
        invariant
            i <= lines@.len(),
            views_of(lines@) == ls,
            ls == lines_of(output@),
            config_reflects(cfg, pairs_in(ls.subrange(0, i as int))),
            forall|j: int|
                0 <= j < pairs_in(ls.subrange(0, i as int)).len() ==> !pair_bad(
                    #[trigger] pairs_in(ls.subrange(0, i as int))[j],
                ),
        decreases lines@.len() - i,
    {
        let ghost pre = ls.subrange(0, i as int);
        let ghost next = ls.subrange(0, i + 1);
        assert(next.drop_last() =~= pre);
        assert(next.last() == lines@[i as int]@);
        match split_pair(&lines[i]) {
            None => {},
            Some(kv) => {
                let (k, v) = kv;
                let ghost pv = (k@, v@);
                match apply_pair(&mut cfg, k, v, Ghost(pairs_in(pre))) {
                    Ok(()) => {
                        assert(pairs_in(next) == pairs_in(pre).push(pv));
                    },
                    Err(e) => {
                        proof {
                            assert(pairs_in(next) == pairs_in(pre).push(pv));
                            lemma_pairs_prefix(ls, i as int + 1);
                            let n = pairs_in(pre).len() as int;
                            assert(pairs_in(next)[n] == pv);
                            assert(pairs_in(ls)[n] == pv);
                        }
                        return Err(e);
                    },
                }
            },
        }
        i = i + 1;
    }
    assert(ls.subrange(0, lines@.len() as int) =~= ls);
    Ok(cfg)
}

/// The pairs of a prefix of the lines are a prefix of the pairs of all lines.
proof fn lemma_pairs_prefix(ls: Seq<Seq<char>>, n: int)
    requires
        0 <= n <= ls.len(),
    ensures
        pairs_in(ls.subrange(0, n)).len() <= pairs_in(ls).len(),
        forall|j: int|
            0 <= j < pairs_in(ls.subrange(0, n)).len() ==> #[trigger] pairs_in(ls.subrange(0, n))[j]
                == pairs_in(ls)[j],
    decreases ls.len() - n,
{
    if n == ls.len() {
        assert(ls.subrange(0, n) =~= ls);
    } else {
        lemma_pairs_prefix(ls, n + 1);
        let a = ls.subrange(0, n);
        let b = ls.subrange(0, n + 1);
        assert(b.drop_last() =~= a);
        assert forall|j: int| 0 <= j < pairs_in(a).len() implies #[trigger] pairs_in(a)[j] == pairs_in(b)[j] by {
            match pair_of_line(b.last()) {
                Some(kv) => {
                    assert(pairs_in(b) == pairs_in(a).push(kv));
                },
                None => {},
            }
        }
    }
}

} // verus!
