use vstd::prelude::*;

use crate::text::{
    centi_in, centi_value, chars_of, digits_in, digits_value, is_centi_text, is_number_text,
    joined, lines_of, split_lines, split_words, views_of, words_of,
};
use crate::types::{AppError, DeployedState, DeployedVM, QMConfig, QMList};

verus! {

/// The data lines of the VM list: every line after the header.
pub open spec fn table_rows(s: Seq<char>) -> Seq<Seq<char>> {
    let ls = lines_of(s);
    if ls.len() == 0 {
        ls
    } else {
        ls.drop_first()
    }
}

/// Whether the columns `w` of a data line form a valid row.
pub open spec fn row_ok(w: Seq<Seq<char>>) -> bool {
    &&& w.len() >= 6
    &&& is_number_text(w[0], u32::MAX as nat)
    &&& is_number_text(w[3], u32::MAX as nat)
    &&& is_centi_text(w[4])
    &&& is_number_text(w[5], u32::MAX as nat)
}

/// The error that an invalid row gives: too few columns, then the first of
/// id, memory, boot disk and pid that does not read.
pub open spec fn row_error(w: Seq<Seq<char>>, e: AppError) -> bool {
    if w.len() < 6 {
        e is CmdError
    } else if !is_number_text(w[0], u32::MAX as nat) || !is_number_text(w[3], u32::MAX as nat) {
        e is ParseIntError
    } else if !is_centi_text(w[4]) {
        e is ParseFloatError
    } else {
        e is ParseIntError
    }
}

/// The row `q` holds what the columns `w` say.
pub open spec fn row_matches(q: QMList, w: Seq<Seq<char>>) -> bool {
    &&& q.vm_id == digits_value(w[0])
    &&& q.name@ == w[1]
    &&& q.status@ == w[2]
    &&& q.mem_mb == digits_value(w[3])
    &&& q.bootdisk_cgb == centi_value(w[4]).unwrap()
    &&& q.pid == digits_value(w[5])
}

/// Reads a decimal `u32`.
pub fn parse_u32(s: &String) -> (r: Option<u32>)
    ensures
        match r {
            Some(v) => is_number_text(s@, u32::MAX as nat) && v == digits_value(s@),
            None => !is_number_text(s@, u32::MAX as nat),
        },
{
    let cs = chars_of(s.as_str());
    assert(cs@.subrange(0, cs@.len() as int) =~= s@);
    match digits_in(&cs, 0, cs.len(), 4294967295u64) {
        Some(v) => Some(v as u32),
        None => None,
    }
}

/// Reads a decimal with at most two fraction digits, in hundredths.
pub fn parse_centi(s: &String) -> (r: Option<u64>)
    ensures
        match r {
            Some(v) => is_centi_text(s@) && v == centi_value(s@).unwrap(),
            None => !is_centi_text(s@),
        },
{
    let cs = chars_of(s.as_str());
    assert(cs@.subrange(0, cs@.len() as int) =~= s@);
    centi_in(&cs, 0, cs.len())
}

/// `rows` are the rows that the data lines of the table `s` give, one per
/// line and in order.
pub open spec fn rows_of_table(s: Seq<char>, rows: Seq<QMList>) -> bool {
    &&& rows.len() == table_rows(s).len()
    &&& forall|i: int| 0 <= i < rows.len() ==> row_ok(words_of(#[trigger] table_rows(s)[i]))
    &&& forall|i: int| 0 <= i < rows.len() ==> row_matches(#[trigger] rows[i], words_of(table_rows(s)[i]))
}

/// Reads one data line of the VM list.
fn parse_row(line: &String) -> (r: Result<QMList, AppError>)
    ensures
        match r {
            Ok(q) => row_ok(words_of(line@)) && row_matches(q, words_of(line@)),
            Err(e) => !row_ok(words_of(line@)) && row_error(words_of(line@), e),
        },
{
    let parts = split_words(line.as_str());
    let ghost w = words_of(line@);
    assert(parts@.len() == w.len());
    if parts.len() < 6 {
        return Err(AppError::CmdError(joined("VM list row has fewer than 6 columns: ", line.as_str())));
    }
    assert(forall|k: int| 0 <= k < 6 ==> parts@[k]@ == #[trigger] w[k]);
    let vm_id = match parse_u32(&parts[0]) {
        Some(v) => v,
        None => {
            return Err(AppError::ParseIntError(joined("invalid VM id: ", parts[0].as_str())));
        },
    };
    let mem_mb = match parse_u32(&parts[3]) {
        Some(v) => v,
        None => {
            return Err(AppError::ParseIntError(joined("invalid memory size: ", parts[3].as_str())));
        },
    };
    let bootdisk_cgb = match parse_centi(&parts[4]) {
        Some(v) => v,
        None => {
            return Err(AppError::ParseFloatError(joined("invalid boot disk size: ", parts[4].as_str())));
        },
    };
    let pid = match parse_u32(&parts[5]) {
        Some(v) => v,
        None => {
            return Err(AppError::ParseIntError(joined("invalid pid: ", parts[5].as_str())));
        },
    };
    Ok(QMList {
        vm_id,
        name: parts[1].clone(),
        status: parts[2].clone(),
        mem_mb,
        bootdisk_cgb,
        pid,
    })
}

/// Reads the VM manager's list table: the header line is skipped and each
/// further line gives one row. The first line that does not form a row
/// fails the whole parse.
pub fn parse_qm_list(output_string: &str) -> (r: Result<Vec<QMList>, AppError>)
    ensures
        match r {
            Ok(rows) => rows_of_table(output_string@, rows@),
            Err(e) => exists|k: int|
                0 <= k < table_rows(output_string@).len() && !row_ok(
                    words_of(#[trigger] table_rows(output_string@)[k]),
                ) && row_error(words_of(table_rows(output_string@)[k]), e) && forall|j: int|
                    0 <= j < k ==> row_ok(words_of(#[trigger] table_rows(output_string@)[j])),
        },
{
    let lines = split_lines(output_string);
    let ghost data = table_rows(output_string@);
    assert(views_of(lines@).len() == lines@.len());
    let mut rows: Vec<QMList> = Vec::new();
    if lines.len() == 0 {
        return Ok(rows);
    }
    let mut i: usize = 1;
    while i < lines.len()
        invariant
            1 <= i <= lines@.len(),
            views_of(lines@) == lines_of(output_string@),
            data == lines_of(output_string@).drop_first(),
            rows@.len() == i - 1,
            forall|j: int| 0 <= j < i - 1 ==> row_ok(words_of(#[trigger] data[j])),
            forall|j: int| 0 <= j < i - 1 ==> row_matches(#[trigger] rows@[j], words_of(data[j])),
        decreases lines@.len() - i,
    {
        assert(lines@[i as int]@ == data[i - 1]);
        match parse_row(&lines[i]) {
            Ok(q) => {
                rows.push(q);
            },
            Err(e) => {
                assert(data.len() == lines@.len() - 1);
                assert(!row_ok(words_of(table_rows(output_string@)[i - 1])));
                assert(row_error(words_of(table_rows(output_string@)[i - 1]), e));
                return Err(e);
            },
        }
        i = i + 1;
    }
    Ok(rows)
}

/// The observed VM that a list row stands for, before its per-VM
/// configuration is read.
pub open spec fn summarises(d: DeployedVM, q: QMList) -> bool {
    &&& d.vm_id == q.vm_id
    &&& d.vm_name == q.name
    &&& d.status == q.status
    &&& d.mem_mb == q.mem_mb
    &&& d.bootdisk_cgb == q.bootdisk_cgb
    &&& d.pid == q.pid
    &&& d.commit_hash is None
    &&& d.template_id is None
    &&& d.cores == 0
    &&& d.sockets == 0
}

/// Each of `vms` summarises the row of `rows` at its position.
pub open spec fn summaries_of(vms: Seq<DeployedVM>, rows: Seq<QMList>) -> bool {
    vms.len() == rows.len() && forall|i: int| 0 <= i < rows.len() ==> summarises(#[trigger] vms[i], rows[i])
}

/// Turns the rows of the VM list into observed VMs, one for each row and in
/// the same order; cores and sockets stay zero until the VM's configuration
/// is read.
pub fn list_to_deployed_vm(qmlists: Vec<QMList>) -> (r: DeployedState)
    ensures
        summaries_of(r.vms@, qmlists@),
{
    let mut vms: Vec<DeployedVM> = Vec::new();
    let mut i: usize = 0;
    while i < qmlists.len()
        invariant
            i <= qmlists@.len(),
            vms@.len() == i,
            forall|j: int| 0 <= j < i ==> summarises(#[trigger] vms@[j], qmlists@[j]),
        decreases qmlists@.len() - i,
    {
        let q = &qmlists[i];
        vms.push(DeployedVM {
            vm_id: q.vm_id,
            vm_name: q.name.clone(),
            commit_hash: None,
            template_id: None,
            mem_mb: q.mem_mb,
            bootdisk_cgb: q.bootdisk_cgb,
            status: q.status.clone(),
            pid: q.pid,
            cores: 0,
            sockets: 0,
        });
        i = i + 1;
    }
    DeployedState { vms }
}

/// Parsing the VM list and turning its rows into observed VMs loses
/// nothing: each observed VM carries the id, name, status, memory, boot disk
/// size and pid that the columns of its data line write.
pub proof fn list_summary_is_lossless(s: Seq<char>, rows: Seq<QMList>, vms: Seq<DeployedVM>)
    requires
        rows_of_table(s, rows),
        summaries_of(vms, rows),
    ensures
        vms.len() == table_rows(s).len(),
        forall|i: int|
            0 <= i < vms.len() ==> {
                let w = words_of(table_rows(s)[i]);
                let vm = #[trigger] vms[i];
                &&& vm.vm_id == digits_value(w[0])
                &&& vm.vm_name@ == w[1]
                &&& vm.status@ == w[2]
                &&& vm.mem_mb == digits_value(w[3])
                &&& vm.bootdisk_cgb == centi_value(w[4]).unwrap()
                &&& vm.pid == digits_value(w[5])
            },
{
    assert forall|i: int| 0 <= i < vms.len() implies {
        let w = words_of(table_rows(s)[i]);
        let vm = #[trigger] vms[i];
        &&& vm.vm_id == digits_value(w[0])
        &&& vm.vm_name@ == w[1]
        &&& vm.status@ == w[2]
        &&& vm.mem_mb == digits_value(w[3])
        &&& vm.bootdisk_cgb == centi_value(w[4]).unwrap()
        &&& vm.pid == digits_value(w[5])
    } by {
        assert(summarises(vms[i], rows[i]));
        assert(row_matches(rows[i], words_of(table_rows(s)[i])));
    }
}

/// Fills in the cores and sockets of an observed VM from its configuration.
pub fn apply_config(vm: &mut DeployedVM, cfg: &QMConfig)
    ensures
        *final(vm) == (DeployedVM { cores: cfg.cores as u16, sockets: cfg.sockets, ..*old(vm) }),
{
    vm.cores = cfg.cores as u16;
    vm.sockets = cfg.sockets;
}

} // verus!
