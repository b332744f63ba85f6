use vstd::prelude::*;
use crate::maps::Mapping;
use crate::range::{intersects, intersects_range, AddressRange};
use crate::render::{all_wf, basic_table, device_table, render_basic, render_device, total_kb};
use crate::text::{dec, push_bytes, push_dec, push_text, txt};

verus! {

/// The mappings of `ms` that meet the range, in their order.
pub open spec fn in_range(r: AddressRange, ms: Seq<Mapping>) -> Seq<Mapping>
    decreases ms.len(),
{
    if ms.len() == 0 {
        seq![]
    } else if intersects(r, ms.last().start, ms.last().end) {
        in_range(r, ms.drop_last()).push(ms.last())
    } else {
        in_range(r, ms.drop_last())
    }
}

/// Keeps the mappings that meet the range.
pub fn filter_range(r: &AddressRange, ms: Vec<Mapping>) -> (out: Vec<Mapping>)
    ensures
        out@ == in_range(*r, ms@),
{
    let ghost orig = ms@;
    let mut ms = ms;
    let mut out: Vec<Mapping> = Vec::new();
    let ghost mut k: int = 0;
    while ms.len() > 0
        invariant
            0 <= k <= orig.len(),
            ms@ == orig.subrange(k, orig.len() as int),
            out@ == in_range(*r, orig.subrange(0, k)),
        decreases ms@.len(),
    {
        let m = ms.remove(0);
        assert(orig.subrange(0, k + 1).drop_last() =~= orig.subrange(0, k));
        assert(orig.subrange(0, k + 1).last() == m);
        proof {
            k = k + 1;
        }
        assert(ms@ =~= orig.subrange(k, orig.len() as int));
        if intersects_range(r, m.start, m.end) {
            out.push(m);
        }
    }
    assert(orig.subrange(0, k) =~= orig);
    out
}

/// Filtering keeps well-formedness and never adds size.
pub proof fn lemma_in_range_sub(r: AddressRange, ms: Seq<Mapping>)
    ensures
        all_wf(ms) ==> all_wf(in_range(r, ms)),
        total_kb(in_range(r, ms)) <= total_kb(ms),
    decreases ms.len(),
{
    if ms.len() > 0 {
        lemma_in_range_sub(r, ms.drop_last());
        if intersects(r, ms.last().start, ms.last().end) {
            let f = in_range(r, ms.drop_last()).push(ms.last());
            assert(f.drop_last() =~= in_range(r, ms.drop_last()));
            if all_wf(ms) {
                assert forall|i: int| 0 <= i < f.len() implies (#[trigger] f[i]).wf() by {
                    if i < f.len() - 1 {
                        assert(f[i] == in_range(r, ms.drop_last())[i]);
                        assert(all_wf(ms.drop_last())) by {
                            assert forall|j: int| 0 <= j < ms.drop_last().len() implies (#[trigger] ms.drop_last()[j]).wf() by {
                                assert(ms.drop_last()[j] == ms[j]);
                            }
                        }
                    } else {
                        assert(ms.last() == ms[ms.len() - 1]);
                    }
                }
            }
        } else if all_wf(ms) {
            assert forall|j: int| 0 <= j < ms.drop_last().len() implies (#[trigger] ms.drop_last()[j]).wf() by {
                assert(ms.drop_last()[j] == ms[j]);
            }
        }
    }
}

/// Output formats.
#[derive(Clone, Copy, Debug, PartialEq, Eq)]
pub enum Format {
    Basic,
    Device,
}

/// First line of each report: the pid and the command line.
pub open spec fn pid_line(pid: u32, cmdline: Seq<u8>) -> Seq<u8> {
    dec(pid as nat) + txt(":   ") + cmdline + txt("\n")
}

pub fn push_pid_line(out: &mut Vec<u8>, pid: u32, cmdline: &[u8])
    ensures
        final(out)@ == old(out)@ + pid_line(pid, cmdline@),
{
    push_dec(out, pid as u64);
    push_text(out, ":   ");
    push_bytes(out, cmdline);
    push_text(out, "\n");
    assert(final(out)@ =~= old(out)@ + pid_line(pid, cmdline@));
}

pub open spec fn table(format: Format, ms: Seq<Mapping>, quiet: bool, show_path: bool) -> Seq<u8> {
    match format {
        Format::Basic => basic_table(ms, quiet, show_path),
        Format::Device => device_table(ms, quiet, show_path),
    }
}

/// The whole report of one readable process.
pub open spec fn report_text(
    pid: u32,
    cmdline: Seq<u8>,
    format: Format,
    range: AddressRange,
    ms: Seq<Mapping>,
    quiet: bool,
    show_path: bool,
) -> Seq<u8> {
    pid_line(pid, cmdline) + table(format, in_range(range, ms), quiet, show_path)
}

/// Renders the report of one process: its pid line, then the table of the mappings
/// that meet the range.
pub fn report(
    pid: u32,
    cmdline: &[u8],
    format: Format,
    range: &AddressRange,
    ms: Vec<Mapping>,
    quiet: bool,
    show_path: bool,
) -> (r: Vec<u8>)
    requires
        all_wf(ms@),
        total_kb(ms@) <= u64::MAX,
    ensures
        r@ == report_text(pid, cmdline@, format, *range, ms@, quiet, show_path),
{
    proof {
        lemma_in_range_sub(*range, ms@);
    }
    let kept = filter_range(range, ms);
    let mut out: Vec<u8> = Vec::new();
    push_pid_line(&mut out, pid, cmdline);
    let body = match format {
        Format::Basic => render_basic(&kept, quiet, show_path),
        Format::Device => render_device(&kept, quiet, show_path),
    };
    push_bytes(&mut out, body.as_slice());
    out
}

/// What became of one requested process.
#[derive(Clone, Copy, Debug, PartialEq, Eq)]
pub enum PidOutcome {
    Success,
    PermissionDenied,
    NotFound,
}

/// Exit status after all processes: 42 if any was missing, else 1 if any was
/// unreadable, else 0.
pub open spec fn exit_status(outcomes: Seq<PidOutcome>) -> i32 {
    if outcomes.contains(PidOutcome::NotFound) {
        42
    } else if outcomes.contains(PidOutcome::PermissionDenied) {
        1
    } else {
        0
    }
}

pub fn exit_code(outcomes: &Vec<PidOutcome>) -> (r: i32)
    ensures
        r == exit_status(outcomes@),
{
    let mut not_found = false;
    let mut denied = false;
    let mut i: usize = 0;
    while i < outcomes.len()
        invariant
            i <= outcomes@.len(),
            not_found == outcomes@.subrange(0, i as int).contains(PidOutcome::NotFound),
            denied == outcomes@.subrange(0, i as int).contains(PidOutcome::PermissionDenied),
        decreases outcomes@.len() - i,
    {
        let ghost pre = outcomes@.subrange(0, i as int);
        let ghost next = outcomes@.subrange(0, i + 1);
        assert(next =~= pre.push(outcomes@[i as int]));
        match outcomes[i] {
            PidOutcome::NotFound => {
                assert(next[i as int] == PidOutcome::NotFound);
                not_found = true;
            },
            PidOutcome::PermissionDenied => {
                assert(next[i as int] == PidOutcome::PermissionDenied);
                denied = true;
            },
            PidOutcome::Success => {},
        }
        proof {
            if !not_found {
                assert forall|j: int| 0 <= j < next.len() implies next[j] != PidOutcome::NotFound by {
                    if j < i {
                        assert(next[j] == pre[j]);
                    }
                }
            }
            if !denied {
                assert forall|j: int| 0 <= j < next.len() implies next[j] != PidOutcome::PermissionDenied by {
                    if j < i {
                        assert(next[j] == pre[j]);
                    }
                }
            }
            if not_found && outcomes@[i as int] != PidOutcome::NotFound {
                let j = choose|j: int| 0 <= j < pre.len() && pre[j] == PidOutcome::NotFound;
                assert(next[j] == PidOutcome::NotFound);
            }
            if denied && outcomes@[i as int] != PidOutcome::PermissionDenied {
                let j = choose|j: int| 0 <= j < pre.len() && pre[j] == PidOutcome::PermissionDenied;
                assert(next[j] == PidOutcome::PermissionDenied);
            }
        }
        i += 1;
    }
    assert(outcomes@.subrange(0, i as int) =~= outcomes@);
    if not_found {
        42
    } else if denied {
        1
    } else {
        0
    }
}

pub open spec fn is_space(b: u8) -> bool {
    b == 32u8 || b == 9u8 || b == 10u8 || b == 13u8 || b == 0u8
}

/// `s` without its trailing whitespace and NUL bytes.
pub open spec fn trim_end(s: Seq<u8>) -> Seq<u8>
    decreases s.len(),
{
    if s.len() > 0 && is_space(s.last()) { trim_end(s.drop_last()) } else { s }
}

/// The kernel's NUL-separated argument list as one line: each NUL becomes a space
/// and trailing whitespace is dropped.
pub open spec fn cmdline_of(raw: Seq<u8>) -> Seq<u8> {
    trim_end(raw.map_values(|b: u8| if b == 0u8 { 32u8 } else { b }))
}

/// The command-line text shown after the pid.
pub fn cmdline_text(raw: &[u8]) -> (r: Vec<u8>)
    ensures
        r@ == cmdline_of(raw@),
        r@.len() > 0 ==> !is_space(r@.last()),
{
    let ghost joined = raw@.map_values(|b: u8| if b == 0u8 { 32u8 } else { b });
    let mut k: usize = raw.len();
    assert(joined.subrange(0, k as int) =~= joined);
    while k > 0 && (raw[k - 1] == 0u8 || raw[k - 1] == 32u8 || raw[k - 1] == 9u8 || raw[k - 1] == 10u8
        || raw[k - 1] == 13u8)
        invariant
            k <= raw@.len(),
            joined == raw@.map_values(|b: u8| if b == 0u8 { 32u8 } else { b }),
            trim_end(joined) == trim_end(joined.subrange(0, k as int)),
        decreases k,
    {
        assert(joined.subrange(0, k as int).drop_last() =~= joined.subrange(0, k - 1));
        k -= 1;
    }
    let mut out: Vec<u8> = Vec::new();
    let mut i: usize = 0;
    while i < k
        invariant
            i <= k <= raw@.len(),
            joined == raw@.map_values(|b: u8| if b == 0u8 { 32u8 } else { b }),
            out@ == joined.subrange(0, i as int),
        decreases k - i,
    {
        let b = raw[i];
        out.push(if b == 0u8 { 32u8 } else { b });
        i += 1;
        assert(out@ =~= joined.subrange(0, i as int));
    }
    out
}

} // verus!
