use vstd::prelude::*;
use vstd::string::*;
use crate::range::{first_from, skip_byte, skip_until};
use crate::text::{dec, pad_left, push_bytes, push_dec, push_dec_padded, push_text, txt};

verus! {

/// Placeholder text for a status field that has no data source yet.
pub fn todo() -> (r: String)
    ensures
        r@ == "TODO"@,
{
    String::from_str("TODO")
}

/// The logged-in user count; not collected yet.
pub fn user() -> (r: String)
    ensures
        r@ == "TODO"@,
{
    todo()
}

/// A value in hundredths written with two decimals.
pub open spec fn fixed2(n: nat) -> Seq<u8> {
    dec(n / 100) + txt(".") + pad_left(dec(n % 100), 2, 48u8)
}

/// A value in tenths written with one decimal.
pub open spec fn fixed1(n: nat) -> Seq<u8> {
    dec(n / 10) + txt(".") + dec(n % 10)
}

fn push_fixed2(out: &mut Vec<u8>, n: u64)
    ensures
        final(out)@ == old(out)@ + fixed2(n as nat),
{
    push_dec(out, n / 100);
    push_text(out, ".");
    push_dec_padded(out, n % 100, 2, 48u8);
    assert(final(out)@ =~= old(out)@ + fixed2(n as nat));
}

fn push_fixed1(out: &mut Vec<u8>, n: u64)
    ensures
        final(out)@ == old(out)@ + fixed1(n as nat),
{
    push_dec(out, n / 10);
    push_text(out, ".");
    push_dec(out, n % 10);
    assert(final(out)@ =~= old(out)@ + fixed1(n as nat));
}

/// The load-average field; each average is given in hundredths.
pub fn load_average(one: u64, five: u64, fifteen: u64) -> (r: Vec<u8>)
    ensures
        r@ == txt("load average: ") + fixed2(one as nat) + txt(", ") + fixed2(five as nat) + txt(", ")
            + fixed2(fifteen as nat),
{
    let mut out: Vec<u8> = Vec::new();
    push_text(&mut out, "load average: ");
    push_fixed2(&mut out, one);
    push_text(&mut out, ", ");
    push_fixed2(&mut out, five);
    push_text(&mut out, ", ");
    push_fixed2(&mut out, fifteen);
    assert(out@ =~= txt("load average: ") + fixed2(one as nat) + txt(", ") + fixed2(five as nat)
        + txt(", ") + fixed2(fifteen as nat));
    out
}

/// Text of the uptime field for a machine up for `secs` seconds.
pub open spec fn uptime_text(secs: nat) -> Seq<u8> {
    let days = secs / 86400;
    let hours = (secs % 86400) / 3600;
    let minutes = (secs % 3600) / 60;
    txt("up ") + (if days > 0 {
        dec(days) + txt(" day") + (if days > 1 { txt("s") } else { seq![] }) + txt(", ")
    } else {
        seq![]
    }) + (if hours > 0 {
        dec(hours) + txt(":") + pad_left(dec(minutes), 2, 48u8)
    } else {
        dec(minutes) + txt(" min")
    })
}

/// The uptime field: days when there are any, then `h:mm`, or minutes under an hour.
pub fn uptime(secs: u64) -> (r: Vec<u8>)
    ensures
        r@ == uptime_text(secs as nat),
{
    let days = secs / 86400;
    let hours = (secs % 86400) / 3600;
    let minutes = (secs % 3600) / 60;
    let mut out: Vec<u8> = Vec::new();
    push_text(&mut out, "up ");
    if days > 0 {
        push_dec(&mut out, days);
        push_text(&mut out, " day");
        if days > 1 {
            push_text(&mut out, "s");
        }
        push_text(&mut out, ", ");
    }
    if hours > 0 {
        push_dec(&mut out, hours);
        push_text(&mut out, ":");
        push_dec_padded(&mut out, minutes, 2, 48u8);
    } else {
        push_dec(&mut out, minutes);
        push_text(&mut out, " min");
    }
    assert(out@ =~= uptime_text(secs as nat));
    out
}

/// Scheduling state of a process, as far as the task line counts it.
#[derive(Clone, Copy, Debug, PartialEq, Eq)]
pub enum ProcState {
    Running,
    Sleeping,
    Stopped,
    Zombie,
    Other,
}

/// How many entries of `states` are `s`.
pub open spec fn count_state(states: Seq<ProcState>, s: ProcState) -> nat
    decreases states.len(),
{
    if states.len() == 0 {
        0
    } else {
        count_state(states.drop_last(), s) + if states.last() == s { 1nat } else { 0nat }
    }
}

pub open spec fn task_text(states: Seq<ProcState>) -> Seq<u8> {
    txt("Tasks: ") + dec(states.len()) + txt(" total, ") + dec(count_state(states, ProcState::Running))
        + txt(" running, ") + dec(count_state(states, ProcState::Sleeping)) + txt(" sleeping, ")
        + dec(count_state(states, ProcState::Stopped)) + txt(" stopped, ")
        + dec(count_state(states, ProcState::Zombie)) + txt(" zombie")
}

/// The task line: the number of processes and how many are in each state.
pub fn task(states: &Vec<ProcState>) -> (r: Vec<u8>)
    ensures
        r@ == task_text(states@),
{
    let mut running: u64 = 0;
    let mut sleeping: u64 = 0;
    let mut stopped: u64 = 0;
    let mut zombie: u64 = 0;
    let mut i: usize = 0;
    while i < states.len()
        invariant
            i <= states@.len(),
            running == count_state(states@.subrange(0, i as int), ProcState::Running),
            sleeping == count_state(states@.subrange(0, i as int), ProcState::Sleeping),
            stopped == count_state(states@.subrange(0, i as int), ProcState::Stopped),
            zombie == count_state(states@.subrange(0, i as int), ProcState::Zombie),
            running <= i && sleeping <= i && stopped <= i && zombie <= i,
        decreases states@.len() - i,
    {
        assert(states@.subrange(0, i + 1).drop_last() =~= states@.subrange(0, i as int));
        match states[i] {
            ProcState::Running => running += 1,
            ProcState::Sleeping => sleeping += 1,
            ProcState::Stopped => stopped += 1,
            ProcState::Zombie => zombie += 1,
            ProcState::Other => {},
        }
        i += 1;
    }
    assert(states@.subrange(0, i as int) =~= states@);
    let mut out: Vec<u8> = Vec::new();
    push_text(&mut out, "Tasks: ");
    push_dec(&mut out, states.len() as u64);
    push_text(&mut out, " total, ");
    push_dec(&mut out, running);
    push_text(&mut out, " running, ");
    push_dec(&mut out, sleeping);
    push_text(&mut out, " sleeping, ");
    push_dec(&mut out, stopped);
    push_text(&mut out, " stopped, ");
    push_dec(&mut out, zombie);
    push_text(&mut out, " zombie");
    assert(out@ =~= task_text(states@));
    out
}

/// Cumulative CPU time counters of the first line of the kernel's `stat` file.
#[derive(Clone, Copy, Debug, PartialEq, Eq)]
pub struct CpuTimes {
    pub user: u64,
    pub nice: u64,
    pub system: u64,
    pub idle: u64,
    pub iowait: u64,
    pub irq: u64,
    pub softirq: u64,
    pub steal: u64,
    pub guest: u64,
    pub guest_nice: u64,
}

pub open spec fn cpu_total(c: CpuTimes) -> nat {
    (c.user + c.nice + c.system + c.idle + c.iowait + c.irq + c.softirq + c.steal + c.guest
        + c.guest_nice) as nat
}

/// `x` as a percentage of `total`, in tenths, rounded half up.
pub open spec fn pct_tenths(x: nat, total: nat) -> nat {
    (x * 1000 + total / 2) / total
}

/// One share of the CPU line; with no time counted at all every share is `NaN`.
pub open spec fn cpu_field(x: u64, c: CpuTimes, name: &str) -> Seq<u8> {
    if cpu_total(c) == 0 {
        txt("NaN") + txt(name)
    } else {
        fixed1(pct_tenths(x as nat, cpu_total(c))) + txt(name)
    }
}

pub open spec fn cpu_text(c: CpuTimes) -> Seq<u8> {
    txt("%Cpu(s):  ") + cpu_field(c.user, c, " us, ") + cpu_field(c.system, c, " sy, ")
        + cpu_field(c.nice, c, " ni, ") + cpu_field(c.idle, c, " id, ") + cpu_field(
        c.iowait,
        c,
        " wa, ",
    ) + cpu_field(c.irq, c, " hi, ") + cpu_field(c.softirq, c, " si, ") + cpu_field(
        c.steal,
        c,
        " st",
    )
}

fn push_cpu_field(out: &mut Vec<u8>, x: u64, total: u128, c: Ghost<CpuTimes>, name: &str)
    requires
        total == cpu_total(c@),
        x <= total,
    ensures
        final(out)@ == old(out)@ + cpu_field(x, c@, name),
{
    if total == 0 {
        push_text(out, "NaN");
        push_text(out, name);
        return;
    }
    let t: u128 = (x as u128 * 1000 + total / 2) / total;
    assert(t <= 1000) by (nonlinear_arith)
        requires
            t as int == (x as int * 1000 + total as int / 2) / (total as int),
            x as int <= total as int,
            total as int > 0,
    ;
    push_fixed1(out, t as u64);
    push_text(out, name);
    assert(final(out)@ =~= old(out)@ + cpu_field(x, c@, name));
}

/// The CPU line: each kind of time as a share of all counted time, to a tenth of a
/// percent, rounded half up (exact ties may round otherwise in floating point).
pub fn cpu(c: &CpuTimes) -> (r: Vec<u8>)
    ensures
        r@ == cpu_text(*c),
{
    let total: u128 = c.user as u128 + c.nice as u128 + c.system as u128 + c.idle as u128
        + c.iowait as u128 + c.irq as u128 + c.softirq as u128 + c.steal as u128 + c.guest as u128
        + c.guest_nice as u128;
    let g = Ghost(*c);
    let mut out: Vec<u8> = Vec::new();
    push_text(&mut out, "%Cpu(s):  ");
    push_cpu_field(&mut out, c.user, total, g, " us, ");
    push_cpu_field(&mut out, c.system, total, g, " sy, ");
    push_cpu_field(&mut out, c.nice, total, g, " ni, ");
    push_cpu_field(&mut out, c.idle, total, g, " id, ");
    push_cpu_field(&mut out, c.iowait, total, g, " wa, ");
    push_cpu_field(&mut out, c.irq, total, g, " hi, ");
    push_cpu_field(&mut out, c.softirq, total, g, " si, ");
    push_cpu_field(&mut out, c.steal, total, g, " st");
    assert(out@ =~= cpu_text(*c));
    out
}

/// Value of a string of decimal digits.
pub open spec fn dec_value(s: Seq<u8>) -> nat
    decreases s.len(),
{
    if s.len() == 0 { 0 } else { dec_value(s.drop_last()) * 10 + (s.last() - 48) as nat }
}

/// A decimal number: one or more digits whose value fits in 64 bits.
pub open spec fn valid_dec(s: Seq<u8>) -> bool {
    &&& s.len() >= 1
    &&& forall|k: int| 0 <= k < s.len() ==> 48 <= #[trigger] s[k] <= 57
    &&& dec_value(s) <= u64::MAX
}

proof fn lemma_dec_value_prefix(s: Seq<u8>, k: int)
    requires
        0 <= k <= s.len(),
        forall|j: int| 0 <= j < s.len() ==> 48 <= #[trigger] s[j] <= 57,
    ensures
        dec_value(s.subrange(0, k)) <= dec_value(s),
    decreases s.len(),
{
    if k < s.len() {
        let d = s.drop_last();
        assert forall|j: int| 0 <= j < d.len() implies 48 <= #[trigger] d[j] <= 57 by {
            assert(d[j] == s[j]);
        }
        lemma_dec_value_prefix(d, k);
        assert(d.subrange(0, k) =~= s.subrange(0, k));
    } else {
        assert(s.subrange(0, k) =~= s);
    }
}

/// Reads `s[from..to]` as a decimal number that fits in 64 bits.
pub(crate) fn parse_dec_range(s: &[u8], from: usize, to: usize) -> (r: Option<u64>)
    requires
        from <= to <= s@.len(),
    ensures
        r == (if valid_dec(s@.subrange(from as int, to as int)) {
            Some(dec_value(s@.subrange(from as int, to as int)) as u64)
        } else {
            None::<u64>
        }),
{
    let ghost t = s@.subrange(from as int, to as int);
    if from == to {
        return None;
    }
    let mut k: usize = from;
    while k < to
        invariant
            from <= k <= to <= s@.len(),
            t == s@.subrange(from as int, to as int),
            forall|j: int| 0 <= j < k - from ==> 48 <= #[trigger] t[j] <= 57,
        decreases to - k,
    {
        if s[k] < 48 || s[k] > 57 {
            assert(!(48 <= t[k - from] <= 57));
            return None;
        }
        k += 1;
    }
    let mut acc: u64 = 0;
    let mut k: usize = from;
    while k < to
        invariant
            from <= k <= to <= s@.len(),
            t == s@.subrange(from as int, to as int),
            forall|j: int| 0 <= j < t.len() ==> 48 <= #[trigger] t[j] <= 57,
            acc as nat == dec_value(t.subrange(0, k - from)),
        decreases to - k,
    {
        let b = s[k];
        assert(t[k - from] == b);
        let d: u64 = (b - 48) as u64;
        assert(t.subrange(0, k + 1 - from).drop_last() =~= t.subrange(0, k - from));
        if acc > (u64::MAX - d) / 10 {
            proof {
                lemma_dec_value_prefix(t, k + 1 - from);
            }
            return None;
        }
        acc = acc * 10 + d;
        k += 1;
    }
    assert(t.subrange(0, k - from) =~= t);
    Some(acc)
}

/// The counters read from `pos` on, before `end`: the next space-separated token is
/// read as a decimal number; one that is not reads as zero, except among the first three.
pub open spec fn cpu_vals(s: Seq<u8>, pos: int, end: int, vals: Seq<u64>) -> Option<Seq<u64>>
    decreases 10 - vals.len(),
{
    if vals.len() >= 10 {
        Some(vals)
    } else {
        let a = skip_byte(s, pos, end, 32u8);
        let b = skip_until(s, a, end, 32u8);
        if a == b {
            None
        } else if valid_dec(s.subrange(a, b)) {
            cpu_vals(s, b, end, vals.push(dec_value(s.subrange(a, b)) as u64))
        } else if vals.len() < 3 {
            None
        } else {
            cpu_vals(s, b, end, vals.push(0))
        }
    }
}

/// The aggregate counters of the kernel's `stat` text: its first line is `cpu`, then at
/// least ten space-separated tokens, the first three decimal numbers that fit in 64 bits.
pub open spec fn cpu_times_of(s: Seq<u8>) -> Option<CpuTimes> {
    if s.len() < 3 || s[0] != 99u8 || s[1] != 112u8 || s[2] != 117u8 {
        None
    } else {
        let end = match first_from(s, 0, 10u8) {
            Some(e) => e,
            None => s.len() as int,
        };
        if end < 3 {
            None
        } else {
            match cpu_vals(s, 3, end, seq![]) {
                Some(v) => Some(CpuTimes {
                    user: v[0],
                    nice: v[1],
                    system: v[2],
                    idle: v[3],
                    iowait: v[4],
                    irq: v[5],
                    softirq: v[6],
                    steal: v[7],
                    guest: v[8],
                    guest_nice: v[9],
                }),
                None => None,
            }
        }
    }
}

proof fn lemma_cpu_vals_len(s: Seq<u8>, pos: int, end: int, vals: Seq<u64>)
    requires
        vals.len() <= 10,
    ensures
        cpu_vals(s, pos, end, vals) matches Some(v) ==> v.len() == 10,
    decreases 10 - vals.len(),
{
    if vals.len() < 10 {
        let a = skip_byte(s, pos, end, 32u8);
        let b = skip_until(s, a, end, 32u8);
        if valid_dec(s.subrange(a, b)) {
            lemma_cpu_vals_len(s, b, end, vals.push(dec_value(s.subrange(a, b)) as u64));
        } else {
            lemma_cpu_vals_len(s, b, end, vals.push(0));
        }
    }
}

/// Reads the aggregate CPU counters from the kernel's `stat` text.
pub fn parse_cpu_times(content: &[u8]) -> (r: Option<CpuTimes>)
    ensures
        r == cpu_times_of(content@),
{
    let n = content.len();
    if n < 3 || content[0] != 99u8 || content[1] != 112u8 || content[2] != 117u8 {
        return None;
    }
    let end = match crate::range::find_byte(content, 0, 10u8) {
        Some(e) => e,
        None => n,
    };
    if end < 3 {
        return None;
    }
    let mut vals: Vec<u64> = Vec::new();
    let mut pos: usize = 3;
    proof {
        lemma_cpu_vals_len(content@, 3, end as int, seq![]);
    }
    while vals.len() < 10
        invariant
            3 <= pos <= end <= n == content@.len(),
            vals@.len() <= 10,
            content@[0] == 99u8 && content@[1] == 112u8 && content@[2] == 117u8,
            end as int == (match first_from(content@, 0, 10u8) {
                Some(e) => e,
                None => n as int,
            }),
            cpu_vals(content@, pos as int, end as int, vals@) == cpu_vals(content@, 3, end as int, seq![]),
        decreases 10 - vals@.len(),
    {
        let a = crate::range::skip_bytes(content, pos, end, 32u8);
        let b = crate::range::skip_to(content, a, end, 32u8);
        if a == b {
            return None;
        }
        let v = match parse_dec_range(content, a, b) {
            Some(v) => v,
            None => {
                if vals.len() < 3 {
                    return None;
                }
                0
            },
        };
        vals.push(v);
        pos = b;
    }
    proof {
        lemma_cpu_vals_len(content@, 3, end as int, seq![]);
    }
    Some(CpuTimes {
        user: vals[0],
        nice: vals[1],
        system: vals[2],
        idle: vals[3],
        iowait: vals[4],
        irq: vals[5],
        softirq: vals[6],
        steal: vals[7],
        guest: vals[8],
        guest_nice: vals[9],
    })
}

/// Unit in which the memory lines are written.
#[derive(Clone, Copy, Debug, PartialEq, Eq)]
pub enum MemUnit {
    Kib,
    Mib,
    Gib,
    Tib,
    Pib,
    Eib,
}

impl MemUnit {
    pub open spec fn bytes(self) -> nat {
        match self {
            MemUnit::Kib => 1024,
            MemUnit::Mib => 1048576,
            MemUnit::Gib => 1073741824,
            MemUnit::Tib => 1099511627776,
            MemUnit::Pib => 1125899906842624,
            MemUnit::Eib => 1152921504606846976,
        }
    }

    pub open spec fn name(self) -> Seq<u8> {
        match self {
            MemUnit::Kib => txt("KiB"),
            MemUnit::Mib => txt("MiB"),
            MemUnit::Gib => txt("GiB"),
            MemUnit::Tib => txt("TiB"),
            MemUnit::Pib => txt("PiB"),
            MemUnit::Eib => txt("EiB"),
        }
    }

    /// The unit named by the scale text `k`, `m`, `g`, `t`, `p` or `e`; mebibytes for
    /// any other text or none.
    pub open spec fn of_scale(scale: Option<Seq<u8>>) -> MemUnit {
        match scale {
            Some(t) => if t == seq![107u8] {
                MemUnit::Kib
            } else if t == seq![103u8] {
                MemUnit::Gib
            } else if t == seq![116u8] {
                MemUnit::Tib
            } else if t == seq![112u8] {
                MemUnit::Pib
            } else if t == seq![101u8] {
                MemUnit::Eib
            } else {
                MemUnit::Mib
            },
            None => MemUnit::Mib,
        }
    }

    pub fn from_scale(scale: Option<&[u8]>) -> (r: MemUnit)
        ensures
            r == MemUnit::of_scale(match scale {
                Some(t) => Some(t@),
                None => None,
            }),
    {
        match scale {
            Some(t) => {
                if t.len() != 1 {
                    assert(t@ != seq![107u8] && t@ != seq![103u8] && t@ != seq![116u8]
                        && t@ != seq![112u8] && t@ != seq![101u8]);
                    return MemUnit::Mib;
                }
                let c = t[0];
                assert(t@ =~= seq![c]);
                if c == 107u8 {
                    MemUnit::Kib
                } else if c == 103u8 {
                    MemUnit::Gib
                } else if c == 116u8 {
                    MemUnit::Tib
                } else if c == 112u8 {
                    MemUnit::Pib
                } else if c == 101u8 {
                    MemUnit::Eib
                } else {
                    MemUnit::Mib
                }
            },
            None => MemUnit::Mib,
        }
    }

    fn size(&self) -> (r: u64)
        ensures
            r == self.bytes(),
    {
        match self {
            MemUnit::Kib => 1024,
            MemUnit::Mib => 1048576,
            MemUnit::Gib => 1073741824,
            MemUnit::Tib => 1099511627776,
            MemUnit::Pib => 1125899906842624,
            MemUnit::Eib => 1152921504606846976,
        }
    }

    fn push_name(&self, out: &mut Vec<u8>)
        ensures
            final(out)@ == old(out)@ + self.name(),
    {
        match self {
            MemUnit::Kib => push_text(out, "KiB"),
            MemUnit::Mib => push_text(out, "MiB"),
            MemUnit::Gib => push_text(out, "GiB"),
            MemUnit::Tib => push_text(out, "TiB"),
            MemUnit::Pib => push_text(out, "PiB"),
            MemUnit::Eib => push_text(out, "EiB"),
        }
    }
}

/// Memory and swap counters, in bytes.
#[derive(Clone, Copy, Debug, PartialEq, Eq)]
pub struct MemStats {
    pub total: u64,
    pub free: u64,
    pub used: u64,
    pub available: u64,
    pub swap_total: u64,
    pub swap_free: u64,
    pub swap_used: u64,
}

/// `bytes` in `unit`, to one decimal, rounded half up (an exact tie may round the other
/// way in floating point), right-justified in eight columns.
pub open spec fn mem_cell(bytes: u64, unit: MemUnit) -> Seq<u8> {
    pad_left(fixed1((bytes * 10 + unit.bytes() / 2) as nat / unit.bytes()), 8, 32u8)
}

pub open spec fn memory_text(unit: MemUnit, m: MemStats) -> Seq<u8> {
    let buff: u64 = if m.available >= m.free { (m.available - m.free) as u64 } else { 0 };
    unit.name() + txt(" Mem : ") + mem_cell(m.total, unit) + txt(" total, ") + mem_cell(m.free, unit)
        + txt(" free, ") + mem_cell(m.used, unit) + txt(" used, ") + mem_cell(buff, unit)
        + txt(" buff/cache\n") + unit.name() + txt(" Swap: ") + mem_cell(m.swap_total, unit)
        + txt(" total, ") + mem_cell(m.swap_free, unit) + txt(" free, ") + mem_cell(m.swap_used, unit)
        + txt(" used, ") + mem_cell(m.available, unit) + txt(" avail Mem")
}

fn push_mem_cell(out: &mut Vec<u8>, bytes: u64, unit: MemUnit, label: &str)
    ensures
        final(out)@ == old(out)@ + mem_cell(bytes, unit) + txt(label),
{
    let u = unit.size();
    let t: u128 = (bytes as u128 * 10 + u as u128 / 2) / u as u128;
    assert(t <= u64::MAX) by (nonlinear_arith)
        requires
            t as int == (bytes as int * 10 + u as int / 2) / (u as int),
            u as int >= 1024,
            bytes as int <= u64::MAX as int,
    ;
    let mut cell: Vec<u8> = Vec::new();
    push_fixed1(&mut cell, t as u64);
    let w: u64 = cell.len() as u64;
    if w < 8 {
        crate::text::push_repeat(out, 32u8, 8 - w);
    }
    push_bytes(out, cell.as_slice());
    push_text(out, label);
    assert(final(out)@ =~= old(out)@ + mem_cell(bytes, unit) + txt(label));
}

/// The two memory lines: memory, then swap, each as totals in the chosen unit.
pub fn memory(unit: MemUnit, m: &MemStats) -> (r: Vec<u8>)
    ensures
        r@ == memory_text(unit, *m),
{
    let buff: u64 = if m.available >= m.free { m.available - m.free } else { 0 };
    let mut out: Vec<u8> = Vec::new();
    unit.push_name(&mut out);
    push_text(&mut out, " Mem : ");
    push_mem_cell(&mut out, m.total, unit, " total, ");
    push_mem_cell(&mut out, m.free, unit, " free, ");
    push_mem_cell(&mut out, m.used, unit, " used, ");
    push_mem_cell(&mut out, buff, unit, " buff/cache\n");
    unit.push_name(&mut out);
    push_text(&mut out, " Swap: ");
    push_mem_cell(&mut out, m.swap_total, unit, " total, ");
    push_mem_cell(&mut out, m.swap_free, unit, " free, ");
    push_mem_cell(&mut out, m.swap_used, unit, " used, ");
    push_mem_cell(&mut out, m.available, unit, " avail Mem");
    assert(out@ =~= memory_text(unit, *m));
    out
}

/// The status header: clock, uptime, users and load, then the task, CPU and memory lines.
pub fn header(time: &[u8], up: &[u8], users: &[u8], load: &[u8], tasks: &[u8], cpu_line: &[u8], mem: &[u8]) -> (r: Vec<u8>)
    ensures
        r@ == txt("top - ") + time@ + txt(" ") + up@ + txt(", ") + users@ + txt(", ") + load@
            + txt("\n") + tasks@ + txt("\n") + cpu_line@ + txt("\n") + mem@,
{
    let mut out: Vec<u8> = Vec::new();
    push_text(&mut out, "top - ");
    push_bytes(&mut out, time);
    push_text(&mut out, " ");
    push_bytes(&mut out, up);
    push_text(&mut out, ", ");
    push_bytes(&mut out, users);
    push_text(&mut out, ", ");
    push_bytes(&mut out, load);
    push_text(&mut out, "\n");
    push_bytes(&mut out, tasks);
    push_text(&mut out, "\n");
    push_bytes(&mut out, cpu_line);
    push_text(&mut out, "\n");
    push_bytes(&mut out, mem);
    assert(out@ =~= txt("top - ") + time@ + txt(" ") + up@ + txt(", ") + users@ + txt(", ") + load@
        + txt("\n") + tasks@ + txt("\n") + cpu_line@ + txt("\n") + mem@);
    out
}

} // verus!
