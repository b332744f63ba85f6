use pmap::maps::{parse_map_line, Mapping};
use pmap::range::{parse_range, AddressRange, RangeSyntaxError};
use pmap::rc::{check_create, check_read, parse_rc, rc_content, RcDefaults, RcError};
use pmap::render::{render_basic, render_device};
use pmap::report::{exit_code, push_pid_line, report, Format, PidOutcome};
use pmap::status::{
    cpu, header, load_average, memory, parse_cpu_times, task, todo, uptime, user, MemStats,
    MemUnit, ProcState,
};

const LD: &str = "7f0e4c5a2000-7f0e4c5a4000 rw-p 00036000 08:08 2274176    /usr/lib/ld-linux-x86-64.so.2";
const STACK: &str = "7ffd588dc000-7ffd588fd000 rw-p 00000000 00:00 0                          [stack]";
const VSYSCALL: &str = "ffffffffff600000-ffffffffff601000 --xp 00000000 00:00 0                  [vsyscall]";

fn text(v: Vec<u8>) -> String {
    String::from_utf8(v).unwrap()
}

fn sample() -> Vec<Mapping> {
    [LD, STACK, VSYSCALL]
        .iter()
        .map(|l| parse_map_line(l.as_bytes()).unwrap())
        .collect()
}

fn open_range() -> AddressRange {
    AddressRange { lower: None, upper: None }
}

fn pid_line(pid: u32, cmdline: &str) -> String {
    let mut out = Vec::new();
    push_pid_line(&mut out, pid, cmdline.as_bytes());
    text(out)
}

#[test]
fn test_non_existing_pid() {
    assert_eq!(exit_code(&vec![PidOutcome::NotFound]), 42);
}

#[test]
fn test_permission_denied() {
    let out = pid_line(1, "/sbin/init");
    assert_eq!(out, "1:   /sbin/init\n");
    assert_eq!(exit_code(&vec![PidOutcome::PermissionDenied]), 1);
}

#[test]
fn test_extended_permission_denied() {
    assert_eq!(pid_line(1, "/sbin/init").lines().count(), 1);
    assert_eq!(exit_code(&vec![PidOutcome::PermissionDenied]), 1);
}

#[test]
fn test_device_permission_denied() {
    assert_eq!(pid_line(1, "/sbin/init").lines().count(), 1);
    assert_eq!(exit_code(&vec![PidOutcome::PermissionDenied]), 1);
}

#[test]
fn test_create_rc_to() {
    assert_eq!(check_create(false), Ok(()));
    assert_eq!(check_create(true), Err(RcError::AlreadyExists));
}

#[test]
fn test_range_arg() {
    for arg in [
        ",", "c00fee", "c00fee,", ",c00fee", "c00,fee", "0", "0,", ",0", "0,0",
        "ffffffffffffffff", "ffffffffffffffff,", ",ffffffffffffffff",
        "ffffffffffffffff,ffffffffffffffff",
    ] {
        assert!(parse_range(arg.as_bytes()).is_ok(), "{arg}");
    }
    for arg in [
        ", ", " ,", " , ", "bad ", " bad", ",,", ",bad,", "bad_beef", "someinvalidtext",
        "someinvalidtext,", ",someinvalidtext", "someinvalidtext,someinvalidtext",
        "f0000000000000000", "f0000000000000000,f0000000000000000",
    ] {
        assert_eq!(parse_range(arg.as_bytes()), Err(RangeSyntaxError), "{arg}");
    }
}

#[test]
fn range_values() {
    assert_eq!(
        parse_range(b"c00,fee"),
        Ok(AddressRange { lower: Some(0xc00), upper: Some(0xfee) })
    );
    assert_eq!(parse_range(b"c00fee"), Ok(AddressRange { lower: Some(0xc00fee), upper: None }));
    assert_eq!(parse_range(b",ff"), Ok(AddressRange { lower: None, upper: Some(0xff) }));
    assert_eq!(parse_range(b","), Ok(AddressRange { lower: None, upper: None }));
    assert_eq!(
        parse_range(b"ffffffffffffffff"),
        Ok(AddressRange { lower: Some(u64::MAX), upper: None })
    );
    assert_eq!(parse_range(b""), Err(RangeSyntaxError));
    assert_eq!(parse_range(b"C00"), Err(RangeSyntaxError));
}

#[test]
fn map_line_fields() {
    let m = parse_map_line(LD.as_bytes()).unwrap();
    assert_eq!(m.start, 0x7f0e4c5a2000);
    assert_eq!(m.end, 0x7f0e4c5a4000);
    assert!(m.perms.read && m.perms.write && !m.perms.execute && !m.perms.shared);
    assert_eq!(m.offset, b"00036000".to_vec());
    assert_eq!(m.major, b"08".to_vec());
    assert_eq!(m.minor, b"08".to_vec());
    assert_eq!(m.inode, b"2274176".to_vec());
    assert_eq!(m.label, b"/usr/lib/ld-linux-x86-64.so.2".to_vec());
    let anon = parse_map_line(b"1000-2000 r--s 00000000 00:00 0").unwrap();
    assert!(anon.label.is_empty());
    assert!(anon.perms.shared);
    assert!(parse_map_line(b"2000-1000 r--p 00000000 00:00 0").is_none());
    assert!(parse_map_line(b"garbage").is_none());
}

#[test]
fn basic_format() {
    let out = text(render_basic(&sample(), false, false));
    assert_eq!(
        out,
        "00007f0e4c5a2000      8K rw--- ld-linux-x86-64.so.2\n\
         00007ffd588dc000    132K rw---   [ stack ]\n\
         ffffffffff600000      4K --x--   [ anon ]\n \
         total              144K\n"
    );
}

#[test]
fn basic_total_is_column_sum() {
    let out = text(render_basic(&sample(), false, false));
    let sum: u64 = out
        .lines()
        .filter(|l| !l.starts_with(' '))
        .map(|l| l[17..24].trim().trim_end_matches('K').parse::<u64>().unwrap())
        .sum();
    assert_eq!(out.lines().last().unwrap(), format!(" total {:>16}K", sum));
}

#[test]
fn quiet_drops_only_frame() {
    let loud = text(render_basic(&sample(), false, false));
    let quiet = text(render_basic(&sample(), true, false));
    assert!(loud.starts_with(&quiet) && loud.len() > quiet.len());
    let loud = text(render_device(&sample(), false, false));
    let quiet = text(render_device(&sample(), true, false));
    assert!(loud.contains(&quiet));
    assert_eq!(loud.lines().count(), quiet.lines().count() + 2);
}

#[test]
fn show_path_changes_only_labels() {
    let full = text(render_basic(&sample(), false, true));
    let short = text(render_basic(&sample(), false, false));
    assert!(full.starts_with("00007f0e4c5a2000      8K rw--- /usr/lib/ld-linux-x86-64.so.2\n"));
    let f: Vec<&str> = full.lines().collect();
    let s: Vec<&str> = short.lines().collect();
    assert_eq!(f[1..], s[1..]);
}

#[test]
fn device_format() {
    let out = text(render_device(&sample(), false, false));
    assert_eq!(
        out,
        "Address           Kbytes Mode  Offset           Device    Mapping\n\
         00007f0e4c5a2000       8 rw--- 0000000000036000 008:00008 ld-linux-x86-64.so.2\n\
         00007ffd588dc000     132 rw--- 0000000000000000 000:00000   [ stack ]\n\
         ffffffffff600000       4 --x-- 0000000000000000 000:00000   [ anon ]\n\
         mapped: 144K    writeable/private: 140K    shared: 0K\n"
    );
}

#[test]
fn report_filters_by_range() {
    let range = parse_range(b"7ffd588dc000,7ffd588dc000").unwrap();
    let out = text(report(42, b"/bin/prog", Format::Basic, &range, sample(), false, false));
    assert_eq!(
        out,
        "42:   /bin/prog\n00007ffd588dc000    132K rw---   [ stack ]\n total              132K\n"
    );
}

#[test]
fn two_reports_concatenate() {
    let a = report(7, b"/bin/a", Format::Basic, &open_range(), sample(), false, false);
    let b = report(8, b"/bin/b", Format::Basic, &open_range(), sample(), false, false);
    let both = text([a.clone(), b.clone()].concat());
    assert!(both.starts_with("7:   /bin/a\n"));
    assert_eq!(both.lines().filter(|l| l.contains(":   ")).count(), 2);
    assert_eq!(text(a.clone()), text(report(7, b"/bin/a", Format::Basic, &open_range(), sample(), false, false)));
}

#[test]
fn exit_policy() {
    assert_eq!(exit_code(&vec![]), 0);
    assert_eq!(exit_code(&vec![PidOutcome::Success, PidOutcome::Success]), 0);
    assert_eq!(exit_code(&vec![PidOutcome::Success, PidOutcome::PermissionDenied]), 1);
    assert_eq!(exit_code(&vec![PidOutcome::PermissionDenied, PidOutcome::NotFound]), 42);
    assert_eq!(exit_code(&vec![PidOutcome::NotFound, PidOutcome::Success]), 42);
}

#[test]
fn rc_store() {
    assert_eq!(check_read(false), Err(RcError::NotFound));
    assert_eq!(check_read(true), Ok(()));
    let d = RcDefaults {
        extended: true,
        more_extended: false,
        most_extended: false,
        device: false,
        quiet: true,
        show_path: true,
    };
    assert_eq!(text(rc_content(&d)), "-x\n-q\n-p\n");
    assert_eq!(parse_rc(&rc_content(&d)), d);
    let e = parse_rc(b"# saved\n-d\n-q \n--XX");
    assert!(e.device && e.most_extended && !e.quiet && !e.extended && !e.show_path);
}

#[test]
fn status_fields() {
    assert_eq!(todo(), "TODO");
    assert_eq!(user(), "TODO");
    assert_eq!(text(uptime(90061)), "up 1 day, 1:01");
    assert_eq!(text(uptime(59 * 60)), "up 59 min");
    assert_eq!(text(uptime(2 * 86400 + 3 * 3600 + 5 * 60)), "up 2 days, 3:05");
    assert_eq!(text(load_average(52, 58, 159)), "load average: 0.52, 0.58, 1.59");
    let states = vec![
        ProcState::Running,
        ProcState::Sleeping,
        ProcState::Sleeping,
        ProcState::Zombie,
        ProcState::Other,
    ];
    assert_eq!(text(task(&states)), "Tasks: 5 total, 1 running, 2 sleeping, 0 stopped, 1 zombie");
}

#[test]
fn cpu_line() {
    let c = parse_cpu_times(b"cpu  100 0 50 850 0 0 0 0 0 0\ncpu0 1 2 3\n").unwrap();
    assert_eq!(c.user, 100);
    assert_eq!(c.idle, 850);
    assert_eq!(
        text(cpu(&c)),
        "%Cpu(s):  10.0 us, 5.0 sy, 0.0 ni, 85.0 id, 0.0 wa, 0.0 hi, 0.0 si, 0.0 st"
    );
    assert!(parse_cpu_times(b"cpu  1 2\n").is_none());
    assert!(parse_cpu_times(b"intr 1 2 3 4 5 6 7 8 9 10\n").is_none());
}

#[test]
fn memory_lines() {
    let m = MemStats {
        total: 8589934592,
        free: 1073741824,
        used: 4294967296,
        available: 2147483648,
        swap_total: 0,
        swap_free: 0,
        swap_used: 0,
    };
    assert_eq!(
        text(memory(MemUnit::from_scale(None), &m)),
        "MiB Mem :   8192.0 total,   1024.0 free,   4096.0 used,   1024.0 buff/cache\n\
         MiB Swap:      0.0 total,      0.0 free,      0.0 used,   2048.0 avail Mem"
    );
    assert_eq!(MemUnit::from_scale(Some(b"g".as_slice())), MemUnit::Gib);
    assert_eq!(MemUnit::from_scale(Some(b"z".as_slice())), MemUnit::Mib);
    assert_eq!(MemUnit::from_scale(Some(b"kb".as_slice())), MemUnit::Mib);
    assert_eq!(MemUnit::from_scale(Some(b"K".as_slice())), MemUnit::Mib);
    let h = header(b"12:00:00", b"up 5 min", b"TODO", b"load", b"tasks", b"cpu", b"mem");
    assert_eq!(text(h), "top - 12:00:00 up 5 min, TODO, load\ntasks\ncpu\nmem");
}

const SMAPS: &str = "7f0e4c5a2000-7f0e4c5a4000 rw-p 00036000 08:08 2274176    /usr/lib/ld-linux-x86-64.so.2
Size:                  8 kB
Rss:                   8 kB
Shared_Dirty:          0 kB
Private_Dirty:         4 kB
THPeligible:    0
VmFlags: rd wr mr mw me ac sd
7ffd588dc000-7ffd588fd000 rw-p 00000000 00:00 0                          [stack]
Rss:                  20 kB
Shared_Dirty:          1 kB
Private_Dirty:        19 kB
";

#[test]
fn extended_format() {
    let ms = pmap::extended::parse_smaps(SMAPS.as_bytes()).unwrap();
    assert_eq!(ms.len(), 2);
    assert_eq!((ms[0].rss, ms[0].dirty), (8, 4));
    assert_eq!((ms[1].rss, ms[1].dirty), (20, 20));
    let out = text(pmap::extended::render_extended(&ms, false, false));
    assert_eq!(
        out,
        "Address           Kbytes     RSS   Dirty Mode  Mapping\n\
         00007f0e4c5a2000       8       8       4 rw--- ld-linux-x86-64.so.2\n\
         00007ffd588dc000     132      20      20 rw---   [ stack ]\n\
         ---------------- ------- ------- ------- \n\
         total kB             140      28      24\n"
    );
    let quiet = text(pmap::extended::render_extended(&ms, true, false));
    assert_eq!(quiet.lines().count(), 2);
    assert!(out.contains(&quiet));
}

#[test]
fn extended_report_and_errors() {
    let ms = pmap::extended::parse_smaps(SMAPS.as_bytes()).unwrap();
    let range = parse_range(b",7f0e4c5a2000").unwrap();
    let out = text(pmap::extended::report_extended(9, b"/bin/x", &range, ms, true, true));
    assert_eq!(
        out,
        "9:   /bin/x\n00007f0e4c5a2000       8       8       4 rw--- /usr/lib/ld-linux-x86-64.so.2\n"
    );
    assert!(pmap::extended::parse_smaps(b"Rss: 4 kB\n").is_none());
    assert!(pmap::extended::parse_smaps(b"1000-2000 r--p 0 00:00 0\nRss: lots\n").is_none());
    assert_eq!(
        pmap::extended::parse_stat_line(b"Rss:   12 kB"),
        Some((pmap::extended::StatKey::Rss, 12))
    );
}

#[test]
fn range_bounds_are_inclusive_of_start_only() {
    let at_end = parse_range(b"7ffd588fd000").unwrap();
    let out = text(report(1, b"/p", Format::Basic, &at_end, sample(), true, false));
    assert_eq!(out, "1:   /p\nffffffffff600000      4K --x--   [ anon ]\n");
    let at_start = parse_range(b",7ffd588dc000").unwrap();
    let out = text(report(1, b"/p", Format::Device, &at_start, sample(), true, false));
    assert_eq!(out.lines().count(), 3);
}

#[test]
fn cpu_line_without_counted_time() {
    let c = parse_cpu_times(b"cpu  0 0 0 0 0 0 0 0 0 0\n").unwrap();
    assert_eq!(
        text(cpu(&c)),
        "%Cpu(s):  NaN us, NaN sy, NaN ni, NaN id, NaN wa, NaN hi, NaN si, NaN st"
    );
    let c = parse_cpu_times(b"cpu  1 2 3 x 5 6 7 8 9 10 11").unwrap();
    assert_eq!((c.idle, c.iowait, c.guest_nice), (0, 5, 10));
    assert!(parse_cpu_times(b"cpu  1 x 3 4 5 6 7 8 9 10").is_none());
}

#[test]
fn merge_by_exact_interval() {
    let ms = pmap::extended::parse_smaps(SMAPS.as_bytes()).unwrap();
    let basic = sample();
    assert_eq!(pmap::extended::merge_extended(&basic, ms.clone()).unwrap().len(), 2);
    let only_ld = vec![parse_map_line(LD.as_bytes()).unwrap()];
    assert!(pmap::extended::merge_extended(&only_ld, ms).is_none());
}

#[test]
fn command_line_text() {
    assert_eq!(text(pmap::report::cmdline_text(b"/bin/sleep\x00100\x00")), "/bin/sleep 100");
    assert_eq!(text(pmap::report::cmdline_text(b"  \x00")), "");
}

#[test]
fn rc_lines_must_match_whole() {
    let e = parse_rc(b"-xq\n -d\n-p");
    assert!(!e.extended && !e.device && !e.quiet && e.show_path);
}
