use vstd::prelude::*;
use crate::maps::{map_line_of, parse_map_line, MapView, Mapping};
use crate::range::{find_byte, first_from, intersects, intersects_range, AddressRange};
use crate::render::{mode, push_mode, push_spaced_label, spaced_label};
use crate::status::{dec_value, valid_dec};
use crate::text::{dec, hex, pad_left, push_bytes, push_dec_padded, push_hex_padded, push_text, txt};

verus! {

/// A mapping with the resident and dirty sizes that the kernel's detailed
/// statistics give for it, in kibibytes.
#[derive(Clone, Debug)]
pub struct ExtMapping {
    pub map: Mapping,
    pub rss: u64,
    pub dirty: u64,
}

impl ExtMapping {
    pub open spec fn wf(&self) -> bool {
        self.map.wf()
    }
}

/// A statistics key this reader keeps.
#[derive(Clone, Copy, Debug, PartialEq, Eq, Structural)]
pub enum StatKey {
    Rss,
    SharedDirty,
    PrivateDirty,
    Other,
}

fn key_is(s: &[u8], end: usize, word: &str) -> (r: bool)
    requires
        end <= s@.len(),
    ensures
        r == (s@.subrange(0, end as int) == txt(word)),
{
    let w = word.as_bytes();
    if w.len() != end {
        assert(s@.subrange(0, end as int).len() != w@.len());
        return false;
    }
    let mut i: usize = 0;
    while i < end
        invariant
            i <= end <= s@.len(),
            w@.len() == end,
            w@ == txt(word),
            forall|j: int| 0 <= j < i ==> s@[j] == w@[j],
        decreases end - i,
    {
        if s[i] != w[i] {
            assert(s@.subrange(0, end as int)[i as int] != w@[i as int]);
            return false;
        }
        i += 1;
    }
    assert(s@.subrange(0, end as int) =~= w@);
    true
}

/// The key a statistics name stands for.
pub open spec fn stat_key_of(name: Seq<u8>) -> StatKey {
    if name == txt("Rss") {
        StatKey::Rss
    } else if name == txt("Shared_Dirty") {
        StatKey::SharedDirty
    } else if name == txt("Private_Dirty") {
        StatKey::PrivateDirty
    } else {
        StatKey::Other
    }
}

/// First position from `i` before `end` that is not a decimal digit; `end` if none.
pub open spec fn skip_digits(s: Seq<u8>, i: int, end: int) -> int
    decreases end - i,
{
    if i < 0 || i >= end || i >= s.len() || !(48 <= s[i] <= 57) { i } else { skip_digits(s, i + 1, end) }
}

/// A `Key:   value kB` line: the key and its value. The name before the first colon
/// must not be empty. A key this reader does not keep reads as `Other` with zero,
/// whatever follows; a kept key needs spaces, then a decimal number that fits in 64 bits.
pub open spec fn stat_line_of(s: Seq<u8>) -> Option<(StatKey, u64)> {
    match crate::maps::field_end(s, 0, 58u8) {
        None => None,
        Some(colon) => {
            let key = stat_key_of(s.subrange(0, colon));
            if key == StatKey::Other {
                Some((StatKey::Other, 0u64))
            } else {
                let a = crate::range::skip_byte(s, colon + 1, s.len() as int, 32u8);
                let b = skip_digits(s, a, s.len() as int);
                if valid_dec(s.subrange(a, b)) {
                    Some((key, dec_value(s.subrange(a, b)) as u64))
                } else {
                    None
                }
            }
        },
    }
}

/// Reads a `Key:   value kB` line: the key and its decimal value.
pub fn parse_stat_line(s: &[u8]) -> (r: Option<(StatKey, u64)>)
    ensures
        r == stat_line_of(s@),
{
    let n = s.len();
    let colon = match find_byte(s, 0, 58u8) {
        Some(c) => c,
        None => return None,
    };
    if colon == 0 {
        return None;
    }
    let key = if key_is(s, colon, "Rss") {
        StatKey::Rss
    } else if key_is(s, colon, "Shared_Dirty") {
        StatKey::SharedDirty
    } else if key_is(s, colon, "Private_Dirty") {
        StatKey::PrivateDirty
    } else {
        StatKey::Other
    };
    if key == StatKey::Other {
        return Some((StatKey::Other, 0));
    }
    let a = crate::range::skip_bytes(s, colon + 1, n, 32u8);
    let mut b: usize = a;
    while b < n && 48 <= s[b] && s[b] <= 57
        invariant
            a <= b <= n == s@.len(),
            skip_digits(s@, a as int, n as int) == skip_digits(s@, b as int, n as int),
        decreases n - b,
    {
        b += 1;
    }
    let v = crate::status::parse_dec_range(s, a, b)?;
    Some((key, v))
}

/// What a statistics record holds, as plain values.
pub struct ExtView {
    pub map: MapView,
    pub rss: u64,
    pub dirty: u64,
}

impl View for ExtMapping {
    type V = ExtView;

    open spec fn view(&self) -> ExtView {
        ExtView { map: self.map@, rss: self.rss, dirty: self.dirty }
    }
}

pub open spec fn views(v: Seq<ExtMapping>) -> Seq<ExtView> {
    v.map_values(|e: ExtMapping| e@)
}

pub open spec fn opt_view(c: Option<ExtMapping>) -> Option<ExtView> {
    match c {
        Some(e) => Some(e@),
        None => None,
    }
}

/// `acc` with the open record, if any, closed onto its end.
pub open spec fn flush(cur: Option<ExtView>, acc: Seq<ExtView>) -> Seq<ExtView> {
    match cur {
        Some(c) => acc.push(c),
        None => acc,
    }
}

/// The open record after one statistics line, or `None` when the dirty sum overflows.
pub open spec fn apply_stat(c: ExtView, k: StatKey, v: u64) -> Option<ExtView> {
    match k {
        StatKey::Rss => Some(ExtView { map: c.map, rss: v, dirty: c.dirty }),
        StatKey::Other => Some(c),
        _ => if c.dirty + v > u64::MAX {
            None
        } else {
            Some(ExtView { map: c.map, rss: c.rss, dirty: (c.dirty + v) as u64 })
        },
    }
}

/// Reads the lines from `pos` on, with `cur` the open record and `acc` the closed ones.
pub open spec fn smaps_from(s: Seq<u8>, pos: int, cur: Option<ExtView>, acc: Seq<ExtView>) -> Option<Seq<ExtView>>
    decreases s.len() - pos,
{
    if pos < 0 || pos >= s.len() {
        Some(flush(cur, acc))
    } else {
        let end = match first_from(s, pos, 10u8) {
            Some(e) => e,
            None => s.len() as int,
        };
        let next = if pos <= end < s.len() { end + 1 } else { s.len() as int };
        let line = s.subrange(pos, end);
        if line.len() == 0 {
            smaps_from(s, next, cur, acc)
        } else {
            match map_line_of(line) {
                Some(m) => smaps_from(s, next, Some(ExtView { map: m, rss: 0, dirty: 0 }), flush(cur, acc)),
                None => match (stat_line_of(line), cur) {
                    (Some((k, v)), Some(c)) => match apply_stat(c, k, v) {
                        Some(c2) => smaps_from(s, next, Some(c2), acc),
                        None => None,
                    },
                    _ => None,
                },
            }
        }
    }
}

/// The records of a detailed statistics text, one per block in order: a block opens
/// with a map-listing line and is followed by `Key: value` lines; `rss` is the `Rss`
/// value and `dirty` the sum of `Shared_Dirty` and `Private_Dirty`. `None` when a
/// statistics line comes before any block, a line is neither kind, or a sum overflows.
pub open spec fn smaps_of(s: Seq<u8>) -> Option<Seq<ExtView>> {
    smaps_from(s, 0, None, seq![])
}

/// Reads the kernel's detailed per-mapping statistics.
pub fn parse_smaps(content: &[u8]) -> (r: Option<Vec<ExtMapping>>)
    ensures
        match r {
            Some(v) => smaps_of(content@) == Some(views(v@))
                && forall|i: int| 0 <= i < v@.len() ==> (#[trigger] v@[i]).wf(),
            None => smaps_of(content@) is None,
        },
{
    let n = content.len();
    let mut out: Vec<ExtMapping> = Vec::new();
    let mut cur: Option<ExtMapping> = None;
    let mut pos: usize = 0;
    assert(views(out@) =~= seq![]);
    while pos < n
        invariant
            pos <= n == content@.len(),
            forall|i: int| 0 <= i < out@.len() ==> (#[trigger] out@[i]).wf(),
            cur matches Some(c) ==> c.wf(),
            smaps_from(content@, pos as int, opt_view(cur), views(out@)) == smaps_of(content@),
        decreases n - pos,
    {
        let end = match find_byte(content, pos, 10u8) {
            Some(e) => e,
            None => n,
        };
        let line = crate::maps::copy_range(content, pos, end);
        pos = if end < n { end + 1 } else { n };
        if line.len() == 0 {
            continue;
        }
        match parse_map_line(line.as_slice()) {
            Some(m) => {
                let ghost before = views(out@);
                if let Some(c) = cur.take() {
                    out.push(c);
                    assert(views(out@) =~= before.push(c@));
                }
                cur = Some(ExtMapping { map: m, rss: 0, dirty: 0 });
            },
            None => {
                let (key, v) = match parse_stat_line(line.as_slice()) {
                    Some(kv) => kv,
                    None => return None,
                };
                let mut c = match cur.take() {
                    Some(c) => c,
                    None => return None,
                };
                match key {
                    StatKey::Rss => c.rss = v,
                    StatKey::SharedDirty | StatKey::PrivateDirty => {
                        c.dirty = match c.dirty.checked_add(v) {
                            Some(d) => d,
                            None => return None,
                        };
                    },
                    StatKey::Other => {},
                }
                cur = Some(c);
            },
        }
    }
    let ghost before = views(out@);
    if let Some(c) = cur.take() {
        out.push(c);
        assert(views(out@) =~= before.push(c@));
    }
    Some(out)
}

pub open spec fn ext_total_kb(ms: Seq<ExtMapping>) -> nat
    decreases ms.len(),
{
    if ms.len() == 0 { 0 } else { ext_total_kb(ms.drop_last()) + ms.last().map.size_kb() }
}

pub open spec fn ext_total_rss(ms: Seq<ExtMapping>) -> nat
    decreases ms.len(),
{
    if ms.len() == 0 { 0 } else { ext_total_rss(ms.drop_last()) + ms.last().rss as nat }
}

pub open spec fn ext_total_dirty(ms: Seq<ExtMapping>) -> nat
    decreases ms.len(),
{
    if ms.len() == 0 { 0 } else { ext_total_dirty(ms.drop_last()) + ms.last().dirty as nat }
}

pub open spec fn ext_all_wf(ms: Seq<ExtMapping>) -> bool {
    forall|i: int| 0 <= i < ms.len() ==> (#[trigger] ms[i]).wf()
}

pub open spec fn ext_lead(e: ExtMapping) -> Seq<u8> {
    pad_left(hex(e.map.start as nat), 16, 48u8) + txt(" ") + pad_left(dec(e.map.size_kb()), 7, 32u8)
        + txt(" ") + pad_left(dec(e.rss as nat), 7, 32u8) + txt(" ") + pad_left(dec(e.dirty as nat), 7, 32u8)
        + txt(" ") + mode(e.map.perms) + txt(" ")
}

/// One row of the Extended format.
pub open spec fn ext_row(e: ExtMapping, show_path: bool) -> Seq<u8> {
    ext_lead(e) + spaced_label(e.map.label@, show_path) + txt("\n")
}

pub open spec fn ext_rows(ms: Seq<ExtMapping>, show_path: bool) -> Seq<u8>
    decreases ms.len(),
{
    if ms.len() == 0 { seq![] } else { ext_rows(ms.drop_last(), show_path) + ext_row(ms.last(), show_path) }
}

pub open spec fn ext_header() -> Seq<u8> {
    txt("Address           Kbytes     RSS   Dirty Mode  Mapping\n")
}

/// Separator and total lines of the Extended format.
pub open spec fn ext_footer(size: nat, rss: nat, dirty: nat) -> Seq<u8> {
    txt("---------------- ------- ------- ------- \n") + txt("total kB ") + pad_left(dec(size), 15, 32u8)
        + txt(" ") + pad_left(dec(rss), 7, 32u8) + txt(" ") + pad_left(dec(dirty), 7, 32u8) + txt("\n")
}

/// The table of the Extended format: header, rows, separator and totals, the
/// frame only when not quiet.
pub open spec fn ext_table(ms: Seq<ExtMapping>, quiet: bool, show_path: bool) -> Seq<u8> {
    if quiet {
        ext_rows(ms, show_path)
    } else {
        ext_header() + ext_rows(ms, show_path) + ext_footer(
            ext_total_kb(ms),
            ext_total_rss(ms),
            ext_total_dirty(ms),
        )
    }
}

proof fn lemma_ext_prefix(ms: Seq<ExtMapping>, k: int)
    requires
        0 <= k <= ms.len(),
    ensures
        ext_total_kb(ms.subrange(0, k)) <= ext_total_kb(ms),
        ext_total_rss(ms.subrange(0, k)) <= ext_total_rss(ms),
        ext_total_dirty(ms.subrange(0, k)) <= ext_total_dirty(ms),
    decreases ms.len(),
{
    if k < ms.len() {
        lemma_ext_prefix(ms.drop_last(), k);
        assert(ms.drop_last().subrange(0, k) =~= ms.subrange(0, k));
    } else {
        assert(ms.subrange(0, k) =~= ms);
    }
}

fn push_ext_row(out: &mut Vec<u8>, e: &ExtMapping, show_path: bool)
    requires
        e.wf(),
    ensures
        final(out)@ == old(out)@ + ext_row(*e, show_path),
{
    let mut a: Vec<u8> = Vec::new();
    push_hex_padded(&mut a, e.map.start, 16, 48u8);
    push_text(&mut a, " ");
    push_dec_padded(&mut a, e.map.size_in_kb(), 7, 32u8);
    push_text(&mut a, " ");
    push_dec_padded(&mut a, e.rss, 7, 32u8);
    push_text(&mut a, " ");
    push_dec_padded(&mut a, e.dirty, 7, 32u8);
    push_text(&mut a, " ");
    push_mode(&mut a, &e.map.perms);
    push_text(&mut a, " ");
    assert(a@ =~= ext_lead(*e));
    push_bytes(out, a.as_slice());
    push_spaced_label(out, e.map.label.as_slice(), show_path);
    push_text(out, "\n");
    assert(final(out)@ =~= old(out)@ + ext_row(*e, show_path));
}

/// Renders the Extended format.
pub fn render_extended(ms: &Vec<ExtMapping>, quiet: bool, show_path: bool) -> (r: Vec<u8>)
    requires
        ext_all_wf(ms@),
        ext_total_kb(ms@) <= u64::MAX,
        ext_total_rss(ms@) <= u64::MAX,
        ext_total_dirty(ms@) <= u64::MAX,
    ensures
        r@ == ext_table(ms@, quiet, show_path),
{
    let mut out: Vec<u8> = Vec::new();
    if !quiet {
        push_text(&mut out, "Address           Kbytes     RSS   Dirty Mode  Mapping\n");
    }
    let ghost head = out@;
    let mut size: u64 = 0;
    let mut rss: u64 = 0;
    let mut dirty: u64 = 0;
    let mut i: usize = 0;
    while i < ms.len()
        invariant
            i <= ms@.len(),
            ext_all_wf(ms@),
            ext_total_kb(ms@) <= u64::MAX,
            ext_total_rss(ms@) <= u64::MAX,
            ext_total_dirty(ms@) <= u64::MAX,
            size as nat == ext_total_kb(ms@.subrange(0, i as int)),
            rss as nat == ext_total_rss(ms@.subrange(0, i as int)),
            dirty as nat == ext_total_dirty(ms@.subrange(0, i as int)),
            head == (if quiet { seq![] } else { ext_header() }),
            out@ == head + ext_rows(ms@.subrange(0, i as int), show_path),
        decreases ms@.len() - i,
    {
        let e = &ms[i];
        assert(ms@.subrange(0, i + 1).drop_last() =~= ms@.subrange(0, i as int));
        assert(ms@.subrange(0, i + 1).last() == ms@[i as int]);
        proof {
            lemma_ext_prefix(ms@, i + 1);
        }
        push_ext_row(&mut out, e, show_path);
        assert(out@ =~= head + ext_rows(ms@.subrange(0, i + 1), show_path));
        size = size + e.map.size_in_kb();
        rss = rss + e.rss;
        dirty = dirty + e.dirty;
        i += 1;
    }
    assert(ms@.subrange(0, i as int) =~= ms@);
    if !quiet {
        let ghost o = out@;
        push_text(&mut out, "---------------- ------- ------- ------- \n");
        push_text(&mut out, "total kB ");
        push_dec_padded(&mut out, size, 15, 32u8);
        push_text(&mut out, " ");
        push_dec_padded(&mut out, rss, 7, 32u8);
        push_text(&mut out, " ");
        push_dec_padded(&mut out, dirty, 7, 32u8);
        push_text(&mut out, "\n");
        assert(out@ =~= o + ext_footer(size as nat, rss as nat, dirty as nat));
    }
    assert(out@ =~= ext_table(ms@, quiet, show_path));
    out
}

/// The records of `ms` whose mapping meets the range, in their order.
pub open spec fn ext_in_range(r: AddressRange, ms: Seq<ExtMapping>) -> Seq<ExtMapping>
    decreases ms.len(),
{
    if ms.len() == 0 {
        seq![]
    } else if intersects(r, ms.last().map.start, ms.last().map.end) {
        ext_in_range(r, ms.drop_last()).push(ms.last())
    } else {
        ext_in_range(r, ms.drop_last())
    }
}

/// Keeps the records whose mapping meets the range.
pub fn filter_range_ext(r: &AddressRange, ms: Vec<ExtMapping>) -> (out: Vec<ExtMapping>)
    ensures
        out@ == ext_in_range(*r, ms@),
{
    let ghost orig = ms@;
    let mut ms = ms;
    let mut out: Vec<ExtMapping> = Vec::new();
    let ghost mut k: int = 0;
    while ms.len() > 0
        invariant
            0 <= k <= orig.len(),
            ms@ == orig.subrange(k, orig.len() as int),
            out@ == ext_in_range(*r, orig.subrange(0, k)),
        decreases ms@.len(),
    {
        let e = ms.remove(0);
        assert(orig.subrange(0, k + 1).drop_last() =~= orig.subrange(0, k));
        assert(orig.subrange(0, k + 1).last() == e);
        proof {
            k = k + 1;
        }
        assert(ms@ =~= orig.subrange(k, orig.len() as int));
        if intersects_range(r, e.map.start, e.map.end) {
            out.push(e);
        }
    }
    assert(orig.subrange(0, k) =~= orig);
    out
}

/// Filtering keeps well-formedness and never adds to any total.
pub proof fn lemma_ext_in_range_sub(r: AddressRange, ms: Seq<ExtMapping>)
    ensures
        ext_all_wf(ms) ==> ext_all_wf(ext_in_range(r, ms)),
        ext_total_kb(ext_in_range(r, ms)) <= ext_total_kb(ms),
        ext_total_rss(ext_in_range(r, ms)) <= ext_total_rss(ms),
        ext_total_dirty(ext_in_range(r, ms)) <= ext_total_dirty(ms),
    decreases ms.len(),
{
    if ms.len() > 0 {
        lemma_ext_in_range_sub(r, ms.drop_last());
        let d = ms.drop_last();
        if ext_all_wf(ms) {
            assert forall|j: int| 0 <= j < d.len() implies (#[trigger] d[j]).wf() by {
                assert(d[j] == ms[j]);
            }
        }
        if intersects(r, ms.last().map.start, ms.last().map.end) {
            let f = ext_in_range(r, d).push(ms.last());
            assert(f.drop_last() =~= ext_in_range(r, d));
            if ext_all_wf(ms) {
                assert forall|i: int| 0 <= i < f.len() implies (#[trigger] f[i]).wf() by {
                    if i < f.len() - 1 {
                        assert(f[i] == ext_in_range(r, d)[i]);
                    } else {
                        assert(ms.last() == ms[ms.len() - 1]);
                    }
                }
            }
        }
    }
}

/// The whole Extended report of one readable process.
pub open spec fn ext_report_text(
    pid: u32,
    cmdline: Seq<u8>,
    range: AddressRange,
    ms: Seq<ExtMapping>,
    quiet: bool,
    show_path: bool,
) -> Seq<u8> {
    crate::report::pid_line(pid, cmdline) + ext_table(ext_in_range(range, ms), quiet, show_path)
}

/// Renders the Extended report of one process: its pid line, then the table of the
/// records whose mapping meets the range.
pub fn report_extended(
    pid: u32,
    cmdline: &[u8],
    range: &AddressRange,
    ms: Vec<ExtMapping>,
    quiet: bool,
    show_path: bool,
) -> (r: Vec<u8>)
    requires
        ext_all_wf(ms@),
        ext_total_kb(ms@) <= u64::MAX,
        ext_total_rss(ms@) <= u64::MAX,
        ext_total_dirty(ms@) <= u64::MAX,
    ensures
        r@ == ext_report_text(pid, cmdline@, *range, ms@, quiet, show_path),
{
    proof {
        lemma_ext_in_range_sub(*range, ms@);
    }
    let kept = filter_range_ext(range, ms);
    let mut out: Vec<u8> = Vec::new();
    crate::report::push_pid_line(&mut out, pid, cmdline);
    let body = render_extended(&kept, quiet, show_path);
    push_bytes(&mut out, body.as_slice());
    out
}

/// Whether the basic listing holds a mapping with exactly the interval of `e`.
pub open spec fn has_match(basic: Seq<Mapping>, e: ExtMapping) -> bool {
    exists|j: int| 0 <= j < basic.len() && basic[j].start == e.map.start && basic[j].end == e.map.end
}

/// Checks the detailed records against the basic listing: every record must match a
/// mapping of the listing by its exact interval. The records come back unchanged, or
/// `None` when one has no match.
pub fn merge_extended(basic: &Vec<Mapping>, ext: Vec<ExtMapping>) -> (r: Option<Vec<ExtMapping>>)
    ensures
        r is Some <==> forall|i: int| 0 <= i < ext@.len() ==> has_match(basic@, #[trigger] ext@[i]),
        r matches Some(v) ==> v@ == ext@,
{
    let mut i: usize = 0;
    while i < ext.len()
        invariant
            i <= ext@.len(),
            forall|k: int| 0 <= k < i ==> has_match(basic@, #[trigger] ext@[k]),
        decreases ext@.len() - i,
    {
        let mut j: usize = 0;
        let mut found = false;
        while j < basic.len() && !found
            invariant
                i < ext@.len(),
                j <= basic@.len(),
                found ==> has_match(basic@, ext@[i as int]),
                !found ==> forall|k: int| 0 <= k < j ==> !(basic@[k].start == ext@[i as int].map.start
                    && basic@[k].end == ext@[i as int].map.end),
            decreases basic@.len() - j + if found { 0int } else { 1int },
        {
            if basic[j].start == ext[i].map.start && basic[j].end == ext[i].map.end {
                found = true;
            } else {
                j += 1;
            }
        }
        if !found {
            assert(!has_match(basic@, ext@[i as int]));
            return None;
        }
        i += 1;
    }
    Some(ext)
}

} // verus!
