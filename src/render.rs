use vstd::prelude::*;
use crate::maps::{Mapping, Perms};
use crate::text::{dec, hex, pad_left, push_bytes, push_dec, push_dec_padded, push_hex_padded, push_padded, push_text, txt};

verus! {

/// Position just after the last `/` of `s`, or 0 when there is none.
pub open spec fn after_last_slash(s: Seq<u8>) -> int
    decreases s.len(),
{
    if s.len() == 0 {
        0
    } else if s.last() == 47u8 {
        s.len() as int
    } else {
        after_last_slash(s.drop_last())
    }
}

/// Final component of a path.
pub open spec fn basename(s: Seq<u8>) -> Seq<u8> {
    s.subrange(after_last_slash(s), s.len() as int)
}

/// The kernel's name for the stack mapping, `[stack]`.
pub open spec fn stack_name() -> Seq<u8> {
    seq![91u8, 115u8, 116u8, 97u8, 99u8, 107u8, 93u8]
}

/// Whether a label is a bracketed pseudo-name or empty (an anonymous mapping).
pub open spec fn is_pseudo(label: Seq<u8>) -> bool {
    label.len() == 0 || label[0] == 91u8
}

/// A path label as shown: the whole path or its final component.
pub open spec fn shown_path(label: Seq<u8>, show_path: bool) -> Seq<u8> {
    if show_path { label } else { basename(label) }
}

/// Label in the spaced style of the Basic, Extended and Device formats.
pub open spec fn spaced_label(label: Seq<u8>, show_path: bool) -> Seq<u8> {
    if label == stack_name() {
        txt("  [ stack ]")
    } else if is_pseudo(label) {
        txt("  [ anon ]")
    } else {
        shown_path(label, show_path)
    }
}

/// Five-character mode: read, write, execute, shared, and a final `-`.
pub open spec fn mode(p: Perms) -> Seq<u8> {
    seq![
        if p.read { 114u8 } else { 45u8 },
        if p.write { 119u8 } else { 45u8 },
        if p.execute { 120u8 } else { 45u8 },
        if p.shared { 115u8 } else { 45u8 },
        45u8,
    ]
}

pub open spec fn all_wf(ms: Seq<Mapping>) -> bool {
    forall|i: int| 0 <= i < ms.len() ==> (#[trigger] ms[i]).wf()
}

/// Sum of the sizes, in kibibytes.
pub open spec fn total_kb(ms: Seq<Mapping>) -> nat
    decreases ms.len(),
{
    if ms.len() == 0 { 0 } else { total_kb(ms.drop_last()) + ms.last().size_kb() }
}

/// Sum of the sizes of writable private mappings.
pub open spec fn writable_private_kb(ms: Seq<Mapping>) -> nat
    decreases ms.len(),
{
    if ms.len() == 0 {
        0
    } else {
        writable_private_kb(ms.drop_last()) + if ms.last().perms.write && !ms.last().perms.shared {
            ms.last().size_kb()
        } else {
            0
        }
    }
}

/// Sum of the sizes of shared mappings.
pub open spec fn shared_kb(ms: Seq<Mapping>) -> nat
    decreases ms.len(),
{
    if ms.len() == 0 {
        0
    } else {
        shared_kb(ms.drop_last()) + if ms.last().perms.shared { ms.last().size_kb() } else { 0 }
    }
}

/// Address, size and mode columns of a Basic row, each followed by a space.
pub open spec fn basic_lead(m: Mapping) -> Seq<u8> {
    pad_left(hex(m.start as nat), 16, 48u8) + txt(" ") + pad_left(dec(m.size_kb()), 6, 32u8)
        + txt("K ") + mode(m.perms) + txt(" ")
}

/// One row of the Basic format.
pub open spec fn basic_row(m: Mapping, show_path: bool) -> Seq<u8> {
    basic_lead(m) + spaced_label(m.label@, show_path) + txt("\n")
}

pub open spec fn basic_rows(ms: Seq<Mapping>, show_path: bool) -> Seq<u8>
    decreases ms.len(),
{
    if ms.len() == 0 { seq![] } else { basic_rows(ms.drop_last(), show_path) + basic_row(ms.last(), show_path) }
}

/// The closing line of the Basic format.
pub open spec fn basic_total(total: nat) -> Seq<u8> {
    txt(" total ") + pad_left(dec(total), 16, 32u8) + txt("K\n")
}

/// The table of the Basic format: rows, then the total unless quiet.
pub open spec fn basic_table(ms: Seq<Mapping>, quiet: bool, show_path: bool) -> Seq<u8> {
    basic_rows(ms, show_path) + if quiet { seq![] } else { basic_total(total_kb(ms)) }
}

/// Address, size and mode columns of a Device row, each followed by a space.
pub open spec fn device_lead(m: Mapping) -> Seq<u8> {
    pad_left(hex(m.start as nat), 16, 48u8) + txt(" ") + pad_left(dec(m.size_kb()), 7, 32u8)
        + txt(" ") + mode(m.perms) + txt(" ")
}

/// Offset and device columns of a Device row, each followed by a space.
pub open spec fn device_backing(m: Mapping) -> Seq<u8> {
    pad_left(m.offset@, 16, 48u8) + txt(" ") + pad_left(m.major@, 3, 48u8) + txt(":")
        + pad_left(m.minor@, 5, 48u8) + txt(" ")
}

/// One row of the Device format.
pub open spec fn device_row(m: Mapping, show_path: bool) -> Seq<u8> {
    device_lead(m) + device_backing(m) + spaced_label(m.label@, show_path) + txt("\n")
}

pub open spec fn device_rows(ms: Seq<Mapping>, show_path: bool) -> Seq<u8>
    decreases ms.len(),
{
    if ms.len() == 0 { seq![] } else { device_rows(ms.drop_last(), show_path) + device_row(ms.last(), show_path) }
}

pub open spec fn device_header() -> Seq<u8> {
    txt("Address           Kbytes Mode  Offset           Device    Mapping\n")
}

/// The closing line of the Device format.
pub open spec fn device_total(mapped: nat, writable_private: nat, shared: nat) -> Seq<u8> {
    txt("mapped: ") + dec(mapped) + txt("K    writeable/private: ") + dec(writable_private)
        + txt("K    shared: ") + dec(shared) + txt("K\n")
}

/// The table of the Device format: header, rows and totals, the first and last unless quiet.
pub open spec fn device_table(ms: Seq<Mapping>, quiet: bool, show_path: bool) -> Seq<u8> {
    if quiet {
        device_rows(ms, show_path)
    } else {
        device_header() + device_rows(ms, show_path) + device_total(
            total_kb(ms),
            writable_private_kb(ms),
            shared_kb(ms),
        )
    }
}

/// Appends the final component of the path `s`.
pub fn push_basename(out: &mut Vec<u8>, s: &[u8])
    ensures
        final(out)@ == old(out)@ + basename(s@),
{
    let mut i: usize = s.len();
    assert(s@.subrange(0, i as int) =~= s@);
    while i > 0 && s[i - 1] != 47u8
        invariant
            i <= s@.len(),
            after_last_slash(s@) == after_last_slash(s@.subrange(0, i as int)),
        decreases i,
    {
        assert(s@.subrange(0, i as int).drop_last() =~= s@.subrange(0, i - 1));
        i -= 1;
    }
    if i > 0 {
        assert(s@.subrange(0, i as int).last() == 47u8);
    }
    let part = crate::maps::copy_range(s, i, s.len());
    push_bytes(out, part.as_slice());
}

fn is_stack(label: &[u8]) -> (r: bool)
    ensures
        r == (label@ == stack_name()),
{
    let r = label.len() == 7 && label[0] == 91u8 && label[1] == 115u8 && label[2] == 116u8
        && label[3] == 97u8 && label[4] == 99u8 && label[5] == 107u8 && label[6] == 93u8;
    if r {
        assert(label@ =~= stack_name());
    }
    r
}

/// Appends a path label, whole or by its final component.
pub fn push_path(out: &mut Vec<u8>, label: &[u8], show_path: bool)
    ensures
        final(out)@ == old(out)@ + shown_path(label@, show_path),
{
    if show_path {
        push_bytes(out, label);
    } else {
        push_basename(out, label);
    }
}

/// Appends a label in the spaced style.
pub fn push_spaced_label(out: &mut Vec<u8>, label: &[u8], show_path: bool)
    ensures
        final(out)@ == old(out)@ + spaced_label(label@, show_path),
{
    if is_stack(label) {
        push_text(out, "  [ stack ]");
    } else if label.len() == 0 || label[0] == 91u8 {
        push_text(out, "  [ anon ]");
    } else {
        push_path(out, label, show_path);
    }
}

/// Appends the five-character mode of `p`.
pub fn push_mode(out: &mut Vec<u8>, p: &Perms)
    ensures
        final(out)@ == old(out)@ + mode(*p),
{
    out.push(if p.read { 114u8 } else { 45u8 });
    out.push(if p.write { 119u8 } else { 45u8 });
    out.push(if p.execute { 120u8 } else { 45u8 });
    out.push(if p.shared { 115u8 } else { 45u8 });
    out.push(45u8);
    assert(final(out)@ =~= old(out)@ + mode(*p));
}

/// Appends one row of the Basic format.
fn push_basic_row(out: &mut Vec<u8>, m: &Mapping, show_path: bool)
    requires
        m.wf(),
    ensures
        final(out)@ == old(out)@ + basic_row(*m, show_path),
{
    let size = m.size_in_kb();
    let mut a: Vec<u8> = Vec::new();
    push_hex_padded(&mut a, m.start, 16, 48u8);
    push_text(&mut a, " ");
    push_dec_padded(&mut a, size, 6, 32u8);
    push_text(&mut a, "K ");
    push_mode(&mut a, &m.perms);
    push_text(&mut a, " ");
    assert(a@ =~= basic_lead(*m));
    push_bytes(out, a.as_slice());
    push_spaced_label(out, m.label.as_slice(), show_path);
    push_text(out, "\n");
    assert(final(out)@ =~= old(out)@ + basic_row(*m, show_path));
}

/// Renders the Basic format.
pub fn render_basic(ms: &Vec<Mapping>, quiet: bool, show_path: bool) -> (r: Vec<u8>)
    requires
        all_wf(ms@),
        total_kb(ms@) <= u64::MAX,
    ensures
        r@ == basic_table(ms@, quiet, show_path),
{
    let mut out: Vec<u8> = Vec::new();
    let mut total: u64 = 0;
    let mut i: usize = 0;
    while i < ms.len()
        invariant
            i <= ms@.len(),
            all_wf(ms@),
            total_kb(ms@) <= u64::MAX,
            total as nat == total_kb(ms@.subrange(0, i as int)),
            out@ == basic_rows(ms@.subrange(0, i as int), show_path),
        decreases ms@.len() - i,
    {
        let m = &ms[i];
        assert(ms@.subrange(0, i + 1).drop_last() =~= ms@.subrange(0, i as int));
        assert(ms@.subrange(0, i + 1).last() == ms@[i as int]);
        proof {
            lemma_total_prefix(ms@, i + 1);
        }
        let size = m.size_in_kb();
        push_basic_row(&mut out, m, show_path);
        assert(out@ =~= basic_rows(ms@.subrange(0, i + 1), show_path));
        total = total + size;
        i += 1;
    }
    assert(ms@.subrange(0, i as int) =~= ms@);
    if !quiet {
        push_text(&mut out, " total ");
        push_dec_padded(&mut out, total, 16, 32u8);
        push_text(&mut out, "K\n");
    }
    assert(out@ =~= basic_table(ms@, quiet, show_path));
    out
}

/// Sums over a prefix never exceed the sums over the whole.
pub proof fn lemma_total_prefix(ms: Seq<Mapping>, k: int)
    requires
        0 <= k <= ms.len(),
    ensures
        total_kb(ms.subrange(0, k)) <= total_kb(ms),
        writable_private_kb(ms.subrange(0, k)) <= writable_private_kb(ms),
        shared_kb(ms.subrange(0, k)) <= shared_kb(ms),
    decreases ms.len(),
{
    if k < ms.len() {
        lemma_total_prefix(ms.drop_last(), k);
        assert(ms.drop_last().subrange(0, k) =~= ms.subrange(0, k));
    } else {
        assert(ms.subrange(0, k) =~= ms);
    }
}

/// Appends one row of the Device format.
fn push_device_row(out: &mut Vec<u8>, m: &Mapping, show_path: bool)
    requires
        m.wf(),
    ensures
        final(out)@ == old(out)@ + device_row(*m, show_path),
{
    let size = m.size_in_kb();
    let mut a: Vec<u8> = Vec::new();
    push_hex_padded(&mut a, m.start, 16, 48u8);
    push_text(&mut a, " ");
    push_dec_padded(&mut a, size, 7, 32u8);
    push_text(&mut a, " ");
    push_mode(&mut a, &m.perms);
    push_text(&mut a, " ");
    assert(a@ =~= device_lead(*m));
    let mut b: Vec<u8> = Vec::new();
    push_padded(&mut b, m.offset.as_slice(), 16, 48u8);
    push_text(&mut b, " ");
    push_padded(&mut b, m.major.as_slice(), 3, 48u8);
    push_text(&mut b, ":");
    push_padded(&mut b, m.minor.as_slice(), 5, 48u8);
    push_text(&mut b, " ");
    assert(b@ =~= device_backing(*m));
    push_bytes(out, a.as_slice());
    push_bytes(out, b.as_slice());
    push_spaced_label(out, m.label.as_slice(), show_path);
    push_text(out, "\n");
    assert(final(out)@ =~= old(out)@ + device_row(*m, show_path));
}

/// Renders the Device format.
pub fn render_device(ms: &Vec<Mapping>, quiet: bool, show_path: bool) -> (r: Vec<u8>)
    requires
        all_wf(ms@),
        total_kb(ms@) <= u64::MAX,
    ensures
        r@ == device_table(ms@, quiet, show_path),
{
    let mut out: Vec<u8> = Vec::new();
    if !quiet {
        push_text(&mut out, "Address           Kbytes Mode  Offset           Device    Mapping\n");
    }
    let ghost head = out@;
    let mut mapped: u64 = 0;
    let mut wp: u64 = 0;
    let mut sh: u64 = 0;
    let mut i: usize = 0;
    while i < ms.len()
        invariant
            i <= ms@.len(),
            all_wf(ms@),
            total_kb(ms@) <= u64::MAX,
            mapped as nat == total_kb(ms@.subrange(0, i as int)),
            wp as nat == writable_private_kb(ms@.subrange(0, i as int)),
            sh as nat == shared_kb(ms@.subrange(0, i as int)),
            wp <= mapped,
            sh <= mapped,
            head == (if quiet { seq![] } else { device_header() }),
            out@ == head + device_rows(ms@.subrange(0, i as int), show_path),
        decreases ms@.len() - i,
    {
        let m = &ms[i];
        assert(ms@.subrange(0, i + 1).drop_last() =~= ms@.subrange(0, i as int));
        assert(ms@.subrange(0, i + 1).last() == ms@[i as int]);
        proof {
            lemma_total_prefix(ms@, i + 1);
        }
        let size = m.size_in_kb();
        push_device_row(&mut out, m, show_path);
        assert(out@ =~= head + device_rows(ms@.subrange(0, i + 1), show_path));
        if m.perms.write && !m.perms.shared {
            wp = wp + size;
        }
        if m.perms.shared {
            sh = sh + size;
        }
        mapped = mapped + size;
        i += 1;
    }
    assert(ms@.subrange(0, i as int) =~= ms@);
    if !quiet {
        push_text(&mut out, "mapped: ");
        push_dec(&mut out, mapped);
        push_text(&mut out, "K    writeable/private: ");
        push_dec(&mut out, wp);
        push_text(&mut out, "K    shared: ");
        push_dec(&mut out, sh);
        push_text(&mut out, "K\n");
    }
    assert(out@ =~= device_table(ms@, quiet, show_path));
    out
}

} // verus!
