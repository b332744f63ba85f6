use vstd::prelude::*;
use crate::maps::Mapping;
use crate::range::{hex_value, is_hex_digit, range_of, valid_bound, AddressRange};
use crate::render::{
    basic_lead, basic_row, basic_rows, basic_table, basic_total, device_backing, device_header,
    device_lead, device_row, device_table, device_total, is_pseudo, shared_kb,
    spaced_label, total_kb, writable_private_kb,
};
use crate::extended::{
    ext_footer, ext_header, ext_lead, ext_row, ext_table, ext_total_dirty, ext_total_kb,
    ext_total_rss, ExtMapping,
};
use crate::text::{dec, lemma_dec_len, pad_left, txt};

verus! {

pub open spec fn pow16(n: nat) -> nat
    decreases n,
{
    if n == 0 { 1 } else { 16 * pow16((n - 1) as nat) }
}

proof fn lemma_hex_value_bound(s: Seq<u8>)
    requires
        forall|k: int| 0 <= k < s.len() ==> is_hex_digit(#[trigger] s[k]),
    ensures
        hex_value(s) < pow16(s.len()),
    decreases s.len(),
{
    if s.len() > 0 {
        let d = s.drop_last();
        assert forall|k: int| 0 <= k < d.len() implies is_hex_digit(#[trigger] d[k]) by {
            assert(d[k] == s[k]);
        }
        lemma_hex_value_bound(d);
        assert(is_hex_digit(s[s.len() - 1]));
        let hv = hex_value(d);
        let p = pow16(d.len());
        let dig = crate::range::hex_digit_value(s.last());
        assert(dig < 16);
        assert(hv * 16 + dig < 16 * p) by (nonlinear_arith)
            requires
                hv < p,
                dig < 16,
        ;
    }
}

proof fn lemma_pow16_mono(a: nat, b: nat)
    requires
        a <= b,
    ensures
        pow16(a) <= pow16(b),
    decreases b,
{
    if a < b {
        lemma_pow16_mono(a, (b - 1) as nat);
    }
}

/// A bare bound of one to sixteen lowercase hexadecimal digits is accepted as a
/// lower bound with the upper side left open.
pub proof fn lemma_bare_bound_accepted(h: Seq<u8>)
    requires
        1 <= h.len() <= 16,
        forall|k: int| 0 <= k < h.len() ==> is_hex_digit(#[trigger] h[k]),
    ensures
        range_of(h) == Some(AddressRange { lower: Some(hex_value(h) as u64), upper: None }),
{
    lemma_hex_value_bound(h);
    lemma_pow16_mono(h.len(), 16);
    reveal_with_fuel(pow16, 17);
    assert(pow16(16) == 0x1_0000_0000_0000_0000nat);
    assert(!h.contains(44u8)) by {
        if h.contains(44u8) {
            let k = choose|k: int| 0 <= k < h.len() && h[k] == 44u8;
            assert(is_hex_digit(h[k]));
        }
    }
}

/// A range expression with a space in it is rejected.
pub proof fn lemma_space_rejected(s: Seq<u8>, w: int)
    requires
        0 <= w < s.len(),
        s[w] == 32u8,
    ensures
        range_of(s) is None,
{
    if !s.contains(44u8) {
        assert(!is_hex_digit(s[w]));
    } else {
        let i = choose|i: int| 0 <= i < s.len() && s[i] == 44u8;
        if !(exists|j: int| 0 <= j < s.len() && j != i && s[j] == 44u8) {
            if w < i {
                let l = s.subrange(0, i);
                assert(l[w] == 32u8);
                assert(!valid_bound(l));
            } else {
                let r = s.subrange(i + 1, s.len() as int);
                assert(r[w - i - 1] == 32u8);
                assert(!valid_bound(r));
            }
        }
    }
}

/// A range expression with two or more commas is rejected.
pub proof fn lemma_two_commas_rejected(s: Seq<u8>, a: int, b: int)
    requires
        0 <= a < b < s.len(),
        s[a] == 44u8,
        s[b] == 44u8,
    ensures
        range_of(s) is None,
{
    assert(s.contains(44u8));
    let i = choose|i: int| 0 <= i < s.len() && s[i] == 44u8;
    if i == a {
        assert(s[b] == 44u8 && b != i);
    } else {
        assert(s[a] == 44u8 && a != i);
    }
}

/// A bare bound whose value does not fit in 64 bits is rejected.
pub proof fn lemma_oversized_rejected(s: Seq<u8>)
    requires
        !s.contains(44u8),
        hex_value(s) > u64::MAX,
    ensures
        range_of(s) is None,
{
}

/// The Basic total line carries the sum of the size column of the rows above it.
pub proof fn lemma_basic_total_is_column_sum(ms: Seq<Mapping>, show_path: bool)
    ensures
        basic_table(ms, false, show_path) == basic_rows(ms, show_path) + basic_total(total_kb(ms)),
        ms.len() > 0 ==> total_kb(ms) == total_kb(ms.drop_last()) + ms.last().size_kb(),
        ms.len() == 0 ==> total_kb(ms) == 0,
{
}

/// Quiet output is the plain output without its frame: in the Basic format the
/// total line goes; in the Device format the header and the totals go.
pub proof fn lemma_quiet_drops_only_frame(ms: Seq<Mapping>, show_path: bool)
    ensures
        basic_table(ms, false, show_path) == basic_table(ms, true, show_path) + basic_total(total_kb(ms)),
        basic_total(total_kb(ms)).len() > 0,
        device_table(ms, false, show_path) == device_header() + device_table(ms, true, show_path)
            + device_total(total_kb(ms), writable_private_kb(ms), shared_kb(ms)),
        device_total(total_kb(ms), writable_private_kb(ms), shared_kb(ms)).len() > 0,
{
    let t = total_kb(ms);
    assert(basic_table(ms, true, show_path) =~= basic_rows(ms, show_path));
    assert(pad_left(dec(t), 16, 32u8).len() >= 16);
    lemma_dec_len(t);
}

/// Showing paths changes a row only in its label, and leaves bracketed or empty
/// labels as they were.
pub proof fn lemma_show_path_changes_only_label(m: Mapping)
    ensures
        basic_row(m, true) == basic_lead(m) + spaced_label(m.label@, true) + txt("\n"),
        basic_row(m, false) == basic_lead(m) + spaced_label(m.label@, false) + txt("\n"),
        device_row(m, true) == device_lead(m) + device_backing(m) + spaced_label(m.label@, true) + txt("\n"),
        device_row(m, false) == device_lead(m) + device_backing(m) + spaced_label(m.label@, false) + txt("\n"),
        is_pseudo(m.label@) ==> basic_row(m, true) == basic_row(m, false),
        is_pseudo(m.label@) ==> device_row(m, true) == device_row(m, false),
{
}

/// In the Extended format quiet output drops the header, the separator and the
/// totals, and showing paths changes a row only in its label.
pub proof fn lemma_extended_frame_and_labels(ms: Seq<ExtMapping>, e: ExtMapping, show_path: bool)
    ensures
        ext_table(ms, false, show_path) == ext_header() + ext_table(ms, true, show_path) + ext_footer(
            ext_total_kb(ms),
            ext_total_rss(ms),
            ext_total_dirty(ms),
        ),
        ext_footer(ext_total_kb(ms), ext_total_rss(ms), ext_total_dirty(ms)).len() > 0,
        ext_row(e, true) == ext_lead(e) + spaced_label(e.map.label@, true) + txt("\n"),
        ext_row(e, false) == ext_lead(e) + spaced_label(e.map.label@, false) + txt("\n"),
        is_pseudo(e.map.label@) ==> ext_row(e, true) == ext_row(e, false),
{
    assert(pad_left(dec(ext_total_kb(ms)), 15, 32u8).len() >= 15);
}

} // verus!
