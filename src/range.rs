use vstd::prelude::*;

verus! {

/// An address interval; a missing bound leaves that side open.
#[derive(Clone, Copy, Debug, PartialEq, Eq)]
pub struct AddressRange {
    pub lower: Option<u64>,
    pub upper: Option<u64>,
}

/// The range expression does not follow `bound? "," bound? | bound`.
#[derive(Clone, Copy, Debug, PartialEq, Eq)]
pub struct RangeSyntaxError;

pub open spec fn is_hex_digit(b: u8) -> bool {
    (48 <= b <= 57) || (97 <= b <= 102)
}

pub open spec fn hex_digit_value(b: u8) -> nat {
    if b <= 57 { (b - 48) as nat } else { (b - 87) as nat }
}

/// Value of a string of hexadecimal digits.
pub open spec fn hex_value(s: Seq<u8>) -> nat
    decreases s.len(),
{
    if s.len() == 0 { 0 } else { hex_value(s.drop_last()) * 16 + hex_digit_value(s.last()) }
}

/// A bound: one or more lowercase hexadecimal digits whose value fits in 64 bits.
pub open spec fn valid_bound(s: Seq<u8>) -> bool {
    &&& s.len() >= 1
    &&& forall|k: int| 0 <= k < s.len() ==> is_hex_digit(#[trigger] s[k])
    &&& hex_value(s) <= u64::MAX
}

/// An optional bound: empty text means no bound.
pub open spec fn optional_bound(s: Seq<u8>) -> Option<Option<u64>> {
    if s.len() == 0 {
        Some(None)
    } else if valid_bound(s) {
        Some(Some(hex_value(s) as u64))
    } else {
        None
    }
}

/// What a range expression denotes, or `None` when it is malformed.
pub open spec fn range_of(s: Seq<u8>) -> Option<AddressRange> {
    if !s.contains(44u8) {
        if valid_bound(s) {
            Some(AddressRange { lower: Some(hex_value(s) as u64), upper: None })
        } else {
            None
        }
    } else {
        let i = choose|i: int| 0 <= i < s.len() && s[i] == 44u8;
        if exists|j: int| 0 <= j < s.len() && j != i && s[j] == 44u8 {
            None
        } else {
            match (optional_bound(s.subrange(0, i)), optional_bound(s.subrange(i + 1, s.len() as int))) {
                (Some(lo), Some(hi)) => Some(AddressRange { lower: lo, upper: hi }),
                _ => None,
            }
        }
    }
}

/// Whether the interval `[start, end)` meets the range, bounds included.
pub open spec fn intersects(r: AddressRange, start: u64, end: u64) -> bool {
    &&& (r.lower matches Some(lo) ==> lo < end)
    &&& (r.upper matches Some(hi) ==> start <= hi)
}

proof fn lemma_hex_value_prefix(s: Seq<u8>, k: int)
    requires
        0 <= k <= s.len(),
    ensures
        hex_value(s.subrange(0, k)) <= hex_value(s),
    decreases s.len(),
{
    if k < s.len() {
        lemma_hex_value_prefix(s.drop_last(), k);
        assert(s.drop_last().subrange(0, k) =~= s.subrange(0, k));
    } else {
        assert(s.subrange(0, k) =~= s);
    }
}

/// Reads `s[from..to]` as a bound.
pub(crate) fn parse_bound(s: &[u8], from: usize, to: usize) -> (r: Option<u64>)
    requires
        from < to <= s@.len(),
    ensures
        r == (if valid_bound(s@.subrange(from as int, to as int)) {
            Some(hex_value(s@.subrange(from as int, to as int)) as u64)
        } else {
            None
        }),
{
    let ghost t = s@.subrange(from as int, to as int);
    let mut acc: u64 = 0;
    let mut k: usize = from;
    while k < to
        invariant
            from <= k <= to <= s@.len(),
            t == s@.subrange(from as int, to as int),
            acc as nat == hex_value(t.subrange(0, k - from)),
            forall|j: int| 0 <= j < k - from ==> is_hex_digit(#[trigger] t[j]),
        decreases to - k,
    {
        let b = s[k];
        assert(t[k - from] == b);
        if !((48 <= b && b <= 57) || (97 <= b && b <= 102)) {
            return None;
        }
        let d: u64 = if b <= 57 { (b - 48) as u64 } else { (b - 87) as u64 };
        assert(t.subrange(0, k + 1 - from).drop_last() =~= t.subrange(0, k - from));
        if acc > (u64::MAX - d) / 16 {
            proof {
                lemma_hex_value_prefix(t, k + 1 - from);
            }
            return None;
        }
        acc = acc * 16 + d;
        k += 1;
    }
    assert(t.subrange(0, k - from) =~= t);
    Some(acc)
}

fn parse_optional(s: &[u8], from: usize, to: usize) -> (r: Option<Option<u64>>)
    requires
        from <= to <= s@.len(),
    ensures
        r == optional_bound(s@.subrange(from as int, to as int)),
{
    if from == to {
        Some(None)
    } else {
        match parse_bound(s, from, to) {
            Some(v) => Some(Some(v)),
            None => None,
        }
    }
}

/// Index of the first `c` at or after `i`, if any.
pub open spec fn first_from(s: Seq<u8>, i: int, c: u8) -> Option<int>
    decreases s.len() - i,
{
    if i < 0 || i >= s.len() {
        None
    } else if s[i] == c {
        Some(i)
    } else {
        first_from(s, i + 1, c)
    }
}

/// First position at or after `i`, before `end`, that does not hold `c`; `end` if none.
pub open spec fn skip_byte(s: Seq<u8>, i: int, end: int, c: u8) -> int
    decreases end - i,
{
    if i < 0 || i >= end || i >= s.len() || s[i] != c { i } else { skip_byte(s, i + 1, end, c) }
}

/// First position at or after `i`, before `end`, that holds `c`; `end` if none.
pub open spec fn skip_until(s: Seq<u8>, i: int, end: int, c: u8) -> int
    decreases end - i,
{
    if i < 0 || i >= end || i >= s.len() || s[i] == c { i } else { skip_until(s, i + 1, end, c) }
}

/// Index of the first `c` in `s[from..]`, if any.
pub(crate) fn find_byte(s: &[u8], from: usize, c: u8) -> (r: Option<usize>)
    requires
        from <= s@.len(),
    ensures
        match r {
            Some(i) => from <= i < s@.len() && s@[i as int] == c
                && forall|j: int| from <= j < i ==> s@[j] != c,
            None => forall|j: int| from <= j < s@.len() ==> s@[j] != c,
        },
        match r {
            Some(i) => first_from(s@, from as int, c) == Some(i as int),
            None => first_from(s@, from as int, c) is None,
        },
{
    let mut i: usize = from;
    while i < s.len()
        invariant
            from <= i <= s@.len(),
            forall|j: int| from <= j < i ==> s@[j] != c,
            first_from(s@, from as int, c) == first_from(s@, i as int, c),
        decreases s@.len() - i,
    {
        if s[i] == c {
            return Some(i);
        }
        i += 1;
    }
    None
}

/// First position from `i` before `end` whose byte is not `c`.
pub(crate) fn skip_bytes(s: &[u8], i: usize, end: usize, c: u8) -> (r: usize)
    requires
        i <= end <= s@.len(),
    ensures
        r as int == skip_byte(s@, i as int, end as int, c),
        i <= r <= end,
        forall|j: int| i <= j < r ==> s@[j] == c,
{
    let mut k: usize = i;
    while k < end && s[k] == c
        invariant
            i <= k <= end <= s@.len(),
            skip_byte(s@, i as int, end as int, c) == skip_byte(s@, k as int, end as int, c),
            forall|j: int| i <= j < k ==> s@[j] == c,
        decreases end - k,
    {
        k += 1;
    }
    k
}

/// First position from `i` before `end` whose byte is `c`.
pub(crate) fn skip_to(s: &[u8], i: usize, end: usize, c: u8) -> (r: usize)
    requires
        i <= end <= s@.len(),
    ensures
        r as int == skip_until(s@, i as int, end as int, c),
        i <= r <= end,
        forall|j: int| i <= j < r ==> s@[j] != c,
{
    let mut k: usize = i;
    while k < end && s[k] != c
        invariant
            i <= k <= end <= s@.len(),
            skip_until(s@, i as int, end as int, c) == skip_until(s@, k as int, end as int, c),
            forall|j: int| i <= j < k ==> s@[j] != c,
        decreases end - k,
    {
        k += 1;
    }
    k
}

/// Parses a range expression: `lower`, `lower,upper`, `lower,`, `,upper` or `,`,
/// each bound being lowercase hexadecimal that fits in 64 bits.
pub fn parse_range(s: &[u8]) -> (r: Result<AddressRange, RangeSyntaxError>)
    ensures
        match range_of(s@) {
            Some(a) => r == Ok::<AddressRange, RangeSyntaxError>(a),
            None => r is Err,
        },
{
    match find_byte(s, 0, 44u8) {
        None => {
            assert(!s@.contains(44u8));
            if s.len() == 0 {
                return Err(RangeSyntaxError);
            }
            assert(s@.subrange(0, s@.len() as int) =~= s@);
            match parse_bound(s, 0, s.len()) {
                Some(v) => Ok(AddressRange { lower: Some(v), upper: None }),
                None => Err(RangeSyntaxError),
            }
        },
        Some(i) => {
            let n = s.len();
            assert(s@[i as int] == 44u8);
            let ghost c = choose|c: int| 0 <= c < s@.len() && s@[c] == 44u8;
            match find_byte(s, i + 1, 44u8) {
                Some(j) => {
                    assert(c != i as int ==> s@[i as int] == 44u8);
                    assert(exists|k: int| 0 <= k < s@.len() && k != c && s@[k] == 44u8) by {
                        if c == i as int {
                            assert(s@[j as int] == 44u8);
                        } else {
                            assert(s@[i as int] == 44u8);
                        }
                    }
                    Err(RangeSyntaxError)
                },
                None => {
                    assert(c == i as int);
                    let lo = parse_optional(s, 0, i);
                    let hi = parse_optional(s, i + 1, n);
                    match (lo, hi) {
                        (Some(lo), Some(hi)) => Ok(AddressRange { lower: lo, upper: hi }),
                        _ => Err(RangeSyntaxError),
                    }
                },
            }
        },
    }
}

/// Whether the interval `[start, end)` meets the range.
pub fn intersects_range(r: &AddressRange, start: u64, end: u64) -> (b: bool)
    ensures
        b == intersects(*r, start, end),
{
    let lo_ok = match r.lower {
        Some(lo) => lo < end,
        None => true,
    };
    let hi_ok = match r.upper {
        Some(hi) => start <= hi,
        None => true,
    };
    lo_ok && hi_ok
}

} // verus!
