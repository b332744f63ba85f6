use vstd::prelude::*;
use crate::range::{find_byte, first_from, hex_value, parse_bound, skip_byte, skip_bytes, valid_bound};

verus! {

/// Access flags of a mapping.
#[derive(Clone, Copy, Debug, PartialEq, Eq)]
pub struct Perms {
    pub read: bool,
    pub write: bool,
    pub execute: bool,
    pub shared: bool,
}

/// One contiguous region of a process's address space. Text fields hold the
/// kernel's own spelling.
#[derive(Clone, Debug)]
pub struct Mapping {
    pub start: u64,
    pub end: u64,
    pub perms: Perms,
    pub offset: Vec<u8>,
    pub major: Vec<u8>,
    pub minor: Vec<u8>,
    pub inode: Vec<u8>,
    pub label: Vec<u8>,
}

impl Mapping {
    pub open spec fn wf(&self) -> bool {
        self.start < self.end
    }

    /// Size in kibibytes.
    pub open spec fn size_kb(&self) -> nat {
        ((self.end - self.start) / 1024) as nat
    }

    pub fn size_in_kb(&self) -> (r: u64)
        requires
            self.wf(),
        ensures
            r == self.size_kb(),
    {
        (self.end - self.start) / 1024
    }
}

/// What a mapping holds, as plain values.
pub struct MapView {
    pub start: u64,
    pub end: u64,
    pub perms: Perms,
    pub offset: Seq<u8>,
    pub major: Seq<u8>,
    pub minor: Seq<u8>,
    pub inode: Seq<u8>,
    pub label: Seq<u8>,
}

impl View for Mapping {
    type V = MapView;

    open spec fn view(&self) -> MapView {
        MapView {
            start: self.start,
            end: self.end,
            perms: self.perms,
            offset: self.offset@,
            major: self.major@,
            minor: self.minor@,
            inode: self.inode@,
            label: self.label@,
        }
    }
}

/// End of a non-empty field that starts at `from` and stops at the first `c`.
pub open spec fn field_end(s: Seq<u8>, from: int, c: u8) -> Option<int> {
    match first_from(s, from, c) {
        Some(i) => if i > from { Some(i) } else { None },
        None => None,
    }
}

/// The fields after the permissions: offset, device and inode, then the label.
pub open spec fn map_tail_of(s: Seq<u8>, start: u64, end: u64, perms: Perms, sp1: int) -> Option<MapView> {
    let n = s.len() as int;
    match field_end(s, sp1 + 6, 32u8) {
        None => None,
        Some(sp2) => match field_end(s, sp2 + 1, 58u8) {
            None => None,
            Some(colon) => match field_end(s, colon + 1, 32u8) {
                None => None,
                Some(sp3) => {
                    let inode_end = match first_from(s, sp3 + 1, 32u8) {
                        Some(i) => i,
                        None => n,
                    };
                    if inode_end == sp3 + 1 {
                        None
                    } else {
                        Some(MapView {
                            start,
                            end,
                            perms,
                            offset: s.subrange(sp1 + 6, sp2),
                            major: s.subrange(sp2 + 1, colon),
                            minor: s.subrange(colon + 1, sp3),
                            inode: s.subrange(sp3 + 1, inode_end),
                            label: s.subrange(skip_byte(s, inode_end, n, 32u8), n),
                        })
                    }
                },
            },
        },
    }
}

/// A line of the map listing: `start-end perms offset major:minor inode [label]`,
/// addresses in lowercase hexadecimal with `start < end`; fields are separated by one
/// space, the label by any number.
pub open spec fn map_line_of(s: Seq<u8>) -> Option<MapView> {
    let n = s.len() as int;
    match field_end(s, 0, 45u8) {
        None => None,
        Some(dash) => match field_end(s, dash + 1, 32u8) {
            None => None,
            Some(sp1) => if !valid_bound(s.subrange(0, dash)) || !valid_bound(s.subrange(dash + 1, sp1)) {
                None
            } else if hex_value(s.subrange(0, dash)) >= hex_value(s.subrange(dash + 1, sp1))
                || n - sp1 <= 5 || s[sp1 + 5] != 32u8 {
                None
            } else {
                map_tail_of(
                    s,
                    hex_value(s.subrange(0, dash)) as u64,
                    hex_value(s.subrange(dash + 1, sp1)) as u64,
                    Perms {
                        read: s[sp1 + 1] == 114u8,
                        write: s[sp1 + 2] == 119u8,
                        execute: s[sp1 + 3] == 120u8,
                        shared: s[sp1 + 4] == 115u8,
                    },
                    sp1,
                )
            },
        },
    }
}

/// A copy of `s[from..to]`.
pub fn copy_range(s: &[u8], from: usize, to: usize) -> (r: Vec<u8>)
    requires
        from <= to <= s@.len(),
    ensures
        r@ == s@.subrange(from as int, to as int),
{
    let mut r: Vec<u8> = Vec::new();
    let mut i: usize = from;
    while i < to
        invariant
            from <= i <= to <= s@.len(),
            r@ == s@.subrange(from as int, i as int),
        decreases to - i,
    {
        r.push(s[i]);
        i += 1;
        assert(r@ =~= s@.subrange(from as int, i as int));
    }
    r
}

fn field(s: &[u8], from: usize, stop: u8) -> (r: Option<usize>)
    requires
        from <= s@.len(),
    ensures
        match r {
            Some(i) => field_end(s@, from as int, stop) == Some(i as int) && from < i < s@.len()
                && s@[i as int] == stop,
            None => field_end(s@, from as int, stop) is None,
        },
{
    match find_byte(s, from, stop) {
        Some(i) => if i > from { Some(i) } else { None },
        None => None,
    }
}

/// Parses one line of a process's map listing:
/// `start-end perms offset major:minor inode [label]`.
pub fn parse_map_line(s: &[u8]) -> (r: Option<Mapping>)
    ensures
        match r {
            Some(m) => map_line_of(s@) == Some(m@) && m.wf(),
            None => map_line_of(s@) is None,
        },
{
    let n = s.len();
    let dash = field(s, 0, 45u8)?;
    let sp1 = field(s, dash + 1, 32u8)?;
    let start = parse_bound(s, 0, dash)?;
    let end = parse_bound(s, dash + 1, sp1)?;
    if start >= end || n - sp1 <= 5 || s[sp1 + 5] != 32u8 {
        return None;
    }
    let perms = Perms {
        read: s[sp1 + 1] == 114u8,
        write: s[sp1 + 2] == 119u8,
        execute: s[sp1 + 3] == 120u8,
        shared: s[sp1 + 4] == 115u8,
    };
    assert(map_line_of(s@) == map_tail_of(s@, start, end, perms, sp1 as int));
    let sp2 = field(s, sp1 + 6, 32u8)?;
    let colon = field(s, sp2 + 1, 58u8)?;
    let sp3 = field(s, colon + 1, 32u8)?;
    let inode_end = match find_byte(s, sp3 + 1, 32u8) {
        Some(i) => i,
        None => n,
    };
    if inode_end == sp3 + 1 {
        return None;
    }
    let offset = copy_range(s, sp1 + 6, sp2);
    let major = copy_range(s, sp2 + 1, colon);
    let minor = copy_range(s, colon + 1, sp3);
    let inode = copy_range(s, sp3 + 1, inode_end);
    let k = skip_bytes(s, inode_end, n, 32u8);
    let label = copy_range(s, k, n);
    let m = Mapping { start, end, perms, offset, major, minor, inode, label };
    assert(map_line_of(s@) == Some(m@));
    Some(m)
}

} // verus!
