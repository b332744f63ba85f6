use vstd::prelude::*;
use crate::range::{find_byte, first_from};
use crate::text::{push_text, txt};

verus! {

/// Failures of the defaults file store.
#[derive(Clone, Copy, Debug, PartialEq, Eq)]
pub enum RcError {
    AlreadyExists,
    NotFound,
}

/// Creating the defaults file is refused when it is already there.
pub fn check_create(exists: bool) -> (r: Result<(), RcError>)
    ensures
        r == (if exists { Err::<(), RcError>(RcError::AlreadyExists) } else { Ok(()) }),
{
    if exists {
        Err(RcError::AlreadyExists)
    } else {
        Ok(())
    }
}

/// Reading the defaults file is refused when it is not there.
pub fn check_read(exists: bool) -> (r: Result<(), RcError>)
    ensures
        r == (if exists { Ok::<(), RcError>(()) } else { Err(RcError::NotFound) }),
{
    if exists {
        Ok(())
    } else {
        Err(RcError::NotFound)
    }
}

/// Flags that a defaults file may hold.
#[derive(Clone, Copy, Debug, PartialEq, Eq)]
pub struct RcDefaults {
    pub extended: bool,
    pub more_extended: bool,
    pub most_extended: bool,
    pub device: bool,
    pub quiet: bool,
    pub show_path: bool,
}

/// One line per set flag, in a fixed order.
pub open spec fn rc_text(d: RcDefaults) -> Seq<u8> {
    (if d.extended { txt("-x\n") } else { seq![] }) + (if d.more_extended { txt("-X\n") } else { seq![] })
        + (if d.most_extended { txt("--XX\n") } else { seq![] }) + (if d.device { txt("-d\n") } else { seq![] })
        + (if d.quiet { txt("-q\n") } else { seq![] }) + (if d.show_path { txt("-p\n") } else { seq![] })
}

/// The content of a defaults file holding `d`.
pub fn rc_content(d: &RcDefaults) -> (r: Vec<u8>)
    ensures
        r@ == rc_text(*d),
{
    let mut out: Vec<u8> = Vec::new();
    if d.extended {
        push_text(&mut out, "-x\n");
    }
    if d.more_extended {
        push_text(&mut out, "-X\n");
    }
    if d.most_extended {
        push_text(&mut out, "--XX\n");
    }
    if d.device {
        push_text(&mut out, "-d\n");
    }
    if d.quiet {
        push_text(&mut out, "-q\n");
    }
    if d.show_path {
        push_text(&mut out, "-p\n");
    }
    assert(out@ =~= rc_text(*d));
    out
}

/// Whether some line of `s` from `pos` on is exactly `t`; lines end at a newline
/// or at the end of `s`.
pub open spec fn line_from(s: Seq<u8>, pos: int, t: Seq<u8>) -> bool
    decreases s.len() - pos,
{
    if pos < 0 || pos >= s.len() {
        false
    } else {
        let end = match first_from(s, pos, 10u8) {
            Some(e) => e,
            None => s.len() as int,
        };
        let next = if pos <= end < s.len() { end + 1 } else { s.len() as int };
        s.subrange(pos, end) == t || line_from(s, next, t)
    }
}

/// Whether some line of `s` is exactly `t`.
pub open spec fn has_line(s: Seq<u8>, t: Seq<u8>) -> bool {
    line_from(s, 0, t)
}

/// Whether `s[a..b]` is exactly the bytes of `t`.
fn same(s: &[u8], a: usize, b: usize, t: &str) -> (r: bool)
    requires
        a <= b <= s@.len(),
    ensures
        r == (s@.subrange(a as int, b as int) == txt(t)),
{
    let w = t.as_bytes();
    if w.len() != b - a {
        return false;
    }
    let mut i: usize = 0;
    while i < w.len()
        invariant
            a <= b <= s@.len(),
            w@ == txt(t),
            w@.len() == b - a,
            i <= w@.len(),
            forall|j: int| 0 <= j < i ==> s@[a + j] == w@[j],
        decreases w@.len() - i,
    {
        if s[a + i] != w[i] {
            assert(s@.subrange(a as int, b as int)[i as int] != w@[i as int]);
            return false;
        }
        i += 1;
    }
    assert(s@.subrange(a as int, b as int) =~= w@);
    true
}

/// Reads a defaults file: a flag is set exactly when one of the lines is `-x`, `-X`,
/// `--XX`, `-d`, `-q` or `-p`; other lines are ignored.
pub fn parse_rc(content: &[u8]) -> (r: RcDefaults)
    ensures
        r.extended == has_line(content@, txt("-x")),
        r.more_extended == has_line(content@, txt("-X")),
        r.most_extended == has_line(content@, txt("--XX")),
        r.device == has_line(content@, txt("-d")),
        r.quiet == has_line(content@, txt("-q")),
        r.show_path == has_line(content@, txt("-p")),
{
    let n = content.len();
    let mut d = RcDefaults {
        extended: false,
        more_extended: false,
        most_extended: false,
        device: false,
        quiet: false,
        show_path: false,
    };
    let mut pos: usize = 0;
    while pos < n
        invariant
            pos <= n == content@.len(),
            has_line(content@, txt("-x")) == (d.extended || line_from(content@, pos as int, txt("-x"))),
            has_line(content@, txt("-X")) == (d.more_extended || line_from(content@, pos as int, txt("-X"))),
            has_line(content@, txt("--XX")) == (d.most_extended || line_from(content@, pos as int, txt("--XX"))),
            has_line(content@, txt("-d")) == (d.device || line_from(content@, pos as int, txt("-d"))),
            has_line(content@, txt("-q")) == (d.quiet || line_from(content@, pos as int, txt("-q"))),
            has_line(content@, txt("-p")) == (d.show_path || line_from(content@, pos as int, txt("-p"))),
        decreases n - pos,
    {
        let end = match find_byte(content, pos, 10u8) {
            Some(e) => e,
            None => n,
        };
        if same(content, pos, end, "-x") {
            d.extended = true;
        }
        if same(content, pos, end, "-X") {
            d.more_extended = true;
        }
        if same(content, pos, end, "--XX") {
            d.most_extended = true;
        }
        if same(content, pos, end, "-d") {
            d.device = true;
        }
        if same(content, pos, end, "-q") {
            d.quiet = true;
        }
        if same(content, pos, end, "-p") {
            d.show_path = true;
        }
        pos = if end < n { end + 1 } else { n };
    }
    d
}

} // verus!
