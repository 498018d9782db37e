//! The audit log's rules: when it is on, where it goes, and how the active
//! file is rotated. Writing the file is left to the caller.
use crate::auth::{ascii_lowered, opt_s};
use crate::ip::{
    all_digits, digit_val, digit_val_exec, digits_value, lemma_digits_value_prefix_le,
    lemma_digits_value_push,
};
use crate::text::{chars_of, eq_str, string_of, trim, trim_exec};
use vstd::prelude::*;

verus! {

pub const DEFAULT_MAX_BYTES: u64 = 10485760;

pub const DEFAULT_MAX_FILES: u32 = 3;

pub open spec fn from_str_radix_u64(s: Seq<char>, radix: nat) -> Option<u64> {
    let d = if s.len() > 0 && s[0] == '+' {
        s.drop_first()
    } else {
        s
    };
    if d.len() > 0 && all_digits(d, radix) && digits_value(d, radix) <= u64::MAX {
        Some(digits_value(d, radix) as u64)
    } else {
        None
    }
}


/// `u64::from_str_radix`: an optional `+`, then digits, within `u64`.
pub fn from_str_radix_u64_exec(s: &[char], radix: u32) -> (r: Option<u64>)
    requires
        2 <= radix <= 36,
    ensures
        r == from_str_radix_u64(s@, radix as nat),
{
    let start: usize = if s.len() > 0 && s[0] == '+' {
        1
    } else {
        0
    };
    let ghost d = if s@.len() > 0 && s@[0] == '+' {
        s@.drop_first()
    } else {
        s@
    };
    assert(d =~= s@.skip(start as int));
    if start >= s.len() {
        return None;
    }
    let mut acc: u128 = 0;
    let mut i: usize = start;
    while i < s.len()
        invariant
            start <= i <= s@.len(),
            2 <= radix <= 36,
            d =~= s@.skip(start as int),
            d == (if s@.len() > 0 && s@[0] == '+' {
                s@.drop_first()
            } else {
                s@
            }),
            acc == digits_value(d.take(i - start), radix as nat),
            acc <= u64::MAX,
            all_digits(d.take(i - start), radix as nat),
        decreases s.len() - i,
    {
        let dv = digit_val_exec(s[i], radix);
        match dv {
            None => {
                proof {
                    assert(d[i - start] == s@[i as int]);
                    assert(digit_val(d[i - start], radix as nat) is None);
                    assert(!all_digits(d, radix as nat));
                }
                return None;
            },
            Some(v) => {
                proof {
                    assert(d.take(i - start + 1) =~= d.take(i - start).push(s@[i as int]));
                    lemma_digits_value_push(d.take(i - start), s@[i as int], radix as nat);
                    assert(acc * (radix as u128) <= 0xFFFF_FFFF_FFFF_FFFFu128 * 36) by (nonlinear_arith)
                        requires
                            acc <= u64::MAX,
                            radix <= 36,
                    ;
                    assert forall|k: int| 0 <= k < i - start + 1 implies #[trigger] digit_val(
                        d.take(i - start + 1)[k],
                        radix as nat,
                    ) is Some by {
                        if k < i - start {
                            assert(d.take(i - start + 1)[k] == d.take(i - start)[k]);
                        }
                    }
                }
                acc = acc * (radix as u128) + (v as u128);
                assert(acc == digits_value(d.take(i - start + 1), radix as nat));
                if acc > 0xFFFF_FFFF_FFFF_FFFFu128 {
                    proof {
                        if all_digits(d, radix as nat) {
                            lemma_digits_value_prefix_le(d, radix as nat, i - start + 1);
                        }
                    }
                    return None;
                }
            },
        }
        i = i + 1;
    }
    assert(d.take(i - start) =~= d);
    Some(acc as u64)
}


/// A rotation limit read from the environment: the trimmed value as an
/// unsigned number, else the default.
pub fn limit_from_env(raw: Option<&str>, default: u64) -> (r: u64)
    ensures
        r == (match raw {
            Some(v) => match from_str_radix_u64(trim(v@), 10) {
                Some(n) => n,
                None => default,
            },
            None => default,
        }),
{
    match raw {
        Some(v) => {
            let t = trim_exec(chars_of(v).as_slice());
            match from_str_radix_u64_exec(t.as_slice(), 10) {
                Some(n) => n,
                None => default,
            }
        },
        None => default,
    }
}

/// The rotation limits: the largest size of the active file, in bytes, and
/// the number of rotated generations kept (a value that does not parse gives
/// the default; one above `u32::MAX` does not parse).
pub fn rotation_limits(max_bytes: Option<&str>, max_files: Option<&str>) -> (r: (u64, u32))
    ensures
        r.0 == (match max_bytes {
            Some(v) => match from_str_radix_u64(trim(v@), 10) {
                Some(n) => n,
                None => DEFAULT_MAX_BYTES,
            },
            None => DEFAULT_MAX_BYTES,
        }),
        r.1 == (match max_files {
            Some(v) => match from_str_radix_u64(trim(v@), 10) {
                Some(n) => if n <= u32::MAX {
                    n as u32
                } else {
                    DEFAULT_MAX_FILES
                },
                None => DEFAULT_MAX_FILES,
            },
            None => DEFAULT_MAX_FILES,
        }),
{
    let b = limit_from_env(max_bytes, DEFAULT_MAX_BYTES);
    let f: u32 = match max_files {
        Some(v) => {
            let t = trim_exec(chars_of(v).as_slice());
            match from_str_radix_u64_exec(t.as_slice(), 10) {
                Some(n) => if n <= 0xFFFF_FFFFu64 {
                    n as u32
                } else {
                    DEFAULT_MAX_FILES
                },
                None => DEFAULT_MAX_FILES,
            }
        },
        None => DEFAULT_MAX_FILES,
    };
    (b, f)
}

/// Whether `NETRAIL_AUDIT_LOG` switches the log on: set, not empty, not `0`,
/// not `false` (any case).
pub open spec fn audit_flag_on(v: Option<Seq<char>>) -> bool {
    match v {
        Some(s) => s != "0"@ && ascii_lowered(s) != "false"@ && s.len() > 0,
        None => false,
    }
}

/// Where the audit log goes: `NETRAIL_AUDIT_LOG_PATH` when it is not blank,
/// else the default file when `NETRAIL_AUDIT_LOG` is on, else nowhere.
pub enum AuditTarget {
    Path(String),
    DefaultFile,
    Off,
}

pub fn audit_target(path: Option<&str>, flag: Option<&str>) -> (r: AuditTarget)
    ensures
        match path {
            Some(p) if trim(p@).len() > 0 => r matches AuditTarget::Path(q) && q@ == trim(p@),
            _ => if audit_flag_on(opt_s(flag)) {
                r is DefaultFile
            } else {
                r is Off
            },
        },
{
    if let Some(p) = path {
        let t = trim_exec(chars_of(p).as_slice());
        if t.len() > 0 {
            return AuditTarget::Path(string_of(t.as_slice()));
        }
    }
    match flag {
        Some(v) => {
            let c = chars_of(v);
            let mut l: Vec<char> = Vec::new();
            let mut i: usize = 0;
            while i < c.len()
                invariant
                    i <= c@.len(),
                    c@ == v@,
                    l@ == ascii_lowered(c@).take(i as int),
                decreases c.len() - i,
            {
                let x = crate::text::ascii_lower_char_exec(c[i]);
                l.push(x);
                assert(ascii_lowered(c@).take(i + 1) =~= ascii_lowered(c@).take(i as int).push(x));
                i = i + 1;
            }
            assert(ascii_lowered(c@).take(c@.len() as int) =~= ascii_lowered(c@));
            if !eq_str(c.as_slice(), "0") && !eq_str(l.as_slice(), "false") && c.len() > 0 {
                AuditTarget::DefaultFile
            } else {
                AuditTarget::Off
            }
        },
        None => AuditTarget::Off,
    }
}

/// The renames of a rotation, in order, as generation numbers (0 is the
/// active file, `n` the file with suffix `.n`): each older generation moves
/// up one (replacing what is there), from the oldest kept down, then the
/// active file becomes generation 1. Nothing when rotation is off
/// (`max_files` or `max_bytes` is 0) or the active file is below `max_bytes`.
pub open spec fn rotation_moves(size: u64, max_bytes: u64, max_files: u32) -> Seq<(u32, u32)> {
    if max_files == 0 || max_bytes == 0 || size < max_bytes {
        Seq::empty()
    } else {
        Seq::new((max_files - 1) as nat, |k: int| ((max_files - 1 - k) as u32, (max_files - k) as u32)).push(
            (0u32, 1u32),
        )
    }
}

pub fn rotation_plan(size: u64, max_bytes: u64, max_files: u32) -> (r: Vec<(u32, u32)>)
    ensures
        r@ == rotation_moves(size, max_bytes, max_files),
{
    let mut out: Vec<(u32, u32)> = Vec::new();
    if max_files == 0 || max_bytes == 0 || size < max_bytes {
        assert(out@ =~= rotation_moves(size, max_bytes, max_files));
        return out;
    }
    let mut i: u32 = max_files - 1;
    while i >= 1
        invariant
            i <= max_files - 1,
            max_files >= 1,
            out@.len() == max_files - 1 - i,
            forall|k: int|
                0 <= k < out@.len() ==> #[trigger] out@[k] == ((max_files - 1 - k) as u32, (
                max_files - k) as u32),
        decreases i,
    {
        out.push((i, i + 1));
        i = i - 1;
    }
    out.push((0, 1));
    assert(out@ =~= rotation_moves(size, max_bytes, max_files));
    out
}

/// A rotation never moves a file onto the active one, and keeps at most
/// `max_files` generations.
pub proof fn lemma_rotation_bounded(size: u64, max_bytes: u64, max_files: u32)
    ensures
        forall|k: int|
            0 <= k < rotation_moves(size, max_bytes, max_files).len() ==> 1 <= (
            #[trigger] rotation_moves(size, max_bytes, max_files)[k]).1 <= max_files,
{
}

} // verus!
