use vstd::prelude::*;
use crate::error::Error;

verus! {

/// The nine supported storage units: bytes, the four IEC (base-2) units and
/// the four SI (base-10) units.
///
/// Unit tokens in text are matched without regard to letter case: "kib" in
/// any casing denotes the IEC kibibyte, "kb" in any casing denotes the SI
/// kilobyte, and a lone "b" or "B" denotes bytes.
#[allow(non_camel_case_types)]
#[derive(Clone, Copy, Debug, PartialEq, Eq, Structural)]
pub enum BinaryPrefix {
    B,
    KiB,
    MiB,
    GiB,
    TiB,
    kB,
    MB,
    GB,
    TB,
}

/// Number of bytes in one unit `u`: 1 for B, powers of 1024 for the IEC
/// units, powers of 1000 for the SI units.
pub open spec fn scale_spec(u: BinaryPrefix) -> nat {
    match u {
        BinaryPrefix::B => 1,
        BinaryPrefix::KiB => 1024,
        BinaryPrefix::MiB => 1048576,
        BinaryPrefix::GiB => 1073741824,
        BinaryPrefix::TiB => 1099511627776,
        BinaryPrefix::kB => 1000,
        BinaryPrefix::MB => 1000000,
        BinaryPrefix::GB => 1000000000,
        BinaryPrefix::TB => 1000000000000,
    }
}

/// Exact byte count of `amount` units `u`.
pub open spec fn bytes_of(amount: nat, u: BinaryPrefix) -> nat {
    amount * scale_spec(u)
}

/// ASCII lowercase for the letters that unit tokens use; every other
/// character is left unchanged.
pub open spec fn lower_char(c: char) -> char {
    match c {
        'B' => 'b',
        'I' => 'i',
        'K' => 'k',
        'M' => 'm',
        'G' => 'g',
        'T' => 't',
        _ => c,
    }
}

/// The unit token that stands at the start of `t`, with its length in
/// characters, matched without regard to letter case; `None` when no unit
/// token starts there. The IEC tokens ("kib", "mib", "gib", "tib") are
/// tried before the SI tokens ("kb", "mb", "gb", "tb"); "b" alone is bytes.
pub open spec fn unit_token_at(t: Seq<char>) -> Option<(BinaryPrefix, int)> {
    if t.len() >= 1 && lower_char(t[0]) == 'b' {
        Some((BinaryPrefix::B, 1))
    } else if t.len() >= 3 && lower_char(t[0]) == 'k' && lower_char(t[1]) == 'i' && lower_char(
        t[2],
    ) == 'b' {
        Some((BinaryPrefix::KiB, 3))
    } else if t.len() >= 3 && lower_char(t[0]) == 'm' && lower_char(t[1]) == 'i' && lower_char(
        t[2],
    ) == 'b' {
        Some((BinaryPrefix::MiB, 3))
    } else if t.len() >= 3 && lower_char(t[0]) == 'g' && lower_char(t[1]) == 'i' && lower_char(
        t[2],
    ) == 'b' {
        Some((BinaryPrefix::GiB, 3))
    } else if t.len() >= 3 && lower_char(t[0]) == 't' && lower_char(t[1]) == 'i' && lower_char(
        t[2],
    ) == 'b' {
        Some((BinaryPrefix::TiB, 3))
    } else if t.len() >= 2 && lower_char(t[0]) == 'k' && lower_char(t[1]) == 'b' {
        Some((BinaryPrefix::kB, 2))
    } else if t.len() >= 2 && lower_char(t[0]) == 'm' && lower_char(t[1]) == 'b' {
        Some((BinaryPrefix::MB, 2))
    } else if t.len() >= 2 && lower_char(t[0]) == 'g' && lower_char(t[1]) == 'b' {
        Some((BinaryPrefix::GB, 2))
    } else if t.len() >= 2 && lower_char(t[0]) == 't' && lower_char(t[1]) == 'b' {
        Some((BinaryPrefix::TB, 2))
    } else {
        None
    }
}

/// Unit matching ignores letter case: two texts whose characters agree after
/// lowercasing carry the same unit token, or none.
pub proof fn lemma_unit_token_case_insensitive(t1: Seq<char>, t2: Seq<char>)
    requires
        t1.len() == t2.len(),
        forall|i: int| 0 <= i < t1.len() ==> lower_char(t1[i]) == lower_char(t2[i]),
    ensures
        unit_token_at(t1) == unit_token_at(t2),
{
}

impl BinaryPrefix {
    /// Number of bytes in one of this unit.
    pub fn scale(&self) -> (r: u128)
        ensures
            r == scale_spec(*self),
    {
        match self {
            BinaryPrefix::B => 1,
            BinaryPrefix::KiB => 1024,
            BinaryPrefix::MiB => 1048576,
            BinaryPrefix::GiB => 1073741824,
            BinaryPrefix::TiB => 1099511627776,
            BinaryPrefix::kB => 1000,
            BinaryPrefix::MB => 1000000,
            BinaryPrefix::GB => 1000000000,
            BinaryPrefix::TB => 1000000000000,
        }
    }
}

/// ASCII lowercase for the letters that unit tokens use.
fn lower(c: char) -> (r: char)
    ensures
        r == lower_char(c),
{
    match c {
        'B' => 'b',
        'I' => 'i',
        'K' => 'k',
        'M' => 'm',
        'G' => 'g',
        'T' => 't',
        _ => c,
    }
}

/// Looks for a unit token starting at character position `i` of `s`.
pub(crate) fn match_unit_token(s: &str, i: usize, n: usize) -> (r: Option<(BinaryPrefix, usize)>)
    requires
        n == s@.len(),
        i <= n,
    ensures
        match r {
            Some((u, l)) => unit_token_at(s@.skip(i as int)) == Some((u, l as int)) && i + l <= n,
            None => unit_token_at(s@.skip(i as int)) is None,
        },
{
    if i >= n {
        return None;
    }
    let c0 = lower(s.get_char(i));
    let c1 = if n - i >= 2 {
        lower(s.get_char(i + 1))
    } else {
        ' '
    };
    let c2 = if n - i >= 3 {
        lower(s.get_char(i + 2))
    } else {
        ' '
    };
    proof {
        assert(s@.skip(i as int).len() == n - i);
        assert(forall|j: int| 0 <= j < n - i ==> s@.skip(i as int)[j] == s@[i + j]);
        assert(lower_char(' ') == ' ');
    }
    if c0 == 'b' {
        Some((BinaryPrefix::B, 1))
    } else if c0 == 'k' && c1 == 'i' && c2 == 'b' {
        Some((BinaryPrefix::KiB, 3))
    } else if c0 == 'm' && c1 == 'i' && c2 == 'b' {
        Some((BinaryPrefix::MiB, 3))
    } else if c0 == 'g' && c1 == 'i' && c2 == 'b' {
        Some((BinaryPrefix::GiB, 3))
    } else if c0 == 't' && c1 == 'i' && c2 == 'b' {
        Some((BinaryPrefix::TiB, 3))
    } else if c0 == 'k' && c1 == 'b' {
        Some((BinaryPrefix::kB, 2))
    } else if c0 == 'm' && c1 == 'b' {
        Some((BinaryPrefix::MB, 2))
    } else if c0 == 'g' && c1 == 'b' {
        Some((BinaryPrefix::GB, 2))
    } else if c0 == 't' && c1 == 'b' {
        Some((BinaryPrefix::TB, 2))
    } else {
        None
    }
}

impl BinaryPrefix {
    /// Parses a complete unit token, ignoring letter case; on failure the
    /// error carries the text that was handed in.
    pub fn from_token(s: &str) -> (r: Result<BinaryPrefix, Error>)
        ensures
            match r {
                Ok(u) => unit_token_at(s@) == Some((u, s@.len() as int)),
                Err(e) => {
                    &&& !(exists|u: BinaryPrefix| unit_token_at(s@) == Some(
                        (u, s@.len() as int),
                    ))
                    &&& e matches Error::UnitParseError(t) && t@ == s@
                },
            },
    {
        let n = s.unicode_len();
        proof {
            assert(s@.skip(0) =~= s@);
        }
        match match_unit_token(s, 0, n) {
            Some((u, l)) => {
                if l == n {
                    Ok(u)
                } else {
                    Err(Error::UnitParseError(s.to_owned()))
                }
            },
            None => Err(Error::UnitParseError(s.to_owned())),
        }
    }
}

} // verus!
