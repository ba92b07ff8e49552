use vstd::prelude::*;
use vstd::arithmetic::div_mod::lemma_div_by_multiple;
use vstd::string::StrSliceExecFns;
use vstd::string::StringExecFns;
use crate::binary_prefix::BinaryPrefix;
use crate::binary_prefix::bytes_of;
use crate::binary_prefix::scale_spec;
use crate::decimal::dec_str;
use crate::decimal::u128_to_string;
use crate::error::Error;
use crate::substitute::subst_spec;
use crate::substitute::substitute;
use crate::substitute::SubstOutcome;

verus! {

/// An immutable snapshot of one exact byte count together with its value in
/// every other supported unit. Every derived field is the exact integer
/// quotient of the byte count by that unit's scale (values are truncated,
/// never rounded up).
#[derive(Clone, Copy, Debug, PartialEq, Eq, Structural)]
pub struct ConversionTable {
    /// Bytes
    pub b: u128,
    // IEC standard (base-2)
    pub kib: u128,
    pub mib: u128,
    pub gib: u128,
    pub tib: u128,
    // SI standard (base-10)
    pub kb: u128,
    pub mb: u128,
    pub gb: u128,
    pub tb: u128,
}

/// The field of `t` that carries unit `u`.
pub open spec fn field_for(t: ConversionTable, u: BinaryPrefix) -> u128 {
    match u {
        BinaryPrefix::B => t.b,
        BinaryPrefix::KiB => t.kib,
        BinaryPrefix::MiB => t.mib,
        BinaryPrefix::GiB => t.gib,
        BinaryPrefix::TiB => t.tib,
        BinaryPrefix::kB => t.kb,
        BinaryPrefix::MB => t.mb,
        BinaryPrefix::GB => t.gb,
        BinaryPrefix::TB => t.tb,
    }
}

/// Every derived field of `t` is the byte count divided, exactly and
/// truncating, by that unit's scale.
pub open spec fn table_wf(t: ConversionTable) -> bool {
    forall|u: BinaryPrefix| field_for(t, u) == t.b as int / scale_spec(u) as int
}

impl ConversionTable {
    /// Builds the table for `x` units `original_b_prefix`. The exact byte
    /// count is the amount times the unit's scale; every field is derived
    /// from it by exact integer division, so the field of the originating
    /// unit is exactly `x` again. An amount whose byte count exceeds the
    /// representable range raises `OverflowError` instead of wrapping.
    pub fn from_bytes(x: u128, original_b_prefix: BinaryPrefix) -> (r: Result<Self, Error>)
        ensures
            bytes_of(x as nat, original_b_prefix) <= u128::MAX ==> (r matches Ok(t) && {
                &&& t.b == bytes_of(x as nat, original_b_prefix)
                &&& table_wf(t)
                &&& field_for(t, original_b_prefix) == x
            }),
            bytes_of(x as nat, original_b_prefix) > u128::MAX ==> (r matches Err(e)
                && e is OverflowError),
    {
        let s = original_b_prefix.scale();
        match x.checked_mul(s) {
            None => Err(Error::OverflowError),
            Some(b) => {
                let t = ConversionTable {
                    b,
                    kib: b / 1024,
                    mib: b / 1048576,
                    gib: b / 1073741824,
                    tib: b / 1099511627776,
                    kb: b / 1000,
                    mb: b / 1000000,
                    gb: b / 1000000000,
                    tb: b / 1000000000000,
                };
                proof {
                    assert forall|u: BinaryPrefix| field_for(t, u) == t.b as int / scale_spec(
                        u,
                    ) as int by {
                        if u is B {
                            assert(t.b as int / 1 == t.b as int);
                        }
                    }
                    lemma_div_by_multiple(x as int, s as int);
                    assert((x as int * s as int) / (s as int) == x as int);
                }
                Ok(t)
            },
        }
    }

    /// Replaces every `<digits><whitespace><unit token>` occurrence in `s`
    /// by the decimal text of the byte count it denotes, leaving all other
    /// characters untouched; see [`substitute`].
    pub fn replace_units(s: String) -> (r: Result<String, Error>)
        ensures
            match subst_spec(s@) {
                SubstOutcome::Text(t) => r matches Ok(o) && o@ == t,
                SubstOutcome::AmountTooBig(run) => r matches Err(e) && (e matches
                Error::UnitParseError(m) && m@ == run),
                SubstOutcome::Overflow => r matches Err(e) && e is OverflowError,
            },
    {
        substitute(s.as_str())
    }
}

/// A table's exact byte count, converted once more with bytes as the
/// originating unit, is the same byte count: byte counts are a fixed point
/// of the conversion.
pub proof fn lemma_round_trip(a: nat, u: BinaryPrefix)
    ensures
        bytes_of(bytes_of(a, u), BinaryPrefix::B) == bytes_of(a, u),
{
}

/// A zero amount of any unit is zero bytes.
pub proof fn lemma_zero_amount()
    ensures
        forall|u: BinaryPrefix| bytes_of(0, u) == 0,
{
}

/// `n` spaces.
pub open spec fn spaces(n: nat) -> Seq<char> {
    Seq::new(n, |i: int| ' ')
}

/// `s` padded with spaces on the left to a width of sixteen characters.
pub open spec fn pad16(s: Seq<char>) -> Seq<char> {
    if s.len() >= 16 {
        s
    } else {
        spaces((16 - s.len()) as nat) + s
    }
}

/// The decimal text of `v`, right-aligned in a sixteen-character field.
pub open spec fn num_field(v: u128) -> Seq<char> {
    pad16(dec_str(v as nat))
}

/// Whether `small` occurs contiguously inside `big`.
pub open spec fn contains_seq(big: Seq<char>, small: Seq<char>) -> bool {
    exists|k: int|
        0 <= k <= big.len() - small.len() && #[trigger] big.subrange(k, k + small.len()) == small
}

/// Whether `t` holds the ANSI escape character anywhere.
pub open spec fn has_escape_char(t: Seq<char>) -> bool {
    exists|i: int| 0 <= i < t.len() && t[i] == '\u{1b}'
}

/// The rendered report on a table, given the texts of its two headers: one
/// exact byte line marked with the exactness glyph, then the header `h1`
/// over the four IEC lines and the header `h2` over the four SI lines, the
/// eight derived lines marked with the approximation glyph.
pub open spec fn render_spec(t: ConversionTable, h1: Seq<char>, h2: Seq<char>) -> Seq<char> {
    "\u{2261} "@ + num_field(t.b) + " B\n"@ + "    "@ + h1 + "\n"@ + "\u{2248} "@ + num_field(
        t.kib,
    ) + " KiB\n"@ + "\u{2248} "@ + num_field(t.mib) + " MiB\n"@ + "\u{2248} "@ + num_field(t.gib)
        + " GiB\n"@ + "\u{2248} "@ + num_field(t.tib) + " TiB\n"@ + "    "@ + h2 + "\n"@
        + "\u{2248} "@ + num_field(t.kb) + " kB\n"@ + "\u{2248} "@ + num_field(t.mb) + " MB\n"@
        + "\u{2248} "@ + num_field(t.gb) + " GB\n"@ + "\u{2248} "@ + num_field(t.tb) + " TB\n"@
}

/// Relies on `colored::Colorize::bold` for `&str` and on `Display` for
/// `ColoredString`: when the input holds no escape character, the styled
/// text is the input itself, either unchanged or framed by styling escape
/// sequences, so it always contains the input.
#[verifier::external_body]
fn bold(s: &str) -> (r: String)
    requires
        !has_escape_char(s@),
    ensures
        contains_seq(r@, s@),
{
    colored::Colorize::bold(s).to_string()
}

/// `s` padded with spaces on the left to a width of sixteen characters.
fn pad_left_16(s: String) -> (r: String)
    ensures
        r@ == pad16(s@),
{
    let n = s.as_str().unicode_len();
    if n >= 16 {
        return s;
    }
    let mut p = String::new();
    let mut i: usize = 0;
    proof {
        assert(p@ =~= spaces(0));
    }
    while i < 16 - n
        invariant
            i <= 16 - n,
            n == s@.len(),
            n < 16,
            p@ == spaces(i as nat),
        decreases 16 - n - i,
    {
        p.append(" ");
        proof {
            reveal_strlit(" ");
            assert(p@ =~= spaces((i + 1) as nat));
        }
        i = i + 1;
    }
    p.append(s.as_str());
    proof {
        assert(p@ =~= pad16(s@));
    }
    p
}

impl ConversionTable {
    /// The rendered report with the two given header texts.
    fn render_with(&self, h1: &str, h2: &str) -> (r: String)
        ensures
            r@ == render_spec(*self, h1@, h2@),
    {
        let mut out = String::new();
        out.append("\u{2261} ");
        let f_b = pad_left_16(u128_to_string(self.b));
        out.append(f_b.as_str());
        out.append(" B\n");
        out.append("    ");
        out.append(h1);
        out.append("\n");
        out.append("\u{2248} ");
        let f_kib = pad_left_16(u128_to_string(self.kib));
        out.append(f_kib.as_str());
        out.append(" KiB\n");
        out.append("\u{2248} ");
        let f_mib = pad_left_16(u128_to_string(self.mib));
        out.append(f_mib.as_str());
        out.append(" MiB\n");
        out.append("\u{2248} ");
        let f_gib = pad_left_16(u128_to_string(self.gib));
        out.append(f_gib.as_str());
        out.append(" GiB\n");
        out.append("\u{2248} ");
        let f_tib = pad_left_16(u128_to_string(self.tib));
        out.append(f_tib.as_str());
        out.append(" TiB\n");
        out.append("    ");
        out.append(h2);
        out.append("\n");
        out.append("\u{2248} ");
        let f_kb = pad_left_16(u128_to_string(self.kb));
        out.append(f_kb.as_str());
        out.append(" kB\n");
        out.append("\u{2248} ");
        let f_mb = pad_left_16(u128_to_string(self.mb));
        out.append(f_mb.as_str());
        out.append(" MB\n");
        out.append("\u{2248} ");
        let f_gb = pad_left_16(u128_to_string(self.gb));
        out.append(f_gb.as_str());
        out.append(" GB\n");
        out.append("\u{2248} ");
        let f_tb = pad_left_16(u128_to_string(self.tb));
        out.append(f_tb.as_str());
        out.append(" TB\n");
        proof {
            assert(out@ =~= render_spec(*self, h1@, h2@));
        }
        out
    }

    /// Renders the table as a multi-line report: the exact byte count on a
    /// line marked "≡", then under a bolded IEC header and a bolded SI
    /// header the eight derived values, each on a line marked "≈".
    pub fn render(&self) -> (r: String)
        ensures
            exists|h1: Seq<char>, h2: Seq<char>|
                {
                    &&& r@ == render_spec(*self, h1, h2)
                    &&& contains_seq(h1, "IEC standard (base-2)"@)
                    &&& contains_seq(h2, "SI standard (base-10)"@)
                },
    {
        proof {
            reveal_strlit("IEC standard (base-2)");
            reveal_strlit("SI standard (base-10)");
        }
        let h1 = bold("IEC standard (base-2)");
        let h2 = bold("SI standard (base-10)");
        let r = self.render_with(h1.as_str(), h2.as_str());
        proof {
            assert(r@ == render_spec(*self, h1@, h2@) && contains_seq(
                h1@,
                "IEC standard (base-2)"@,
            ) && contains_seq(h2@, "SI standard (base-10)"@));
        }
        r
    }
}

} // verus!
