//! Protocol versions and version specifiers.
//!
//! A version is a `u32` whose lowest byte is the major version and whose second byte is
//! the minor version. A version specifier sent during the handshake may additionally
//! carry, in its third byte, a range: the number of minor versions below the given one
//! that are acceptable as well.
use vstd::prelude::*;

verus! {

pub const V1_0: u32 = 0x0001;
pub const V2_0: u32 = 0x0002;
pub const V3_0: u32 = 0x0003;
pub const V4_0: u32 = 0x0004;
pub const V4_1: u32 = 0x0104;
pub const V4_2: u32 = 0x0204;
pub const V4_3: u32 = 0x0304;
pub const V4_4: u32 = 0x0404;

/// The major version: the lowest byte.
pub open spec fn major_of(v: u32) -> int {
    v as int % 256
}

/// The minor version: the second byte.
pub open spec fn minor_of(v: u32) -> int {
    (v as int / 256) % 256
}

/// The range of a specifier: the third byte.
pub open spec fn range_of(v: u32) -> int {
    (v as int / 65536) % 256
}

/// The lowest minor version that a specifier accepts.
pub open spec fn lowest_minor_of(specifier: u32) -> int {
    if minor_of(specifier) >= range_of(specifier) {
        minor_of(specifier) - range_of(specifier)
    } else {
        0
    }
}

/// Whether `version` is one of the versions that `specifier` stands for.
pub open spec fn compatible(version: u32, specifier: u32) -> bool {
    &&& major_of(version) == major_of(specifier)
    &&& lowest_minor_of(specifier) <= minor_of(version) <= minor_of(specifier)
}

/// Splits a version or specifier into its major, minor and range bytes.
pub fn version_parts(v: u32) -> (parts: (u32, u32, u32))
    ensures
        parts.0 == major_of(v),
        parts.1 == minor_of(v),
        parts.2 == range_of(v),
{
    let major: u32 = v & 0xff;
    let minor: u32 = (v >> 8) & 0xff;
    let range: u32 = (v >> 16) & 0xff;
    assert(v & 0xff == v % 256) by (bit_vector);
    assert((v >> 8) & 0xff == (v / 256) % 256) by (bit_vector);
    assert((v >> 16) & 0xff == (v / 65536) % 256) by (bit_vector);
    (major, minor, range)
}

/// Returns whether `version` is compatible with the version specifier `specifier`: the
/// major versions agree and the minor version lies within the specifier's range.
pub fn is_compatible(version: u32, specifier: u32) -> (res: bool)
    ensures
        res == compatible(version, specifier),
{
    let (major, minor, _range) = version_parts(version);
    let (specified_major, specified_minor, range) = version_parts(specifier);
    let lowest: u32 = specified_minor.saturating_sub(range);
    major == specified_major && lowest <= minor && minor <= specified_minor
}


/// The character of a decimal digit.
pub open spec fn digit_char(d: int) -> char {
    if d == 0 {
        '0'
    } else if d == 1 {
        '1'
    } else if d == 2 {
        '2'
    } else if d == 3 {
        '3'
    } else if d == 4 {
        '4'
    } else if d == 5 {
        '5'
    } else if d == 6 {
        '6'
    } else if d == 7 {
        '7'
    } else if d == 8 {
        '8'
    } else {
        '9'
    }
}

/// The decimal digits of `n`, without leading zeros.
pub open spec fn decimal(n: nat) -> Seq<char>
    decreases n,
{
    if n < 10 {
        seq![digit_char(n as int)]
    } else {
        decimal(n / 10).push(digit_char((n % 10) as int))
    }
}

/// A version or specifier as text: `major.minor`, or `major.lowest-minor` where the
/// specifier has a range.
pub open spec fn version_text(v: u32) -> Seq<char> {
    if range_of(v) > 0 {
        decimal(major_of(v) as nat) + seq!['.'] + decimal(lowest_minor_of(v) as nat) + seq!['-']
            + decimal(minor_of(v) as nat)
    } else {
        decimal(major_of(v) as nat) + seq!['.'] + decimal(minor_of(v) as nat)
    }
}

/// Versions as text, separated by a comma and a space.
pub open spec fn versions_text(vs: Seq<u32>) -> Seq<char>
    decreases vs.len(),
{
    if vs.len() == 0 {
        Seq::empty()
    } else if vs.len() == 1 {
        version_text(vs[0])
    } else {
        versions_text(vs.drop_last()) + seq![',', ' '] + version_text(vs.last())
    }
}

/// The text of one decimal digit.
fn digit_text(d: u32) -> (s: &'static str)
    requires
        d < 10,
    ensures
        s@ == seq![digit_char(d as int)],
{
    proof {
        reveal_strlit("0");
        reveal_strlit("1");
        reveal_strlit("2");
        reveal_strlit("3");
        reveal_strlit("4");
        reveal_strlit("5");
        reveal_strlit("6");
        reveal_strlit("7");
        reveal_strlit("8");
        reveal_strlit("9");
    }
    if d == 0 {
        "0"
    } else if d == 1 {
        "1"
    } else if d == 2 {
        "2"
    } else if d == 3 {
        "3"
    } else if d == 4 {
        "4"
    } else if d == 5 {
        "5"
    } else if d == 6 {
        "6"
    } else if d == 7 {
        "7"
    } else if d == 8 {
        "8"
    } else {
        "9"
    }
}

/// Appends the decimal digits of a byte.
fn append_decimal(out: &mut String, n: u32)
    requires
        n < 256,
    ensures
        final(out)@ == old(out)@ + decimal(n as nat),
{
    if n >= 100 {
        out.append(digit_text(n / 100));
        out.append(digit_text((n / 10) % 10));
        out.append(digit_text(n % 10));
        assert(decimal((n / 10) as nat) == decimal((n / 100) as nat).push(
            digit_char(((n / 10) % 10) as int),
        ));
        assert(decimal(n as nat) =~= seq![digit_char((n / 100) as int)] + seq![
            digit_char(((n / 10) % 10) as int),
        ] + seq![digit_char((n % 10) as int)]);
    } else if n >= 10 {
        out.append(digit_text(n / 10));
        out.append(digit_text(n % 10));
        assert(decimal((n / 10) as nat) == seq![digit_char((n / 10) as int)]);
        assert(decimal(n as nat) =~= seq![digit_char((n / 10) as int)] + seq![
            digit_char((n % 10) as int),
        ]);
    } else {
        out.append(digit_text(n));
    }
}

/// A version or specifier as text: `major.minor`, or, where the specifier has a range,
/// `major.lowest-minor`, the lowest minor version being zero where the range reaches
/// below it.
pub fn format_version(version: u32) -> (s: String)
    ensures
        s@ == version_text(version),
{
    let (major, minor, range) = version_parts(version);
    let mut out = String::new();
    append_decimal(&mut out, major);
    proof {
        reveal_strlit(".");
        reveal_strlit("-");
    }
    out.append(".");
    if range > 0 {
        append_decimal(&mut out, minor.saturating_sub(range));
        out.append("-");
        append_decimal(&mut out, minor);
    } else {
        append_decimal(&mut out, minor);
    }
    assert(out@ =~= version_text(version));
    out
}

/// Versions as text, separated by a comma and a space.
pub fn format_versions(versions: &[u32]) -> (s: String)
    ensures
        s@ == versions_text(versions@),
{
    let mut out = String::new();
    let mut i: usize = 0;
    while i < versions.len()
        invariant
            i <= versions.len(),
            out@ == versions_text(versions@.take(i as int)),
        decreases versions.len() - i,
    {
        let ghost before = out@;
        let text = format_version(versions[i]);
        if i > 0 {
            out.append(", ");
        }
        out.append(text.as_str());
        proof {
            reveal_strlit(", ");
            let t = versions@.take(i + 1);
            assert(t.drop_last() =~= versions@.take(i as int));
            assert(t.last() == versions@[i as int]);
            if i == 0 {
                assert(versions@.take(0) =~= Seq::<u32>::empty());
                assert(before =~= Seq::<char>::empty());
                assert(out@ =~= version_text(versions@[0]));
            } else {
                assert(out@ =~= before + seq![',', ' '] + version_text(versions@[i as int]));
            }
        }
        i = i + 1;
    }
    assert(versions@.take(versions.len() as int) =~= versions@);
    out
}

/// A specifier without a range stands for exactly its own version.
pub proof fn law_specifier_without_range(version: u32, specifier: u32)
    requires
        range_of(specifier) == 0,
    ensures
        compatible(version, specifier) <==> (major_of(version) == major_of(specifier)
            && minor_of(version) == minor_of(specifier)),
{
}
/// A specifier stands for its own version whatever its range, never for a version of
/// another major version or of a higher minor version, and a range widens it to lower
/// minor versions only.
pub proof fn law_specifier_covers(version: u32, specifier: u32, wider: u32)
    ensures
        major_of(version) == major_of(specifier) && minor_of(version) == minor_of(specifier)
            ==> compatible(version, specifier),
        major_of(version) != major_of(specifier) ==> !compatible(version, specifier),
        minor_of(version) > minor_of(specifier) ==> !compatible(version, specifier),
        major_of(wider) == major_of(specifier) && minor_of(wider) == minor_of(specifier)
            && range_of(wider) >= range_of(specifier) && compatible(version, specifier)
            ==> compatible(version, wider),
{
}
} // verus!
