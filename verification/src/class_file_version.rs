use vstd::prelude::*;
use vstd::string::*;

use crate::raw_class_file_version::RawClassFileVersion;

verus! {

/// Why a raw class file version has no compact form.
#[derive(Debug, Clone, Copy, PartialEq, Eq, Structural)]
pub enum VersionError {
    InvalidMajor { major: u16 },
    InvalidMinor { major: u16, minor: u16 },
}

/// Compact form of a class file version in one byte. The minor version only tells
/// whether the class file is a preview version, so a single bit is kept of it:
///
/// - the highest bit is 1 for a preview version, 0 otherwise;
/// - the lowest seven bits hold the major version number.
#[derive(Debug, Clone, Copy, PartialEq, Eq, Structural)]
pub struct ClassFileVersion(u8);

/// The bit that marks a preview version.
pub const MINOR_BIT: u8 = 0x80;

/// The bits that hold the major version.
pub const MAJOR_BITS: u8 = 0x7f;

/// The minor version that marks a preview class file.
pub const PREVIEW_MINOR: u16 = 0xffff;

/// The first major version that may be a preview version.
pub const FIRST_PREVIEW_MAJOR: u8 = 56;

/// The byte that stores `major` with the preview bit set or cleared.
pub open spec fn compact_bits(major: u8, preview: bool) -> u8 {
    major | (if preview { MINOR_BIT } else { 0u8 })
}

/// The major version stored in a compact byte.
pub open spec fn major_of(bits: u8) -> u8 {
    bits & MAJOR_BITS
}

/// Whether a compact byte marks a preview version.
pub open spec fn preview_of(bits: u8) -> bool {
    bits & MINOR_BIT != 0
}

/// The Java release of a class file major version: the major minus 44, from major 46
/// on (major 52 is Java 8, 55 is Java 11). Lower majors get no release number.
pub open spec fn java_release(major: u8) -> Option<u8> {
    if major >= 46 {
        Some((major - 44) as u8)
    } else {
        None
    }
}

/// What the compaction of a raw version gives: the compact byte, or why there is none.
/// The major must fit in a byte, the minor must be 0 or the preview marker, the major
/// must fit in the seven bits that hold it, and only majors from 56 on may be preview
/// versions.
pub open spec fn compact_version_spec(raw: RawClassFileVersion) -> Result<u8, VersionError> {
    if raw.major > 0xff {
        Err(VersionError::InvalidMajor { major: raw.major })
    } else if raw.minor != 0 && raw.minor != PREVIEW_MINOR {
        Err(VersionError::InvalidMinor { major: raw.major, minor: raw.minor })
    } else if raw.major > MAJOR_BITS {
        Err(VersionError::InvalidMajor { major: raw.major })
    } else if raw.major < FIRST_PREVIEW_MAJOR && raw.minor == PREVIEW_MINOR {
        Err(VersionError::InvalidMajor { major: raw.major })
    } else {
        Ok(compact_bits(raw.major as u8, raw.minor == PREVIEW_MINOR))
    }
}

/// The character of a decimal digit.
pub open spec fn digit_char(d: nat) -> char {
    if d == 0 {
        '0'
    } else if d == 1 {
        '1'
    } else if d == 2 {
        '2'
    } else if d == 3 {
        '3'
    } else if d == 4 {
        '4'
    } else if d == 5 {
        '5'
    } else if d == 6 {
        '6'
    } else if d == 7 {
        '7'
    } else if d == 8 {
        '8'
    } else {
        '9'
    }
}

/// The decimal notation of a number, without leading zeros.
pub open spec fn decimal_text(n: nat) -> Seq<char>
    decreases n,
{
    if n < 10 {
        seq![digit_char(n)]
    } else {
        decimal_text(n / 10).push(digit_char(n % 10))
    }
}

/// The number a decimal numeral denotes, its last character the units digit.
pub open spec fn decimal_value(text: Seq<char>) -> int
    decreases text.len(),
{
    if text.len() == 0 {
        0
    } else {
        decimal_value(text.drop_last()) * 10 + (text.last() as u32 - 48)
    }
}

/// Whether a character is one of the ASCII digits `0` to `9`.
pub open spec fn is_digit(c: char) -> bool {
    48 <= c as u32 <= 57
}

/// The character of digit `d` is the ASCII character `'0' + d`.
pub proof fn lemma_digit_char(d: nat)
    requires
        d < 10,
    ensures
        digit_char(d) as u32 == 48 + d,
{
}

/// The text of a number is its ordinary decimal numeral: nothing but ASCII digits, at
/// least one, no leading zero, and reading it back gives the number.
pub proof fn lemma_decimal_text(n: nat)
    ensures
        decimal_value(decimal_text(n)) == n,
        decimal_text(n).len() >= 1,
        forall|i: int| 0 <= i < decimal_text(n).len() ==> is_digit(#[trigger] decimal_text(n)[i]),
        decimal_text(n)[0] as u32 == 48 ==> n == 0,
    decreases n,
{
    if n < 10 {
        lemma_digit_char(n);
        let text = decimal_text(n);
        assert(text.drop_last() =~= Seq::<char>::empty());
        assert(decimal_value(text.drop_last()) == 0);
        assert(text.last() == digit_char(n));
    } else {
        lemma_decimal_text(n / 10);
        lemma_digit_char(n % 10);
        let head = decimal_text(n / 10);
        let text = decimal_text(n);
        assert(text.drop_last() =~= head);
        assert(text.last() == digit_char(n % 10));
        assert(decimal_value(text) == decimal_value(head) * 10 + (n % 10));
        assert((n / 10) * 10 + n % 10 == n);
        assert(text[0] == head[0]);
        assert forall|i: int| 0 <= i < text.len() implies is_digit(#[trigger] text[i]) by {
            if i < head.len() {
                assert(text[i] == head[i]);
            }
        }
    }
}

/// Different numbers have different texts.
pub proof fn lemma_decimal_text_injective(m: nat, n: nat)
    ensures
        decimal_text(m) == decimal_text(n) ==> m == n,
{
    lemma_decimal_text(m);
    lemma_decimal_text(n);
}

/// A major version has a Java release exactly from 46 on, and the release is the major
/// minus 44.
pub proof fn lemma_release_offset(major: u8)
    ensures
        java_release(major) is Some <==> major >= 46,
        java_release(major) matches Some(release) ==> release + 44 == major,
{
}

/// How a version is shown to a reader, e.g. `Java 21 (class file 65)`.
pub open spec fn display_text(major: u8, preview: bool) -> Seq<char> {
    match java_release(major) {
        Some(release) => if preview {
            "Java "@ + decimal_text(release as nat) + " preview (class file "@ + decimal_text(
                major as nat,
            ) + ")"@
        } else {
            "Java "@ + decimal_text(release as nat) + " (class file "@ + decimal_text(major as nat)
                + ")"@
        },
        None => "class file version "@ + decimal_text(major as nat),
    }
}

/// How a version is shown for debugging: its major version, Java release and preview
/// flag, e.g. `ClassFileVersion { major: 65, java_version: Some(21), preview: false }`.
pub open spec fn debug_text(major: u8, preview: bool) -> Seq<char> {
    "ClassFileVersion { major: "@ + decimal_text(major as nat) + ", java_version: "@ + match java_release(major) {
        Some(release) => "Some("@ + decimal_text(release as nat) + ")"@,
        None => "None"@,
    } + ", preview: "@ + (if preview { "true"@ } else { "false"@ }) + " }"@
}

/// The text shown for a version, character by character: `Java <release> (class file
/// <major>)`, with ` preview` after the release for a preview version, or `class file
/// version <major>` when there is no release.
pub proof fn lemma_display_text_characters(major: u8, preview: bool)
    ensures
        java_release(major) matches Some(release) ==> display_text(major, preview) == seq!['J', 'a', 'v', 'a', ' ']
            + decimal_text(release as nat) + (if preview {
            seq![' ', 'p', 'r', 'e', 'v', 'i', 'e', 'w', ' ', '(', 'c', 'l', 'a', 's', 's', ' ', 'f', 'i', 'l', 'e', ' ']
        } else {
            seq![' ', '(', 'c', 'l', 'a', 's', 's', ' ', 'f', 'i', 'l', 'e', ' ']
        }) + decimal_text(major as nat) + seq![')'],
        java_release(major) is None ==> display_text(major, preview) == seq!['c', 'l', 'a', 's', 's', ' ', 'f', 'i', 'l', 'e', ' ', 'v', 'e', 'r', 's', 'i', 'o', 'n', ' ']
            + decimal_text(major as nat),
{
    reveal_strlit("Java ");
    reveal_strlit(" preview (class file ");
    reveal_strlit(" (class file ");
    reveal_strlit(")");
    reveal_strlit("class file version ");
    assert("Java "@ =~= seq!['J', 'a', 'v', 'a', ' ']);
    assert(" preview (class file "@ =~= seq![' ', 'p', 'r', 'e', 'v', 'i', 'e', 'w', ' ', '(', 'c', 'l', 'a', 's', 's', ' ', 'f', 'i', 'l', 'e', ' ']);
    assert(" (class file "@ =~= seq![' ', '(', 'c', 'l', 'a', 's', 's', ' ', 'f', 'i', 'l', 'e', ' ']);
    assert(")"@ =~= seq![')']);
    assert("class file version "@ =~= seq!['c', 'l', 'a', 's', 's', ' ', 'f', 'i', 'l', 'e', ' ', 'v', 'e', 'r', 's', 'i', 'o', 'n', ' ']);
}

/// The debug text of a version, character by character: `ClassFileVersion { major:
/// <major>, java_version: Some(<release>), preview: <true or false> }`, with `None`
/// when there is no release.
pub proof fn lemma_debug_text_characters(major: u8, preview: bool)
    ensures
        debug_text(major, preview) == seq!['C', 'l', 'a', 's', 's', 'F', 'i', 'l', 'e', 'V', 'e', 'r', 's', 'i', 'o', 'n', ' ', '{', ' ', 'm', 'a', 'j', 'o', 'r', ':', ' '] + decimal_text(
            major as nat,
        ) + seq![',', ' ', 'j', 'a', 'v', 'a', '_', 'v', 'e', 'r', 's', 'i', 'o', 'n', ':', ' '] + match java_release(major) {
            Some(release) => seq!['S', 'o', 'm', 'e', '('] + decimal_text(release as nat) + seq![')'],
            None => seq!['N', 'o', 'n', 'e'],
        } + seq![',', ' ', 'p', 'r', 'e', 'v', 'i', 'e', 'w', ':', ' '] + (if preview {
            seq!['t', 'r', 'u', 'e']
        } else {
            seq!['f', 'a', 'l', 's', 'e']
        }) + seq![' ', '}'],
{
    reveal_strlit("ClassFileVersion { major: ");
    reveal_strlit(", java_version: ");
    reveal_strlit("Some(");
    reveal_strlit(")");
    reveal_strlit("None");
    reveal_strlit(", preview: ");
    reveal_strlit("true");
    reveal_strlit("false");
    reveal_strlit(" }");
    assert("ClassFileVersion { major: "@ =~= seq!['C', 'l', 'a', 's', 's', 'F', 'i', 'l', 'e', 'V', 'e', 'r', 's', 'i', 'o', 'n', ' ', '{', ' ', 'm', 'a', 'j', 'o', 'r', ':', ' ']);
    assert(", java_version: "@ =~= seq![',', ' ', 'j', 'a', 'v', 'a', '_', 'v', 'e', 'r', 's', 'i', 'o', 'n', ':', ' ']);
    assert("Some("@ =~= seq!['S', 'o', 'm', 'e', '(']);
    assert(")"@ =~= seq![')']);
    assert("None"@ =~= seq!['N', 'o', 'n', 'e']);
    assert(", preview: "@ =~= seq![',', ' ', 'p', 'r', 'e', 'v', 'i', 'e', 'w', ':', ' ']);
    assert("true"@ =~= seq!['t', 'r', 'u', 'e']);
    assert("false"@ =~= seq!['f', 'a', 'l', 's', 'e']);
    assert(" }"@ =~= seq![' ', '}']);
}

impl ClassFileVersion {
    /// The stored byte.
    pub closed spec fn bits(self) -> u8 {
        self.0
    }

    pub fn major(self) -> (major: u8)
        ensures
            major == major_of(self.bits()),
            major <= MAJOR_BITS,
    {
        proof {
            let b = self.0;
            assert(b & 0x7f <= 0x7f) by (bit_vector);
        }
        self.0 & MAJOR_BITS
    }

    pub fn preview(self) -> (preview: bool)
        ensures
            preview == preview_of(self.bits()),
    {
        (self.0 & MINOR_BIT) != 0
    }

    pub fn java_version(self) -> (release: Option<u8>)
        ensures
            release == java_release(major_of(self.bits())),
    {
        let major = self.major();
        if major >= 46 {
            Some(major - 44)
        } else {
            None
        }
    }

    /// Stores `major` and the preview flag without checking them: a `major` above
    /// 127 spills into the preview bit.
    pub fn new_unchecked(major: u8, preview: bool) -> (version: Self)
        ensures
            version.bits() == compact_bits(major, preview),
    {
        let preview_bit = if preview {
            MINOR_BIT
        } else {
            0
        };
        ClassFileVersion(major | preview_bit)
    }

    /// The text a reader is shown, e.g. `Java 21 preview (class file 65)`.
    pub fn to_string(&self) -> (text: String)
        ensures
            text@ == display_text(major_of(self.bits()), preview_of(self.bits())),
    {
        let major = self.major();
        let mut text = String::new();
        match self.java_version() {
            Some(release) => {
                text.append("Java ");
                append_decimal(&mut text, release);
                if self.preview() {
                    text.append(" preview (class file ");
                } else {
                    text.append(" (class file ");
                }
                append_decimal(&mut text, major);
                text.append(")");
            },
            None => {
                text.append("class file version ");
                append_decimal(&mut text, major);
            },
        }
        text
    }

    /// The text shown when debugging: the major version, the Java release and the
    /// preview flag.
    pub fn debug_string(&self) -> (text: String)
        ensures
            text@ == debug_text(major_of(self.bits()), preview_of(self.bits())),
    {
        let major = self.major();
        let mut text = String::new();
        text.append("ClassFileVersion { major: ");
        append_decimal(&mut text, major);
        text.append(", java_version: ");
        match self.java_version() {
            Some(release) => {
                text.append("Some(");
                append_decimal(&mut text, release);
                text.append(")");
            },
            None => {
                text.append("None");
            },
        }
        text.append(", preview: ");
        if self.preview() {
            text.append("true");
        } else {
            text.append("false");
        }
        text.append(" }");
        text
    }
}

impl TryFrom<RawClassFileVersion> for ClassFileVersion {
    type Error = VersionError;

    /// Compacts a raw version, or says why it has no compact form.
    fn try_from(value: RawClassFileVersion) -> (r: Result<Self, VersionError>)
        ensures
            match compact_version_spec(value) {
                Ok(bits) => r matches Ok(v) && v.bits() == bits,
                Err(e) => r == Err::<Self, VersionError>(e),
            },
    {
        if value.major > 0xff {
            return Err(VersionError::InvalidMajor { major: value.major });
        }
        let major = value.major as u8;
        let preview = if value.minor == 0 {
            false
        } else if value.minor == PREVIEW_MINOR {
            true
        } else {
            return Err(VersionError::InvalidMinor { major: value.major, minor: value.minor });
        };
        if major > MAJOR_BITS {
            return Err(VersionError::InvalidMajor { major: value.major });
        }
        if major < FIRST_PREVIEW_MAJOR && preview {
            return Err(VersionError::InvalidMajor { major: value.major });
        }
        Ok(Self::new_unchecked(major, preview))
    }
}

impl vstd::std_specs::convert::TryFromSpecImpl<RawClassFileVersion> for ClassFileVersion {
    open spec fn obeys_try_from_spec() -> bool {
        true
    }

    closed spec fn try_from_spec(value: RawClassFileVersion) -> Result<Self, VersionError> {
        match compact_version_spec(value) {
            Ok(bits) => Ok(ClassFileVersion(bits)),
            Err(e) => Err(e),
        }
    }
}

/// The text of one decimal digit.
fn digit_str(d: u8) -> (text: &'static str)
    requires
        d < 10,
    ensures
        text@ == seq![digit_char(d as nat)],
{
    if d == 0 {
        proof {
            reveal_strlit("0");
        }
        "0"
    } else if d == 1 {
        proof {
            reveal_strlit("1");
        }
        "1"
    } else if d == 2 {
        proof {
            reveal_strlit("2");
        }
        "2"
    } else if d == 3 {
        proof {
            reveal_strlit("3");
        }
        "3"
    } else if d == 4 {
        proof {
            reveal_strlit("4");
        }
        "4"
    } else if d == 5 {
        proof {
            reveal_strlit("5");
        }
        "5"
    } else if d == 6 {
        proof {
            reveal_strlit("6");
        }
        "6"
    } else if d == 7 {
        proof {
            reveal_strlit("7");
        }
        "7"
    } else if d == 8 {
        proof {
            reveal_strlit("8");
        }
        "8"
    } else {
        proof {
            reveal_strlit("9");
        }
        "9"
    }
}

/// Appends the decimal notation of `n`.
fn append_decimal(text: &mut String, n: u8)
    ensures
        final(text)@ == old(text)@ + decimal_text(n as nat),
{
    proof {
        reveal_with_fuel(decimal_text, 3);
    }
    if n >= 100 {
        text.append(digit_str(n / 100));
        text.append(digit_str((n / 10) % 10));
        text.append(digit_str(n % 10));
        proof {
            assert(decimal_text((n / 10) as nat) == decimal_text((n / 100) as nat).push(
                digit_char(((n / 10) % 10) as nat),
            ));
        }
    } else if n >= 10 {
        text.append(digit_str(n / 10));
        text.append(digit_str(n % 10));
    } else {
        text.append(digit_str(n));
    }
}

/// Storing a major below 128 keeps both the major and the preview flag: reading them
/// back gives what was stored.
pub proof fn lemma_compact_round_trip(major: u8, preview: bool)
    requires
        major <= MAJOR_BITS,
    ensures
        major_of(compact_bits(major, preview)) == major,
        preview_of(compact_bits(major, preview)) == preview,
{
    assert(major <= 0x7f ==> (major | 0x80u8) & 0x7f == major && (major | 0x80u8) & 0x80 != 0)
        by (bit_vector);
    assert(major <= 0x7f ==> (major | 0u8) & 0x7f == major && (major | 0u8) & 0x80 == 0)
        by (bit_vector);
}

/// Two versions with majors below 128 are stored alike exactly when their majors and
/// preview flags agree: a preview version never equals its non-preview counterpart.
pub proof fn lemma_compact_injective(major1: u8, preview1: bool, major2: u8, preview2: bool)
    requires
        major1 <= MAJOR_BITS,
        major2 <= MAJOR_BITS,
    ensures
        (compact_bits(major1, preview1) == compact_bits(major2, preview2)) <==> (major1 == major2
            && preview1 == preview2),
{
    lemma_compact_round_trip(major1, preview1);
    lemma_compact_round_trip(major2, preview2);
}

/// The Java release of a version depends on its major version only, not on whether it
/// is a preview version.
pub proof fn lemma_release_ignores_preview(major: u8)
    requires
        major <= MAJOR_BITS,
    ensures
        java_release(major_of(compact_bits(major, true))) == java_release(
            major_of(compact_bits(major, false)),
        ),
        java_release(major_of(compact_bits(major, true))) == java_release(major),
{
    lemma_compact_round_trip(major, true);
    lemma_compact_round_trip(major, false);
}

/// A raw version has a compact form exactly when its major fits in seven bits and its
/// minor is 0, or is the preview marker with a major from 56 on. The compact form keeps
/// the major, and is a preview version exactly when the minor is the preview marker.
pub proof fn lemma_compaction_keeps_version(raw: RawClassFileVersion)
    ensures
        compact_version_spec(raw) is Ok <==> (raw.major <= 127 && (raw.minor == 0 || (raw.minor
            == 0xffff && raw.major >= 56))),
        compact_version_spec(raw) matches Ok(bits) ==> bits & 0x7f == raw.major && (bits & 0x80
            != 0) == (raw.minor == 0xffff) && bits as int == raw.major + (if raw.minor == 0xffff {
            128int
        } else {
            0int
        }),
        raw.major > 255 ==> compact_version_spec(raw) == Err::<u8, VersionError>(
            VersionError::InvalidMajor { major: raw.major },
        ),
        raw.major <= 255 && raw.minor != 0 && raw.minor != 0xffff ==> compact_version_spec(raw)
            == Err::<u8, VersionError>(
            VersionError::InvalidMinor { major: raw.major, minor: raw.minor },
        ),
        (raw.minor == 0 || raw.minor == 0xffff) && (raw.major > 127 || (raw.minor == 0xffff
            && raw.major < 56)) ==> compact_version_spec(raw) == Err::<u8, VersionError>(
            VersionError::InvalidMajor { major: raw.major },
        ),
{
    if raw.major <= MAJOR_BITS {
        lemma_compact_round_trip(raw.major as u8, raw.minor == PREVIEW_MINOR);
        lemma_compact_bits_value(raw.major as u8, raw.minor == PREVIEW_MINOR);
    }
}

/// The compact byte of a major below 128 is the major, plus 128 for a preview
/// version; its low seven bits give the major back and its high bit the preview flag.
pub proof fn lemma_compact_bits_value(major: u8, preview: bool)
    requires
        major <= 127,
    ensures
        compact_bits(major, preview) as int == major + (if preview { 128int } else { 0int }),
        major_of(compact_bits(major, preview)) == compact_bits(major, preview) % 128,
        preview_of(compact_bits(major, preview)) == (compact_bits(major, preview) >= 128),
{
    assert(major <= 127 ==> (major | 0x80u8) as int == major + 128 && (major | 0u8) == major)
        by (bit_vector);
    let b = compact_bits(major, preview);
    assert(b & 0x7f == b % 128 && ((b & 0x80 != 0) == (b >= 128))) by (bit_vector);
}

} // verus!
