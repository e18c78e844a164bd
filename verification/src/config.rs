//! The typed side of the server's configuration: the enumerated settings
//! with their spellings in a properties file, parsers for the scalar values
//! the listener needs, and the reading of the end-user agreement flag.

use vstd::prelude::*;
use vstd::string::StringSliceAdditionalSpecFns;

use crate::text::{find_byte, lower_byte, spec_find_byte, str_eq};

verus! {

/// The server's difficulty setting.
#[derive(Debug, Clone, Copy, PartialEq, Eq, Structural)]
pub enum Difficulty {
    EASY,
    NORMAL,
    HARD,
}

/// The default game mode given to players.
#[derive(Debug, Clone, Copy, PartialEq, Eq, Structural)]
pub enum Gamemode {
    ADVENTURE,
    SURVIVAL,
    CREATIVE,
    SPECTATOR,
}

/// The preset used to generate the world.
#[derive(Debug, Clone, Copy, PartialEq, Eq, Structural)]
pub enum WorlPreset {
    NORMAL,
    FLAT,
    LARGEBIOMES,
    AMPLIFIED,
    SINGLEBIOMESURFACE,
}

/// The difficulty a configuration value names; an unknown spelling falls
/// back to easy.
pub open spec fn spec_difficulty_of(name: Seq<char>) -> Difficulty {
    if name == "normal"@ {
        Difficulty::NORMAL
    } else if name == "easy"@ {
        Difficulty::EASY
    } else if name == "hard"@ {
        Difficulty::HARD
    } else {
        Difficulty::EASY
    }
}

/// Maps a configuration value to the difficulty it names.
pub fn difficulty_of(name: &str) -> (r: Difficulty)
    ensures
        r == spec_difficulty_of(name@),
{
    if str_eq(name, "normal") {
        Difficulty::NORMAL
    } else if str_eq(name, "easy") {
        Difficulty::EASY
    } else if str_eq(name, "hard") {
        Difficulty::HARD
    } else {
        Difficulty::EASY
    }
}

/// The game mode a configuration value names; an unknown spelling falls
/// back to survival.
pub open spec fn spec_gamemode_of(name: Seq<char>) -> Gamemode {
    if name == "creative"@ {
        Gamemode::CREATIVE
    } else if name == "survival"@ {
        Gamemode::SURVIVAL
    } else if name == "spectator"@ {
        Gamemode::SPECTATOR
    } else if name == "adventure"@ {
        Gamemode::ADVENTURE
    } else {
        Gamemode::SURVIVAL
    }
}

/// Maps a configuration value to the game mode it names.
pub fn gamemode_of(name: &str) -> (r: Gamemode)
    ensures
        r == spec_gamemode_of(name@),
{
    if str_eq(name, "creative") {
        Gamemode::CREATIVE
    } else if str_eq(name, "survival") {
        Gamemode::SURVIVAL
    } else if str_eq(name, "spectator") {
        Gamemode::SPECTATOR
    } else if str_eq(name, "adventure") {
        Gamemode::ADVENTURE
    } else {
        Gamemode::SURVIVAL
    }
}

/// The world preset a configuration value names; an unknown spelling falls
/// back to normal.
pub open spec fn spec_world_preset_of(name: Seq<char>) -> WorlPreset {
    if name == "normal"@ {
        WorlPreset::NORMAL
    } else if name == "flat"@ {
        WorlPreset::FLAT
    } else if name == "large_biomes"@ {
        WorlPreset::LARGEBIOMES
    } else if name == "amplified"@ {
        WorlPreset::SINGLEBIOMESURFACE
    } else if name == "single_biome_surface"@ {
        WorlPreset::AMPLIFIED
    } else {
        WorlPreset::NORMAL
    }
}

/// Maps a configuration value to the world preset it names.
pub fn world_preset_of(name: &str) -> (r: WorlPreset)
    ensures
        r == spec_world_preset_of(name@),
{
    if str_eq(name, "normal") {
        WorlPreset::NORMAL
    } else if str_eq(name, "flat") {
        WorlPreset::FLAT
    } else if str_eq(name, "large_biomes") {
        WorlPreset::LARGEBIOMES
    } else if str_eq(name, "amplified") {
        WorlPreset::SINGLEBIOMESURFACE
    } else if str_eq(name, "single_biome_surface") {
        WorlPreset::AMPLIFIED
    } else {
        WorlPreset::NORMAL
    }
}

/// The boolean a configuration value names: exactly `true` or `false`.
pub open spec fn spec_parse_bool(name: Seq<char>) -> Option<bool> {
    if name == "true"@ {
        Some(true)
    } else if name == "false"@ {
        Some(false)
    } else {
        None
    }
}

/// Parses a configuration value as a boolean.
pub fn parse_bool(name: &str) -> (r: Option<bool>)
    ensures
        r == spec_parse_bool(name@),
{
    if str_eq(name, "true") {
        Some(true)
    } else if str_eq(name, "false") {
        Some(false)
    } else {
        None
    }
}

/// Whether `b` is an ASCII decimal digit.
pub open spec fn is_digit(b: u8) -> bool {
    48 <= b <= 57
}

/// Whether every byte of `s` is an ASCII decimal digit.
pub open spec fn all_digits(s: Seq<u8>) -> bool {
    forall|i: int| 0 <= i < s.len() ==> is_digit(#[trigger] s[i])
}

/// The number the decimal digits `s` spell, most significant first.
pub open spec fn spec_dec_value(s: Seq<u8>) -> int
    decreases s.len(),
{
    if s.len() == 0 {
        0
    } else {
        spec_dec_value(s.drop_last()) * 10 + (s.last() - 48)
    }
}

/// A digit string's value is never negative.
proof fn lemma_dec_value_nonneg(s: Seq<u8>)
    requires
        forall|i: int| 0 <= i < s.len() ==> is_digit(#[trigger] s[i]),
    ensures
        spec_dec_value(s) >= 0,
    decreases s.len(),
{
    if s.len() == 0 {
    } else {
        assert(forall|i: int| 0 <= i < s.len() - 1 ==> s.drop_last()[i] == s[i]);
        lemma_dec_value_nonneg(s.drop_last());
    }
}

/// More digits never shrink the value.
proof fn lemma_dec_value_extend(s: Seq<u8>, k: int)
    requires
        0 <= k <= s.len(),
        forall|i: int| 0 <= i < s.len() ==> is_digit(#[trigger] s[i]),
    ensures
        spec_dec_value(s) >= spec_dec_value(s.take(k)),
    decreases s.len() - k,
{
    if k == s.len() {
        assert(s.take(k) =~= s);
    } else {
        assert(forall|i: int| 0 <= i < k + 1 ==> s.take(k + 1)[i] == s[i]);
        assert(s.take(k + 1).drop_last() =~= s.take(k));
        assert(forall|i: int| 0 <= i < k ==> s.take(k)[i] == s[i]);
        lemma_dec_value_nonneg(s.take(k));
        lemma_dec_value_extend(s, k + 1);
    }
}

/// The number an unsigned decimal names: an optional leading `+`, then
/// digits, the value at most `max`.
pub open spec fn spec_parse_unsigned(s: Seq<u8>, max: int) -> Option<int> {
    let digits = if s.len() > 0 && s[0] == 43 {
        s.drop_first()
    } else {
        s
    };
    if digits.len() == 0 {
        None
    } else if !all_digits(digits) {
        None
    } else if spec_dec_value(digits) > max {
        None
    } else {
        Some(spec_dec_value(digits))
    }
}

/// The number a signed decimal names: an optional `+` or `-`, then digits,
/// the value within `min ..= max`.
pub open spec fn spec_parse_signed(s: Seq<u8>, min: int, max: int) -> Option<int> {
    if s.len() > 0 && s[0] == 45 {
        let digits = s.drop_first();
        if digits.len() == 0 {
            None
        } else if !all_digits(digits) {
            None
        } else if -spec_dec_value(digits) < min {
            None
        } else {
            Some(-spec_dec_value(digits))
        }
    } else {
        spec_parse_unsigned(s, max)
    }
}

/// Reads the decimal digits of `b` from `start` on: their value, when every
/// remaining byte is a digit, there is at least one, and the value stays
/// within `max`.
fn digits_value(b: &[u8], start: usize, max: u64) -> (r: Option<u64>)
    requires
        start <= b@.len(),
    ensures
        ({
            let digits = b@.skip(start as int);
            match r {
                Some(v) => digits.len() > 0 && all_digits(digits) && v as int == spec_dec_value(
                    digits,
                ) && spec_dec_value(digits) <= max as int,
                None => digits.len() == 0 || !all_digits(digits) || spec_dec_value(digits)
                    > max as int,
            }
        }),
{
    if b.len() == start {
        return None;
    }
    let mut value: u128 = 0;
    let mut i: usize = start;
    while i < b.len()
        invariant
            start <= i <= b@.len(),
            b@.len() > start,
            forall|j: int| start <= j < i ==> is_digit(#[trigger] b@[j]),
            value == spec_dec_value(b@.skip(start as int).take(i - start)),
            value <= max as u128,
        decreases b@.len() - i,
    {
        let ghost dig = b@.skip(start as int);
        proof {
            assert(forall|j: int| 0 <= j < dig.len() ==> #[trigger] dig[j] == b@[j + start]);
        }
        let c = b[i];
        if c < 48 || c > 57 {
            proof {
                assert(dig[i - start] == b@[i as int]);
                assert(!all_digits(dig));
            }
            return None;
        }
        let d = (c - 48) as u128;
        let next = value * 10 + d;
        proof {
            assert(dig.take(i - start + 1).drop_last() =~= dig.take(i - start));
            assert(dig.take(i - start + 1).last() == b@[i as int]);
        }
        if next > max as u128 {
            proof {
                assert(spec_dec_value(dig.take(i - start + 1)) == next);
                assert(forall|j: int| 0 <= j < i - start + 1 ==> is_digit(
                    #[trigger] dig.take(i - start + 1)[j],
                ));
                if all_digits(dig) {
                    lemma_dec_value_extend(dig, i - start + 1);
                }
            }
            return None;
        }
        value = next;
        i = i + 1;
    }
    proof {
        let dig = b@.skip(start as int);
        assert(dig.take(b@.len() - start) =~= dig);
        assert(forall|j: int| 0 <= j < dig.len() ==> #[trigger] dig[j] == b@[j + start]);
    }
    Some(value as u64)
}

/// Parses an unsigned decimal with bound `max`, skipping one leading `+`.
fn parse_unsigned(s: &str, max: u64) -> (r: Option<u64>)
    ensures
        match r {
            Some(v) => spec_parse_unsigned(s.spec_bytes(), max as int) == Some(v as int),
            None => spec_parse_unsigned(s.spec_bytes(), max as int) is None,
        },
{
    let b = s.as_bytes();
    let start: usize = if b.len() > 0 && b[0] == 43 {
        1
    } else {
        0
    };
    proof {
        if b@.len() > 0 && b@[0] == 43 {
            assert(b@.drop_first() =~= b@.skip(1));
        } else {
            assert(b@ =~= b@.skip(0));
        }
    }
    digits_value(b, start, max)
}

/// Parses a configuration value as an 8-bit unsigned number, such as a
/// permission level.
pub fn parse_u8(s: &str) -> (r: Option<u8>)
    ensures
        match r {
            Some(v) => spec_parse_unsigned(s.spec_bytes(), 255) == Some(v as int),
            None => spec_parse_unsigned(s.spec_bytes(), 255) is None,
        },
{
    match parse_unsigned(s, 255) {
        Some(v) => Some(v as u8),
        None => None,
    }
}

/// Parses a configuration value as a 16-bit unsigned number, such as a
/// port.
pub fn parse_u16(s: &str) -> (r: Option<u16>)
    ensures
        match r {
            Some(v) => spec_parse_unsigned(s.spec_bytes(), 65535) == Some(v as int),
            None => spec_parse_unsigned(s.spec_bytes(), 65535) is None,
        },
{
    match parse_unsigned(s, 65535) {
        Some(v) => Some(v as u16),
        None => None,
    }
}

/// Parses a configuration value as a 32-bit unsigned number, such as a
/// player limit.
pub fn parse_u32(s: &str) -> (r: Option<u32>)
    ensures
        match r {
            Some(v) => spec_parse_unsigned(s.spec_bytes(), 0xffff_ffff) == Some(v as int),
            None => spec_parse_unsigned(s.spec_bytes(), 0xffff_ffff) is None,
        },
{
    match parse_unsigned(s, 0xffff_ffff) {
        Some(v) => Some(v as u32),
        None => None,
    }
}

/// Parses a configuration value as a 32-bit signed number, such as a
/// compression threshold.
pub fn parse_i32(s: &str) -> (r: Option<i32>)
    ensures
        match r {
            Some(v) => spec_parse_signed(s.spec_bytes(), -0x8000_0000, 0x7fff_ffff) == Some(
                v as int,
            ),
            None => spec_parse_signed(s.spec_bytes(), -0x8000_0000, 0x7fff_ffff) is None,
        },
{
    let b = s.as_bytes();
    if b.len() > 0 && b[0] == 45 {
        proof {
            assert(b@.drop_first() =~= b@.skip(1));
        }
        match digits_value(b, 1, 0x8000_0000) {
            Some(v) => {
                if v == 0x8000_0000 {
                    Some(i32::MIN)
                } else {
                    Some(-(v as i32))
                }
            },
            None => None,
        }
    } else {
        match parse_unsigned(s, 0x7fff_ffff) {
            Some(v) => Some(v as i32),
            None => None,
        }
    }
}

/// Parses a configuration value as a 64-bit signed number, such as a world
/// seed.
pub fn parse_i64(s: &str) -> (r: Option<i64>)
    ensures
        match r {
            Some(v) => spec_parse_signed(
                s.spec_bytes(),
                -0x8000_0000_0000_0000,
                0x7fff_ffff_ffff_ffff,
            ) == Some(v as int),
            None => spec_parse_signed(
                s.spec_bytes(),
                -0x8000_0000_0000_0000,
                0x7fff_ffff_ffff_ffff,
            ) is None,
        },
{
    let b = s.as_bytes();
    if b.len() > 0 && b[0] == 45 {
        proof {
            assert(b@.drop_first() =~= b@.skip(1));
        }
        match digits_value(b, 1, 0x8000_0000_0000_0000) {
            Some(v) => {
                if v == 0x8000_0000_0000_0000 {
                    Some(i64::MIN)
                } else {
                    Some(-(v as i64))
                }
            },
            None => None,
        }
    } else {
        match parse_unsigned(s, 0x7fff_ffff_ffff_ffff) {
            Some(v) => Some(v as i64),
            None => None,
        }
    }
}

/// The bytes that open an agreement line: `eula=`.
pub open spec fn spec_eula_prefix() -> Seq<u8> {
    seq![101u8, 117u8, 108u8, 97u8, 61u8]
}

/// Whether a line assigns the end-user agreement flag: it starts with
/// `eula=`.
pub open spec fn spec_is_eula_line(line: Seq<u8>) -> bool {
    line.len() >= 5 && line.take(5) == spec_eula_prefix()
}

/// Whether `line` is an agreement line.
pub fn is_eula_line(line: &[u8]) -> (r: bool)
    ensures
        r == spec_is_eula_line(line@),
{
    if line.len() < 5 {
        return false;
    }
    let r = line[0] == 101 && line[1] == 117 && line[2] == 108 && line[3] == 97 && line[4] == 61;
    proof {
        if r {
            assert(line@.take(5) =~= spec_eula_prefix());
        } else {
            assert(forall|k: int| 0 <= k < 5 ==> #[trigger] line@.take(5)[k] == line@[k]);
        }
    }
    r
}

/// Whether an agreement line turns the flag on: the text between the first
/// `=` and the next `=` or the end of the line, case-folded, is `true`.
pub open spec fn spec_eula_line_agreed(line: Seq<u8>) -> bool {
    if line.len() < 5 {
        false
    } else {
        let after = line.skip(5);
        let seg = after.take(spec_find_byte(after, 61));
        crate::text::spec_lower(seg) == seq![116u8, 114u8, 117u8, 101u8]
    }
}

/// The ASCII case folding of one byte.
fn lower_b(b: u8) -> (r: u8)
    ensures
        r == lower_byte(b),
{
    if 65 <= b && b <= 90 {
        b + 32
    } else {
        b
    }
}

/// Reads the agreement value out of one line.
pub fn eula_line_agreed(line: &[u8]) -> (r: bool)
    ensures
        r == spec_eula_line_agreed(line@),
{
    if line.len() < 5 {
        return false;
    }
    let end = find_byte(line, 5, 61);
    let seg = &line[5..end];
    proof {
        let after = line@.skip(5);
        assert(seg@ =~= after.take(spec_find_byte(after, 61)));
    }
    if seg.len() != 4 {
        proof {
            assert(crate::text::spec_lower(seg@).len() == seg@.len());
        }
        return false;
    }
    let r = lower_b(seg[0]) == 116 && lower_b(seg[1]) == 114 && lower_b(seg[2]) == 117 && lower_b(
        seg[3],
    ) == 101;
    proof {
        let lowered = crate::text::spec_lower(seg@);
        assert(lowered.len() == 4);
        assert(lowered[0] == lower_byte(seg@[0]) && lowered[1] == lower_byte(seg@[1]) && lowered[2]
            == lower_byte(seg@[2]) && lowered[3] == lower_byte(seg@[3]));
        if r {
            assert(lowered =~= seq![116u8, 114u8, 117u8, 101u8]);
        }
    }
    r
}

} // verus!
