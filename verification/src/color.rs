use vstd::prelude::*;
use vstd::string::StringSliceAdditionalSpecFns;

verus! {

/// The value that the hash of a name starts from.
pub const HASH_START: u64 = 0xcbf2_9ce4_8422_2325;

/// The factor that the hash is multiplied by after each byte.
pub const HASH_FACTOR: u64 = 0x0000_0100_0000_01b3;

/// The hash after one more byte: the byte is folded into the low bits,
/// then the whole is multiplied, modulo 2^64.
pub open spec fn hash_step(hash: u64, byte: u8) -> u64 {
    (hash ^ (byte as u64)).wrapping_mul(HASH_FACTOR)
}

/// The hash of a sequence of bytes, taken from first to last.
pub open spec fn hash_bytes(bytes: Seq<u8>) -> u64
    decreases bytes.len(),
{
    if bytes.len() == 0 {
        HASH_START
    } else {
        hash_step(hash_bytes(bytes.drop_last()), bytes.last())
    }
}

/// The colour of a name: the low 24 bits of the hash of its UTF-8 bytes.
pub open spec fn name_color_of(name: Seq<char>) -> u32 {
    (hash_bytes(vstd::utf8::encode_utf8(name)) & 0xff_ffff) as u32
}

/// The colour that stands for a name, as `0xRRGGBB`. It depends on the
/// name alone.
pub fn name_color(name: &str) -> (color: u32)
    ensures
        color == name_color_of(name@),
        color <= 0xff_ffff,
{
    let bytes = name.as_bytes();
    let mut hash: u64 = HASH_START;
    let mut i: usize = 0;
    assert(bytes@.take(0).len() == 0);
    while i < bytes.len()
        invariant
            i <= bytes.len(),
            bytes@ == name.spec_bytes(),
            hash == hash_bytes(bytes@.take(i as int)),
        decreases bytes.len() - i,
    {
        assert(bytes@.take(i + 1).drop_last() == bytes@.take(i as int));
        hash = (hash ^ (bytes[i] as u64)).wrapping_mul(HASH_FACTOR);
        i = i + 1;
    }
    assert(bytes@.take(i as int) == bytes@);
    let low: u64 = hash & 0xff_ffff;
    assert(low <= 0xff_ffff) by (bit_vector)
        requires
            low == hash & 0xff_ffff,
    ;
    low as u32
}

/// The age in seconds at and beyond which a timestamp is shown black: five
/// years of 365 days.
pub const MAX_AGE: i64 = 157_680_000;

/// The colour of a timestamp that lies in the future.
pub const ACCENT: u32 = 0x3e_eca9;

/// For each gray level from 1 to 255, at index `level - 1`, the greatest
/// age in seconds that is still shown at that level or a brighter one.
///
/// With `a = age / MAX_AGE`, an age is shown at `level` or brighter when
/// `255 * (1 - log10(9 * a + 1))`, rounded to the nearest integer, is at
/// least `level`: that the limits are those of this formula is proved in
/// `fade::lemma_gray_level_follows_fade`.
pub const AGE_LIMITS: [u32; 255] = [
    156_890_777, 155_322_981, 153_769_278, 152_229_542, 150_703_646, 149_191_467,
    147_692_881, 146_207_766, 144_736_001, 143_277_465, 141_832_041, 140_399_609,
    138_980_054, 137_573_260, 136_179_111, 134_797_494, 133_428_297, 132_071_408,
    130_726_716, 129_394_111, 128_073_486, 126_764_731, 125_467_741, 124_182_410,
    122_908_633, 121_646_306, 120_395_326, 119_155_592, 117_927_001, 116_709_455,
    115_502_853, 114_307_097, 113_122_090, 111_947_735, 110_783_937, 109_630_600,
    108_487_631, 107_354_935, 106_232_422, 105_119_999, 104_017_576, 102_925_063,
    101_842_370, 100_769_410, 99_706_094, 98_652_337, 97_608_053, 96_573_155,
    95_547_560, 94_531_185, 93_523_945, 92_525_760, 91_536_548, 90_556_228,
    89_584_720, 88_621_945, 87_667_824, 86_722_280, 85_785_236, 84_856_615,
    83_936_342, 83_024_340, 82_120_537, 81_224_858, 80_337_231, 79_457_583,
    78_585_842, 77_721_937, 76_865_797, 76_017_354, 75_176_537, 74_343_279,
    73_517_511, 72_699_165, 71_888_176, 71_084_477, 70_288_003, 69_498_688,
    68_716_468, 67_941_280, 67_173_060, 66_411_746, 65_657_275, 64_909_586,
    64_168_618, 63_434_311, 62_706_605, 61_985_440, 61_270_757, 60_562_499,
    59_860_608, 59_165_026, 58_475_697, 57_792_564, 57_115_572, 56_444_665,
    55_779_789, 55_120_890, 54_467_914, 53_820_807, 53_179_518, 52_543_993,
    51_914_181, 51_290_030, 50_671_490, 50_058_509, 49_451_039, 48_849_030,
    48_252_432, 47_661_197, 47_075_277, 46_494_624, 45_919_190, 45_348_929,
    44_783_794, 44_223_738, 43_668_718, 43_118_686, 42_573_599, 42_033_412,
    41_498_080, 40_967_561, 40_441_810, 39_920_786, 39_404_445, 38_892_745,
    38_385_646, 37_883_104, 37_385_080, 36_891_533, 36_402_422, 35_917_708,
    35_437_351, 34_961_312, 34_489_553, 34_022_033, 33_558_717, 33_099_565,
    32_644_541, 32_193_607, 31_746_726, 31_303_863, 30_864_980, 30_430_043,
    29_999_015, 29_571_862, 29_148_548, 28_729_040, 28_313_303, 27_901_303,
    27_493_006, 27_088_380, 26_687_391, 26_290_006, 25_896_193, 25_505_921,
    25_119_157, 24_735_869, 24_356_027, 23_979_599, 23_606_555, 23_236_864,
    22_870_497, 22_507_423, 22_147_612, 21_791_036, 21_437_665, 21_087_471,
    20_740_424, 20_396_498, 20_055_662, 19_717_891, 19_383_156, 19_051_430,
    18_722_685, 18_396_896, 18_074_036, 17_754_077, 17_436_995, 17_122_763,
    16_811_356, 16_502_748, 16_196_914, 15_893_829, 15_593_469, 15_295_809,
    15_000_824, 14_708_491, 14_418_786, 14_131_685, 13_847_165, 13_565_203,
    13_285_775, 13_008_858, 12_734_431, 12_462_471, 12_192_956, 11_925_863,
    11_661_171, 11_398_859, 11_138_904, 10_881_287, 10_625_985, 10_372_978,
    10_122_245, 9_873_766, 9_627_521, 9_383_489, 9_141_651, 8_901_986,
    8_664_477, 8_429_102, 8_195_843, 7_964_680, 7_735_596, 7_508_571,
    7_283_587, 7_060_625, 6_839_667, 6_620_696, 6_403_692, 6_188_640,
    5_975_521, 5_764_317, 5_555_012, 5_347_588, 5_142_029, 4_938_318,
    4_736_438, 4_536_373, 4_338_106, 4_141_621, 3_946_903, 3_753_934,
    3_562_701, 3_373_186, 3_185_375, 2_999_253, 2_814_803, 2_632_012,
    2_450_863, 2_271_343, 2_093_437, 1_917_130, 1_742_407, 1_569_256,
    1_397_660, 1_227_608, 1_059_083, 892_074, 726_566, 562_546,
    400_000, 238_916, 79_279,
];

/// The brightest of the levels `1..=level` whose limit `age` does not
/// exceed, or 0 where it exceeds them all.
pub open spec fn level_from(age: int, level: int) -> int
    decreases level,
{
    if level <= 0 {
        0
    } else if level <= 255 && age <= AGE_LIMITS[level - 1] {
        level
    } else {
        level_from(age, level - 1)
    }
}

/// The gray level, from 0 (black) to 255 (white), of an age in seconds
/// that is not negative.
pub open spec fn gray_level(age: int) -> int {
    level_from(age, 255)
}

/// The colour `0xRRGGBB` whose three channels all hold `level`.
pub open spec fn gray_rgb(level: int) -> u32 {
    (level * 0x01_0101) as u32
}

/// The colour of a timestamp `then` as seen at the time `now`, both in
/// seconds: the accent colour for a timestamp in the future, else the gray
/// of its age.
pub open spec fn gray_color(now: int, then: int) -> u32 {
    if then > now {
        ACCENT
    } else {
        gray_rgb(gray_level(now - then))
    }
}

/// A level found by `level_from` lies between 0 and the level it started at.
pub proof fn lemma_level_range(age: int, level: int)
    requires
        0 <= level <= 255,
    ensures
        0 <= level_from(age, level) <= level,
    decreases level,
{
    if level > 0 {
        lemma_level_range(age, level - 1);
    }
}

/// The older of two timestamps is never the brighter one.
pub proof fn lemma_older_is_darker(younger: int, older: int, level: int)
    requires
        younger <= older,
        0 <= level <= 255,
    ensures
        level_from(older, level) <= level_from(younger, level),
    decreases level,
{
    if level > 0 {
        lemma_older_is_darker(younger, older, level - 1);
        lemma_level_range(older, level - 1);
    }
}

/// The colour that shows how long ago `then` was, seen from `now`.
pub fn grayscale_from_age(now: i64, then: i64) -> (color: u32)
    ensures
        color == gray_color(now as int, then as int),
{
    if then > now {
        return ACCENT;
    }
    let age: i128 = now as i128 - then as i128;
    if age > AGE_LIMITS[0] as i128 {
        proof {
            lemma_dark_beyond(age as int, 255);
        }
        return 0;
    }
    let mut level: usize = 255;
    while level > 0 && age > AGE_LIMITS[level - 1] as i128
        invariant
            level <= 255,
            gray_level(age as int) == level_from(age as int, level as int),
        decreases level,
    {
        level = level - 1;
    }
    let gray: u32 = level as u32;
    gray * 0x01_0101
}

/// Beyond the limit of level 1 no level is reached.
proof fn lemma_dark_beyond(age: int, level: int)
    requires
        age > AGE_LIMITS[0],
        0 <= level <= 255,
    ensures
        level_from(age, level) == 0,
    decreases level,
{
    if level > 0 {
        lemma_dark_beyond(age, level - 1);
        assert(AGE_LIMITS[level - 1] <= AGE_LIMITS[0]);
    }
}

/// The ends of the gray scale: a timestamp in the future has the accent
/// colour, one of this very second is white, and one that is `MAX_AGE`
/// seconds old or older is black.
pub proof fn lemma_gray_boundaries(now: int, then: int)
    ensures
        then > now ==> gray_color(now, then) == ACCENT,
        then == now ==> gray_color(now, then) == 0xff_ffff,
        now - then >= MAX_AGE ==> gray_color(now, then) == 0,
{
    if now - then >= MAX_AGE {
        lemma_dark_beyond(now - then, 255);
    }
}

/// Of two timestamps that are not in the future, the older one is never
/// shown brighter.
pub proof fn lemma_gray_fades(now: int, older: int, younger: int)
    requires
        older <= younger <= now,
    ensures
        gray_level(now - older) <= gray_level(now - younger),
        0 <= gray_level(now - older) <= 255,
{
    lemma_older_is_darker(now - younger, now - older, 255);
    lemma_level_range(now - older, 255);
}

} // verus!
