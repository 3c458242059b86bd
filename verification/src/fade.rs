use crate::color::{gray_level, lemma_level_range, level_from, AGE_LIMITS, MAX_AGE};
use vstd::arithmetic::power::{
    lemma_pow0, lemma_pow1, lemma_pow_adds, lemma_pow_distributes, lemma_pow_increases,
    lemma_pow_multiplies, lemma_pow_positive, pow,
};
use vstd::prelude::*;

verus! {

/// The fade of an age reaches a level: with `a = age / MAX_AGE`, the value
/// `255 * (1 - log10(9 * a + 1))` is at least `level - 1/2`, so that it
/// rounds to `level` or more.
///
/// Stated in whole numbers: `log10(9 * a + 1) <= (511 - 2 * level) / 510`,
/// with both sides taken as exponents of ten, raised to the 510th power
/// and multiplied by `MAX_AGE^510 * 100^level`.
pub open spec fn fade_reaches(age: int, level: int) -> bool {
    pow(9 * age + MAX_AGE, 510) * pow(100, level as nat) <= pow(10, 511) * pow(MAX_AGE as int, 510)
}

/// Powers of numbers that are not negative grow with the base.
pub proof fn lemma_pow_base_increases(a: int, b: int, n: nat)
    requires
        0 <= a <= b,
    ensures
        0 <= pow(a, n) <= pow(b, n),
    decreases n,
{
    reveal(pow);
    if n > 0 {
        lemma_pow_base_increases(a, b, (n - 1) as nat);
        let x = pow(a, (n - 1) as nat);
        let y = pow(b, (n - 1) as nat);
        assert(0 <= a * x <= b * y) by (nonlinear_arith)
            requires
                0 <= a <= b,
                0 <= x <= y,
        ;
    }
}

/// Powers of numbers that are not negative grow strictly with the base.
pub proof fn lemma_pow_base_strictly_increases(a: int, b: int, n: nat)
    requires
        0 <= a < b,
        n > 0,
    ensures
        pow(a, n) < pow(b, n),
    decreases n,
{
    reveal(pow);
    let x = pow(a, (n - 1) as nat);
    let y = pow(b, (n - 1) as nat);
    lemma_pow_base_increases(a, b, (n - 1) as nat);
    lemma_pow_positive(b, (n - 1) as nat);
    assert(a * x < b * y) by (nonlinear_arith)
        requires
            0 <= a < b,
            0 <= x <= y,
            0 < y,
    ;
}

/// The scale in which the bounds below are kept: 2^64.
pub const SCALE: u128 = 0x1_0000_0000_0000_0000;

/// A number just below `SCALE` times the 510th root of ten.
pub const ROOT_BELOW: u128 = 18_530_217_068_691_487_046;

/// A number just above `SCALE` times the 510th root of ten.
pub const ROOT_ABOVE: u128 = 18_530_217_068_691_487_053;

/// From bounds above two powers of `a`, in the scale `s`, a bound above
/// their product.
pub proof fn lemma_power_below_adds(a: int, s: int, m: nat, n: nat, um: int, un: int, umn: int)
    requires
        0 < a,
        0 < s,
        m >= 1,
        n >= 1,
        pow(a, m) <= um * pow(s, (m - 1) as nat),
        pow(a, n) <= un * pow(s, (n - 1) as nat),
        um * un <= umn * s,
    ensures
        pow(a, m + n) <= umn * pow(s, (m + n - 1) as nat),
{
    let am = pow(a, m);
    let an = pow(a, n);
    let sm = pow(s, (m - 1) as nat);
    let sn = pow(s, (n - 1) as nat);
    lemma_pow_adds(a, m, n);
    lemma_pow_adds(s, (m - 1) as nat, (n - 1) as nat);
    lemma_pow_adds(s, (m + n - 2) as nat, 1);
    lemma_pow1(s);
    lemma_pow_positive(a, m);
    lemma_pow_positive(a, n);
    lemma_pow_positive(s, (m - 1) as nat);
    lemma_pow_positive(s, (n - 1) as nat);
    assert(0 < um && 0 < un) by (nonlinear_arith)
        requires
            0 < am <= um * sm,
            0 < an <= un * sn,
            0 < sm,
            0 < sn,
    ;
    assert(am * an <= (um * sm) * (un * sn)) by (nonlinear_arith)
        requires
            0 < am <= um * sm,
            0 < an <= un * sn,
    ;
    assert((um * sm) * (un * sn) == (um * un) * (sm * sn)) by (nonlinear_arith);
    assert((um * un) * (sm * sn) <= (umn * s) * (sm * sn)) by (nonlinear_arith)
        requires
            um * un <= umn * s,
            0 < sm,
            0 < sn,
    ;
    assert((umn * s) * (sm * sn) == umn * ((sm * sn) * s)) by (nonlinear_arith);
}

/// From bounds below two powers of `a`, in the scale `s`, a bound below
/// their product.
pub proof fn lemma_power_above_adds(a: int, s: int, m: nat, n: nat, lm: int, ln: int, lmn: int)
    requires
        0 < a,
        0 < s,
        m >= 1,
        n >= 1,
        0 <= lm,
        0 <= ln,
        pow(a, m) >= lm * pow(s, (m - 1) as nat),
        pow(a, n) >= ln * pow(s, (n - 1) as nat),
        lm * ln >= lmn * s,
    ensures
        pow(a, m + n) >= lmn * pow(s, (m + n - 1) as nat),
{
    let am = pow(a, m);
    let an = pow(a, n);
    let sm = pow(s, (m - 1) as nat);
    let sn = pow(s, (n - 1) as nat);
    lemma_pow_adds(a, m, n);
    lemma_pow_adds(s, (m - 1) as nat, (n - 1) as nat);
    lemma_pow_adds(s, (m + n - 2) as nat, 1);
    lemma_pow1(s);
    lemma_pow_positive(s, (m - 1) as nat);
    lemma_pow_positive(s, (n - 1) as nat);
    assert(am * an >= (lm * sm) * (ln * sn)) by (nonlinear_arith)
        requires
            am >= lm * sm,
            an >= ln * sn,
            0 <= lm,
            0 <= ln,
            0 < sm,
            0 < sn,
    ;
    assert((lm * sm) * (ln * sn) == (lm * ln) * (sm * sn)) by (nonlinear_arith);
    assert((lm * ln) * (sm * sn) >= (lmn * s) * (sm * sn)) by (nonlinear_arith)
        requires
            lm * ln >= lmn * s,
            0 < sm,
            0 < sn,
    ;
    assert((lmn * s) * (sm * sn) == lmn * ((sm * sn) * s)) by (nonlinear_arith);
}

/// The 510th power of `ROOT_BELOW` is at most ten times that of `SCALE`.
pub proof fn lemma_root_below()
    ensures
        pow(ROOT_BELOW as int, 510) <= 10 * pow(SCALE as int, 510),
{
    let root = ROOT_BELOW as int;
    let scale = SCALE as int;
    let bound_1 = root;
    lemma_pow1(root);
    lemma_pow0(scale);
    let bound_2: int = 18_614_067_785_664_003_172;
    lemma_power_below_adds(root, scale, 1, 1, bound_1, bound_1, bound_2);
    let bound_3: int = 18_698_297_933_849_372_407;
    lemma_power_below_adds(root, scale, 2, 1, bound_2, bound_1, bound_3);
    let bound_6: int = 18_953_282_174_130_989_102;
    lemma_power_below_adds(root, scale, 3, 3, bound_3, bound_3, bound_6);
    let bound_12: int = 19_473_729_550_148_884_794;
    lemma_power_below_adds(root, scale, 6, 6, bound_6, bound_6, bound_12);
    let bound_15: int = 19_739_288_166_893_641_552;
    lemma_power_below_adds(root, scale, 12, 3, bound_12, bound_3, bound_15);
    let bound_30: int = 21_122_399_474_874_522_325;
    lemma_power_below_adds(root, scale, 15, 15, bound_15, bound_15, bound_30);
    let bound_60: int = 24_186_152_189_970_710_454;
    lemma_power_below_adds(root, scale, 30, 30, bound_30, bound_30, bound_60);
    let bound_120: int = 31_711_284_951_913_486_646;
    lemma_power_below_adds(root, scale, 60, 60, bound_60, bound_60, bound_120);
    let bound_240: int = 54_513_988_446_050_592_880;
    lemma_power_below_adds(root, scale, 120, 120, bound_120, bound_120, bound_240);
    let bound_255: int = 58_333_726_687_135_156_455;
    lemma_power_below_adds(root, scale, 240, 15, bound_240, bound_15, bound_255);
    let bound_510: int = 184_467_440_737_095_501_022;
    lemma_power_below_adds(root, scale, 255, 255, bound_255, bound_255, bound_510);
    lemma_pow_adds(scale, 509, 1);
    lemma_pow1(scale);
    lemma_pow_positive(scale, 509);
    assert(bound_510 * pow(scale, 509) <= (10 * scale) * pow(scale, 509)) by (nonlinear_arith)
        requires
            bound_510 <= 10 * scale,
            0 < pow(scale, 509),
    ;
    assert((10 * scale) * pow(scale, 509) == 10 * (pow(scale, 509) * scale)) by (nonlinear_arith);
}

/// The 510th power of `ROOT_ABOVE` is at least ten times that of `SCALE`.
pub proof fn lemma_root_above()
    ensures
        pow(ROOT_ABOVE as int, 510) >= 10 * pow(SCALE as int, 510),
{
    let root = ROOT_ABOVE as int;
    let scale = SCALE as int;
    let bound_1 = root;
    lemma_pow1(root);
    lemma_pow0(scale);
    let bound_2: int = 18_614_067_785_664_003_185;
    lemma_power_above_adds(root, scale, 1, 1, bound_1, bound_1, bound_2);
    let bound_3: int = 18_698_297_933_849_372_427;
    lemma_power_above_adds(root, scale, 2, 1, bound_2, bound_1, bound_3);
    let bound_6: int = 18_953_282_174_130_989_142;
    lemma_power_above_adds(root, scale, 3, 3, bound_3, bound_3, bound_6);
    let bound_12: int = 19_473_729_550_148_884_875;
    lemma_power_above_adds(root, scale, 6, 6, bound_6, bound_6, bound_12);
    let bound_15: int = 19_739_288_166_893_641_654;
    lemma_power_above_adds(root, scale, 12, 3, bound_12, bound_3, bound_15);
    let bound_30: int = 21_122_399_474_874_522_542;
    lemma_power_above_adds(root, scale, 15, 15, bound_15, bound_15, bound_30);
    let bound_60: int = 24_186_152_189_970_710_950;
    lemma_power_above_adds(root, scale, 30, 30, bound_30, bound_30, bound_60);
    let bound_120: int = 31_711_284_951_913_487_945;
    lemma_power_above_adds(root, scale, 60, 60, bound_60, bound_60, bound_120);
    let bound_240: int = 54_513_988_446_050_597_346;
    lemma_power_above_adds(root, scale, 120, 120, bound_120, bound_120, bound_240);
    let bound_255: int = 58_333_726_687_135_161_534;
    lemma_power_above_adds(root, scale, 240, 15, bound_240, bound_15, bound_255);
    let bound_510: int = 184_467_440_737_095_533_144;
    lemma_power_above_adds(root, scale, 255, 255, bound_255, bound_255, bound_510);
    lemma_pow_adds(scale, 509, 1);
    lemma_pow1(scale);
    lemma_pow_positive(scale, 509);
    assert(bound_510 * pow(scale, 509) >= (10 * scale) * pow(scale, 509)) by (nonlinear_arith)
        requires
            bound_510 >= 10 * scale,
            0 < pow(scale, 509),
    ;
    assert((10 * scale) * pow(scale, 509) == 10 * (pow(scale, 509) * scale)) by (nonlinear_arith);
}

/// For each gray level from 1 to 255, at index `level - 1`, a number that
/// is at most `SCALE * MAX_AGE * 10^((511 - 2 * level) / 510)`.
pub const FADE_BELOW: [u128; 255] = [
    28_955_798_746_011_384_820_524_199_809, 28_695_512_182_935_680_011_420_104_821,
    28_437_565_361_737_311_436_672_255_375, 28_181_937_250_243_170_073_170_278_932,
    27_928_607_005_340_448_793_809_179_999, 27_677_553_971_277_160_456_241_943_565,
    27_428_757_677_977_932_804_044_327_581, 27_182_197_839_374_942_855_501_311_177,
    26_937_854_351_753_854_689_650_904_625, 26_695_707_292_114_625_762_550_885_807,
    26_455_736_916_547_048_099_067_252_588, 26_217_923_658_620_891_906_918_620_814,
    25_982_248_127_790_520_350_346_415_016, 25_748_691_107_813_845_400_713_573_913,
    25_517_233_555_185_495_850_660_833_508, 25_287_856_597_584_069_737_264_800_187,
    25_060_541_532_333_344_568_040_470_872, 24_835_269_824_877_319_881_706_233_741,
    24_612_023_107_268_967_803_474_486_440, 24_390_783_176_672_568_372_337_799_983,
    24_171_531_993_879_507_525_480_169_975, 23_954_251_681_837_416_722_645_647_482,
    23_738_924_524_192_534_281_132_033_064, 23_525_532_963_845_169_570_134_047_815,
    23_314_059_601_518_152_281_526_366_141, 23_104_487_194_338_150_052_939_217_570,
    22_896_798_654_429_738_768_224_267_388, 22_690_977_047_522_110_900_221_720_360,
    22_487_005_591_568_308_291_205_841_408, 22_284_867_655_376_866_787_589_372_833,
    22_084_546_757_255_761_157_490_915_174, 21_886_026_563_668_539_722_695_745_339,
    21_689_290_887_902_539_130_451_546_697, 21_494_323_688_749_070_675_517_161_715,
    21_301_109_069_195_470_559_005_060_433, 21_109_631_275_128_907_437_906_337_490,
    20_919_874_694_051_841_577_839_581_122, 20_731_823_853_809_030_871_600_065_033,
    20_545_463_421_325_979_927_580_861_185, 20_360_778_201_358_729_365_169_424_906,
    20_177_753_135_254_883_378_868_039_783, 19_996_373_299_725_774_549_219_621_208,
    19_816_623_905_629_665_786_716_479_123, 19_638_490_296_765_890_194_802_775_732,
    19_461_957_948_679_830_529_924_960_483, 19_287_012_467_478_640_820_411_140_535,
    19_113_639_588_657_613_581_842_214_707, 18_941_825_175_937_096_934_586_079_206,
    18_771_555_220_109_866_789_372_078_888, 18_602_815_837_898_860_119_256_266_988,
    18_435_593_270_825_176_181_138_457_069, 18_269_873_884_086_253_387_208_386_652,
    18_105_644_165_444_130_356_388_826_508, 17_942_890_724_123_700_498_075_813_392,
    17_781_600_289_720_870_295_317_399_160, 17_621_759_711_120_532_262_088_835_487,
    17_463_355_955_424_264_349_579_793_043, 17_306_376_106_887_668_369_473_297_525,
    17_150_807_365_867_260_788_131_216_346, 16_996_637_047_776_830_024_471_431_711,
    16_843_852_582_053_175_156_190_794_892, 16_692_441_511_131_141_703_918_508_574,
    16_542_391_489_427_870_920_939_099_129, 16_393_690_282_336_179_767_364_428_038,
    16_246_325_765_226_989_492_121_505_178, 16_100_285_922_460_721_483_917_909_447,
    15_955_558_846_407_579_783_509_551_733, 15_812_132_736_476_640_374_185_948_291,
    15_669_995_898_153_668_085_465_189_916, 15_529_136_742_047_582_656_612_943_761,
    15_389_543_782_945_496_211_825_133_557, 15_251_205_638_876_245_097_799_912_280,
    15_114_111_030_182_339_727_028_153_923, 14_978_248_778_600_256_756_509_420_675,
    14_843_607_806_348_998_611_808_173_587, 14_710_177_135_226_846_040_458_350_718,
    14_577_945_885_716_230_046_758_300_250, 14_446_903_276_096_650_222_026_896_528,
    14_317_038_621_565_567_140_469_464_171, 14_188_341_333_367_197_140_982_383_820,
    14_060_800_917_929_138_459_560_966_431, 13_934_406_976_006_758_315_518_898_326,
    13_809_149_201_835_271_187_531_341_425, 13_685_017_382_289_439_142_629_218_920,
    13_562_001_396_050_825_702_750_459_244, 13_440_091_212_782_535_349_345_683_844,
    13_319_276_892_311_371_376_891_224_884, 13_199_548_583_817_345_411_031_214_070,
    13_080_896_525_030_472_506_502_112_357, 12_963_311_041_434_786_334_036_328_179,
    12_846_782_545_479_509_554_144_935_461, 12_731_301_535_797_315_059_090_953_011,
    12_616_858_596_429_614_342_531_753_523, 12_503_444_396_058_809_829_279_075_269,
    12_391_049_687_247_448_565_444_530_774, 12_279_665_305_684_215_231_953_742_564,
    12_169_282_169_436_703_002_069_168_516, 12_059_891_278_210_901_316_205_777_958,
    11_951_483_712_617_340_195_000_065_376, 11_844_050_633_443_831_254_346_097_190,
    11_737_583_280_934_746_123_986_632_909, 11_632_072_974_076_773_504_286_701_695,
    11_527_511_109_891_096_624_064_811_295, 11_423_889_162_731_933_385_856_290_103,
    11_321_198_683_591_382_003_776_799_260, 11_219_431_299_410_515_453_284_101_044,
    11_118_578_712_396_668_561_644_652_803, 11_018_632_699_346_862_072_840_056_145,
    10_919_585_110_977_308_521_037_999_263, 10_821_427_871_258_945_242_643_886_314,
    10_724_152_976_758_940_348_383_285_191, 10_627_752_495_988_117_963_881_713_718,
    10_532_218_568_754_249_529_846_834_156, 10_437_543_405_521_158_431_258_189_638,
    10_343_719_286_773_585_698_970_192_943, 10_250_738_562_387_764_996_873_816_335,
    10_158_593_651_007_655_573_279_632_145, 10_067_277_039_426_782_316_517_474_178,
    9_976_781_281_975_632_511_933_645_492, 9_887_098_999_914_559_350_542_566_096,
    9_798_222_880_832_142_688_592_977_059, 9_710_145_678_048_958_002_275_905_701,
    9_622_860_210_026_704_922_768_831_174, 9_536_359_359_782_647_173_813_825_942,
    9_450_636_074_309_316_167_102_518_261, 9_365_683_363_999_430_939_922_835_397,
    9_281_494_302_075_987_544_846_641_071, 9_198_062_024_027_471_422_738_253_178,
    9_115_379_727_048_146_708_075_786_963, 9_033_440_669_483_376_829_534_373_531,
    8_952_238_170_279_931_179_016_306_544, 8_871_765_608_441_233_028_861_520_592,
    8_792_016_422_487_504_279_865_651_693, 8_712_984_109_920_763_022_005_124_345,
    8_634_662_226_694_630_285_451_805_967, 8_557_044_386_688_902_751_586_031_151,
    8_480_124_261_188_848_582_318_197_660, 8_403_895_578_369_183_911_137_358_858,
    8_328_352_122_782_687_920_951_683_825, 8_253_487_734_853_414_812_001_444_948,
    8_179_296_310_374_461_337_941_161_923, 8_105_771_800_010_248_959_634_242_074,
    8_032_908_208_803_280_034_311_196_354, 7_960_699_595_685_327_822_541_292_654,
    7_889_140_072_993_020_456_987_077_680, 7_818_223_805_987_779_375_181_032_809,
    7_747_945_012_380_073_073_612_940_217, 7_678_297_961_857_947_392_274_272_778,
    7_609_276_975_619_793_887_500_774_167, 7_540_876_425_911_318_196_514_795_683,
    7_473_090_735_566_670_639_523_079_521, 7_405_914_377_553_701_644_601_447_154,
    7_339_341_874_523_304_916_922_937_760, 7_273_367_798_362_811_607_187_768_199,
    7_207_986_769_753_399_064_419_229_203, 7_143_193_457_731_478_085_626_224_366,
    7_078_982_579_254_022_899_227_289_158, 7_015_348_898_767_808_440_609_046_613,
    6_952_287_227_782_519_796_780_376_916, 6_889_792_424_447_699_012_808_076_473,
    6_827_859_393_133_494_765_606_201_403, 6_766_483_084_015_180_720_725_142_537,
    6_705_658_492_661_408_695_073_046_340, 6_645_380_659_626_163_053_026_533_907,
    6_585_644_670_044_383_065_174_608_300, 6_526_445_653_231_220_258_013_785_679,
    6_467_778_782_284_898_079_298_223_569, 6_409_639_273_693_141_497_470_116_541,
    6_352_022_386_943_144_444_676_834_660, 6_294_923_424_135_043_301_345_927_173,
    6_238_337_729_598_864_906_160_723_516, 6_182_260_689_514_917_858_581_144_944,
    6_126_687_731_537_596_161_809_592_412, 6_071_614_324_422_564_532_333_291_717,
    6_017_035_977_657_294_977_904_941_442, 5_962_948_241_094_924_519_075_405_121,
    5_909_346_704_591_404_200_187_796_375, 5_856_226_997_645_909_804_103_704_391,
    5_803_584_789_044_484_950_881_378_340, 5_751_415_786_506_887_524_184_117_829,
    5_699_715_736_336_610_630_386_391_994, 5_648_480_423_074_049_554_186_628_880,
    5_597_705_669_152_786_431_050_284_489, 5_547_387_334_558_964_611_015_632_639,
    5_497_521_316_493_724_940_318_440_039, 5_448_103_549_038_676_436_950_846_737,
    5_399_130_002_824_374_083_684_716_806, 5_350_596_684_701_776_707_280_631_244,
    5_302_499_637_416_658_155_590_556_617, 5_254_834_939_286_945_225_064_851_434,
    5_207_598_703_882_956_029_812_301_825, 5_160_787_079_710_512_739_854_766_641,
    5_114_396_249_896_902_850_585_042_474, 5_068_422_431_879_663_377_696_840_868,
    5_022_861_877_098_162_602_028_240_909, 4_977_710_870_687_954_216_863_408_024,
    4_932_965_731_177_878_956_290_352_975, 4_888_622_810_189_889_007_233_475_391,
    4_844_678_492_141_570_729_786_859_693, 4_801_129_193_951_341_430_485_869_685,
    4_757_971_364_746_296_151_188_460_499, 4_715_201_485_572_680_652_311_570_769,
    4_672_816_069_108_966_983_299_591_831, 4_630_811_659_381_508_245_408_694_109,
    4_589_184_831_482_749_362_190_026_196, 4_547_932_191_291_970_881_463_636_756,
    4_507_050_375_198_543_039_110_396_135, 4_466_536_049_827_667_519_688_053_811,
    4_426_385_911_768_584_551_716_548_353, 4_386_596_687_305_223_176_493_327_295,
    4_347_165_132_149_272_728_508_125_397, 4_308_088_031_175_653_762_944_634_050,
    4_269_362_198_160_366_861_399_868_919, 4_230_984_475_520_697_940_836_759_442,
    4_192_951_734_057_758_882_927_351_272, 4_155_260_872_701_342_491_358_697_805,
    4_117_908_818_257_070_973_376_545_411, 4_080_892_525_155_817_328_848_675_080,
    4_044_208_975_205_379_215_455_498_942, 4_007_855_177_344_385_042_275_334_282,
    3_971_828_167_398_412_226_040_665_408, 3_936_125_007_838_297_724_714_495_383,
    3_900_742_787_540_621_141_787_292_297, 3_865_678_621_550_340_871_839_623_213,
    3_830_929_650_845_563_933_467_787_009, 3_796_493_042_104_430_309_643_919_045,
    3_762_365_987_474_092_787_992_331_164, 3_728_545_704_341_773_464_324_327_850,
    3_695_029_435_107_878_242_098_334_793, 3_661_814_446_961_150_828_274_695_856,
    3_628_898_031_655_847_892_328_620_608, 3_596_277_505_290_917_219_984_056_266,
    3_563_950_208_091_160_856_549_152_281, 3_531_913_504_190_365_396_583_799_394,
    3_500_164_781_416_381_737_024_654_401, 3_468_701_451_078_136_769_846_185_321,
    3_437_520_947_754_559_647_860_549_592, 3_406_620_729_085_405_413_367_394_419,
    3_375_998_275_563_958_934_069_672_043, 3_345_651_090_331_602_243_985_907_608,
    3_315_576_698_974_228_539_025_544_286, 3_285_772_649_320_486_227_464_407_790,
    3_256_236_511_241_836_584_774_257_310, 3_226_965_876_454_408_710_135_989_068,
    3_197_958_358_322_635_628_512_389_269, 3_169_211_591_664_655_527_385_344_277,
    3_140_723_232_559_462_261_185_948_797, 3_112_490_958_155_789_399_075_742_813,
    3_084_512_466_482_712_233_084_984_604, 3_056_785_476_261_952_303_690_955_349,
    3_029_307_726_721_869_138_737_212_118, 3_002_076_977_413_124_039_164_779_187,
    2_975_091_008_026_000_881_359_709_642, 2_948_347_618_209_369_041_029_376_368,
    2_921_844_627_391_273_677_413_280_000,
];

/// For each gray level from 1 to 255, at index `level - 1`, a number that
/// is at least `SCALE * MAX_AGE * 10^((511 - 2 * level) / 510)`.
pub const FADE_ABOVE: [u128; 255] = [
    28_955_798_746_011_390_388_160_594_334, 28_695_512_182_935_685_507_328_349_047,
    28_437_565_361_737_316_861_692_005_483, 28_181_937_250_243_175_428_131_891_513,
    27_928_607_005_340_454_079_533_811_395, 27_677_553_971_277_165_673_541_648_176,
    27_428_757_677_977_937_953_722_155_151, 27_182_197_839_374_947_938_351_403_064,
    26_937_854_351_753_859_706_458_589_066, 26_695_707_292_114_630_714_092_772_196,
    26_455_736_916_547_052_986_111_324_764, 26_217_923_658_620_896_730_224_329_381,
    25_982_248_127_790_525_110_664_768_701, 25_748_691_107_813_850_098_787_229_967,
    25_517_233_555_185_500_487_224_187_165, 25_287_856_597_584_074_313_044_073_194,
    25_060_541_532_333_349_083_753_799_089, 24_835_269_824_877_324_338_063_753_830,
    24_612_023_107_268_972_201_178_421_648, 24_390_783_176_672_572_712_082_545_029,
    24_171_531_993_879_511_807_952_375_050, 23_954_251_681_837_420_948_524_301_373,
    23_738_924_524_192_538_451_088_545_407, 23_525_532_963_845_173_684_832_330_491,
    23_314_059_601_518_156_341_622_913_817, 23_104_487_194_338_154_059_083_187_403,
    22_896_798_654_429_742_721_057_557_893, 22_690_977_047_522_114_800_379_049_450,
    22_487_005_591_568_312_139_314_823_624, 22_284_867_655_376_870_584_270_595_760,
    22_084_546_757_255_764_903_358_015_059, 21_886_026_563_668_543_418_355_481_920,
    21_689_290_887_902_542_776_503_877_243, 21_494_323_688_749_074_272_555_314_296,
    21_301_109_069_195_474_107_615_606_419, 21_109_631_275_128_910_938_669_263_290,
    20_919_874_694_051_845_031_328_359_174, 20_731_823_853_809_034_278_381_724_049,
    20_545_463_421_325_983_288_216_055_657, 20_360_778_201_358_732_680_212_503_887,
    20_177_753_135_254_886_648_867_114_942, 19_996_373_299_725_777_774_716_634_175,
    19_816_623_905_629_668_968_247_268_125, 19_638_490_296_765_893_332_897_141_530,
    19_461_957_948_679_833_625_106_731_618, 19_287_012_467_478_643_873_198_237_886,
    19_113_639_588_657_616_592_746_715_375, 18_941_825_175_937_099_904_114_279_722,
    18_771_555_220_109_869_718_024_557_761, 18_602_815_837_898_863_007_527_946_594,
    18_435_593_270_825_179_029_518_664_890, 18_269_873_884_086_256_196_180_915_867,
    18_105_644_165_444_133_126_431_995_955, 17_942_890_724_123_703_229_662_526_892,
    17_781_600_289_720_872_988_915_204_219, 17_621_759_711_120_534_918_159_981_381,
    17_463_355_955_424_266_968_581_288_290, 17_306_376_106_887_670_951_856_966_754,
    17_150_807_365_867_263_334_343_756_567, 16_996_637_047_776_832_534_954_467_987,
    16_843_852_582_053_177_631_380_935_433, 16_692_441_511_131_144_144_247_399_245,
    16_542_391_489_427_873_326_833_477_383, 16_393_690_282_336_182_139_246_176_282,
    16_246_325_765_226_991_830_407_703_577, 16_100_285_922_460_723_789_020_888_167,
    15_955_558_846_407_582_055_836_942_641, 15_812_132_736_476_642_614_140_736_099,
    15_669_995_898_153_670_293_445_762_793, 15_529_136_742_047_584_833_013_143_407,
    15_389_543_782_945_498_357_034_304_749, 15_251_205_638_876_247_212_202_951_895,
    15_114_111_030_182_341_811_005_559_442, 14_978_248_778_600_258_810_437_338_176,
    14_843_607_806_349_000_636_058_445_228, 14_710_177_135_226_848_035_398_561_721,
    14_577_945_885_716_232_012_751_825_387, 14_446_903_276_096_652_159_432_946_115,
    14_317_038_621_565_569_049_643_129_573, 14_188_341_333_367_199_022_274_682_481,
    14_060_800_917_929_140_313_318_886_418, 13_934_406_976_006_760_142_085_442_411,
    13_809_149_201_835_272_987_245_570_692, 13_685_017_382_289_440_915_826_295_915,
    13_562_001_396_050_827_449_761_690_667, 13_440_091_212_782_537_070_498_562_785,
    13_319_276_892_311_373_072_509_472_617, 13_199_548_583_817_347_081_434_821_399,
    13_080_896_525_030_474_152_007_380_526, 12_963_311_041_434_787_954_955_909_346,
    12_846_782_545_479_511_150_787_872_745, 12_731_301_535_797_316_631_762_720_112,
    12_616_858_596_429_615_891_534_293_921, 12_503_444_396_058_811_354_910_841_010,
    12_391_049_687_247_450_068_000_520_838, 12_279_665_305_684_216_711_725_540_831,
    12_169_282_169_436_704_459_344_981_327, 12_059_891_278_210_902_751_270_471_273,
    11_951_483_712_617_341_608_135_201_542, 11_844_050_633_443_832_645_829_971_316,
    11_737_583_280_934_747_494_094_308_853, 11_632_072_974_076_774_853_290_047_668,
    11_527_511_109_891_097_952_232_535_089, 11_423_889_162_731_934_693_453_973_939,
    11_321_198_683_591_383_291_066_934_269, 11_219_431_299_410_516_720_526_121_379,
    11_118_578_712_396_669_809_094_969_387, 11_018_632_699_346_863_300_752_090_061,
    10_919_585_110_977_309_729_662_214_785, 10_821_427_871_258_946_432_227_823_591,
    10_724_152_976_758_941_519_171_592_576, 10_627_752_495_988_119_116_116_179_756,
    10_532_218_568_754_250_663_766_419_231, 10_437_543_405_521_159_547_099_057_278,
    10_343_719_286_773_586_796_965_740_796, 10_250_738_562_387_766_077_254_706_810,
    10_158_593_651_007_656_636_273_822_728, 10_067_277_039_426_783_362_350_247_424,
    9_976_781_281_975_633_540_827_638_693, 9_887_098_999_914_560_362_717_800_637,
    9_798_222_880_832_143_684_266_887_457, 9_710_145_678_048_958_981_663_368_332,
    9_622_860_210_026_705_886_082_192_696, 9_536_359_359_782_648_121_262_931_411,
    9_450_636_074_309_317_098_894_738_947, 9_365_683_363_999_431_856_263_096_301,
    9_281_494_302_075_988_445_937_448_150, 9_198_062_024_027_472_308_779_720_275,
    9_115_379_727_048_147_579_265_662_450, 9_033_440_669_483_377_686_068_066_666,
    8_952_238_170_279_932_021_086_913_545, 8_871_765_608_441_233_856_659_850_432,
    8_792_016_422_487_505_093_580_251_617, 8_712_984_109_920_763_821_822_305_114,
    8_634_662_226_694_631_071_555_666_829, 8_557_044_386_688_903_524_158_484_549,
    8_480_124_261_188_849_341_538_993_667, 8_403_895_578_369_184_657_184_109_356,
    8_328_352_122_782_688_653_999_886_420, 8_253_487_734_853_415_532_224_506_630,
    8_179_296_310_374_462_045_510_422_470, 8_105_771_800_010_249_654_718_997_205,
    8_032_908_208_803_280_717_078_720_632, 7_960_699_595_685_328_493_156_862_143,
    7_889_140_072_993_021_115_613_992_359, 7_818_223_805_987_780_021_980_638_743,
    7_747_945_012_380_073_708_744_651_489, 7_678_297_961_857_948_015_895_593_186,
    7_609_276_975_619_794_499_767_318_686, 7_540_876_425_911_318_797_580_311_695,
    7_473_090_735_566_671_229_539_467_818, 7_405_914_377_553_702_223_718_782_711,
    7_339_341_874_523_305_485_289_490_289, 7_273_367_798_362_812_164_950_022_474,
    7_207_986_769_753_399_611_721_905_171, 7_143_193_457_731_478_622_612_297_039,
    7_078_982_579_254_023_426_038_008_289, 7_015_348_898_767_808_957_383_956_162,
    6_952_287_227_782_520_303_657_334_302, 6_889_792_424_447_699_509_923_271_618,
    6_827_859_393_133_495_253_094_175_574, 6_766_483_084_015_181_198_718_806_980,
    6_705_658_492_661_409_163_703_700_712, 6_645_380_659_626_163_512_423_884_512,
    6_585_644_670_044_383_515_466_786_125, 6_526_445_653_231_220_699_327_364_232,
    6_467_778_782_284_898_511_758_236_528, 6_409_639_273_693_141_921_200_075_210,
    6_352_022_386_943_144_859_798_745_235, 6_294_923_424_135_043_707_980_307_820,
    6_238_337_729_598_865_304_426_621_267, 6_182_260_689_514_918_248_596_152_404,
    6_126_687_731_537_596_543_689_864_288, 6_071_614_324_422_564_906_193_561_169,
    6_017_035_977_657_295_343_858_536_254, 5_962_948_241_094_924_877_234_263_694,
    5_909_346_704_591_404_550_662_483_548, 5_856_226_997_645_910_147_003_427_093,
    5_803_584_789_044_485_286_314_001_067, 5_751_415_786_506_887_852_256_177_954,
    5_699_715_736_336_610_951_203_114_910, 5_648_480_423_074_049_867_851_942_981,
    5_597_705_669_152_786_737_666_835_982, 5_547_387_334_558_964_910_684_800_199,
    5_497_521_316_493_725_233_140_349_304, 5_448_103_549_038_676_723_024_384_640,
    5_399_130_002_824_374_363_107_545_757, 5_350_596_684_701_776_980_149_203_154,
    5_302_499_637_416_658_422_000_126_768, 5_254_834_939_286_945_485_109_492_200,
    5_207_598_703_882_956_283_584_916_240, 5_160_787_079_710_512_987_447_101_821,
    5_114_396_249_896_903_092_087_702_891, 5_068_422_431_879_663_613_199_301_480,
    5_022_861_877_098_162_831_618_860_145, 4_977_710_870_687_954_440_629_440_627,
    4_932_965_731_177_879_174_317_962_704, 4_888_622_810_189_889_219_607_747_586,
    4_844_678_492_141_570_936_591_813_700, 4_801_129_193_951_341_631_804_471_144,
    4_757_971_364_746_296_347_102_633_502, 4_715_201_485_572_680_842_902_209_877,
    4_672_816_069_108_967_168_646_573_967, 4_630_811_659_381_508_425_590_890_314,
    4_589_184_831_482_749_537_285_313_260, 4_547_932_191_291_971_051_548_908_720,
    4_507_050_375_198_543_204_261_575_666, 4_466_536_049_827_667_679_980_103_450,
    4_426_385_911_768_584_707_223_481_645, 4_386_596_687_305_223_327_288_219_792,
    4_347_165_132_149_272_874_663_125_539, 4_308_088_031_175_653_904_530_973_930,
    4_269_362_198_160_366_998_487_874_926, 4_230_984_475_520_698_073_495_862_789,
    4_192_951_734_057_759_011_226_098_407, 4_155_260_872_701_342_615_364_760_708,
    4_117_908_818_257_071_093_156_731_774, 4_080_892_525_155_817_444_468_938_379,
    4_044_208_975_205_379_326_980_948_396, 4_007_855_177_344_385_149_770_244_702,
    3_971_828_167_398_412_329_568_486_936, 3_936_125_007_838_297_824_337_863_125,
    3_900_742_787_540_621_237_568_035_849, 3_865_678_621_550_340_963_838_776_080,
    3_830_929_650_845_564_021_745_595_924, 3_796_493_042_104_430_394_259_853_180,
    3_762_365_987_474_092_869_005_091_242, 3_728_545_704_341_773_541_791_855_154,
    3_695_029_435_107_878_316_077_820_077, 3_661_814_446_961_150_898_822_588_156,
    3_628_898_031_655_847_959_500_635_956, 3_596_277_505_290_917_283_835_186_305,
    3_563_950_208_091_160_917_133_672_788, 3_531_913_504_190_365_453_955_278_705,
    3_500_164_781_416_381_791_235_961_745, 3_468_701_451_078_136_820_949_499_061,
    3_437_520_947_754_559_695_907_365_370, 3_406_620_729_085_405_458_408_533_217,
    3_375_998_275_563_958_976_155_288_152, 3_345_651_090_331_602_283_165_496_503,
    3_315_576_698_974_228_575_347_950_422, 3_285_772_649_320_486_260_977_832_304,
    3_256_236_511_241_836_615_526_265_642, 3_226_965_876_454_408_738_173_518_492,
    3_197_958_358_322_635_653_881_756_346, 3_169_211_591_664_655_550_132_252_220,
    3_140_723_232_559_462_281_355_494_756, 3_112_490_958_155_789_416_712_425_076,
    3_084_512_466_482_712_248_232_709_722, 3_056_785_476_261_952_316_393_045_177,
    3_029_307_726_721_869_149_036_410_780, 3_002_076_977_413_124_047_103_259_961,
    2_975_091_008_026_000_886_979_081_769, 2_948_347_618_209_369_044_370_691_786,
    2_921_844_627_391_273_678_517_040_000,
];

/// The 510th power of `SCALE * MAX_AGE * 10^((511 - 2 * level) / 510)`.
pub open spec fn edge(level: int) -> int {
    pow(SCALE as int * MAX_AGE as int, 510) * pow(10, (511 - 2 * level) as nat)
}

/// The edge of a level is a hundred times that of the next brighter one.
pub proof fn lemma_edge_step(level: int)
    requires
        1 <= level < 255,
    ensures
        edge(level) == 100 * edge(level + 1),
        0 < edge(level + 1),
{
    let k = (511 - 2 * (level + 1)) as nat;
    let base = pow(SCALE as int * MAX_AGE as int, 510);
    lemma_pow_adds(10, k, 2);
    lemma_pow_adds(10, 1, 1);
    lemma_pow1(10);
    lemma_pow_positive(10, k);
    lemma_pow_positive(SCALE as int * MAX_AGE as int, 510);
    let p = pow(10, k);
    assert(base * (p * 100) == 100 * (base * p)) by (nonlinear_arith);
    assert(0 < base * p) by (nonlinear_arith)
        requires
            0 < base,
            0 < p,
    ;
}

/// From a bound below an edge, a bound below the edge of the next darker
/// level.
pub proof fn lemma_step_below(lo: int, next: int, r: int, s: int, v: int)
    requires
        0 <= next,
        0 <= lo,
        0 < r,
        0 < s,
        pow(lo, 510) <= v,
        pow(r, 510) <= 10 * pow(s, 510),
        next * (s * s) <= lo * (r * r),
    ensures
        pow(next, 510) <= 100 * v,
{
    assert(0 <= next * (s * s)) by (nonlinear_arith)
        requires
            0 <= next,
            0 < s,
    ;
    lemma_pow_base_increases(next * (s * s), lo * (r * r), 510);
    lemma_pow_distributes(next, s * s, 510);
    lemma_pow_distributes(s, s, 510);
    lemma_pow_distributes(lo, r * r, 510);
    lemma_pow_distributes(r, r, 510);
    lemma_pow_positive(s, 510);
    lemma_pow_positive(r, 510);
    lemma_pow_base_increases(0, lo, 510);
    lemma_pow_base_increases(0, next, 510);
    let n = pow(next, 510);
    let l = pow(lo, 510);
    let p = pow(s, 510);
    let q = pow(r, 510);
    assert(n * (p * p) <= l * (q * q));
    assert(l * (q * q) <= v * (100 * (p * p))) by (nonlinear_arith)
        requires
            0 <= l <= v,
            0 < q <= 10 * p,
            0 < p,
    ;
    assert(n <= 100 * v) by (nonlinear_arith)
        requires
            n * (p * p) <= v * (100 * (p * p)),
            0 < p,
    ;
}

/// From a bound above an edge, a bound above the edge of the next darker
/// level.
pub proof fn lemma_step_above(hi: int, next: int, r: int, s: int, v: int)
    requires
        0 <= next,
        0 <= hi,
        0 < r,
        0 < s,
        0 <= v <= pow(hi, 510),
        pow(r, 510) >= 10 * pow(s, 510),
        next * (s * s) >= hi * (r * r),
    ensures
        pow(next, 510) >= 100 * v,
{
    assert(0 <= hi * (r * r)) by (nonlinear_arith)
        requires
            0 <= hi,
            0 < r,
    ;
    lemma_pow_base_increases(hi * (r * r), next * (s * s), 510);
    lemma_pow_distributes(next, s * s, 510);
    lemma_pow_distributes(s, s, 510);
    lemma_pow_distributes(hi, r * r, 510);
    lemma_pow_distributes(r, r, 510);
    lemma_pow_positive(s, 510);
    lemma_pow_positive(r, 510);
    lemma_pow_base_increases(0, hi, 510);
    lemma_pow_base_increases(0, next, 510);
    let n = pow(next, 510);
    let h = pow(hi, 510);
    let p = pow(s, 510);
    let q = pow(r, 510);
    assert(n * (p * p) >= h * (q * q));
    assert(h * (q * q) >= v * (100 * (p * p))) by (nonlinear_arith)
        requires
            0 <= v <= h,
            q >= 10 * p,
            0 < p,
    ;
    assert(n >= 100 * v) by (nonlinear_arith)
        requires
            n * (p * p) >= v * (100 * (p * p)),
            0 < p,
    ;
}

/// The bounds of every level enclose its edge.
pub proof fn lemma_fade_bounds(level: int)
    requires
        1 <= level <= 255,
    ensures
        pow(FADE_BELOW[level - 1] as int, 510) <= edge(level) <= pow(
            FADE_ABOVE[level - 1] as int,
            510,
        ),
    decreases 255 - level,
{
    let s = SCALE as int;
    let m = MAX_AGE as int;
    let below = ROOT_BELOW as int;
    let above = ROOT_ABOVE as int;
    lemma_root_below();
    lemma_root_above();
    if level == 255 {
        let base = pow(m, 510);
        let p = pow(s, 510);
        lemma_pow_distributes(m, below, 510);
        lemma_pow_distributes(m, above, 510);
        lemma_pow_distributes(s, m, 510);
        lemma_pow1(10);
        lemma_pow_positive(m, 510);
        assert(FADE_BELOW[254] == m * below);
        assert(FADE_ABOVE[254] == m * above);
        let qb = pow(below, 510);
        let qa = pow(above, 510);
        assert(base * qb <= (p * base) * 10 <= base * qa) by (nonlinear_arith)
            requires
                qb <= 10 * p <= qa,
                0 < base,
        ;
    } else {
        lemma_fade_bounds(level + 1);
        lemma_edge_step(level);
        let lo = FADE_BELOW[level] as int;
        let hi = FADE_ABOVE[level] as int;
        let next_lo = FADE_BELOW[level - 1] as int;
        let next_hi = FADE_ABOVE[level - 1] as int;
        lemma_step_below(lo, next_lo, 18_530_217_068_691_487_046int, 18_446_744_073_709_551_616int, edge(level + 1));
        lemma_step_above(hi, next_hi, 18_530_217_068_691_487_053int, 18_446_744_073_709_551_616int, edge(level + 1));
    }
}

/// `10^(511 - 2 * level) * 100^level` is `10^511`.
pub proof fn lemma_tens(level: int)
    requires
        1 <= level <= 255,
    ensures
        pow(10, (511 - 2 * level) as nat) * pow(100, level as nat) == pow(10, 511),
        0 < pow(100, level as nat),
{
    lemma_pow_adds(10, 1, 1);
    lemma_pow1(10);
    lemma_pow_multiplies(10, 2, level as nat);
    lemma_pow_adds(10, (511 - 2 * level) as nat, (2 * level) as nat);
    lemma_pow_positive(100, level as nat);
}

/// At the limit of a level the fade reaches the level, and a second later
/// it no longer does.
pub proof fn lemma_limit_reaches(level: int)
    requires
        1 <= level <= 255,
    ensures
        fade_reaches(AGE_LIMITS[level - 1] as int, level),
        !fade_reaches(AGE_LIMITS[level - 1] + 1, level),
{
    let s: int = 18_446_744_073_709_551_616int;
    let m = MAX_AGE as int;
    let at = 9 * AGE_LIMITS[level - 1] + m;
    let past = at + 9;
    let lo = FADE_BELOW[level - 1] as int;
    let hi = FADE_ABOVE[level - 1] as int;
    let k = (511 - 2 * level) as nat;
    lemma_fade_bounds(level);
    lemma_tens(level);
    assert(at * 18_446_744_073_709_551_616int <= lo);
    assert(past * 18_446_744_073_709_551_616int > hi);
    lemma_pow_base_increases(at * s, lo, 510);
    lemma_pow_base_strictly_increases(hi, past * s, 510);
    lemma_pow_distributes(at, s, 510);
    lemma_pow_distributes(past, s, 510);
    lemma_pow_distributes(s, m, 510);
    lemma_pow_positive(s, 510);
    lemma_pow_positive(m, 510);
    lemma_pow_positive(10, k);
    let ps = pow(s, 510);
    let pm = pow(m, 510);
    let pk = pow(10, k);
    let ph = pow(100, level as nat);
    let pa = pow(at, 510);
    let pp = pow(past, 510);
    assert(pa * ps <= (ps * pm) * pk < pp * ps);
    assert(pa <= pm * pk < pp) by (nonlinear_arith)
        requires
            pa * ps <= (ps * pm) * pk < pp * ps,
            0 < ps,
    ;
    assert(pa * ph <= (pm * pk) * ph < pp * ph) by (nonlinear_arith)
        requires
            pa <= pm * pk < pp,
            0 < ph,
    ;
    assert((pm * pk) * ph == (pk * ph) * pm) by (nonlinear_arith);
}

/// Where the fade of an age reaches a level, that of every younger age
/// does.
pub proof fn lemma_fade_reaches_younger(younger: int, older: int, level: int)
    requires
        0 <= younger <= older,
        0 <= level,
        fade_reaches(older, level),
    ensures
        fade_reaches(younger, level),
{
    lemma_pow_base_increases(9 * younger + MAX_AGE, 9 * older + MAX_AGE, 510);
    lemma_pow_positive(100, level as nat);
    let y = pow(9 * younger + MAX_AGE, 510);
    let o = pow(9 * older + MAX_AGE, 510);
    let h = pow(100, level as nat);
    assert(y * h <= o * h) by (nonlinear_arith)
        requires
            y <= o,
            0 < h,
    ;
}

/// Where the fade of an age reaches a level, it reaches every darker one.
pub proof fn lemma_fade_reaches_darker(age: int, darker: int, level: int)
    requires
        0 <= age,
        0 <= darker <= level,
        fade_reaches(age, level),
    ensures
        fade_reaches(age, darker),
{
    lemma_pow_increases(100, darker as nat, level as nat);
    lemma_pow_positive(100, darker as nat);
    lemma_pow_positive(9 * age + MAX_AGE, 510);
    let x = pow(9 * age + MAX_AGE, 510);
    let d = pow(100, darker as nat);
    let h = pow(100, level as nat);
    assert(x * d <= x * h) by (nonlinear_arith)
        requires
            0 < x,
            d <= h,
    ;
}

/// The limits fall from level to level.
pub proof fn lemma_limits_fall(lower: int, higher: int)
    requires
        1 <= lower <= higher <= 255,
    ensures
        AGE_LIMITS[higher - 1] <= AGE_LIMITS[lower - 1],
{
    let high = AGE_LIMITS[higher - 1] as int;
    let low = AGE_LIMITS[lower - 1] as int;
    lemma_limit_reaches(higher);
    lemma_limit_reaches(lower);
    lemma_fade_reaches_darker(high, lower, higher);
    if high > low {
        lemma_fade_reaches_younger(low + 1, high, lower);
    }
}

/// Among the levels up to `top`, one of `level` or brighter is found
/// exactly for the ages within the limit of `level`.
pub proof fn lemma_level_from_at_least(age: int, level: int, top: int)
    requires
        1 <= level <= top <= 255,
    ensures
        level_from(age, top) >= level <==> age <= AGE_LIMITS[level - 1],
    decreases top,
{
    if top == level {
        lemma_level_range(age, level - 1);
    } else {
        lemma_level_from_at_least(age, level, top - 1);
        lemma_limits_fall(level, top);
    }
}

/// The gray level of an age follows the fade: it is `level` or brighter
/// exactly where `255 * (1 - log10(9 * age / MAX_AGE + 1))` rounds to
/// `level` or more.
pub proof fn lemma_gray_level_follows_fade(age: int, level: int)
    requires
        0 <= age,
        1 <= level <= 255,
    ensures
        gray_level(age) >= level <==> fade_reaches(age, level),
{
    let limit = AGE_LIMITS[level - 1] as int;
    lemma_level_from_at_least(age, level, 255);
    lemma_limit_reaches(level);
    if age <= limit {
        lemma_fade_reaches_younger(age, limit, level);
    } else if fade_reaches(age, level) {
        lemma_fade_reaches_younger(limit + 1, age, level);
    }
}

} // verus!
