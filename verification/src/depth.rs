//! How deep the octree may grow.

use vstd::arithmetic::power2::{lemma2_to64, lemma_pow2_adds, pow2};
use vstd::prelude::*;

verus! {

/// The fewest primitives for which the tree gets `d` levels, for `d` from 1
/// to 26: the least `n` whose fourth power reaches 2 to the `10 d - 5`.
pub open spec fn level_threshold(d: int) -> int {
    if d == 1 {
        3
    }     else if d == 2 {
        14
    }     else if d == 3 {
        77
    }     else if d == 4 {
        431
    }     else if d == 5 {
        2436
    }     else if d == 6 {
        13778
    }     else if d == 7 {
        77936
    }     else if d == 8 {
        440872
    }     else if d == 9 {
        2493949
    }     else if d == 10 {
        14107901
    }     else if d == 11 {
        79806339
    }     else if d == 12 {
        451452826
    }     else if d == 13 {
        2553802834
    }     else if d == 14 {
        14446490412
    }     else if d == 15 {
        81721690674
    }     else if d == 16 {
        462287693164
    }     else if d == 17 {
        2615094101559
    }     else if d == 18 {
        14793206181226
    }     else if d == 19 {
        83683011249885
    }     else if d == 20 {
        473382597799227
    }     else if d == 21 {
        2677856359996299
    }     else if d == 22 {
        15148243129575259
    }     else if d == 23 {
        85691403519881555
    }     else if d == 24 {
        484743780146408280
    }     else if d == 25 {
        2742124912636209756
    }     else if d == 26 {
        15511800964685064949
    } else {
        0
    }
}

/// The largest level up to `d` whose threshold `n` reaches; 0 if there is
/// none.
pub open spec fn depth_upto(n: int, d: int) -> int
    decreases d,
{
    if d <= 0 {
        0
    } else if level_threshold(d) <= n {
        d
    } else {
        depth_upto(n, d - 1)
    }
}

/// How deep the tree over `n` bounded primitives may grow: 1.2 times the
/// logarithm of `n` to base 8, rounded; 0 for `n` up to 2.
pub open spec fn depth_for(n: int) -> int {
    depth_upto(n, 26)
}

/// The fourth power.
pub open spec fn fourth(n: int) -> int {
    n * n * n * n
}

fn threshold(d: u32) -> (t: u64)
    ensures
        t == level_threshold(d as int),
{
    if d == 1 {
        3
    }     else if d == 2 {
        14
    }     else if d == 3 {
        77
    }     else if d == 4 {
        431
    }     else if d == 5 {
        2436
    }     else if d == 6 {
        13778
    }     else if d == 7 {
        77936
    }     else if d == 8 {
        440872
    }     else if d == 9 {
        2493949
    }     else if d == 10 {
        14107901
    }     else if d == 11 {
        79806339
    }     else if d == 12 {
        451452826
    }     else if d == 13 {
        2553802834
    }     else if d == 14 {
        14446490412
    }     else if d == 15 {
        81721690674
    }     else if d == 16 {
        462287693164
    }     else if d == 17 {
        2615094101559
    }     else if d == 18 {
        14793206181226
    }     else if d == 19 {
        83683011249885
    }     else if d == 20 {
        473382597799227
    }     else if d == 21 {
        2677856359996299
    }     else if d == 22 {
        15148243129575259
    }     else if d == 23 {
        85691403519881555
    }     else if d == 24 {
        484743780146408280
    }     else if d == 25 {
        2742124912636209756
    }     else if d == 26 {
        15511800964685064949
    } else {
        0
    }
}

/// The depth budget for an index over `n` bounded primitives.
pub fn tree_depth(n: usize) -> (depth: i32)
    ensures
        depth == depth_for(n as int),
        0 <= depth <= 26,
{
    let mut d: u32 = 26;
    while d > 0 && threshold(d) > n as u64
        invariant
            d <= 26,
            depth_for(n as int) == depth_upto(n as int, d as int),
        decreases d,
    {
        d -= 1;
    }
    d as i32
}

proof fn lemma_fourth_monotone(a: int, b: int)
    requires
        0 <= a <= b,
    ensures
        fourth(a) <= fourth(b),
{
    assert(a * a <= b * b) by (nonlinear_arith)
        requires
            0 <= a <= b,
    ;
    assert((a * a) * (a * a) <= (b * b) * (b * b)) by (nonlinear_arith)
        requires
            0 <= a * a <= b * b,
    ;
    assert(fourth(a) == (a * a) * (a * a)) by (nonlinear_arith);
    assert(fourth(b) == (b * b) * (b * b)) by (nonlinear_arith);
}

proof fn lemma_large_powers()
    ensures
        pow2(64) == 0x1_0000_0000_0000_0000,
        pow2(128) == 0x1_0000_0000_0000_0000_0000_0000_0000_0000,
        pow2(192) == 0x1_0000_0000_0000_0000_0000_0000_0000_0000_0000_0000_0000_0000,
        pow2(256) == 0x1_0000_0000_0000_0000_0000_0000_0000_0000_0000_0000_0000_0000_0000_0000_0000_0000,
{
    lemma2_to64();
    lemma_pow2_adds(64, 64);
    lemma_pow2_adds(128, 64);
    lemma_pow2_adds(192, 64);
}

proof fn lemma_power_5()
    ensures
        pow2(5) == 0x20,
{
    lemma2_to64();
    lemma_large_powers();
}

proof fn lemma_power_15()
    ensures
        pow2(15) == 0x8000,
{
    lemma2_to64();
    lemma_large_powers();
}

proof fn lemma_power_25()
    ensures
        pow2(25) == 0x200_0000,
{
    lemma2_to64();
    lemma_large_powers();
}

proof fn lemma_power_35()
    ensures
        pow2(35) == 0x8_0000_0000,
{
    lemma2_to64();
    lemma_large_powers();
    lemma_pow2_adds(32, 3);
}

proof fn lemma_power_45()
    ensures
        pow2(45) == 0x2000_0000_0000,
{
    lemma2_to64();
    lemma_large_powers();
    lemma_pow2_adds(32, 13);
}

proof fn lemma_power_55()
    ensures
        pow2(55) == 0x80_0000_0000_0000,
{
    lemma2_to64();
    lemma_large_powers();
    lemma_pow2_adds(32, 23);
}

proof fn lemma_power_65()
    ensures
        pow2(65) == 0x2_0000_0000_0000_0000,
{
    lemma2_to64();
    lemma_large_powers();
    lemma_pow2_adds(64, 1);
    assert(pow2(65) == 0x2_0000_0000_0000_0000);
}

proof fn lemma_power_75()
    ensures
        pow2(75) == 0x800_0000_0000_0000_0000,
{
    lemma2_to64();
    lemma_large_powers();
    lemma_pow2_adds(64, 11);
    assert(pow2(75) == 0x800_0000_0000_0000_0000);
}

proof fn lemma_power_85()
    ensures
        pow2(85) == 0x20_0000_0000_0000_0000_0000,
{
    lemma2_to64();
    lemma_large_powers();
    lemma_pow2_adds(64, 21);
    assert(pow2(85) == 0x20_0000_0000_0000_0000_0000);
}

proof fn lemma_power_95()
    ensures
        pow2(95) == 0x8000_0000_0000_0000_0000_0000,
{
    lemma2_to64();
    lemma_large_powers();
    lemma_pow2_adds(64, 31);
    assert(pow2(95) == 0x8000_0000_0000_0000_0000_0000);
}

proof fn lemma_power_105()
    ensures
        pow2(105) == 0x200_0000_0000_0000_0000_0000_0000,
{
    lemma2_to64();
    lemma_large_powers();
    lemma_pow2_adds(64, 32);
    assert(pow2(96) == 0x1_0000_0000_0000_0000_0000_0000);
    lemma_pow2_adds(96, 9);
    assert(pow2(105) == 0x200_0000_0000_0000_0000_0000_0000);
}

proof fn lemma_power_115()
    ensures
        pow2(115) == 0x8_0000_0000_0000_0000_0000_0000_0000,
{
    lemma2_to64();
    lemma_large_powers();
    lemma_pow2_adds(64, 32);
    assert(pow2(96) == 0x1_0000_0000_0000_0000_0000_0000);
    lemma_pow2_adds(96, 19);
    assert(pow2(115) == 0x8_0000_0000_0000_0000_0000_0000_0000);
}

proof fn lemma_power_125()
    ensures
        pow2(125) == 0x2000_0000_0000_0000_0000_0000_0000_0000,
{
    lemma2_to64();
    lemma_large_powers();
    lemma_pow2_adds(64, 32);
    assert(pow2(96) == 0x1_0000_0000_0000_0000_0000_0000);
    lemma_pow2_adds(96, 29);
    assert(pow2(125) == 0x2000_0000_0000_0000_0000_0000_0000_0000);
}

proof fn lemma_power_135()
    ensures
        pow2(135) == 0x80_0000_0000_0000_0000_0000_0000_0000_0000,
{
    lemma2_to64();
    lemma_large_powers();
    lemma_pow2_adds(128, 7);
    assert(pow2(135) == 0x80_0000_0000_0000_0000_0000_0000_0000_0000);
}

proof fn lemma_power_145()
    ensures
        pow2(145) == 0x2_0000_0000_0000_0000_0000_0000_0000_0000_0000,
{
    lemma2_to64();
    lemma_large_powers();
    lemma_pow2_adds(128, 17);
    assert(pow2(145) == 0x2_0000_0000_0000_0000_0000_0000_0000_0000_0000);
}

proof fn lemma_power_155()
    ensures
        pow2(155) == 0x800_0000_0000_0000_0000_0000_0000_0000_0000_0000,
{
    lemma2_to64();
    lemma_large_powers();
    lemma_pow2_adds(128, 27);
    assert(pow2(155) == 0x800_0000_0000_0000_0000_0000_0000_0000_0000_0000);
}

proof fn lemma_power_165()
    ensures
        pow2(165) == 0x20_0000_0000_0000_0000_0000_0000_0000_0000_0000_0000,
{
    lemma2_to64();
    lemma_large_powers();
    lemma_pow2_adds(128, 32);
    assert(pow2(160) == 0x1_0000_0000_0000_0000_0000_0000_0000_0000_0000_0000);
    lemma_pow2_adds(160, 5);
    assert(pow2(165) == 0x20_0000_0000_0000_0000_0000_0000_0000_0000_0000_0000);
}

proof fn lemma_power_175()
    ensures
        pow2(175) == 0x8000_0000_0000_0000_0000_0000_0000_0000_0000_0000_0000,
{
    lemma2_to64();
    lemma_large_powers();
    lemma_pow2_adds(128, 32);
    assert(pow2(160) == 0x1_0000_0000_0000_0000_0000_0000_0000_0000_0000_0000);
    lemma_pow2_adds(160, 15);
    assert(pow2(175) == 0x8000_0000_0000_0000_0000_0000_0000_0000_0000_0000_0000);
}

proof fn lemma_power_185()
    ensures
        pow2(185) == 0x200_0000_0000_0000_0000_0000_0000_0000_0000_0000_0000_0000,
{
    lemma2_to64();
    lemma_large_powers();
    lemma_pow2_adds(128, 32);
    assert(pow2(160) == 0x1_0000_0000_0000_0000_0000_0000_0000_0000_0000_0000);
    lemma_pow2_adds(160, 25);
    assert(pow2(185) == 0x200_0000_0000_0000_0000_0000_0000_0000_0000_0000_0000_0000);
}

proof fn lemma_power_195()
    ensures
        pow2(195) == 0x8_0000_0000_0000_0000_0000_0000_0000_0000_0000_0000_0000_0000,
{
    lemma2_to64();
    lemma_large_powers();
    lemma_pow2_adds(192, 3);
    assert(pow2(195) == 0x8_0000_0000_0000_0000_0000_0000_0000_0000_0000_0000_0000_0000);
}

proof fn lemma_power_205()
    ensures
        pow2(205) == 0x2000_0000_0000_0000_0000_0000_0000_0000_0000_0000_0000_0000_0000,
{
    lemma2_to64();
    lemma_large_powers();
    lemma_pow2_adds(192, 13);
    assert(pow2(205) == 0x2000_0000_0000_0000_0000_0000_0000_0000_0000_0000_0000_0000_0000);
}

proof fn lemma_power_215()
    ensures
        pow2(215) == 0x80_0000_0000_0000_0000_0000_0000_0000_0000_0000_0000_0000_0000_0000,
{
    lemma2_to64();
    lemma_large_powers();
    lemma_pow2_adds(192, 23);
    assert(pow2(215) == 0x80_0000_0000_0000_0000_0000_0000_0000_0000_0000_0000_0000_0000_0000);
}

proof fn lemma_power_225()
    ensures
        pow2(225) == 0x2_0000_0000_0000_0000_0000_0000_0000_0000_0000_0000_0000_0000_0000_0000,
{
    lemma2_to64();
    lemma_large_powers();
    lemma_pow2_adds(192, 32);
    assert(pow2(224) == 0x1_0000_0000_0000_0000_0000_0000_0000_0000_0000_0000_0000_0000_0000_0000);
    lemma_pow2_adds(224, 1);
    assert(pow2(225) == 0x2_0000_0000_0000_0000_0000_0000_0000_0000_0000_0000_0000_0000_0000_0000);
}

proof fn lemma_power_235()
    ensures
        pow2(235) == 0x800_0000_0000_0000_0000_0000_0000_0000_0000_0000_0000_0000_0000_0000_0000,
{
    lemma2_to64();
    lemma_large_powers();
    lemma_pow2_adds(192, 32);
    assert(pow2(224) == 0x1_0000_0000_0000_0000_0000_0000_0000_0000_0000_0000_0000_0000_0000_0000);
    lemma_pow2_adds(224, 11);
    assert(pow2(235) == 0x800_0000_0000_0000_0000_0000_0000_0000_0000_0000_0000_0000_0000_0000_0000);
}

proof fn lemma_power_245()
    ensures
        pow2(245) == 0x20_0000_0000_0000_0000_0000_0000_0000_0000_0000_0000_0000_0000_0000_0000_0000,
{
    lemma2_to64();
    lemma_large_powers();
    lemma_pow2_adds(192, 32);
    assert(pow2(224) == 0x1_0000_0000_0000_0000_0000_0000_0000_0000_0000_0000_0000_0000_0000_0000);
    lemma_pow2_adds(224, 21);
    assert(pow2(245) == 0x20_0000_0000_0000_0000_0000_0000_0000_0000_0000_0000_0000_0000_0000_0000_0000);
}

proof fn lemma_power_255()
    ensures
        pow2(255) == 0x8000_0000_0000_0000_0000_0000_0000_0000_0000_0000_0000_0000_0000_0000_0000_0000,
{
    lemma2_to64();
    lemma_large_powers();
    lemma_pow2_adds(192, 32);
    assert(pow2(224) == 0x1_0000_0000_0000_0000_0000_0000_0000_0000_0000_0000_0000_0000_0000_0000);
    lemma_pow2_adds(224, 31);
    assert(pow2(255) == 0x8000_0000_0000_0000_0000_0000_0000_0000_0000_0000_0000_0000_0000_0000_0000_0000);
}

proof fn lemma_power_265()
    ensures
        pow2(265) == 0x200_0000_0000_0000_0000_0000_0000_0000_0000_0000_0000_0000_0000_0000_0000_0000_0000,
{
    lemma2_to64();
    lemma_large_powers();
    lemma_pow2_adds(256, 9);
    assert(pow2(265) == 0x200_0000_0000_0000_0000_0000_0000_0000_0000_0000_0000_0000_0000_0000_0000_0000_0000);
}

/// Each threshold is the least number whose fourth power reaches its power
/// of two.
proof fn lemma_level(d: int)
    requires
        1 <= d <= 26,
    ensures
        pow2((10 * d - 5) as nat) <= fourth(level_threshold(d)),
        fourth(level_threshold(d) - 1) < pow2((10 * d - 5) as nat),
{
    if d == 1 {
        lemma_power_5();
        assert(fourth(3) >= 0x20) by (nonlinear_arith);
        assert(fourth(2) < 0x20) by (nonlinear_arith);
    }     else if d == 2 {
        lemma_power_15();
        assert(fourth(14) >= 0x8000) by (nonlinear_arith);
        assert(fourth(13) < 0x8000) by (nonlinear_arith);
    }     else if d == 3 {
        lemma_power_25();
        assert(fourth(77) >= 0x200_0000) by (nonlinear_arith);
        assert(fourth(76) < 0x200_0000) by (nonlinear_arith);
    }     else if d == 4 {
        lemma_power_35();
        assert(fourth(431) >= 0x8_0000_0000) by (nonlinear_arith);
        assert(fourth(430) < 0x8_0000_0000) by (nonlinear_arith);
    }     else if d == 5 {
        lemma_power_45();
        assert(fourth(2436) >= 0x2000_0000_0000) by (nonlinear_arith);
        assert(fourth(2435) < 0x2000_0000_0000) by (nonlinear_arith);
    }     else if d == 6 {
        lemma_power_55();
        assert(fourth(13778) >= 0x80_0000_0000_0000) by (nonlinear_arith);
        assert(fourth(13777) < 0x80_0000_0000_0000) by (nonlinear_arith);
    }     else if d == 7 {
        lemma_power_65();
        assert(fourth(77936) >= 0x2_0000_0000_0000_0000) by (nonlinear_arith);
        assert(fourth(77935) < 0x2_0000_0000_0000_0000) by (nonlinear_arith);
    }     else if d == 8 {
        lemma_power_75();
        assert(fourth(440872) >= 0x800_0000_0000_0000_0000) by (nonlinear_arith);
        assert(fourth(440871) < 0x800_0000_0000_0000_0000) by (nonlinear_arith);
    }     else if d == 9 {
        lemma_power_85();
        assert(fourth(2493949) >= 0x20_0000_0000_0000_0000_0000) by (nonlinear_arith);
        assert(fourth(2493948) < 0x20_0000_0000_0000_0000_0000) by (nonlinear_arith);
    }     else if d == 10 {
        lemma_power_95();
        assert(fourth(14107901) >= 0x8000_0000_0000_0000_0000_0000) by (nonlinear_arith);
        assert(fourth(14107900) < 0x8000_0000_0000_0000_0000_0000) by (nonlinear_arith);
    }     else if d == 11 {
        lemma_power_105();
        assert(fourth(79806339) >= 0x200_0000_0000_0000_0000_0000_0000) by (nonlinear_arith);
        assert(fourth(79806338) < 0x200_0000_0000_0000_0000_0000_0000) by (nonlinear_arith);
    }     else if d == 12 {
        lemma_power_115();
        assert(fourth(451452826) >= 0x8_0000_0000_0000_0000_0000_0000_0000) by (nonlinear_arith);
        assert(fourth(451452825) < 0x8_0000_0000_0000_0000_0000_0000_0000) by (nonlinear_arith);
    }     else if d == 13 {
        lemma_power_125();
        assert(fourth(2553802834) >= 0x2000_0000_0000_0000_0000_0000_0000_0000) by (nonlinear_arith);
        assert(fourth(2553802833) < 0x2000_0000_0000_0000_0000_0000_0000_0000) by (nonlinear_arith);
    }     else if d == 14 {
        lemma_power_135();
        assert(fourth(14446490412) >= 0x80_0000_0000_0000_0000_0000_0000_0000_0000) by (nonlinear_arith);
        assert(fourth(14446490411) < 0x80_0000_0000_0000_0000_0000_0000_0000_0000) by (nonlinear_arith);
    }     else if d == 15 {
        lemma_power_145();
        assert(fourth(81721690674) >= 0x2_0000_0000_0000_0000_0000_0000_0000_0000_0000) by (nonlinear_arith);
        assert(fourth(81721690673) < 0x2_0000_0000_0000_0000_0000_0000_0000_0000_0000) by (nonlinear_arith);
    }     else if d == 16 {
        lemma_power_155();
        assert(fourth(462287693164) >= 0x800_0000_0000_0000_0000_0000_0000_0000_0000_0000) by (nonlinear_arith);
        assert(fourth(462287693163) < 0x800_0000_0000_0000_0000_0000_0000_0000_0000_0000) by (nonlinear_arith);
    }     else if d == 17 {
        lemma_power_165();
        assert(fourth(2615094101559) >= 0x20_0000_0000_0000_0000_0000_0000_0000_0000_0000_0000) by (nonlinear_arith);
        assert(fourth(2615094101558) < 0x20_0000_0000_0000_0000_0000_0000_0000_0000_0000_0000) by (nonlinear_arith);
    }     else if d == 18 {
        lemma_power_175();
        assert(fourth(14793206181226) >= 0x8000_0000_0000_0000_0000_0000_0000_0000_0000_0000_0000) by (nonlinear_arith);
        assert(fourth(14793206181225) < 0x8000_0000_0000_0000_0000_0000_0000_0000_0000_0000_0000) by (nonlinear_arith);
    }     else if d == 19 {
        lemma_power_185();
        assert(fourth(83683011249885) >= 0x200_0000_0000_0000_0000_0000_0000_0000_0000_0000_0000_0000) by (nonlinear_arith);
        assert(fourth(83683011249884) < 0x200_0000_0000_0000_0000_0000_0000_0000_0000_0000_0000_0000) by (nonlinear_arith);
    }     else if d == 20 {
        lemma_power_195();
        assert(fourth(473382597799227) >= 0x8_0000_0000_0000_0000_0000_0000_0000_0000_0000_0000_0000_0000) by (nonlinear_arith);
        assert(fourth(473382597799226) < 0x8_0000_0000_0000_0000_0000_0000_0000_0000_0000_0000_0000_0000) by (nonlinear_arith);
    }     else if d == 21 {
        lemma_power_205();
        assert(fourth(2677856359996299) >= 0x2000_0000_0000_0000_0000_0000_0000_0000_0000_0000_0000_0000_0000) by (nonlinear_arith);
        assert(fourth(2677856359996298) < 0x2000_0000_0000_0000_0000_0000_0000_0000_0000_0000_0000_0000_0000) by (nonlinear_arith);
    }     else if d == 22 {
        lemma_power_215();
        assert(fourth(15148243129575259) >= 0x80_0000_0000_0000_0000_0000_0000_0000_0000_0000_0000_0000_0000_0000) by (nonlinear_arith);
        assert(fourth(15148243129575258) < 0x80_0000_0000_0000_0000_0000_0000_0000_0000_0000_0000_0000_0000_0000) by (nonlinear_arith);
    }     else if d == 23 {
        lemma_power_225();
        assert(fourth(85691403519881555) >= 0x2_0000_0000_0000_0000_0000_0000_0000_0000_0000_0000_0000_0000_0000_0000) by (nonlinear_arith);
        assert(fourth(85691403519881554) < 0x2_0000_0000_0000_0000_0000_0000_0000_0000_0000_0000_0000_0000_0000_0000) by (nonlinear_arith);
    }     else if d == 24 {
        lemma_power_235();
        assert(fourth(484743780146408280) >= 0x800_0000_0000_0000_0000_0000_0000_0000_0000_0000_0000_0000_0000_0000_0000) by (nonlinear_arith);
        assert(fourth(484743780146408279) < 0x800_0000_0000_0000_0000_0000_0000_0000_0000_0000_0000_0000_0000_0000_0000) by (nonlinear_arith);
    }     else if d == 25 {
        lemma_power_245();
        assert(fourth(2742124912636209756) >= 0x20_0000_0000_0000_0000_0000_0000_0000_0000_0000_0000_0000_0000_0000_0000_0000) by (nonlinear_arith);
        assert(fourth(2742124912636209755) < 0x20_0000_0000_0000_0000_0000_0000_0000_0000_0000_0000_0000_0000_0000_0000_0000) by (nonlinear_arith);
    }     else if d == 26 {
        lemma_power_255();
        assert(fourth(15511800964685064949) >= 0x8000_0000_0000_0000_0000_0000_0000_0000_0000_0000_0000_0000_0000_0000_0000_0000) by (nonlinear_arith);
        assert(fourth(15511800964685064948) < 0x8000_0000_0000_0000_0000_0000_0000_0000_0000_0000_0000_0000_0000_0000_0000_0000) by (nonlinear_arith);
    }
}

proof fn lemma_depth_upto(n: int, k: int)
    requires
        0 <= k <= 26,
    ensures
        0 <= depth_upto(n, k) <= k,
        depth_upto(n, k) > 0 ==> level_threshold(depth_upto(n, k)) <= n,
        forall|j: int| depth_upto(n, k) < j <= k ==> n < #[trigger] level_threshold(j),
    decreases k,
{
    if k > 0 {
        lemma_depth_upto(n, k - 1);
    }
}

/// The depth is 1.2 times the logarithm of `n` to base 8, rounded: it is
/// the `d` for which `n` to the fourth lies from 2 to the `10 d - 5` up to,
/// but not at, 2 to the `10 d + 5`. That is where four times the logarithm
/// of `n` to base 2 lies within 5 of `10 d`, which is where 0.4 times that
/// logarithm rounds to `d`.
pub proof fn lemma_depth_is_rounded_logarithm(n: int)
    requires
        0 <= n <= u64::MAX,
    ensures
        0 <= depth_for(n) <= 26,
        depth_for(n) > 0 ==> pow2((10 * depth_for(n) - 5) as nat) <= fourth(n),
        fourth(n) < pow2((10 * depth_for(n) + 5) as nat),
{
    let d = depth_for(n);
    lemma_depth_upto(n, 26);
    if d > 0 {
        lemma_level(d);
        lemma_fourth_monotone(level_threshold(d), n);
    }
    if d < 26 {
        lemma_level(d + 1);
        assert(n < level_threshold(d + 1));
        lemma_fourth_monotone(n, level_threshold(d + 1) - 1);
    } else {
        lemma_power_265();
        lemma_fourth_monotone(n, 0xffff_ffff_ffff_ffff);
        assert(fourth(0xffff_ffff_ffff_ffff) < 0x200_0000_0000_0000_0000_0000_0000_0000_0000_0000_0000_0000_0000_0000_0000_0000_0000) by (nonlinear_arith);
    }
}

} // verus!
