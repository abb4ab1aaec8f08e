//! Which kind of number a JSON number is.

use crate::types::{Error, Number};
use crate::value::NumberParts;
use vstd::arithmetic::div_mod::{
    lemma_div_denominator, lemma_div_is_ordered, lemma_div_multiples_vanish,
    lemma_fundamental_div_mod, lemma_small_mod,
};
use vstd::arithmetic::mul::{lemma_mul_inequality, lemma_mul_is_associative};
use vstd::prelude::*;

verus! {

/// Ten to the power of `n`.
pub open spec fn pow10(n: nat) -> nat
    decreases n,
{
    if n == 0 {
        1
    } else {
        10 * pow10((n - 1) as nat)
    }
}

/// The largest finite double.
pub open spec fn double_max() -> nat {
    179769313486231570814527423731704356798070567525844996598917476803157260780028538760589558632766878171540458953514382464234321326889464182768467546703537516986049910576551282076245490090389328944075868508455133942304583236903222948165808559332123348274797826204144723168738177180919299881250404026184124858368nat
}

/// Two to the power of `n`.
pub open spec fn pow2(n: nat) -> nat
    decreases n,
{
    if n == 0 {
        1
    } else {
        2 * pow2((n - 1) as nat)
    }
}

/// A power of two with a sum for its exponent is the product of the powers.
proof fn lemma_pow2_sum(a: nat, b: nat)
    ensures
        pow2(a + b) == pow2(a) * pow2(b),
    decreases b,
{
    if b == 0 {
        assert(pow2(a) * 1 == pow2(a));
    } else {
        lemma_pow2_sum(a, (b - 1) as nat);
        assert(pow2(a + b) == 2 * pow2((a + b - 1) as nat));
        assert(pow2(a) * (2 * pow2((b - 1) as nat)) == 2 * (pow2(a) * pow2((b - 1) as nat)))
            by (nonlinear_arith);
    }
}

/// The largest finite double has fifty-three binary digits, all ones, and
/// the largest exponent: it is `(2^53 - 1) * 2^971`.
pub proof fn lemma_double_max()
    ensures
        double_max() == (pow2(53) - 1) * pow2(971),
{
    assert(pow2(1) == 2) by {
        reveal_with_fuel(pow2, 2);
    }
    lemma_pow2_sum(1, 1);
    assert(pow2(2) == 4nat);
    lemma_pow2_sum(2, 2);
    assert(pow2(4) == 16nat);
    lemma_pow2_sum(4, 4);
    assert(pow2(8) == 256nat);
    lemma_pow2_sum(8, 8);
    assert(pow2(16) == 65536nat);
    lemma_pow2_sum(16, 16);
    assert(pow2(32) == 4294967296nat);
    lemma_pow2_sum(32, 32);
    assert(pow2(64) == 18446744073709551616nat);
    lemma_pow2_sum(64, 64);
    assert(pow2(128) == 340282366920938463463374607431768211456nat);
    lemma_pow2_sum(128, 128);
    assert(pow2(256) == 115792089237316195423570985008687907853269984665640564039457584007913129639936nat);
    lemma_pow2_sum(256, 256);
    assert(pow2(512) == 13407807929942597099574024998205846127479365820592393377723561443721764030073546976801874298166903427690031858186486050853753882811946569946433649006084096nat);
    lemma_pow2_sum(512, 256);
    assert(pow2(768) == 1552518092300708935148979488462502555256886017116696611139052038026050952686376886330878408828646477950487730697131073206171580044114814391444287275041181139204454976020849905550265285631598444825262999193716468750892846853816057856nat);
    lemma_pow2_sum(768, 128);
    assert(pow2(896) == 528294531135665246352339784916516606518847326036121522127960709026673902556724859474417255887657187894674394993257128678882347559502685537250538978462939576908386683999005084168731517676426441053024232908211188404148028292751561738838396898767036476489538580897737998336nat);
    lemma_pow2_sum(896, 64);
    assert(pow2(960) == 9745314011399999080353382387875188310876226857595007526867906457212948690766426102465615065882010259225304916231408668183459169865203094046577987296312653419531277699956473029870789655490053648352799593479218378873685597925394874945746363615468965612827738803104277547081828589991914110976nat);
    lemma_pow2_sum(960, 8);
    assert(pow2(968) == 2494800386918399764570465891296048207584314075544321926878184053046514864836205082231197456865794626361678058555240619054965547485491992075923964747856039275400007091188857095646922151805453733978316695930679904991663513068901087986111069085560055196883901133594695052052948119037930012409856nat);
    lemma_pow2_sum(968, 2);
    assert(pow2(970) == 9979201547673599058281863565184192830337256302177287707512736212186059459344820328924789827463178505446712234220962476219862189941967968303695858991424157101600028364755428382587688607221814935913266783722719619966654052275604351944444276342240220787535604534378780208211792476151720049639424nat);
    lemma_pow2_sum(970, 1);
    assert(pow2(971) == 19958403095347198116563727130368385660674512604354575415025472424372118918689640657849579654926357010893424468441924952439724379883935936607391717982848314203200056729510856765175377214443629871826533567445439239933308104551208703888888552684480441575071209068757560416423584952303440099278848nat);
    lemma_pow2_sum(32, 16);
    assert(pow2(48) == 281474976710656nat);
    lemma_pow2_sum(48, 4);
    assert(pow2(52) == 4503599627370496nat);
    lemma_pow2_sum(52, 1);
    assert(pow2(53) == 9007199254740992nat);
}

impl NumberParts {
    /// The number without its sign, where it is a whole number.
    pub open spec fn whole_magnitude(self) -> Option<int> {
        if self.exponent >= 0 {
            Some(self.mantissa * pow10(self.exponent as nat))
        } else if self.mantissa as int % pow10((-self.exponent) as nat) as int == 0 {
            Some(self.mantissa as int / pow10((-self.exponent) as nat) as int)
        } else {
            None
        }
    }

    /// Whether the number is a whole number that a 64-bit signed integer
    /// holds.
    pub open spec fn fits_i64(self) -> bool {
        match self.whole_magnitude() {
            Some(magnitude) => if self.positive {
                magnitude <= i64::MAX
            } else {
                magnitude <= -i64::MIN
            },
            None => false,
        }
    }

    /// Whether the number is no larger, without its sign, than the largest
    /// finite double.
    pub open spec fn fits_double(self) -> bool {
        self.exponent <= 0 || self.mantissa * pow10(self.exponent as nat) <= double_max()
    }
}

/// The kind of a number: an integer where a 64-bit signed integer holds it
/// exactly, else a float where it is in the range of a double, else none.
pub open spec fn classify(parts: NumberParts) -> Result<Number, Error> {
    if parts.fits_i64() {
        Ok(Number::Int)
    } else if parts.fits_double() {
        Ok(Number::Float)
    } else {
        Err(Error::BadNumber)
    }
}

/// A power of ten with a sum for its exponent is the product of the powers.
proof fn lemma_pow10_sum(a: nat, b: nat)
    ensures
        pow10(a + b) == pow10(a) * pow10(b),
    decreases b,
{
    if b == 0 {
        assert(pow10(a) * 1 == pow10(a));
    } else {
        lemma_pow10_sum(a, (b - 1) as nat);
        assert(pow10(a + b) == 10 * pow10((a + b - 1) as nat));
        lemma_mul_is_associative(10, pow10(a) as int, pow10((b - 1) as nat) as int);
        assert(pow10(a) * (10 * pow10((b - 1) as nat)) == 10 * (pow10(a) * pow10((b - 1) as nat)))
            by (nonlinear_arith);
    }
}

/// The powers of ten grow with their exponent, from one.
proof fn lemma_pow10_grows(a: nat, b: nat)
    requires
        a <= b,
    ensures
        1 <= pow10(a) <= pow10(b),
    decreases b,
{
    if b == 0 {
    } else if a == b {
        lemma_pow10_grows(0, (b - 1) as nat);
    } else {
        lemma_pow10_grows(a, (b - 1) as nat);
    }
}

/// The powers of ten up to the nineteenth, which `u64` holds.
proof fn lemma_pow10_small(n: nat)
    requires
        n <= 19,
    ensures
        pow10(n) <= 10000000000000000000nat,
        n <= 18 ==> pow10(n) <= 1000000000000000000,
{
    reveal_with_fuel(pow10, 20);
}

/// Four large powers of ten, written out.
proof fn lemma_pow10_large()
    ensures
        pow10(20) == 100000000000000000000nat,
        pow10(288) == 1000000000000000000000000000000000000000000000000000000000000000000000000000000000000000000000000000000000000000000000000000000000000000000000000000000000000000000000000000000000000000000000000000000000000000000000000000000000000000000000000000000000000000000000000000000000000000000000000nat,
        pow10(289) == 10000000000000000000000000000000000000000000000000000000000000000000000000000000000000000000000000000000000000000000000000000000000000000000000000000000000000000000000000000000000000000000000000000000000000000000000000000000000000000000000000000000000000000000000000000000000000000000000000nat,
        pow10(309) == 1000000000000000000000000000000000000000000000000000000000000000000000000000000000000000000000000000000000000000000000000000000000000000000000000000000000000000000000000000000000000000000000000000000000000000000000000000000000000000000000000000000000000000000000000000000000000000000000000000000000000000000000nat,
{
    assert(pow10(1) == 10) by {
        reveal_with_fuel(pow10, 2);
    }
    lemma_pow10_sum(1, 1);
    assert(pow10(2) == 100nat);
    lemma_pow10_sum(2, 2);
    assert(pow10(4) == 10000nat);
    lemma_pow10_sum(4, 4);
    assert(pow10(8) == 100000000nat);
    lemma_pow10_sum(8, 8);
    assert(pow10(16) == 10000000000000000nat);
    lemma_pow10_sum(16, 16);
    assert(pow10(32) == 100000000000000000000000000000000nat);
    lemma_pow10_sum(32, 32);
    assert(pow10(64) == 10000000000000000000000000000000000000000000000000000000000000000nat);
    lemma_pow10_sum(64, 64);
    assert(pow10(128) == 100000000000000000000000000000000000000000000000000000000000000000000000000000000000000000000000000000000000000000000000000000000nat);
    lemma_pow10_sum(128, 128);
    assert(pow10(256) == 10000000000000000000000000000000000000000000000000000000000000000000000000000000000000000000000000000000000000000000000000000000000000000000000000000000000000000000000000000000000000000000000000000000000000000000000000000000000000000000000000000000000000000nat);
    lemma_pow10_sum(256, 32);
    assert(pow10(288) == 1000000000000000000000000000000000000000000000000000000000000000000000000000000000000000000000000000000000000000000000000000000000000000000000000000000000000000000000000000000000000000000000000000000000000000000000000000000000000000000000000000000000000000000000000000000000000000000000000nat);
    lemma_pow10_sum(288, 1);
    assert(pow10(289) == 10000000000000000000000000000000000000000000000000000000000000000000000000000000000000000000000000000000000000000000000000000000000000000000000000000000000000000000000000000000000000000000000000000000000000000000000000000000000000000000000000000000000000000000000000000000000000000000000000nat);
    lemma_pow10_sum(16, 4);
    assert(pow10(20) == 100000000000000000000nat);
    lemma_pow10_sum(289, 20);
    assert(pow10(309) == 1000000000000000000000000000000000000000000000000000000000000000000000000000000000000000000000000000000000000000000000000000000000000000000000000000000000000000000000000000000000000000000000000000000000000000000000000000000000000000000000000000000000000000000000000000000000000000000000000000000000000000000000nat);
}

/// For a positive `d`, `m * d` stays within `x` exactly when `m` stays
/// within the quotient of `x` by `d`.
proof fn lemma_product_within(m: nat, d: nat, x: nat)
    requires
        d > 0,
    ensures
        m * d <= x <==> m <= x / d,
{
    lemma_fundamental_div_mod(x as int, d as int);
    if m <= x / d {
        lemma_mul_inequality(m as int, (x / d) as int, d as int);
        assert(d * (x / d) == (x / d) * d) by (nonlinear_arith);
    }
    if m * d <= x {
        lemma_div_is_ordered((m * d) as int, x as int, d as int);
        lemma_div_multiples_vanish(m as int, d as int);
        assert(d * m == m * d) by (nonlinear_arith);
    }
}

/// Ten to the power of `n`, where `u64` holds it.
fn pow10_exec(n: u32) -> (r: u64)
    requires
        n <= 19,
    ensures
        r == pow10(n as nat),
{
    let mut r: u64 = 1;
    let mut i: u32 = 0;
    while i < n
        invariant
            i <= n <= 19,
            r == pow10(i as nat),
        decreases n - i,
    {
        proof {
            lemma_pow10_small(i as nat);
        }
        r = r * 10;
        i = i + 1;
    }
    r
}

/// Whether a number is a whole number that a 64-bit signed integer holds.
fn fits_i64(parts: &NumberParts) -> (r: bool)
    ensures
        r == parts.fits_i64(),
{
    let limit: u64 = if parts.positive {
        9223372036854775807
    } else {
        9223372036854775808
    };
    if parts.mantissa == 0 {
        proof {
            if parts.exponent >= 0 {
                assert(0 * pow10(parts.exponent as nat) == 0) by (nonlinear_arith);
            } else {
                lemma_pow10_grows(0, (-parts.exponent) as nat);
                lemma_small_mod(0, pow10((-parts.exponent) as nat));
                assert(0nat / pow10((-parts.exponent) as nat) == 0) by (nonlinear_arith)
                    requires
                        pow10((-parts.exponent) as nat) > 0,
                ;
            }
        }
        return true;
    }
    if parts.exponent >= 0 {
        if parts.exponent > 19 {
            proof {
                lemma_pow10_large();
                lemma_pow10_grows(20, parts.exponent as nat);
                assert(parts.mantissa * pow10(parts.exponent as nat) >= pow10(
                    parts.exponent as nat,
                )) by (nonlinear_arith)
                    requires
                        parts.mantissa >= 1,
                ;
            }
            return false;
        }
        let power = pow10_exec(parts.exponent as u32);
        assert(parts.mantissa * power <= 0xffff_ffff_ffff_ffff * 0xffff_ffff_ffff_ffff)
            by (nonlinear_arith)
            requires
                parts.mantissa <= 0xffff_ffff_ffff_ffff,
                power <= 0xffff_ffff_ffff_ffff,
        ;
        (parts.mantissa as u128) * (power as u128) <= limit as u128
    } else {
        if parts.exponent < -19 {
            proof {
                lemma_pow10_large();
                lemma_pow10_grows(20, (-parts.exponent) as nat);
                lemma_small_mod(parts.mantissa as nat, pow10((-parts.exponent) as nat));
            }
            return false;
        }
        let power = pow10_exec((-parts.exponent) as u32);
        proof {
            lemma_pow10_grows(0, (-parts.exponent) as nat);
        }
        parts.mantissa % power == 0 && parts.mantissa / power <= limit
    }
}

/// Whether a number is no larger, without its sign, than the largest
/// finite double.
fn fits_double(parts: &NumberParts) -> (r: bool)
    ensures
        r == parts.fits_double(),
{
    if parts.exponent <= 0 {
        return true;
    }
    let ghost exponent = parts.exponent as nat;
    if parts.mantissa == 0 {
        assert(0 * pow10(exponent) == 0) by (nonlinear_arith);
        return true;
    }
    proof {
        lemma_pow10_large();
    }
    if parts.exponent <= 288 {
        proof {
            lemma_pow10_grows(exponent, 288);
            assert(parts.mantissa * pow10(exponent) <= 0xffff_ffff_ffff_ffff * pow10(288))
                by (nonlinear_arith)
                requires
                    parts.mantissa <= 0xffff_ffff_ffff_ffff,
                    pow10(exponent) <= pow10(288),
            ;
        }
        return true;
    }
    if parts.exponent > 308 {
        proof {
            lemma_pow10_grows(309, exponent);
            assert(parts.mantissa * pow10(exponent) >= pow10(exponent)) by (nonlinear_arith)
                requires
                    parts.mantissa >= 1,
            ;
        }
        return false;
    }
    let scale = pow10_exec((parts.exponent - 289) as u32);
    proof {
        let rest = (exponent - 289) as nat;
        lemma_pow10_sum(289, rest);
        lemma_pow10_grows(0, rest);
        lemma_pow10_grows(0, exponent);
        lemma_product_within(parts.mantissa as nat, pow10(exponent), double_max());
        lemma_div_denominator(double_max() as int, pow10(289) as int, pow10(rest) as int);
        assert(double_max() / pow10(289) == 17976931348623157081nat) by {
            assert(double_max() == 17976931348623157081nat * pow10(289) + 4527423731704356798070567525844996598917476803157260780028538760589558632766878171540458953514382464234321326889464182768467546703537516986049910576551282076245490090389328944075868508455133942304583236903222948165808559332123348274797826204144723168738177180919299881250404026184124858368nat);
            lemma_fundamental_div_mod_converse_quotient(
                double_max(),
                pow10(289),
                17976931348623157081,
                4527423731704356798070567525844996598917476803157260780028538760589558632766878171540458953514382464234321326889464182768467546703537516986049910576551282076245490090389328944075868508455133942304583236903222948165808559332123348274797826204144723168738177180919299881250404026184124858368nat,
            );
        }
    }
    parts.mantissa <= 17976931348623157081 / scale
}

/// The quotient of `q * d + r` by `d`, where `r` is less than `d`, is `q`.
proof fn lemma_fundamental_div_mod_converse_quotient(x: nat, d: nat, q: nat, r: nat)
    requires
        d > 0,
        r < d,
        x == q * d + r,
    ensures
        x / d == q,
{
    vstd::arithmetic::div_mod::lemma_fundamental_div_mod_converse(
        x as int,
        d as int,
        q as int,
        r as int,
    );
}

/// Tells an integer from a float, and refuses a number that is neither.
pub fn value_into_number(n: &NumberParts) -> (r: Result<Number, Error>)
    ensures
        r == classify(*n),
{
    if fits_i64(n) {
        Ok(Number::Int)
    } else if fits_double(n) {
        Ok(Number::Float)
    } else {
        Err(Error::BadNumber)
    }
}

} // verus!
