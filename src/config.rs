//! The values that configure a comparison, read from their text form.
use vstd::prelude::*;

use crate::bucket::strictly_descending;
use crate::compare::{DistanceFraction, Mode};
use crate::text::{chars_of, decimal_value, is_number_upto, read_number, split_on, split_spans};

verus! {

/// A configuration value that cannot be read.
#[derive(Clone, Copy, Debug, PartialEq, Eq, Structural)]
pub enum ConfigError {
    InvalidMode,
    InvalidDistance,
    InvalidThresholds,
}

/// The name of each comparison mode.
pub open spec fn mode_name(m: Mode) -> Seq<char> {
    match m {
        Mode::All => seq!['a', 'l', 'l'],
        Mode::PrimTgt => seq!['p', 'r', 'i', 'm', '_', 't', 'g', 't'],
        Mode::Prim => seq!['p', 'r', 'i', 'm'],
        Mode::PrimSupp => seq!['p', 'r', 'i', 'm', '_', 's', 'u', 'p', 'p'],
    }
}

fn same_chars(a: &Vec<char>, b: &Vec<char>) -> (r: bool)
    ensures
        r == (a@ == b@),
{
    if a.len() != b.len() {
        return false;
    }
    let mut i: usize = 0;
    while i < a.len()
        invariant
            i <= a@.len() == b@.len(),
            forall|k: int| 0 <= k < i ==> a@[k] == b@[k],
        decreases a@.len() - i,
    {
        if a[i] != b[i] {
            return false;
        }
        i = i + 1;
    }
    assert(a@ == b@);
    true
}

/// The mode that `s` names, if any.
pub open spec fn mode_named(s: Seq<char>) -> Option<Mode> {
    if s == mode_name(Mode::All) {
        Some(Mode::All)
    } else if s == mode_name(Mode::PrimTgt) {
        Some(Mode::PrimTgt)
    } else if s == mode_name(Mode::Prim) {
        Some(Mode::Prim)
    } else if s == mode_name(Mode::PrimSupp) {
        Some(Mode::PrimSupp)
    } else {
        None
    }
}

impl Mode {
    /// The mode named `s`.
    pub fn from_str(s: &str) -> (r: Result<Mode, ConfigError>)
        ensures
            r == match mode_named(s@) {
                Some(m) => Ok::<Mode, ConfigError>(m),
                None => Err(ConfigError::InvalidMode),
            },
            r matches Ok(m) ==> mode_name(m) == s@,
            r is Err ==> forall|m: Mode| mode_name(m) != s@,
    {
        let c = chars_of(s);
        if same_chars(&c, &vec!['a', 'l', 'l']) {
            Ok(Mode::All)
        } else if same_chars(&c, &vec!['p', 'r', 'i', 'm', '_', 't', 'g', 't']) {
            Ok(Mode::PrimTgt)
        } else if same_chars(&c, &vec!['p', 'r', 'i', 'm']) {
            Ok(Mode::Prim)
        } else if same_chars(&c, &vec!['p', 'r', 'i', 'm', '_', 's', 'u', 'p', 'p']) {
            Ok(Mode::PrimSupp)
        } else {
            assert forall|m: Mode| mode_name(m) != s@ by {
                match m {
                    Mode::All => assert(mode_name(m) == seq!['a', 'l', 'l']),
                    Mode::PrimTgt => assert(mode_name(m) == seq!['p', 'r', 'i', 'm', '_', 't', 'g', 't']),
                    Mode::Prim => assert(mode_name(m) == seq!['p', 'r', 'i', 'm']),
                    Mode::PrimSupp => assert(mode_name(m) == seq!['p', 'r', 'i', 'm', '_', 's', 'u', 'p', 'p']),
                }
            }
            Err(ConfigError::InvalidMode)
        }
    }
}

/// The numbers of a comma-separated threshold list, in order.
pub open spec fn threshold_values(s: Seq<char>) -> Seq<u8> {
    let p = split_on(s, ',');
    Seq::new(p.len(), |i: int| decimal_value(p[i]) as u8)
}

/// Every item of the list is a number from 0 to 255, and the numbers fall
/// strictly from first to last.
pub open spec fn valid_thresholds(s: Seq<char>) -> bool {
    let p = split_on(s, ',');
    &&& forall|i: int| 0 <= i < p.len() ==> is_number_upto(#[trigger] p[i], u8::MAX as nat)
    &&& strictly_descending(threshold_values(s))
}

/// Reads a threshold list such as `60,10,1,0`.
pub fn parse_thresholds(s: &str) -> (r: Result<Vec<u8>, ConfigError>)
    ensures
        r matches Ok(v) ==> v@ == threshold_values(s@),
        r is Ok <==> valid_thresholds(s@),
        r is Err ==> r == Err::<Vec<u8>, ConfigError>(ConfigError::InvalidThresholds),
{
    let chars = chars_of(s);
    let spans = split_spans(&chars, ',');
    let ghost p = split_on(s@, ',');
    let mut v: Vec<u8> = Vec::new();
    let mut k: usize = 0;
    while k < spans.len()
        invariant
            k <= spans@.len() == p.len(),
            chars@ == s@,
            p == split_on(chars@, ','),
            forall|j: int|
                0 <= j < spans@.len() ==> {
                    &&& (#[trigger] spans@[j]).0 <= spans@[j].1 <= chars@.len()
                    &&& chars@.subrange(spans@[j].0 as int, spans@[j].1 as int) == p[j]
                },
            v@ == Seq::new(k as nat, |i: int| decimal_value(p[i]) as u8),
            forall|i: int| 0 <= i < k ==> is_number_upto(#[trigger] p[i], u8::MAX as nat),
            strictly_descending(v@),
        decreases spans@.len() - k,
    {
        assert(spans@[k as int].0 <= spans@[k as int].1 <= chars@.len());
        let x = match read_number(&chars, spans[k].0, spans[k].1, 255) {
            Some(x) => x as u8,
            None => {
                assert(!is_number_upto(p[k as int], u8::MAX as nat));
                return Err(ConfigError::InvalidThresholds);
            },
        };
        if k > 0 && v[k - 1] <= x {
            proof {
                let w = threshold_values(s@);
                assert(w[k - 1] == v@[k - 1] && w[k as int] == x);
            }
            return Err(ConfigError::InvalidThresholds);
        }
        v.push(x);
        k = k + 1;
        assert(v@ == Seq::new(k as nat, |i: int| decimal_value(p[i]) as u8));
    }
    assert(v@ == threshold_values(s@));
    Ok(v)
}

/// Ten to the power `k`.
pub open spec fn pow10(k: nat) -> nat
    decreases k,
{
    if k == 0 {
        1
    } else {
        10 * pow10((k - 1) as nat)
    }
}

/// The digits of a decimal `a` or `a.b`, without the point.
pub open spec fn decimal_digits(s: Seq<char>) -> Seq<char> {
    let p = split_on(s, '.');
    if p.len() == 2 {
        p[0] + p[1]
    } else {
        p[0]
    }
}

/// The number of digits after the point.
pub open spec fn decimal_scale(s: Seq<char>) -> nat {
    let p = split_on(s, '.');
    if p.len() == 2 {
        p[1].len()
    } else {
        0
    }
}

/// `s` is `a` or `a.b` with decimal digits `a` and `b`, not both empty, at
/// most nine digits after the point, and `ab` at most `u32::MAX`.
pub open spec fn valid_fraction(s: Seq<char>) -> bool {
    let p = split_on(s, '.');
    &&& p.len() == 1 || p.len() == 2
    &&& is_number_upto(decimal_digits(s), u32::MAX as nat)
    &&& decimal_scale(s) <= 9
}

fn push_span(dst: &mut Vec<char>, src: &Vec<char>, from: usize, to: usize)
    requires
        from <= to <= src@.len(),
    ensures
        final(dst)@ == old(dst)@ + src@.subrange(from as int, to as int),
{
    let mut i: usize = from;
    while i < to
        invariant
            from <= i <= to <= src@.len(),
            dst@ == old(dst)@ + src@.subrange(from as int, i as int),
        decreases to - i,
    {
        dst.push(src[i]);
        i = i + 1;
        assert(src@.subrange(from as int, i as int) == src@.subrange(from as int, i - 1).push(
            src@[i - 1],
        ));
    }
}

impl DistanceFraction {
    /// Reads a decimal such as `1.0` or `0.25` as an exact fraction with a
    /// power of ten below.
    pub fn from_decimal(s: &str) -> (r: Result<DistanceFraction, ConfigError>)
        ensures
            r matches Ok(f) ==> f.wf() && f.num == decimal_value(decimal_digits(s@)) && f.den
                == pow10(decimal_scale(s@)),
            r is Ok <==> valid_fraction(s@),
            r is Err ==> r == Err::<DistanceFraction, ConfigError>(ConfigError::InvalidDistance),
    {
        let chars = chars_of(s);
        let spans = split_spans(&chars, '.');
        let ghost p = split_on(s@, '.');
        if spans.len() > 2 {
            return Err(ConfigError::InvalidDistance);
        }
        let mut digits: Vec<char> = Vec::new();
        assert(spans@[0].0 <= spans@[0].1 <= chars@.len());
        push_span(&mut digits, &chars, spans[0].0, spans[0].1);
        let mut scale: usize = 0;
        if spans.len() == 2 {
            assert(spans@[1].0 <= spans@[1].1 <= chars@.len());
            push_span(&mut digits, &chars, spans[1].0, spans[1].1);
            scale = spans[1].1 - spans[1].0;
        }
        assert(digits@ == decimal_digits(s@));
        assert(scale == decimal_scale(s@));
        if scale > 9 {
            return Err(ConfigError::InvalidDistance);
        }
        assert(digits@.subrange(0, digits@.len() as int) == digits@);
        let num = match read_number(&digits, 0, digits.len(), 0xffff_ffff) {
            Some(n) => n as u32,
            None => {
                return Err(ConfigError::InvalidDistance);
            },
        };
        let mut den: u32 = 1;
        let mut i: usize = 0;
        while i < scale
            invariant
                i <= scale <= 9,
                den == pow10(i as nat),
                1 <= den <= 1_000_000_000,
            decreases scale - i,
        {
            proof {
                if i < 9 {
                    assert(pow10(i as nat) <= 100_000_000) by {
                        lemma_pow10_bound(i as nat);
                    }
                }
            }
            den = den * 10;
            i = i + 1;
        }
        Ok(DistanceFraction { num, den })
    }
}

proof fn lemma_pow10_bound(k: nat)
    requires
        k <= 8,
    ensures
        1 <= pow10(k) <= 100_000_000,
{
    reveal_with_fuel(pow10, 9);
}

} // verus!
