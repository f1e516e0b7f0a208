//! Adaptive polling: faster near exhaustion, slower after errors.
use vstd::prelude::*;

verus! {

/// The interval without regard to errors: halved from the yellow threshold on,
/// quartered from the red one on, never below the floor.
pub open spec fn adaptive_interval(
    base: int,
    min_seconds: int,
    remaining_pct: int,
    yellow: int,
    red: int,
) -> int {
    let used = 100 - remaining_pct;
    let cut = if used >= red {
        base / 4
    } else if used >= yellow {
        base / 2
    } else {
        base
    };
    if cut < min_seconds {
        min_seconds
    } else {
        cut
    }
}

/// Two to the power of the error streak, with the streak capped at eight.
pub open spec fn backoff_factor(fail_streak: nat) -> nat
    decreases fail_streak,
{
    if fail_streak == 0 {
        1
    } else if fail_streak > 8 {
        256
    } else {
        2 * backoff_factor((fail_streak - 1) as nat)
    }
}

/// Seconds until the next poll.
pub open spec fn interval(
    base: int,
    min_seconds: int,
    max_backoff: int,
    remaining_pct: int,
    yellow: int,
    red: int,
    fail_streak: nat,
) -> int {
    let adaptive = adaptive_interval(base, min_seconds, remaining_pct, yellow, red);
    let grown = adaptive * backoff_factor(fail_streak);
    if fail_streak == 0 {
        adaptive
    } else if grown < max_backoff {
        grown
    } else {
        max_backoff
    }
}

/// Seconds until the next poll: `base` seconds, cut as the quota runs low and
/// floored at `min_seconds`, doubled per consecutive error up to `max_backoff`.
pub fn next_interval(
    base: u64,
    min_seconds: u64,
    max_backoff: u64,
    remaining_pct: i64,
    yellow: i64,
    red: i64,
    fail_streak: u32,
) -> (r: u64)
    ensures
        r == interval(
            base as int,
            min_seconds as int,
            max_backoff as int,
            remaining_pct as int,
            yellow as int,
            red as int,
            fail_streak as nat,
        ),
{
    let used: i128 = 100 - remaining_pct as i128;
    let cut: u64 = if used >= red as i128 {
        base / 4
    } else if used >= yellow as i128 {
        base / 2
    } else {
        base
    };
    let adaptive: u64 = if cut < min_seconds {
        min_seconds
    } else {
        cut
    };
    if fail_streak == 0 {
        return adaptive;
    }
    let steps: u32 = if fail_streak > 8 {
        8
    } else {
        fail_streak
    };
    let mut factor: u64 = 1;
    let mut i: u32 = 0;
    while i < steps
        invariant
            i <= steps <= 8,
            factor == backoff_factor(i as nat),
            factor <= 256,
            i < 8 ==> factor <= 128,
            i < 7 ==> factor <= 64,
            i < 6 ==> factor <= 32,
            i < 5 ==> factor <= 16,
            i < 4 ==> factor <= 8,
            i < 3 ==> factor <= 4,
            i < 2 ==> factor <= 2,
            i < 1 ==> factor <= 1,
        decreases steps - i,
    {
        factor = factor * 2;
        i += 1;
    }
    proof {
        if fail_streak > 8 {
            reveal_with_fuel(backoff_factor, 9);
            assert(backoff_factor(8) == 256);
        }
        assert(adaptive * factor <= u64::MAX * 256) by (nonlinear_arith)
            requires
                adaptive <= u64::MAX,
                factor <= 256,
        ;
    }
    let grown: u128 = adaptive as u128 * factor as u128;
    if grown < max_backoff as u128 {
        grown as u64
    } else {
        max_backoff
    }
}

proof fn lemma_factor(streak: nat)
    ensures
        1 <= backoff_factor(streak) <= 256,
        backoff_factor(streak) <= backoff_factor(streak + 1),
        streak > 0 ==> backoff_factor(streak) >= 2,
    decreases streak,
{
    reveal_with_fuel(backoff_factor, 10);
    if streak <= 8 {
        if streak > 0 {
            lemma_factor((streak - 1) as nat);
        }
    }
}

/// No poll comes sooner than the floor, unless after an error the cap is below it.
pub proof fn law_never_below_floor(
    base: int,
    min_seconds: int,
    max_backoff: int,
    remaining_pct: int,
    yellow: int,
    red: int,
    fail_streak: nat,
)
    requires
        0 <= min_seconds,
        fail_streak == 0 || min_seconds <= max_backoff,
    ensures
        interval(base, min_seconds, max_backoff, remaining_pct, yellow, red, fail_streak)
            >= min_seconds,
{
    let adaptive = adaptive_interval(base, min_seconds, remaining_pct, yellow, red);
    lemma_factor(fail_streak);
    let f = backoff_factor(fail_streak);
    assert(adaptive * f >= adaptive) by (nonlinear_arith)
        requires
            adaptive >= 0,
            f >= 1,
    ;
}

/// After an error the cap holds, whatever the floor.
pub proof fn law_never_above_cap_after_errors(
    base: int,
    min_seconds: int,
    max_backoff: int,
    remaining_pct: int,
    yellow: int,
    red: int,
    fail_streak: nat,
)
    requires
        fail_streak > 0,
    ensures
        interval(base, min_seconds, max_backoff, remaining_pct, yellow, red, fail_streak)
            <= max_backoff,
{
}

/// One more error never brings the next poll forward.
pub proof fn law_backoff_is_monotone(
    base: int,
    min_seconds: int,
    max_backoff: int,
    remaining_pct: int,
    yellow: int,
    red: int,
    fail_streak: nat,
)
    requires
        0 <= min_seconds,
        fail_streak > 0,
    ensures
        interval(base, min_seconds, max_backoff, remaining_pct, yellow, red, fail_streak)
            <= interval(
            base,
            min_seconds,
            max_backoff,
            remaining_pct,
            yellow,
            red,
            fail_streak + 1,
        ),
{
    let adaptive = adaptive_interval(base, min_seconds, remaining_pct, yellow, red);
    lemma_factor(fail_streak);
    let f = backoff_factor(fail_streak) as int;
    let g = backoff_factor(fail_streak + 1) as int;
    assert(adaptive * f <= adaptive * g) by (nonlinear_arith)
        requires
            adaptive >= 0,
            f <= g,
    ;
}

/// Less quota left never slows polling down, as long as red lies at or above yellow.
pub proof fn law_polls_faster_near_exhaustion(
    base: int,
    min_seconds: int,
    a: int,
    b: int,
    yellow: int,
    red: int,
)
    requires
        0 <= base,
        a <= b,
        yellow <= red,
    ensures
        adaptive_interval(base, min_seconds, a, yellow, red) <= adaptive_interval(
            base,
            min_seconds,
            b,
            yellow,
            red,
        ),
{
}

/// Without errors the two thresholds decide: the whole interval below the yellow
/// one, half of it from there up to the red one, a quarter from the red one on, and
/// the floor in place of anything shorter.
pub proof fn law_thresholds_set_the_pace(
    base: int,
    min_seconds: int,
    max_backoff: int,
    remaining_pct: int,
    yellow: int,
    red: int,
)
    requires
        0 <= base,
    ensures
        ({
            let used = 100 - remaining_pct;
            let r = interval(base, min_seconds, max_backoff, remaining_pct, yellow, red, 0);
            &&& used < red && used < yellow && base >= min_seconds ==> r == base
            &&& yellow <= used < red && base / 2 >= min_seconds ==> base - 1 <= 2 * r <= base
            &&& red <= used && base / 4 >= min_seconds ==> base - 3 <= 4 * r <= base
            &&& used < red && used < yellow && base < min_seconds ==> r == min_seconds
            &&& yellow <= used < red && base / 2 < min_seconds ==> r == min_seconds
            &&& red <= used && base / 4 < min_seconds ==> r == min_seconds
        }),
{
}

/// Two percentages on the same side of both thresholds give the same pace, whatever
/// the errors.
pub proof fn law_pace_depends_on_thresholds_only(
    base: int,
    min_seconds: int,
    max_backoff: int,
    a: int,
    b: int,
    yellow: int,
    red: int,
    fail_streak: nat,
)
    requires
        100 - a >= yellow <==> 100 - b >= yellow,
        100 - a >= red <==> 100 - b >= red,
    ensures
        interval(base, min_seconds, max_backoff, a, yellow, red, fail_streak) == interval(
            base,
            min_seconds,
            max_backoff,
            b,
            yellow,
            red,
            fail_streak,
        ),
{
}

/// Every error up to the eighth doubles the wait that the thresholds set, and the
/// cap replaces anything longer; from the ninth on the wait stays.
pub proof fn law_errors_double_the_wait(
    base: int,
    min_seconds: int,
    max_backoff: int,
    remaining_pct: int,
    yellow: int,
    red: int,
    fail_streak: nat,
)
    requires
        0 <= base,
        0 <= min_seconds,
        0 <= max_backoff,
    ensures
        ({
            let calm = interval(base, min_seconds, max_backoff, remaining_pct, yellow, red, 0);
            let now = interval(
                base,
                min_seconds,
                max_backoff,
                remaining_pct,
                yellow,
                red,
                fail_streak,
            );
            let next = interval(
                base,
                min_seconds,
                max_backoff,
                remaining_pct,
                yellow,
                red,
                fail_streak + 1,
            );
            &&& fail_streak == 0 ==> next == vstd::math::min(2 * calm, max_backoff)
            &&& 0 < fail_streak < 8 ==> next == vstd::math::min(2 * now, max_backoff)
            &&& fail_streak >= 8 ==> next == now
        }),
{
    let adaptive = adaptive_interval(base, min_seconds, remaining_pct, yellow, red);
    lemma_factor(fail_streak);
    let f = backoff_factor(fail_streak) as int;
    assert(adaptive >= 0);
    assert(backoff_factor(1) == 2) by {
        reveal_with_fuel(backoff_factor, 3);
    }
    if fail_streak < 8 {
        assert(backoff_factor(fail_streak + 1) == 2 * f);
        assert(adaptive * (2 * f) == 2 * (adaptive * f)) by (nonlinear_arith);
        assert(adaptive * f >= 0) by (nonlinear_arith)
            requires
                adaptive >= 0,
                f >= 1,
        ;
    } else {
        reveal_with_fuel(backoff_factor, 10);
        assert(backoff_factor(8) == 256);
    }
    assert(adaptive * 2 == 2 * adaptive);
}

} // verus!
