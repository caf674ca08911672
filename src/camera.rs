//! Camera-side decisions that need no geometry: which basis vector a move
//! follows, and how depth-of-field samples are merged into one pixel.
use vstd::prelude::*;

verus! {

/// Defines the direction the camera can move in.
#[derive(Clone, Copy, Debug, PartialEq, Eq, Structural)]
pub enum Direction {
    Forward,
    Backward,
    Right,
    Left,
    Up,
    Down,
}

/// One of the camera's three basis vectors.
#[derive(Clone, Copy, Debug, PartialEq, Eq, Structural)]
pub enum Axis {
    /// The look direction, from the camera's position towards its target.
    Look,
    /// The camera's right vector.
    Right,
    /// The camera's up vector.
    Up,
}

impl Direction {
    /// The basis vector that a move in this direction follows, and whether
    /// it goes along it (`1`) or against it (`-1`).
    pub fn axis_and_sign(&self) -> (r: (Axis, i8))
        ensures
            r.1 == 1 <==> (*self is Forward || *self is Right || *self is Up),
            r.1 == -1 <==> (*self is Backward || *self is Left || *self is Down),
            (r.0 is Look) <==> (*self is Forward || *self is Backward),
            (r.0 is Right) <==> (*self is Right || *self is Left),
            (r.0 is Up) <==> (*self is Up || *self is Down),
    {
        match self {
            Direction::Forward => (Axis::Look, 1),
            Direction::Backward => (Axis::Look, -1),
            Direction::Right => (Axis::Right, 1),
            Direction::Left => (Axis::Right, -1),
            Direction::Up => (Axis::Up, 1),
            Direction::Down => (Axis::Up, -1),
        }
    }
}

/// The sum of the columns of the first samples.
pub open spec fn sum_columns(samples: Seq<(usize, usize)>) -> int
    decreases samples.len(),
{
    if samples.len() == 0 {
        0
    } else {
        sum_columns(samples.drop_last()) + samples.last().0
    }
}

/// The sum of the rows of the samples.
pub open spec fn sum_rows(samples: Seq<(usize, usize)>) -> int
    decreases samples.len(),
{
    if samples.len() == 0 {
        0
    } else {
        sum_rows(samples.drop_last()) + samples.last().1
    }
}

/// `total / n` rounded to the nearest integer, halves rounded up.
pub open spec fn rounded_mean(total: int, n: int) -> int {
    (2 * total + n) / (2 * n)
}

/// The rounded mean pixel of a non-empty list of samples.
pub open spec fn mean_pixel(samples: Seq<(usize, usize)>) -> (int, int) {
    (
        rounded_mean(sum_columns(samples), samples.len() as int),
        rounded_mean(sum_rows(samples), samples.len() as int),
    )
}

/// Rounds `total / n` to the nearest integer, halves up, without overflow.
fn rounded_mean_exec(total: u128, n: u128) -> (r: usize)
    requires
        n > 0,
        total <= n * (usize::MAX as int),
    ensures
        r as int == rounded_mean(total as int, n as int),
{
    let q: u128 = total / n;
    let rem: u128 = total % n;
    proof {
        let t = total as int;
        let m = n as int;
        vstd::arithmetic::div_mod::lemma_fundamental_div_mod(t, m);
        assert(t == m * q + rem);
        assert(q * m <= t) by (nonlinear_arith)
            requires
                t == m * q + rem,
                0 <= rem,
        ;
        assert(q <= usize::MAX as int) by (nonlinear_arith)
            requires
                q * m <= t,
                t <= m * (usize::MAX as int),
                m > 0,
        ;
        if q == usize::MAX as int {
            assert(rem == 0) by (nonlinear_arith)
                requires
                    t == m * q + rem,
                    t <= m * (usize::MAX as int),
                    q == usize::MAX as int,
                    0 <= rem,
            ;
        }
        if rem >= m - rem {
            assert(2 * t + m == (q + 1) * (2 * m) + (2 * rem - m)) by (nonlinear_arith)
                requires
                    t == m * q + rem,
            ;
            vstd::arithmetic::div_mod::lemma_fundamental_div_mod_converse(
                2 * t + m,
                2 * m,
                q + 1,
                2 * rem - m,
            );
        } else {
            assert(2 * t + m == q * (2 * m) + (2 * rem + m)) by (nonlinear_arith)
                requires
                    t == m * q + rem,
            ;
            vstd::arithmetic::div_mod::lemma_fundamental_div_mod_converse(
                2 * t + m,
                2 * m,
                q as int,
                2 * rem + m,
            );
        }
    }
    if rem >= n - rem {
        (q + 1) as usize
    } else {
        q as usize
    }
}

/// Merges the pixels that the successful depth-of-field samples of one point
/// landed on: the rounded mean column and row, or `None` when no sample
/// succeeded.
pub fn average_pixel(samples: &Vec<(usize, usize)>) -> (r: Option<(usize, usize)>)
    ensures
        r is None <==> samples@.len() == 0,
        r matches Some(p) ==> (p.0 as int, p.1 as int) == mean_pixel(samples@),
{
    let n = samples.len();
    if n == 0 {
        return None;
    }
    let mut sum_x: u128 = 0;
    let mut sum_y: u128 = 0;
    let mut k: usize = 0;
    while k < n
        invariant
            n == samples@.len(),
            k <= n,
            sum_x == sum_columns(samples@.take(k as int)),
            sum_y == sum_rows(samples@.take(k as int)),
            sum_x <= k * (usize::MAX as int),
            sum_y <= k * (usize::MAX as int),
        decreases n - k,
    {
        assert(samples@.take(k + 1).drop_last() =~= samples@.take(k as int));
        let (x, y) = samples[k];
        assert((k + 1) * (usize::MAX as int) == k * (usize::MAX as int) + usize::MAX as int)
            by (nonlinear_arith);
        assert(k * (usize::MAX as int) + usize::MAX as int <= 18446744073709551616
            * 18446744073709551615) by (nonlinear_arith)
            requires
                k < 18446744073709551615,
        ;
        sum_x = sum_x + x as u128;
        sum_y = sum_y + y as u128;
        k = k + 1;
    }
    assert(samples@.take(n as int) =~= samples@);
    let column = rounded_mean_exec(sum_x, n as u128);
    let row = rounded_mean_exec(sum_y, n as u128);
    Some((column, row))
}

/// The mean of `n` copies of one pixel, with `n >= 1`, is that pixel: when
/// every depth-of-field sample lands on the same pixel, the merged result is
/// that pixel.
pub proof fn lemma_mean_of_copies(p: (usize, usize), n: nat)
    requires
        n >= 1,
    ensures
        mean_pixel(Seq::new(n, |i: int| p)) == (p.0 as int, p.1 as int),
{
    lemma_sums_of_copies(p, n);
    let m = n as int;
    assert((2 * (m * p.0) + m) / (2 * m) == p.0 as int) by {
        assert(2 * (m * p.0) + m == p.0 * (2 * m) + m) by (nonlinear_arith);
        vstd::arithmetic::div_mod::lemma_fundamental_div_mod_converse(
            2 * (m * p.0) + m,
            2 * m,
            p.0 as int,
            m,
        );
    }
    assert((2 * (m * p.1) + m) / (2 * m) == p.1 as int) by {
        assert(2 * (m * p.1) + m == p.1 * (2 * m) + m) by (nonlinear_arith);
        vstd::arithmetic::div_mod::lemma_fundamental_div_mod_converse(
            2 * (m * p.1) + m,
            2 * m,
            p.1 as int,
            m,
        );
    }
}

proof fn lemma_sums_of_copies(p: (usize, usize), n: nat)
    ensures
        sum_columns(Seq::new(n, |i: int| p)) == n * p.0,
        sum_rows(Seq::new(n, |i: int| p)) == n * p.1,
    decreases n,
{
    if n > 0 {
        let s = Seq::new(n, |i: int| p);
        assert(s.drop_last() =~= Seq::new((n - 1) as nat, |i: int| p));
        assert(s.last() == p);
        lemma_sums_of_copies(p, (n - 1) as nat);
        assert(n * p.0 == (n - 1) * p.0 + p.0) by (nonlinear_arith)
            requires
                n > 0,
        ;
        assert(n * p.1 == (n - 1) * p.1 + p.1) by (nonlinear_arith)
            requires
                n > 0,
        ;
        assert(sum_columns(s) == sum_columns(s.drop_last()) + p.0);
        assert(sum_rows(s) == sum_rows(s.drop_last()) + p.1);
    } else {
        assert(sum_columns(Seq::new(n, |i: int| p)) == 0);
    }
}

} // verus!
