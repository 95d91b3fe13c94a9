//! The fixed 90-degree reordering that turns a row-major sample buffer into
//! the display's physical scan order.
use vstd::prelude::*;
use vstd::arithmetic::div_mod::{
    lemma_div_pos_is_pos, lemma_fundamental_div_mod, lemma_fundamental_div_mod_converse, lemma_mod_pos_bound,
};
use vstd::arithmetic::mul::lemma_mul_nonnegative;

verus! {

/// The source index read at cursor `(x, y)` of a buffer with rows of width `w`:
/// row `w - x - 1`, column `y`.
pub open spec fn cursor_source(w: int, x: int, y: int) -> int {
    (w - x - 1) * w + y
}

/// Whether cursor `(x, y)` reads a sample inside a buffer of `len` samples.
pub open spec fn cursor_in_range(w: int, len: int, x: int, y: int) -> bool {
    x < w && cursor_source(w, x, y) < len
}

/// The source index of output position `k` for a `w` by `h` buffer:
/// `x = k % h` varies fastest, `y = k / h`.
pub open spec fn source_index(w: int, h: int, k: int) -> int {
    cursor_source(w, k % h, k / h)
}

/// Whether output position `k` is produced for a buffer of `len` samples.
pub open spec fn in_frame(w: int, h: int, len: int, k: int) -> bool {
    h > 0 && cursor_in_range(w, len, k % h, k / h)
}

/// A cursor over a sample buffer that yields its samples in scan order.
pub struct Rot90<T: Copy> {
    orig: Vec<T>,
    w: usize,
    h: usize,
    x: usize,
    y: usize,
}

impl<T: Copy> Rot90<T> {
    /// The buffer being traversed.
    pub closed spec fn samples(&self) -> Seq<T> {
        self.orig@
    }

    /// The declared width.
    pub closed spec fn width(&self) -> nat {
        self.w as nat
    }

    /// The declared height.
    pub closed spec fn height(&self) -> nat {
        self.h as nat
    }

    /// The cursor `(x, y)`.
    pub closed spec fn cursor(&self) -> (nat, nat) {
        (self.x as nat, self.y as nat)
    }

    /// The sample under the cursor, if the cursor lies inside the buffer.
    pub open spec fn peek_spec(&self) -> Option<T> {
        let w = self.width() as int;
        let x = self.cursor().0 as int;
        let y = self.cursor().1 as int;
        if cursor_in_range(w, self.samples().len() as int, x, y) {
            Some(self.samples()[cursor_source(w, x, y)])
        } else {
            None
        }
    }

    /// The cursor after one step: `x` runs over `0..height`, then `y` moves on.
    pub open spec fn stepped(&self) -> (nat, nat) {
        if self.cursor().0 + 1 >= self.height() {
            (0nat, self.cursor().1 + 1)
        } else {
            (self.cursor().0 + 1, self.cursor().1)
        }
    }

    /// Starts a traversal of `orig`, laid out with the dimensions `(width, height)`.
    pub fn new(orig: Vec<T>, dims: (usize, usize)) -> (r: Self)
        requires
            orig@.len() == dims.0 * dims.1,
        ensures
            r.samples() == orig@,
            r.width() == dims.0,
            r.height() == dims.1,
            r.cursor() == (0nat, 0nat),
    {
        let (w, h) = dims;
        Rot90 { orig, w, h, x: 0, y: 0 }
    }

    /// The sample at column `xt` of row `yt`, if that lies inside the buffer.
    pub fn at_pre(&self, xt: usize, yt: usize) -> (r: Option<T>)
        ensures
            r == (if yt * self.width() + xt < self.samples().len() {
                Some(self.samples()[yt * self.width() + xt])
            } else {
                None
            }),
    {
        let len = self.orig.len();
        match yt.checked_mul(self.w) {
            None => None,
            Some(row_start) => match row_start.checked_add(xt) {
                None => None,
                Some(index) => {
                    if index >= len {
                        None
                    } else {
                        Some(self.orig[index])
                    }
                },
            },
        }
    }

    /// The sample under the cursor, without moving it.
    pub fn internal_peek(&self) -> (r: Option<T>)
        ensures
            r == self.peek_spec(),
    {
        if self.x >= self.w {
            return None;
        }
        let xt = self.y;
        let yt = self.w - self.x - 1;
        self.at_pre(xt, yt)
    }

    /// Yields the sample under the cursor and moves on; yields `None`, and
    /// stays, once the cursor has left the buffer.
    pub fn next(&mut self) -> (r: Option<T>)
        ensures
            r == old(self).peek_spec(),
            final(self).samples() == old(self).samples(),
            final(self).width() == old(self).width(),
            final(self).height() == old(self).height(),
            final(self).cursor() == (if r is Some {
                old(self).stepped()
            } else {
                old(self).cursor()
            }),
    {
        let ret = self.internal_peek();
        let len = self.orig.len();
        if ret.is_some() {
            proof {
                lemma_mul_nonnegative(self.w - self.x - 1, self.w as int);
            }
            self.x = self.x + 1;
            if self.x >= self.h {
                self.x = 0;
                self.y = self.y + 1;
            }
        }
        ret
    }
}

/// Reads all of `orig`, laid out with the dimensions `(width, height)`, in scan
/// order: the samples of positions `0, 1, ...` for as long as each lies inside
/// the buffer.
pub fn rotate<T: Copy>(orig: Vec<T>, dims: (usize, usize)) -> (r: Vec<T>)
    requires
        orig@.len() == dims.0 * dims.1,
    ensures
        forall|k: int|
            0 <= k < r@.len() ==> #[trigger] in_frame(dims.0 as int, dims.1 as int, orig@.len() as int, k)
                && r@[k] == orig@[source_index(dims.0 as int, dims.1 as int, k)],
        !in_frame(dims.0 as int, dims.1 as int, orig@.len() as int, r@.len() as int),
{
    let ghost src = orig@;
    let ghost w = dims.0 as int;
    let ghost h = dims.1 as int;
    let ghost len = orig@.len() as int;
    let mut it = Rot90::new(orig, dims);
    let mut out: Vec<T> = Vec::new();
    loop
        invariant_except_break
            it.samples() == src,
            it.width() == w,
            it.height() == h,
            len == w * h,
            len == src.len(),
            it.cursor().1 <= len,
            it.cursor().0 <= h,
            h > 0 ==> it.cursor().0 < h && out@.len() == it.cursor().1 * h + it.cursor().0,
            h == 0 ==> out@.len() == 0 && it.cursor() == (0nat, 0nat),
            forall|k: int|
                0 <= k < out@.len() ==> #[trigger] in_frame(w, h, len, k) && out@[k] == src[source_index(w, h, k)],
        ensures
            forall|k: int|
                0 <= k < out@.len() ==> #[trigger] in_frame(w, h, len, k) && out@[k] == src[source_index(w, h, k)],
            !in_frame(w, h, len, out@.len() as int),
        decreases len + 1 - it.cursor().1, h - it.cursor().0,
    {
        let ghost x = it.cursor().0 as int;
        let ghost y = it.cursor().1 as int;
        let ghost k = out@.len() as int;
        proof {
            if h > 0 {
                lemma_fundamental_div_mod_converse(k, h, y, x);
            }
        }
        match it.next() {
            Some(v) => {
                proof {
                    assert(cursor_in_range(w, len, x, y));
                    lemma_mul_nonnegative(w - x - 1, w);
                    assert(h > 0) by (nonlinear_arith)
                        requires
                            len == w * h,
                            cursor_source(w, x, y) < len,
                            (w - x - 1) * w >= 0,
                            y >= 0,
                            h >= 0,
                    ;
                    let x2 = it.cursor().0 as int;
                    let y2 = it.cursor().1 as int;
                    assert(k + 1 == y2 * h + x2) by (nonlinear_arith)
                        requires
                            k == y * h + x,
                            x < h,
                            x2 == 0 && y2 == y + 1 && x + 1 >= h || x2 == x + 1 && y2 == y,
                    ;
                }
                out.push(v);
            },
            None => {
                assert(!cursor_in_range(w, len, x, y));
                break;
            },
        }
    }
    out
}

/// On a square `n` by `n` buffer every position below `n * n` is produced and
/// position `n * n` is not: a traversal yields exactly `n * n` samples.
pub proof fn lemma_square_traversal_length(n: int)
    requires
        n >= 0,
    ensures
        forall|k: int| 0 <= k < n * n ==> #[trigger] in_frame(n, n, n * n, k),
        !in_frame(n, n, n * n, n * n),
{
    assert forall|k: int| 0 <= k < n * n implies #[trigger] in_frame(n, n, n * n, k) by {
        lemma_position_decomposes(n, k);
    }
    if n > 0 {
        lemma_fundamental_div_mod_converse(n * n, n, n, 0);
        assert(cursor_source(n, 0, n) == n * n) by (nonlinear_arith);
    }
}

/// The output position at which source index `i` of an `n` by `n` buffer is
/// read: `x = n - 1 - i / n`, `y = i % n`.
pub open spec fn position_of(n: int, i: int) -> int {
    (i % n) * n + (n - 1 - i / n)
}

/// The samples of an `n` by `n` buffer in scan order.
pub open spec fn rotated<T>(orig: Seq<T>, n: int) -> Seq<T> {
    Seq::new((n * n) as nat, |k: int| orig[source_index(n, n, k)])
}

/// On a square `n` by `n` buffer, what `rotate` returns is exactly
/// `rotated(orig, n)`: all `n * n` samples, each read from its source index.
pub proof fn lemma_square_rotation<T>(n: int, orig: Seq<T>, out: Seq<T>)
    requires
        n >= 0,
        orig.len() == n * n,
        forall|k: int|
            0 <= k < out.len() ==> #[trigger] in_frame(n, n, orig.len() as int, k) && out[k] == orig[source_index(
                n,
                n,
                k,
            )],
        !in_frame(n, n, orig.len() as int, out.len() as int),
    ensures
        out.len() == n * n,
        out == rotated(orig, n),
{
    lemma_square_traversal_length(n);
    if out.len() < n * n {
        assert(in_frame(n, n, n * n, out.len() as int));
    }
    if out.len() > n * n {
        assert(in_frame(n, n, n * n, n * n));
    }
    assert forall|k: int| 0 <= k < n * n implies out[k] == orig[source_index(n, n, k)] by {
        assert(in_frame(n, n, n * n, k));
    }
    assert(out =~= rotated(orig, n));
}

/// On a square `n` by `n` buffer the traversal visits every source index
/// exactly once: positions below `n * n` map into `0..n * n`, distinct
/// positions map to distinct indices, and index `i` is read at
/// `position_of(n, i)`.
pub proof fn lemma_square_traversal_bijective(n: int)
    requires
        n >= 0,
    ensures
        forall|k: int| 0 <= k < n * n ==> 0 <= #[trigger] source_index(n, n, k) < n * n,
        forall|k1: int, k2: int|
            0 <= k1 < n * n && 0 <= k2 < n * n && #[trigger] source_index(n, n, k1)
                == #[trigger] source_index(n, n, k2) ==> k1 == k2,
        forall|i: int|
            0 <= i < n * n ==> 0 <= #[trigger] position_of(n, i) < n * n && source_index(n, n, position_of(n, i))
                == i,
{
    assert forall|k: int| 0 <= k < n * n implies 0 <= #[trigger] source_index(n, n, k) < n * n by {
        lemma_position_decomposes(n, k);
    }
    assert forall|k1: int, k2: int|
        0 <= k1 < n * n && 0 <= k2 < n * n && #[trigger] source_index(n, n, k1)
            == #[trigger] source_index(n, n, k2) implies k1 == k2 by {
        lemma_position_decomposes(n, k1);
        lemma_position_decomposes(n, k2);
        let i = source_index(n, n, k1);
        lemma_fundamental_div_mod_converse(i, n, n - k1 % n - 1, k1 / n);
        lemma_fundamental_div_mod_converse(i, n, n - k2 % n - 1, k2 / n);
    }
    assert forall|i: int| 0 <= i < n * n implies 0 <= #[trigger] position_of(n, i) < n * n && source_index(
        n,
        n,
        position_of(n, i),
    ) == i by {
        assert(n > 0) by (nonlinear_arith)
            requires
                0 <= i < n * n,
                n >= 0,
        ;
        lemma_position_decomposes(n, i);
        let r = i / n;
        let c = i % n;
        let x = n - 1 - r;
        let k = c * n + x;
        lemma_fundamental_div_mod_converse(k, n, c, x);
        assert(0 <= k < n * n) by (nonlinear_arith)
            requires
                k == c * n + x,
                0 <= x < n,
                0 <= c < n,
        ;
        assert(source_index(n, n, k) == i);
    }
}

/// Position `k` below `n * n` splits into `x = k % n` and `y = k / n`, both
/// below `n`, and its source index lies in `0..n * n`.
proof fn lemma_position_decomposes(n: int, k: int)
    requires
        n >= 0,
        0 <= k < n * n,
    ensures
        n > 0,
        0 <= k % n < n,
        0 <= k / n < n,
        k == (k / n) * n + k % n,
        0 <= source_index(n, n, k) < n * n,
{
    assert(n > 0) by (nonlinear_arith)
        requires
            0 <= k < n * n,
            n >= 0,
    ;
    let x = k % n;
    let y = k / n;
    lemma_fundamental_div_mod(k, n);
    lemma_mod_pos_bound(k, n);
    lemma_div_pos_is_pos(k, n);
    assert(k == y * n + x) by (nonlinear_arith)
        requires
            k == n * y + x,
    ;
    assert(y < n) by (nonlinear_arith)
        requires
            k == y * n + x,
            0 <= x,
            k < n * n,
            n > 0,
    ;
    assert(0 <= cursor_source(n, x, y) < n * n) by (nonlinear_arith)
        requires
            0 <= x < n,
            0 <= y < n,
    ;
}

} // verus!
