//! The framed stream and the schedule of writes, flushes and pauses that
//! carries it to the display without overrunning it.
use vstd::prelude::*;
use vstd::arithmetic::div_mod::{lemma_fundamental_div_mod, lemma_fundamental_div_mod_converse, lemma_mod_pos_bound};
use crate::pack::{pack_rows, row_byte, row_count, ROW_UNIT_LEN};

verus! {

/// The sentinel byte of the preamble (`#`).
pub const PREAMBLE_BYTE: u8 = 0x23;

/// The number of sentinel bytes that open a frame.
pub const PREAMBLE_LEN: usize = 11;

/// Row units sent between two pauses, by default.
pub const ROWS_BETWEEN_SLEEPS: u8 = 2;

/// Length of a pause, by default, in milliseconds.
pub const SLEEP_TIME_MILLIS: u64 = 17;

/// One action of a transmission.
#[derive(Clone, Copy, Debug, PartialEq, Eq, Structural)]
pub enum Step {
    /// Write the frame's bytes `start..end`.
    Write { start: usize, end: usize },
    /// Flush the connection.
    Flush,
    /// Sleep for `millis` milliseconds.
    Pause { millis: u64 },
}

/// Byte `i` of the frame for `samples`: the preamble, then the row units.
pub open spec fn frame_byte(samples: Seq<u8>, invert: bool, i: int) -> int {
    if i < 11 {
        PREAMBLE_BYTE as int
    } else {
        row_byte(samples, invert, i - 11)
    }
}

/// The number of bytes in the frame for a buffer of `len` samples.
pub open spec fn frame_len(len: nat) -> nat {
    11 + row_count(len) * 9
}

/// Builds the frame for `samples`: eleven sentinel bytes, then one row unit
/// per complete row of 64 samples.
pub fn build_frame(samples: &Vec<u8>, invert: bool) -> (r: Vec<u8>)
    ensures
        r@.len() == frame_len(samples@.len()),
        forall|i: int| 0 <= i < r@.len() ==> r@[i] as int == #[trigger] frame_byte(samples@, invert, i),
{
    let rows = pack_rows(samples, invert);
    let mut out: Vec<u8> = Vec::new();
    let mut i: usize = 0;
    while i < PREAMBLE_LEN
        invariant
            i <= 11,
            out@.len() == i,
            forall|k: int| 0 <= k < out@.len() ==> out@[k] == PREAMBLE_BYTE,
        decreases 11 - i,
    {
        out.push(PREAMBLE_BYTE);
        i = i + 1;
    }
    let mut j: usize = 0;
    while j < rows.len()
        invariant
            j <= rows@.len(),
            rows@.len() == row_count(samples@.len()) * 9,
            forall|k: int| 0 <= k < rows@.len() ==> rows@[k] as int == #[trigger] row_byte(samples@, invert, k),
            out@.len() == 11 + j,
            forall|k: int| 0 <= k < out@.len() ==> out@[k] as int == #[trigger] frame_byte(samples@, invert, k),
        decreases rows@.len() - j,
    {
        assert(row_byte(samples@, invert, j as int) == rows@[j as int]);
        out.push(rows[j]);
        j = j + 1;
    }
    out
}

/// The steps for row unit `r`: write it, flush, and pause after every
/// `every`-th row.
pub open spec fn row_steps(r: nat, every: nat, millis: u64) -> Seq<Step> {
    let start = (11 + 9 * r) as usize;
    let end = (11 + 9 * r + 9) as usize;
    if (r + 1) % every == 0 {
        seq![Step::Write { start, end }, Step::Flush, Step::Pause { millis }]
    } else {
        seq![Step::Write { start, end }, Step::Flush]
    }
}

/// The steps for the first `n` row units.
pub open spec fn rows_plan(n: nat, every: nat, millis: u64) -> Seq<Step>
    decreases n,
{
    if n == 0 {
        Seq::empty()
    } else {
        rows_plan((n - 1) as nat, every, millis) + row_steps((n - 1) as nat, every, millis)
    }
}

/// The steps of a whole transmission of `rows` row units: the preamble and a
/// flush, the row units, and a last flush.
pub open spec fn plan_spec(rows: nat, every: nat, millis: u64) -> Seq<Step> {
    seq![Step::Write { start: 0, end: 11 }, Step::Flush] + rows_plan(rows, every, millis) + seq![
        Step::Flush,
    ]
}

/// The schedule for a frame of `rows` row units, pausing `millis`
/// milliseconds after every `every` rows.
pub fn plan_transmission(rows: usize, every: u8, millis: u64) -> (r: Vec<Step>)
    requires
        every >= 1,
        11 + 9 * rows <= usize::MAX,
    ensures
        r@ == plan_spec(rows as nat, every as nat, millis),
{
    let mut out: Vec<Step> = Vec::new();
    out.push(Step::Write { start: 0, end: PREAMBLE_LEN });
    out.push(Step::Flush);
    let ghost head = out@;
    let mut row: usize = 0;
    let mut since_sleep: u8 = 0;
    while row < rows
        invariant
            every >= 1,
            11 + 9 * rows <= usize::MAX,
            row <= rows,
            since_sleep < every,
            since_sleep as int == (row as int) % (every as int),
            head == seq![Step::Write { start: 0, end: 11 }, Step::Flush],
            out@ == head + rows_plan(row as nat, every as nat, millis),
        decreases rows - row,
    {
        let start = PREAMBLE_LEN + ROW_UNIT_LEN * row;
        out.push(Step::Write { start, end: start + ROW_UNIT_LEN });
        out.push(Step::Flush);
        proof {
            lemma_mod_step(row as int, every as int);
        }
        since_sleep = since_sleep + 1;
        if since_sleep >= every {
            out.push(Step::Pause { millis });
            since_sleep = 0;
        }
        proof {
            assert(out@ =~= head + rows_plan((row + 1) as nat, every as nat, millis));
        }
        row = row + 1;
    }
    out.push(Step::Flush);
    out
}

/// Stepping a counter modulo `e`: `(n + 1) % e` is `n % e + 1`, or 0 when that
/// reaches `e`, in which case the quotient grows by one.
proof fn lemma_mod_step(n: int, e: int)
    requires
        n >= 0,
        e >= 1,
    ensures
        n % e + 1 < e ==> (n + 1) % e == n % e + 1 && (n + 1) / e == n / e,
        n % e + 1 == e ==> (n + 1) % e == 0 && (n + 1) / e == n / e + 1,
        0 <= n % e < e,
{
    lemma_fundamental_div_mod(n, e);
    lemma_mod_pos_bound(n, e);
    if n % e + 1 < e {
        assert(n + 1 == (n / e) * e + (n % e + 1)) by (nonlinear_arith)
            requires
                n == e * (n / e) + n % e,
        ;
        lemma_fundamental_div_mod_converse(n + 1, e, n / e, n % e + 1);
    } else {
        assert(n + 1 == (n / e + 1) * e + 0) by (nonlinear_arith)
            requires
                n == e * (n / e) + n % e,
                n % e + 1 == e,
        ;
        lemma_fundamental_div_mod_converse(n + 1, e, n / e + 1, 0);
    }
}

/// The number of pauses in `steps`.
pub open spec fn pause_count(steps: Seq<Step>) -> nat
    decreases steps.len(),
{
    if steps.len() == 0 {
        0
    } else {
        pause_count(steps.drop_last()) + if steps.last() is Pause {
            1nat
        } else {
            0nat
        }
    }
}

/// Counting pauses distributes over concatenation.
proof fn lemma_pause_count_add(a: Seq<Step>, b: Seq<Step>)
    ensures
        pause_count(a + b) == pause_count(a) + pause_count(b),
    decreases b.len(),
{
    if b.len() > 0 {
        lemma_pause_count_add(a, b.drop_last());
        assert((a + b).drop_last() =~= a + b.drop_last());
    } else {
        assert(a + b =~= a);
    }
}

/// A row unit's steps hold one pause when it completes a group of `every`
/// rows, and none otherwise.
proof fn lemma_row_steps_pauses(r: nat, every: nat, millis: u64)
    ensures
        pause_count(row_steps(r, every, millis)) == if (r + 1) % every == 0 {
            1nat
        } else {
            0nat
        },
{
    let s = row_steps(r, every, millis);
    let one = seq![s[0]];
    assert(one.drop_last() =~= Seq::<Step>::empty());
    assert(s[0] is Write);
    assert(pause_count(one) == pause_count(one.drop_last()));
    assert(pause_count(one) == 0);
    if (r + 1) % every == 0 {
        assert(s.drop_last().drop_last() =~= one);
        assert(pause_count(s.drop_last()) == 0);
    } else {
        assert(s.drop_last() =~= one);
    }
}

/// The first `n` row units bring `n / every` pauses.
proof fn lemma_rows_plan_count(n: nat, every: nat, millis: u64)
    requires
        every >= 1,
    ensures
        pause_count(rows_plan(n, every, millis)) == n / every,
    decreases n,
{
    if n > 0 {
        let m = (n - 1) as nat;
        lemma_rows_plan_count(m, every, millis);
        lemma_pause_count_add(rows_plan(m, every, millis), row_steps(m, every, millis));
        lemma_row_steps_pauses(m, every, millis);
        lemma_mod_step(m as int, every as int);
    }
}

/// Within the steps of the first `n` row units, each pause comes right after
/// the write and the flush of a row unit.
proof fn lemma_rows_plan_order(n: nat, every: nat, millis: u64)
    ensures
        forall|j: int|
            0 <= j < rows_plan(n, every, millis).len() && (#[trigger] rows_plan(n, every, millis)[j]) is Pause
                ==> j >= 2 && rows_plan(n, every, millis)[j - 1] == Step::Flush && rows_plan(
                n,
                every,
                millis,
            )[j - 2] is Write,
    decreases n,
{
    if n > 0 {
        let m = (n - 1) as nat;
        lemma_rows_plan_order(m, every, millis);
        let prev = rows_plan(m, every, millis);
        let last = row_steps(m, every, millis);
        let all = rows_plan(n, every, millis);
        assert(all == prev + last);
        assert forall|j: int| 0 <= j < all.len() && (#[trigger] all[j]) is Pause implies j >= 2 && all[j - 1]
            == Step::Flush && all[j - 2] is Write by {
            if j >= prev.len() {
                assert(all[j] == last[j - prev.len()]);
                assert(j - prev.len() == 2);
                assert(all[j - 1] == last[1]);
                assert(all[j - 2] == last[0]);
            } else {
                assert(all[j] == prev[j]);
                assert(all[j - 1] == prev[j - 1]);
                assert(all[j - 2] == prev[j - 2]);
            }
        }
    }
}

/// Pacing: a transmission of `rows` row units pauses exactly `rows / every`
/// times, once after each `every` completed rows, and every pause comes right
/// after a row unit has been written and flushed, never inside a row.
pub proof fn lemma_sleep_cadence(rows: nat, every: nat, millis: u64)
    requires
        every >= 1,
    ensures
        pause_count(plan_spec(rows, every, millis)) == rows / every,
        forall|i: int|
            0 <= i < plan_spec(rows, every, millis).len() && (#[trigger] plan_spec(rows, every, millis)[i]) is Pause
                ==> i >= 4 && plan_spec(rows, every, millis)[i - 1] == Step::Flush && plan_spec(
                rows,
                every,
                millis,
            )[i - 2] is Write,
        forall|r: nat| (#[trigger] row_steps(r, every, millis)).last() is Pause <==> (r + 1) % every == 0,
{
    let head = seq![Step::Write { start: 0, end: 11 }, Step::Flush];
    let body = rows_plan(rows, every, millis);
    let tail = seq![Step::Flush];
    let all = plan_spec(rows, every, millis);
    assert(all == head + body + tail);
    lemma_plan_count(head, body, tail);
    lemma_rows_plan_count(rows, every, millis);
    lemma_rows_plan_order(rows, every, millis);
    lemma_plan_order(head, body, tail);
}

/// Counting the pauses of a whole plan.
proof fn lemma_plan_count(head: Seq<Step>, body: Seq<Step>, tail: Seq<Step>)
    requires
        head == seq![Step::Write { start: 0, end: 11 }, Step::Flush],
        tail == seq![Step::Flush],
    ensures
        pause_count(head + body + tail) == pause_count(body),
{
    lemma_pause_count_add(head, body);
    lemma_pause_count_add(head + body, tail);
    let first = head.drop_last();
    assert(first =~= seq![Step::Write { start: 0, end: 11 }]);
    assert(first.last() is Write);
    assert(first.drop_last() =~= Seq::<Step>::empty());
    assert(pause_count(first.drop_last()) == 0);
    assert(pause_count(first) == 0);
    assert(pause_count(head) == 0);
    assert(tail.drop_last() =~= Seq::<Step>::empty());
    assert(pause_count(tail) == 0);
}

/// Positions of the pauses of a whole plan.
proof fn lemma_plan_order(head: Seq<Step>, body: Seq<Step>, tail: Seq<Step>)
    requires
        head == seq![Step::Write { start: 0, end: 11 }, Step::Flush],
        tail == seq![Step::Flush],
        forall|j: int|
            0 <= j < body.len() && (#[trigger] body[j]) is Pause ==> j >= 2 && body[j - 1] == Step::Flush
                && body[j - 2] is Write,
    ensures
        forall|i: int|
            0 <= i < (head + body + tail).len() && (#[trigger] (head + body + tail)[i]) is Pause ==> i >= 4 && (head
                + body + tail)[i - 1] == Step::Flush && (head + body + tail)[i - 2] is Write,
{
    let all = head + body + tail;
    assert forall|i: int| 0 <= i < all.len() && (#[trigger] all[i]) is Pause implies i >= 4 && all[i - 1]
        == Step::Flush && all[i - 2] is Write by {
        if i < 2 {
            assert(all[i] == head[i]);
        } else if i < 2 + body.len() {
            assert(all[i] == body[i - 2]);
            assert(body[i - 2] is Pause);
            assert(all[i - 1] == body[i - 3]);
            assert(all[i - 2] == body[i - 4]);
        } else {
            assert(all[i] == tail[i - 2 - body.len()]);
        }
    }
}

/// Framing: the frame of a buffer of `len` samples holds the preamble and
/// nine bytes for each of `len / 64` rows, each unit ending in the pad byte;
/// a 64 by 64 image gives 64 rows, 576 bytes after the preamble, 587 in all.
pub proof fn lemma_framing_law(samples: Seq<u8>, invert: bool)
    ensures
        frame_len(samples.len()) - 11 == (samples.len() / 64) * 9,
        forall|i: int|
            0 <= i < row_count(samples.len()) * 9 && i % 9 == 8 ==> #[trigger] frame_byte(samples, invert, 11 + i)
                == 0,
        forall|i: int| 0 <= i < 11 ==> #[trigger] frame_byte(samples, invert, i) == PREAMBLE_BYTE,
        samples.len() == 4096 ==> row_count(samples.len()) == 64 && frame_len(samples.len()) == 587,
{
}

} // verus!
