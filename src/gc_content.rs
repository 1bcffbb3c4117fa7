//! Sliding-window GC counts over a byte sequence.
use vstd::prelude::*;
use crate::nucleotide::{BASE_C, BASE_G};

verus! {

pub open spec fn is_gc(b: u8) -> bool {
    b == BASE_G || b == BASE_C
}

/// How many bytes of `s` are `G` or `C`.
pub open spec fn gc_count(s: Seq<u8>) -> nat
    decreases s.len(),
{
    if s.len() == 0 {
        0
    } else {
        gc_count(s.drop_last()) + if is_gc(s.last()) { 1nat } else { 0nat }
    }
}

/// How many windows of `window_size` bytes, `step` apart, fit in `len` bytes.
pub open spec fn window_count(len: int, window_size: int, step: int) -> int {
    if len < window_size {
        0
    } else {
        (len - window_size) / step + 1
    }
}

proof fn lemma_gc_count_bound(s: Seq<u8>)
    ensures
        gc_count(s) <= s.len(),
    decreases s.len(),
{
    if s.len() > 0 {
        lemma_gc_count_bound(s.drop_last());
    }
}

proof fn lemma_next_window(span: int, step: int, m: int, pos: int, total: int)
    requires
        0 <= pos <= span,
        step > 0,
        m >= 1,
        pos == (m - 1) * step,
        total == span / step + 1,
    ensures
        pos + step == m * step,
        (span - pos < step) == (m >= total),
{
    assert(pos + step == m * step) by (nonlinear_arith)
        requires
            pos == (m - 1) * step,
    ;
    let q = span / step;
    let r = span % step;
    assert(span == q * step + r && 0 <= r < step) by (nonlinear_arith)
        requires
            step > 0,
            q == span / step,
            r == span % step,
    ;
    assert((q + 1) * step == q * step + step) by (nonlinear_arith);
    if m >= total {
        assert(m * step >= (q + 1) * step) by (nonlinear_arith)
            requires
                m >= q + 1,
                step > 0,
        ;
    } else {
        assert(m * step <= q * step) by (nonlinear_arith)
            requires
                m <= q,
                step > 0,
        ;
    }
}

/// A window made only of `G` and `C` bytes has a GC count equal to its length, that is a
/// GC fraction of one.
pub proof fn lemma_all_gc_window(s: Seq<u8>)
    requires
        forall|i: int| 0 <= i < s.len() ==> is_gc(#[trigger] s[i]),
    ensures
        gc_count(s) == s.len(),
    decreases s.len(),
{
    if s.len() > 0 {
        assert(is_gc(s[s.len() - 1]));
        lemma_all_gc_window(s.drop_last());
    }
}

fn count_gc(sequence: &[u8], start: usize, end: usize) -> (r: usize)
    requires
        start <= end <= sequence@.len(),
    ensures
        r == gc_count(sequence@.subrange(start as int, end as int)),
{
    let mut count: usize = 0;
    let mut i: usize = start;
    while i < end
        invariant
            start <= i <= end <= sequence@.len(),
            count == gc_count(sequence@.subrange(start as int, i as int)),
            count <= i - start,
        decreases end - i,
    {
        proof {
            assert(sequence@.subrange(start as int, i + 1).drop_last() =~= sequence@.subrange(
                start as int,
                i as int,
            ));
        }
        if sequence[i] == BASE_G || sequence[i] == BASE_C {
            count = count + 1;
        }
        i = i + 1;
    }
    count
}

/// For each window of `window_size` bytes, starting at `0, step, 2·step, …` while the
/// window fits, the window's center `window_size / 2 + i·step` and its number of `G`
/// and `C` bytes. The GC fraction of a window is that number over `window_size`.
pub fn get_gc_content(sequence: &[u8], window_size: usize, step: usize) -> (r: Vec<(usize, usize)>)
    requires
        window_size > 0,
        step > 0,
    ensures
        r@.len() == window_count(sequence@.len() as int, window_size as int, step as int),
        forall|i: int|
            0 <= i < r@.len() ==> {
                &&& (#[trigger] r@[i]).0 == window_size / 2 + i * step
                &&& r@[i].1 == gc_count(
                    sequence@.subrange(i * step, i * step + window_size),
                )
                &&& r@[i].1 <= window_size
            },
{
    let n = sequence.len();
    let mut out: Vec<(usize, usize)> = Vec::new();
    if n < window_size {
        return out;
    }
    let ghost total = window_count(n as int, window_size as int, step as int);
    let mut pos: usize = 0;
    let mut done = false;
    proof {
        assert(total >= 1) by (nonlinear_arith)
            requires
                total == (n - window_size) / (step as int) + 1,
                n >= window_size,
                step > 0,
        ;
    }
    while !done
        invariant
            n == sequence@.len(),
            window_size <= n,
            step > 0,
            total == (n - window_size) / (step as int) + 1,
            pos <= n - window_size,
            out@.len() <= total,
            !done ==> pos == out@.len() * step && out@.len() < total,
            done ==> out@.len() == total,
            forall|i: int|
                0 <= i < out@.len() ==> {
                    &&& (#[trigger] out@[i]).0 == window_size / 2 + i * step
                    &&& out@[i].1 == gc_count(
                        sequence@.subrange(i * step, i * step + window_size),
                    )
                    &&& out@[i].1 <= window_size
                },
        decreases total - out@.len(),
    {
        let count = count_gc(sequence, pos, pos + window_size);
        proof {
            lemma_gc_count_bound(sequence@.subrange(pos as int, pos + window_size));
        }
        let center = window_size / 2 + pos;
        out.push((center, count));
        let ghost m = out@.len() as int;
        proof {
            lemma_next_window(n - window_size, step as int, m, pos as int, total);
        }
        if n - window_size - pos < step {
            done = true;
        } else {
            pos = pos + step;
        }
    }
    out
}

} // verus!
