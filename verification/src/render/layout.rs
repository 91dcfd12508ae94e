//! Splitting a width into columns by ratio.
use vstd::prelude::*;

verus! {

pub open spec fn seq_sum(s: Seq<u16>) -> nat
    decreases s.len(),
{
    if s.len() == 0 {
        0
    } else {
        seq_sum(s.drop_last()) + s.last() as nat
    }
}

/// The gap columns between `len` columns, as the `u16` that holds them.
pub open spec fn col_gaps(len: nat) -> u16 {
    ((len - 1) % 65536) as u16
}

/// The width left for `len` columns once the one-cell gaps between them are taken.
pub open spec fn col_content(total: u16, len: nat) -> u16 {
    if total >= col_gaps(len) {
        (total - col_gaps(len)) as u16
    } else {
        0
    }
}

/// Each column's share of `content`, rounded down and at least 1.
pub open spec fn base_widths(ratios: Seq<u16>, content: u16) -> Seq<u16> {
    let sum: nat = if seq_sum(ratios) == 0 {
        1
    } else {
        seq_sum(ratios)
    };
    Seq::new(
        ratios.len(),
        |i: int|
            {
                let w = (content as nat * ratios[i] as nat) / sum;
                if w == 0 {
                    1u16
                } else {
                    w as u16
                }
            },
    )
}

/// One pass over the columns from the left, each taking one more cell while `d`
/// cells are left to hand out.
pub open spec fn grow_pass(ws: Seq<u16>, i: int, d: nat) -> (Seq<u16>, nat)
    decreases ws.len() - i,
{
    if i < 0 || i >= ws.len() {
        (ws, d)
    } else if d > 0 {
        grow_pass(ws.update(i, (ws[i] + 1) as u16), i + 1, (d - 1) as nat)
    } else {
        grow_pass(ws, i + 1, d)
    }
}

pub open spec fn grow(ws: Seq<u16>, d: nat, fuel: nat) -> Seq<u16>
    decreases fuel,
{
    if d == 0 || fuel == 0 {
        ws
    } else {
        let p = grow_pass(ws, 0, d);
        grow(p.0, p.1, (fuel - 1) as nat)
    }
}

/// One pass over the columns from the left, each wider than 1 giving back one cell
/// while `e` cells are still to be taken back.
pub open spec fn shrink_pass(ws: Seq<u16>, i: int, e: nat) -> (Seq<u16>, nat)
    decreases ws.len() - i,
{
    if i < 0 || i >= ws.len() {
        (ws, e)
    } else if e > 0 && ws[i] > 1 {
        shrink_pass(ws.update(i, (ws[i] - 1) as u16), i + 1, (e - 1) as nat)
    } else {
        shrink_pass(ws, i + 1, e)
    }
}

pub open spec fn shrink(ws: Seq<u16>, e: nat, fuel: nat) -> Seq<u16>
    decreases fuel,
{
    if e == 0 || fuel == 0 {
        ws
    } else {
        let p = shrink_pass(ws, 0, e);
        shrink(p.0, p.1, (fuel - 1) as nat)
    }
}

/// The widths of the columns: shares of the width left after the gaps, the rounding
/// error handed out or taken back one cell at a time, round-robin from the left.
pub open spec fn column_widths(total: u16, ratios: Seq<u16>) -> Seq<u16> {
    if total == 0 {
        seq![]
    } else if ratios.len() == 0 {
        seq![total]
    } else {
        let c = col_content(total, ratios.len());
        if c == 0 {
            Seq::new(ratios.len(), |_i: int| 1u16)
        } else {
            let b = base_widths(ratios, c);
            let used = seq_sum(b);
            if used < c {
                grow(b, (c - used) as nat, (c - used) as nat)
            } else {
                shrink(b, (used - c) as nat, (used - c) as nat)
            }
        }
    }
}

/// The inputs on which the balancing terminates: columns that each need a cell fit.
pub open spec fn column_split_defined(total: u16, ratios: Seq<u16>) -> bool {
    total > 0 && ratios.len() > 0 && col_content(total, ratios.len()) > 0 ==> ratios.len()
        <= col_content(total, ratios.len())
}

pub proof fn lemma_sum_update(s: Seq<u16>, i: int, v: u16)
    requires
        0 <= i < s.len(),
    ensures
        seq_sum(s.update(i, v)) + s[i] == seq_sum(s) + v,
    decreases s.len(),
{
    if i == s.len() - 1 {
        assert(s.update(i, v).drop_last() =~= s.drop_last());
    } else {
        lemma_sum_update(s.drop_last(), i, v);
        assert(s.update(i, v).drop_last() =~= s.drop_last().update(i, v));
    }
}

pub proof fn lemma_sum_small(s: Seq<u16>)
    requires
        forall|j: int| 0 <= j < s.len() ==> s[j] <= 1,
    ensures
        seq_sum(s) <= s.len(),
    decreases s.len(),
{
    if s.len() > 0 {
        lemma_sum_small(s.drop_last());
    }
}

pub proof fn lemma_sum_push(s: Seq<u16>, v: u16)
    ensures
        seq_sum(s.push(v)) == seq_sum(s) + v,
{
    assert(s.push(v).drop_last() =~= s);
}

pub proof fn lemma_sum_bound(s: Seq<u16>)
    ensures
        seq_sum(s) <= s.len() * 65535,
    decreases s.len(),
{
    if s.len() > 0 {
        lemma_sum_bound(s.drop_last());
    }
}

pub proof fn lemma_sum_ge_elem(s: Seq<u16>, i: int)
    requires
        0 <= i < s.len(),
    ensures
        s[i] <= seq_sum(s),
    decreases s.len(),
{
    if i < s.len() - 1 {
        lemma_sum_ge_elem(s.drop_last(), i);
    }
}


proof fn lemma_grow_pass(ws: Seq<u16>, i: int, d: nat)
    requires
        0 <= i <= ws.len(),
        seq_sum(ws) + d <= 65535,
    ensures
        grow_pass(ws, i, d).0.len() == ws.len(),
        seq_sum(grow_pass(ws, i, d).0) + grow_pass(ws, i, d).1 == seq_sum(ws) + d,
        grow_pass(ws, i, d).1 <= d,
        i < ws.len() && d > 0 ==> grow_pass(ws, i, d).1 < d,
    decreases ws.len() - i,
{
    if i < ws.len() {
        if d > 0 {
            lemma_sum_ge_elem(ws, i);
            let w2 = ws.update(i, (ws[i] + 1) as u16);
            lemma_sum_update(ws, i, (ws[i] + 1) as u16);
            lemma_grow_pass(w2, i + 1, (d - 1) as nat);
        } else {
            lemma_grow_pass(ws, i + 1, d);
        }
    }
}

proof fn lemma_grow(ws: Seq<u16>, d: nat, fuel: nat)
    requires
        ws.len() > 0,
        d <= fuel,
        seq_sum(ws) + d <= 65535,
    ensures
        grow(ws, d, fuel).len() == ws.len(),
        seq_sum(grow(ws, d, fuel)) == seq_sum(ws) + d,
    decreases fuel,
{
    if d > 0 && fuel > 0 {
        lemma_grow_pass(ws, 0, d);
        let p = grow_pass(ws, 0, d);
        lemma_grow(p.0, p.1, (fuel - 1) as nat);
    }
}

proof fn lemma_shrink_pass(ws: Seq<u16>, i: int, e: nat)
    requires
        0 <= i <= ws.len(),
        forall|j: int| 0 <= j < ws.len() ==> ws[j] >= 1,
    ensures
        shrink_pass(ws, i, e).0.len() == ws.len(),
        forall|j: int|
            0 <= j < ws.len() ==> #[trigger] shrink_pass(ws, i, e).0[j] >= 1,
        seq_sum(shrink_pass(ws, i, e).0) + e == seq_sum(ws) + shrink_pass(ws, i, e).1,
        shrink_pass(ws, i, e).1 <= e,
        shrink_pass(ws, i, e).1 == e && e > 0 ==> forall|j: int| i <= j < ws.len() ==> ws[j] <= 1,
    decreases ws.len() - i,
{
    if i < ws.len() {
        if e > 0 && ws[i] > 1 {
            let w2 = ws.update(i, (ws[i] - 1) as u16);
            lemma_sum_update(ws, i, (ws[i] - 1) as u16);
            lemma_shrink_pass(w2, i + 1, (e - 1) as nat);
        } else {
            lemma_shrink_pass(ws, i + 1, e);
        }
    }
}

proof fn lemma_shrink(ws: Seq<u16>, e: nat, fuel: nat)
    requires
        e <= fuel,
        seq_sum(ws) >= ws.len() + e,
        forall|j: int| 0 <= j < ws.len() ==> ws[j] >= 1,
    ensures
        shrink(ws, e, fuel).len() == ws.len(),
        seq_sum(shrink(ws, e, fuel)) + e == seq_sum(ws),
        forall|j: int| 0 <= j < ws.len() ==> #[trigger] shrink(ws, e, fuel)[j] >= 1,
    decreases fuel,
{
    if e > 0 && fuel > 0 {
        lemma_shrink_pass(ws, 0, e);
        let p = shrink_pass(ws, 0, e);
        if p.1 == e {
            lemma_sum_small(ws);
        }
        lemma_shrink(p.0, p.1, (fuel - 1) as nat);
    }
}

/// The columns and the one-cell gaps between them fill the total width exactly, every
/// column at least one cell wide, one column per ratio.
pub proof fn lemma_columns_fill_width(total: u16, ratios: Seq<u16>)
    requires
        column_split_defined(total, ratios),
        total > 0,
        ratios.len() > 0,
        col_content(total, ratios.len()) > 0,
    ensures
        column_widths(total, ratios).len() == ratios.len(),
        seq_sum(column_widths(total, ratios)) + ratios.len() - 1 == total,
        forall|j: int| 0 <= j < ratios.len() ==> #[trigger] column_widths(total, ratios)[j] >= 1,
{
    let c = col_content(total, ratios.len());
    let b = base_widths(ratios, c);
    let sum: nat = if seq_sum(ratios) == 0 { 1 } else { seq_sum(ratios) };
    assert forall|j: int| 0 <= j < b.len() implies b[j] >= 1 by {
        lemma_sum_ge_elem(ratios, j);
        assert(c as nat * ratios[j] as nat <= c as nat * sum) by (nonlinear_arith)
            requires
                ratios[j] <= sum,
        ;
        assert((c as nat * ratios[j] as nat) / sum <= c as nat) by (nonlinear_arith)
            requires
                c as nat * ratios[j] as nat <= c as nat * sum,
                sum > 0,
        ;
    }
    let used = seq_sum(b);
    if used < c {
        lemma_grow(b, (c - used) as nat, (c - used) as nat);
        assert forall|j: int| 0 <= j < ratios.len() implies #[trigger] column_widths(total, ratios)[j] >= 1 by {
            lemma_grow_ge(b, (c - used) as nat, (c - used) as nat, j);
        }
    } else {
        lemma_shrink(b, (used - c) as nat, (used - c) as nat);
    }
}

proof fn lemma_grow_pass_ge(ws: Seq<u16>, i: int, d: nat, j: int)
    requires
        0 <= i <= ws.len(),
        0 <= j < ws.len(),
        seq_sum(ws) + d <= 65535,
    ensures
        grow_pass(ws, i, d).0[j] >= ws[j],
    decreases ws.len() - i,
{
    if i < ws.len() {
        if d > 0 {
            lemma_sum_ge_elem(ws, i);
            let w2 = ws.update(i, (ws[i] + 1) as u16);
            lemma_sum_update(ws, i, (ws[i] + 1) as u16);
            lemma_grow_pass_ge(w2, i + 1, (d - 1) as nat, j);
        } else {
            lemma_grow_pass_ge(ws, i + 1, d, j);
        }
    }
}

proof fn lemma_grow_ge(ws: Seq<u16>, d: nat, fuel: nat, j: int)
    requires
        0 <= j < ws.len(),
        d <= fuel,
        seq_sum(ws) + d <= 65535,
    ensures
        grow(ws, d, fuel)[j] >= ws[j],
    decreases fuel,
{
    if d > 0 && fuel > 0 {
        lemma_grow_pass(ws, 0, d);
        lemma_grow_pass_ge(ws, 0, d, j);
        let p = grow_pass(ws, 0, d);
        lemma_grow_ge(p.0, p.1, (fuel - 1) as nat, j);
    }
}

/// Whether splitting `total` columns by `ratios` ends: it does unless there are more
/// columns than cells left for them.
pub fn column_split_ok(total: u16, ratios: &[u16]) -> (r: bool)
    ensures
        r == column_split_defined(total, ratios@),
{
    if total == 0 || ratios.len() == 0 {
        return true;
    }
    let gaps: u16 = ((ratios.len() - 1) % 65536) as u16;
    let content: u16 = if total >= gaps {
        total - gaps
    } else {
        0
    };
    if content == 0 {
        return true;
    }
    ratios.len() <= content as usize
}

/// Splits `total_width` into columns in proportion to `ratios`, with one gap cell
/// between neighbours.
pub fn compute_column_widths(total_width: u16, ratios: &[u16]) -> (r: Vec<u16>)
    requires
        column_split_defined(total_width, ratios@),
    ensures
        r@ == column_widths(total_width, ratios@),
{
    if total_width == 0 {
        return Vec::new();
    }
    if ratios.len() == 0 {
        let mut v = Vec::new();
        v.push(total_width);
        assert(v@ =~= seq![total_width]);
        return v;
    }
    let n = ratios.len();
    let gaps: u16 = ((n - 1) % 65536) as u16;
    let content: u16 = if total_width >= gaps {
        total_width - gaps
    } else {
        0
    };
    assert(content == col_content(total_width, ratios@.len()));
    if content == 0 {
        let mut v: Vec<u16> = Vec::new();
        let mut i: usize = 0;
        while i < n
            invariant
                i <= n,
                v@ =~= Seq::new(i as nat, |_i: int| 1u16),
            decreases n - i,
        {
            v.push(1);
            i = i + 1;
        }
        return v;
    }
    // the sum of the ratios
    let mut sum: u64 = 0;
    let mut i: usize = 0;
    proof {
        lemma_sum_bound(ratios@);
    }
    while i < n
        invariant
            i <= n,
            n == ratios@.len(),
            n <= 65535,
            sum == seq_sum(ratios@.take(i as int)),
        decreases n - i,
    {
        proof {
            assert(ratios@.take(i + 1).drop_last() =~= ratios@.take(i as int));
            lemma_sum_bound(ratios@.take(i as int));
        }
        sum = sum + ratios[i] as u64;
        i = i + 1;
    }
    assert(ratios@.take(n as int) =~= ratios@);
    let div: u64 = if sum == 0 {
        1
    } else {
        sum
    };
    let ghost base = base_widths(ratios@, content);
    let mut ws: Vec<u16> = Vec::new();
    let mut used: u64 = 0;
    i = 0;
    while i < n
        invariant
            i <= n,
            n == ratios@.len(),
            n <= 65535,
            sum == seq_sum(ratios@),
            div == (if sum == 0 { 1 } else { sum }),
            base == base_widths(ratios@, content),
            ws@ =~= base.take(i as int),
            used == seq_sum(ws@),
            forall|j: int| 0 <= j < ws@.len() ==> ws@[j] >= 1,
        decreases n - i,
    {
        proof {
            lemma_sum_ge_elem(ratios@, i as int);
            lemma_sum_bound(ws@);
            assert(content as nat * ratios@[i as int] as nat <= content as nat * div) by (nonlinear_arith)
                requires
                    ratios@[i as int] <= div,
            ;
            assert((content as nat * ratios@[i as int] as nat) / (div as nat) <= content as nat) by (nonlinear_arith)
                requires
                    content as nat * ratios@[i as int] as nat <= content as nat * div,
                    div > 0,
            ;
        }
        let r = ratios[i];
        assert(content as u64 * r as u64 <= 65535 * 65535) by (nonlinear_arith)
            requires
                content <= 65535,
                r <= 65535,
        ;
        let w64: u64 = (content as u64 * r as u64) / div;
        let w: u16 = if w64 == 0 {
            1
        } else {
            w64 as u16
        };
        let ghost before = ws@;
        ws.push(w);
        proof {
            lemma_sum_push(before, w);
        }
        used = used + w as u64;
        i = i + 1;
    }
    assert(base.take(n as int) =~= base);
    assert(forall|j: int| 0 <= j < ws@.len() ==> ws@[j] >= 1);
    if used < content as u64 {
        let mut d: u64 = content as u64 - used;
        let ghost fuel: nat = d as nat;
        while d > 0
            invariant
                ws@.len() == n,
                n > 0,
                d <= fuel,
                seq_sum(ws@) + d == content,
                grow(ws@, d as nat, fuel) == column_widths(total_width, ratios@),
            decreases d,
        {
            let ghost ws0 = ws@;
            let ghost d0 = d;
            let mut k: usize = 0;
            assert(grow(ws0, d0 as nat, fuel) == grow(grow_pass(ws0, 0, d0 as nat).0, grow_pass(ws0, 0, d0 as nat).1, (fuel - 1) as nat));
            while k < n
                invariant
                    k <= n,
                    ws@.len() == n,
                    seq_sum(ws@) + d == content,
                    grow_pass(ws@, k as int, d as nat) == grow_pass(ws0, 0, d0 as nat),
                    k > 0 ==> d < d0,
                    d <= d0,
                    d0 > 0,
                decreases n - k,
            {
                if d > 0 {
                    proof {
                        lemma_sum_ge_elem(ws@, k as int);
                    }
                    let old_w = ws[k];
                    let ghost before = ws@;
                    ws.set(k, old_w + 1);
                    proof {
                        lemma_sum_update(before, k as int, (old_w + 1) as u16);
                    }
                    d = d - 1;
                }
                k = k + 1;
            }
            proof {
                fuel = (fuel - 1) as nat;
            }
        }
        return ws;
    } else {
        let mut e: u64 = used - content as u64;
        let ghost fuel: nat = e as nat;
        while e > 0
            invariant
                ws@.len() == n,
                n > 0,
                n <= content,
                e <= fuel,
                seq_sum(ws@) == content + e,
                forall|j: int| 0 <= j < ws@.len() ==> ws@[j] >= 1,
                shrink(ws@, e as nat, fuel) == column_widths(total_width, ratios@),
            decreases e,
        {
            let ghost ws0 = ws@;
            let ghost e0 = e;
            let mut k: usize = 0;
            while k < n
                invariant
                    k <= n,
                    ws@.len() == n,
                    seq_sum(ws@) == content + e,
                    forall|j: int| 0 <= j < ws@.len() ==> ws@[j] >= 1,
                    shrink_pass(ws@, k as int, e as nat) == shrink_pass(ws0, 0, e0 as nat),
                    e == e0 ==> forall|j: int| 0 <= j < k ==> ws@[j] <= 1,
                    e <= e0,
                    e0 > 0,
                decreases n - k,
            {
                if e > 0 && ws[k] > 1 {
                    let old_w = ws[k];
                    let ghost before = ws@;
                    ws.set(k, old_w - 1);
                    proof {
                        lemma_sum_update(before, k as int, (old_w - 1) as u16);
                    }
                    e = e - 1;
                }
                k = k + 1;
            }
            proof {
                if e == e0 {
                    lemma_sum_small(ws@);
                }
                fuel = (fuel - 1) as nat;
            }
        }
        return ws;
    }
}

} // verus!
