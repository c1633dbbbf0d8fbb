//! What a single row becomes when its tiles slide and merge.
use vstd::prelude::*;

verus! {

/// The power a merge of two equal tiles of power `v` (under 0xF) produces.
pub open spec fn merge_power(v: u64) -> u64 {
    (v + 1) as u64
}

/// The non-empty cells of `line` from index `i` on, in order.
pub open spec fn tiles_from(line: Seq<u64>, i: int) -> Seq<u64>
    decreases line.len() - i,
{
    if i < 0 || i >= line.len() {
        Seq::empty()
    } else if line[i] == 0 {
        tiles_from(line, i + 1)
    } else {
        seq![line[i]] + tiles_from(line, i + 1)
    }
}

/// Merges equal neighbours of a run of tiles, front to back, each tile at most
/// once; two tiles already at the largest power 0xF do not merge.
pub open spec fn merged(s: Seq<u64>) -> Seq<u64>
    decreases s.len(),
{
    if s.len() < 2 {
        s
    } else if s[0] == s[1] && s[0] < 15 {
        seq![merge_power(s[0])] + merged(s.subrange(2, s.len() as int))
    } else {
        seq![s[0]] + merged(s.drop_first())
    }
}

/// `s` filled up with empty cells to four cells.
pub open spec fn pad4(s: Seq<u64>) -> Seq<u64> {
    Seq::new(4, |k: int| if k < s.len() { s[k] } else { 0 })
}

/// The four cells of a row, lowest nybble first.
pub open spec fn cells_of(row: u64) -> Seq<u64> {
    seq![row & 0xF, (row >> 4) & 0xF, (row >> 8) & 0xF, (row >> 12) & 0xF]
}

/// The row whose cells, lowest nybble first, are `line` (four values under 16).
pub open spec fn pack(line: Seq<u64>) -> u64 {
    line[0] | (line[1] << 4) | (line[2] << 8) | (line[3] << 12)
}

/// The cells of `line` after its tiles slide towards cell 0 and merge.
pub open spec fn slid(line: Seq<u64>) -> Seq<u64> {
    pad4(merged(tiles_from(line, 0)))
}

/// A row after sliding towards its lowest cell (rightwards on the board).
pub open spec fn slide_low(row: u64) -> u64 {
    pack(slid(cells_of(row)))
}

/// A row with its four cells in the opposite order.
pub open spec fn reverse_row(row: u64) -> u64 {
    ((row >> 12) & 0x000F) | ((row >> 4) & 0x00F0) | ((row << 4) & 0x0F00) | ((row << 12) & 0xF000)
}

/// A row after sliding towards its highest cell (leftwards on the board).
pub open spec fn slide_high(row: u64) -> u64 {
    reverse_row(slide_low(reverse_row(row)))
}

/// A merge never makes more tiles.
pub(crate) proof fn lemma_merged_len(s: Seq<u64>)
    ensures
        merged(s).len() <= s.len(),
    decreases s.len(),
{
    if s.len() >= 2 {
        if s[0] == s[1] && s[0] < 15 {
            lemma_merged_len(s.subrange(2, s.len() as int));
        } else {
            lemma_merged_len(s.drop_first());
        }
    }
}

pub(crate) proof fn lemma_tiles_len(line: Seq<u64>, i: int)
    requires
        0 <= i <= line.len(),
    ensures
        tiles_from(line, i).len() <= line.len() - i,
    decreases line.len() - i,
{
    if i < line.len() {
        lemma_tiles_len(line, i + 1);
    }
}

/// Empty cells between `i` and `j` add no tiles.
pub(crate) proof fn lemma_tiles_skip(line: Seq<u64>, i: int, j: int)
    requires
        0 <= i <= j <= line.len(),
        forall|k: int| i <= k < j ==> line[k] == 0,
    ensures
        tiles_from(line, i) == tiles_from(line, j),
    decreases j - i,
{
    if i < j {
        lemma_tiles_skip(line, i + 1, j);
    }
}

/// The tiles from `i` on depend on the cells from `i` on only.
proof fn lemma_tiles_frame(a: Seq<u64>, b: Seq<u64>, i: int)
    requires
        0 <= i <= a.len(),
        a.len() == b.len(),
        forall|k: int| i <= k < a.len() ==> a[k] == b[k],
    ensures
        tiles_from(a, i) == tiles_from(b, i),
    decreases a.len() - i,
{
    if i < a.len() {
        lemma_tiles_frame(a, b, i + 1);
    }
}

/// Past the last tile, sliding leaves the cells as they are.
proof fn lemma_step_end(line: Seq<u64>, i: int)
    requires
        line.len() == 4,
        0 <= i < 4,
        forall|k: int| i < k < 4 ==> line[k] == 0,
    ensures
        pad4(line.subrange(0, i) + merged(tiles_from(line, i))) == line,
{
    lemma_tiles_skip(line, i + 1, 4);
    assert(tiles_from(line, 4) == Seq::<u64>::empty());
    let t = tiles_from(line, i);
    assert(t.len() < 2);
    assert(merged(t) == t);
    assert(pad4(line.subrange(0, i) + t) =~= line);
}

/// Pulling the next tile into an empty cell `i` changes nothing still to come.
proof fn lemma_step_pull(before: Seq<u64>, after: Seq<u64>, i: int, j: int)
    requires
        before.len() == 4,
        0 <= i < j < 4,
        before[i] == 0,
        forall|k: int| i < k < j ==> before[k] == 0,
        after == before.update(i, before[j]).update(j, 0),
    ensures
        before.subrange(0, i) + merged(tiles_from(before, i)) == after.subrange(0, i) + merged(
            tiles_from(after, i),
        ),
{
    lemma_tiles_skip(before, i, j);
    lemma_tiles_skip(after, i + 1, j + 1);
    lemma_tiles_frame(before, after, j + 1);
    if before[j] == 0 {
        assert(tiles_from(before, j) == tiles_from(before, j + 1));
    } else {
        assert(tiles_from(before, j) == seq![before[j]] + tiles_from(before, j + 1));
    }
    assert(tiles_from(after, i) == tiles_from(before, i));
    assert(after.subrange(0, i) =~= before.subrange(0, i));
}

/// Two equal tiles at `i` and `j` merge into cell `i`, which is then done.
proof fn lemma_step_merge(before: Seq<u64>, after: Seq<u64>, i: int, j: int)
    requires
        before.len() == 4,
        0 <= i < j < 4,
        before[i] != 0,
        before[i] < 15,
        before[i] == before[j],
        forall|k: int| i < k < j ==> before[k] == 0,
        after == before.update(i, merge_power(before[i])).update(j, 0),
    ensures
        before.subrange(0, i) + merged(tiles_from(before, i)) == after.subrange(0, i + 1) + merged(
            tiles_from(after, i + 1),
        ),
{
    let a = before[i];
    lemma_tiles_skip(before, i + 1, j);
    lemma_tiles_skip(after, i + 1, j + 1);
    lemma_tiles_frame(before, after, j + 1);
    let rest = tiles_from(before, j + 1);
    assert(tiles_from(before, j) == seq![a] + rest);
    let t = tiles_from(before, i);
    assert(t == seq![a] + tiles_from(before, i + 1));
    assert(t =~= seq![a, a] + rest);
    assert(t.subrange(2, t.len() as int) =~= rest);
    assert(merged(t) == seq![merge_power(a)] + merged(rest));
    assert(after.subrange(0, i + 1) =~= before.subrange(0, i) + seq![merge_power(a)]);
    assert(before.subrange(0, i) + merged(t) =~= after.subrange(0, i + 1) + merged(rest));
}

/// A tile at `i` that cannot merge with the next tile at `j` stays, and cell `i` is done.
proof fn lemma_step_keep(line: Seq<u64>, i: int, j: int)
    requires
        line.len() == 4,
        0 <= i < j < 4,
        line[i] != 0,
        line[j] != 0,
        !(line[i] == line[j] && line[i] < 15),
        forall|k: int| i < k < j ==> line[k] == 0,
    ensures
        line.subrange(0, i) + merged(tiles_from(line, i)) == line.subrange(0, i + 1) + merged(
            tiles_from(line, i + 1),
        ),
{
    lemma_tiles_skip(line, i + 1, j);
    let t = tiles_from(line, i);
    let u = tiles_from(line, i + 1);
    assert(u == seq![line[j]] + tiles_from(line, j + 1));
    assert(t =~= seq![line[i]] + u);
    assert(t.drop_first() =~= u);
    assert(merged(t) == seq![line[i]] + merged(u));
    assert(line.subrange(0, i + 1) =~= line.subrange(0, i) + seq![line[i]]);
    assert(line.subrange(0, i) + merged(t) =~= line.subrange(0, i + 1) + merged(u));
}

/// The cells of `line` after sliding, computed in place with two cursors.
pub(crate) fn slide_line(line: &mut Vec<u64>)
    requires
        old(line)@.len() == 4,
        forall|k: int| 0 <= k < 4 ==> old(line)@[k] < 16,
    ensures
        final(line)@ == slid(old(line)@),
        forall|k: int| 0 <= k < 4 ==> final(line)@[k] < 16,
{
    let ghost orig = line@;
    let mut i: usize = 0;
    proof {
        assert(line@.subrange(0, 0) + merged(tiles_from(line@, 0)) =~= merged(tiles_from(line@, 0)));
    }
    while i < 3
        invariant_except_break
            i < 4,
            line@.len() == 4,
            forall|k: int| 0 <= k < 4 ==> line@[k] < 16,
            slid(orig) == pad4(line@.subrange(0, i as int) + merged(tiles_from(line@, i as int))),
            i == 3 ==> slid(orig) == line@,
        ensures
            line@.len() == 4,
            forall|k: int| 0 <= k < 4 ==> line@[k] < 16,
            slid(orig) == line@,
        decreases 2 * (3 - i) + if line@[i as int] == 0 { 1int } else { 0 },
    {
        let mut j: usize = i + 1;
        while j < 4 && line[j] == 0
            invariant
                i < j <= 4,
                line@.len() == 4,
                forall|k: int| i < k < j ==> line@[k] == 0,
            decreases 4 - j,
        {
            j += 1;
        }
        if j == 4 {
            proof {
                lemma_step_end(line@, i as int);
            }
            break;
        }
        if line[i] == 0 {
            let ghost before = line@;
            let v = line[j];
            line.set(i, v);
            line.set(j, 0);
            proof {
                lemma_step_pull(before, line@, i as int, j as int);
            }
            continue;
        } else if line[i] == line[j] && line[i] != 0xF {
            let ghost before = line@;
            let a = line[i];
            line.set(i, a + 1);
            line.set(j, 0);
            proof {
                assert(line@ == before.update(i as int, merge_power(a)).update(j as int, 0));
                lemma_step_merge(before, line@, i as int, j as int);
            }
        } else {
            proof {
                lemma_step_keep(line@, i as int, j as int);
            }
        }
        i += 1;
        proof {
            if i == 3 {
                lemma_step_end(line@, 3);
            }
        }
    }
}

} // verus!

verus! {

pub(crate) proof fn lemma_tiles_small(line: Seq<u64>, i: int)
    requires
        forall|k: int| 0 <= k < line.len() ==> line[k] < 16,
    ensures
        forall|k: int| 0 <= k < tiles_from(line, i).len() ==> tiles_from(line, i)[k] < 16,
    decreases line.len() - i,
{
    if 0 <= i < line.len() {
        lemma_tiles_small(line, i + 1);
        let t = tiles_from(line, i);
        let u = tiles_from(line, i + 1);
        if line[i] != 0 {
            assert forall|k: int| 0 <= k < t.len() implies t[k] < 16 by {
                if k > 0 {
                    assert(t[k] == u[k - 1]);
                }
            }
        }
    }
}

pub(crate) proof fn lemma_merged_small(s: Seq<u64>)
    requires
        forall|k: int| 0 <= k < s.len() ==> s[k] < 16,
    ensures
        forall|k: int| 0 <= k < merged(s).len() ==> merged(s)[k] < 16,
    decreases s.len(),
{
    if s.len() >= 2 {
        let m = merged(s);
        if s[0] == s[1] && s[0] < 15 {
            let u = s.subrange(2, s.len() as int);
            lemma_merged_small(u);
            assert forall|k: int| 0 <= k < m.len() implies m[k] < 16 by {
                if k > 0 {
                    assert(m[k] == merged(u)[k - 1]);
                }
            }
        } else {
            let u = s.drop_first();
            lemma_merged_small(u);
            assert forall|k: int| 0 <= k < m.len() implies m[k] < 16 by {
                if k > 0 {
                    assert(m[k] == merged(u)[k - 1]);
                }
            }
        }
    }
}

/// A slid row is again a 16-bit value.
pub proof fn lemma_slide_low_bound(row: u64)
    ensures
        slide_low(row) < 0x1_0000,
{
    let c = cells_of(row);
    assert((row & 0xF) < 16 && ((row >> 4) & 0xF) < 16 && ((row >> 8) & 0xF) < 16 && ((row >> 12)
        & 0xF) < 16) by (bit_vector);
    lemma_tiles_small(c, 0);
    lemma_merged_small(tiles_from(c, 0));
    let l = slid(c);
    let (l0, l1, l2, l3) = (l[0], l[1], l[2], l[3]);
    assert(l0 < 16 && l1 < 16 && l2 < 16 && l3 < 16);
    assert(l0 < 16 && l1 < 16 && l2 < 16 && l3 < 16 ==> (l0 | (l1 << 4u64) | (l2 << 8u64) | (l3
        << 12u64)) < 0x1_0000) by (bit_vector);
}

/// A row slid the other way is again a 16-bit value.
pub proof fn lemma_slide_high_bound(row: u64)
    ensures
        slide_high(row) < 0x1_0000,
{
    let x = slide_low(reverse_row(row));
    assert(reverse_row(x) < 0x1_0000) by (bit_vector);
}

} // verus!
