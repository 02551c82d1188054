//! Sliding and merging along a single line of the board.
//!
//! A line is a sequence of cells read from the edge that the tiles slide
//! towards; `0` is an empty cell. The model is stated over natural numbers and
//! lines of any length; the executable routine works on the four cells of a
//! board line.

use vstd::prelude::*;

verus! {

/// The cells of a machine line, as natural numbers.
pub open spec fn nats(cells: Seq<u32>) -> Seq<nat> {
    Seq::new(cells.len(), |i: int| cells[i] as nat)
}

/// The sum of all cells.
pub open spec fn total(line: Seq<nat>) -> nat
    decreases line.len(),
{
    if line.len() == 0 {
        0
    } else {
        line[0] + total(line.drop_first())
    }
}

/// The tiles of a line in order, with the empty cells left out.
pub open spec fn tiles(line: Seq<nat>) -> Seq<nat>
    decreases line.len(),
{
    if line.len() == 0 {
        Seq::empty()
    } else if line[0] == 0 {
        tiles(line.drop_first())
    } else {
        seq![line[0]] + tiles(line.drop_first())
    }
}

/// Merges equal neighbours, starting at the front. A merged tile is final: it
/// does not merge again with the tile that follows it.
pub open spec fn merge(t: Seq<nat>) -> Seq<nat>
    decreases t.len(),
{
    if t.len() < 2 {
        t
    } else if t[0] == t[1] {
        seq![t[0] + t[1]] + merge(t.skip(2))
    } else {
        seq![t[0]] + merge(t.drop_first())
    }
}

/// The number of merges that `merge` performs.
pub open spec fn merges(t: Seq<nat>) -> nat
    decreases t.len(),
{
    if t.len() < 2 {
        0
    } else if t[0] == t[1] {
        1 + merges(t.skip(2))
    } else {
        merges(t.drop_first())
    }
}

/// The sum of the tiles that `merge` creates.
pub open spec fn gain(t: Seq<nat>) -> nat
    decreases t.len(),
{
    if t.len() < 2 {
        0
    } else if t[0] == t[1] {
        t[0] + t[1] + gain(t.skip(2))
    } else {
        gain(t.drop_first())
    }
}

/// `t` followed by empty cells, `n` cells in all.
pub open spec fn pad(t: Seq<nat>, n: nat) -> Seq<nat> {
    Seq::new(n, |i: int| if i < t.len() { t[i] } else { 0 })
}

/// The line after a swipe towards its front.
pub open spec fn slide(line: Seq<nat>) -> Seq<nat> {
    pad(merge(tiles(line)), line.len())
}

/// No cell of `t` is empty.
pub open spec fn gapless(t: Seq<nat>) -> bool {
    forall|i: int| 0 <= i < t.len() ==> t[i] != 0
}

/// No two neighbours in `t` are equal.
pub open spec fn no_equal_neighbours(t: Seq<nat>) -> bool {
    forall|i: int| 0 <= i < t.len() - 1 ==> t[i] != #[trigger] t[i + 1]
}

/// Leaving out the empty cells keeps the tiles and their sum, and changes
/// nothing in a line without an empty cell.
pub proof fn lemma_tiles_shape(line: Seq<nat>)
    ensures
        tiles(line).len() <= line.len(),
        gapless(tiles(line)),
        total(tiles(line)) == total(line),
        gapless(line) ==> tiles(line) == line,
        tiles(line).len() == line.len() ==> tiles(line) == line,
    decreases line.len(),
{
    if line.len() > 0 {
        let rest = line.drop_first();
        lemma_tiles_shape(rest);
        if line[0] != 0 {
            let t = seq![line[0]] + tiles(rest);
            assert(t.drop_first() =~= tiles(rest));
            if gapless(line) {
                assert(gapless(rest));
                assert(t =~= line);
            }
            if tiles(line).len() == line.len() {
                assert(t =~= line);
            }
        } else {
            if gapless(line) {
                assert(line[0] != 0);
            }
        }
    } else {
        assert(tiles(line) =~= line);
    }
}

/// Merging keeps the sum; each merge takes one tile away; and nothing merges
/// exactly where no two neighbours are equal.
pub proof fn lemma_merge_shape(t: Seq<nat>)
    ensures
        merge(t).len() + merges(t) == t.len(),
        total(merge(t)) == total(t),
        gapless(t) ==> gapless(merge(t)),
        merges(t) == 0 <==> no_equal_neighbours(t),
        merges(t) == 0 <==> merge(t) == t,
        gain(t) <= total(t),
    decreases t.len(),
{
    if t.len() >= 2 {
        if t[0] == t[1] {
            let rest = t.skip(2);
            lemma_merge_shape(rest);
            let m = seq![t[0] + t[1]] + merge(rest);
            assert(m.drop_first() =~= merge(rest));
            assert(t.drop_first().drop_first() =~= rest);
            assert(t.drop_first()[0] == t[1]);
            assert(total(t.drop_first()) == t[1] + total(rest));
            if gapless(t) {
                assert(gapless(rest));
            }
            assert(t[0int] == t[0int + 1]);
            assert(m.len() < t.len());
        } else {
            let rest = t.drop_first();
            lemma_merge_shape(rest);
            let m = seq![t[0]] + merge(rest);
            assert(m.drop_first() =~= merge(rest));
            if gapless(t) {
                assert(gapless(rest));
            }
            if no_equal_neighbours(rest) {
                assert forall|i: int| 0 <= i < t.len() - 1 implies t[i] != #[trigger] t[i + 1] by {
                    if i > 0 {
                        assert(rest[i - 1] != rest[i - 1 + 1]);
                    }
                }
                assert(m =~= t);
            }
            if no_equal_neighbours(t) {
                assert forall|i: int| 0 <= i < rest.len() - 1 implies rest[i] != #[trigger] rest[i
                    + 1] by {
                    assert(t[i + 1] != t[i + 1 + 1]);
                }
            }
            if merge(t) == t {
                assert(merge(rest) =~= m.drop_first());
                assert(merge(rest) == rest);
            }
        }
    }
}

/// Empty cells behind the tiles add nothing to the sum, and are left out
/// again by `tiles`.
pub proof fn lemma_pad_shape(t: Seq<nat>, n: nat)
    requires
        t.len() <= n,
    ensures
        total(pad(t, n)) == total(t),
        gapless(t) ==> tiles(pad(t, n)) == t,
    decreases n,
{
    let p = pad(t, n);
    if n > 0 {
        if t.len() > 0 {
            lemma_pad_shape(t.drop_first(), (n - 1) as nat);
            assert(p.drop_first() =~= pad(t.drop_first(), (n - 1) as nat));
            if gapless(t) {
                assert(gapless(t.drop_first()));
                assert(seq![t[0]] + t.drop_first() =~= t);
            }
        } else {
            lemma_pad_shape(t, (n - 1) as nat);
            assert(p.drop_first() =~= pad(t, (n - 1) as nat));
            assert(tiles(pad(t, (n - 1) as nat)) == t);
        }
    } else {
        assert(t =~= Seq::<nat>::empty());
    }
}

/// What a swipe does to one line: nothing is lost or made, the tiles end up
/// packed at the front, and each merge takes one tile away.
pub proof fn lemma_slide_shape(line: Seq<nat>)
    ensures
        slide(line).len() == line.len(),
        total(slide(line)) == total(line),
        tiles(slide(line)) == merge(tiles(line)),
        tiles(slide(line)).len() + merges(tiles(line)) == tiles(line).len(),
{
    lemma_tiles_shape(line);
    lemma_merge_shape(tiles(line));
    lemma_pad_shape(merge(tiles(line)), line.len());
}

/// A line is left as it is exactly when its tiles are already packed at the
/// front and no two neighbouring tiles are equal.
pub proof fn lemma_slide_fixed(line: Seq<nat>)
    ensures
        slide(line) == line <==> (line == pad(tiles(line), line.len()) && no_equal_neighbours(
            tiles(line),
        )),
{
    lemma_slide_shape(line);
    lemma_merge_shape(tiles(line));
    if slide(line) == line {
        assert(tiles(line) == merge(tiles(line)));
    }
}

/// A second swipe moves a line again exactly when the first one left two equal
/// tiles next to each other.
pub proof fn lemma_slide_twice(line: Seq<nat>)
    ensures
        slide(slide(line)) == slide(line) <==> no_equal_neighbours(tiles(slide(line))),
{
    let once = slide(line);
    lemma_slide_shape(line);
    lemma_slide_fixed(once);
    assert(once == pad(tiles(once), once.len()));
}

/// A cell more at the end adds its value to the sum.
pub proof fn lemma_total_push(s: Seq<nat>, x: nat)
    ensures
        total(s.push(x)) == total(s) + x,
    decreases s.len(),
{
    if s.len() == 0 {
        assert(s.push(x).drop_first() =~= s);
    } else {
        lemma_total_push(s.drop_first(), x);
        assert(s.push(x).drop_first() =~= s.drop_first().push(x));
    }
}

/// A new value in one cell changes the sum by the difference.
pub proof fn lemma_total_update(s: Seq<nat>, i: int, v: nat)
    requires
        0 <= i < s.len(),
    ensures
        total(s.update(i, v)) + s[i] == total(s) + v,
    decreases s.len(),
{
    if i == 0 {
        assert(s.update(i, v).drop_first() =~= s.drop_first());
    } else {
        lemma_total_update(s.drop_first(), i - 1, v);
        assert(s.update(i, v).drop_first() =~= s.drop_first().update(i - 1, v));
    }
}

/// A cell more at the end adds a tile if it is not empty.
pub proof fn lemma_tiles_push(s: Seq<nat>, x: nat)
    ensures
        tiles(s.push(x)) == if x == 0 {
            tiles(s)
        } else {
            tiles(s).push(x)
        },
    decreases s.len(),
{
    if s.len() == 0 {
        assert(s.push(x).drop_first() =~= s);
        assert(seq![x] + Seq::<nat>::empty() =~= Seq::<nat>::empty().push(x));
    } else {
        let rest = s.drop_first();
        lemma_tiles_push(rest, x);
        assert(s.push(x).drop_first() =~= rest.push(x));
        if x != 0 {
            assert(seq![s[0]] + tiles(rest).push(x) =~= (seq![s[0]] + tiles(rest)).push(x));
        }
    }
}

/// Sliding keeps every cell empty or a tile of the kind `ok`, when `ok` holds
/// of the sum of two equal tiles that it holds of.
pub proof fn lemma_slide_keeps(line: Seq<nat>, ok: spec_fn(nat) -> bool)
    requires
        forall|i: int| 0 <= i < line.len() ==> line[i] == 0 || ok(#[trigger] line[i]),
        forall|v: nat| ok(v) ==> #[trigger] ok(v + v),
    ensures
        forall|i: int|
            0 <= i < line.len() ==> slide(line)[i] == 0 || ok(#[trigger] slide(line)[i]),
{
    lemma_tiles_keep(line, ok);
    lemma_merge_keeps(tiles(line), ok);
}

proof fn lemma_tiles_keep(line: Seq<nat>, ok: spec_fn(nat) -> bool)
    requires
        forall|i: int| 0 <= i < line.len() ==> line[i] == 0 || ok(#[trigger] line[i]),
    ensures
        forall|i: int| 0 <= i < tiles(line).len() ==> ok(#[trigger] tiles(line)[i]),
    decreases line.len(),
{
    if line.len() > 0 {
        let rest = line.drop_first();
        assert forall|i: int| 0 <= i < rest.len() implies rest[i] == 0 || ok(
            #[trigger] rest[i],
        ) by {
            assert(rest[i] == line[i + 1]);
        }
        lemma_tiles_keep(rest, ok);
        assert forall|i: int| 0 <= i < tiles(line).len() implies ok(#[trigger] tiles(line)[i]) by {
            if line[0] != 0 && i > 0 {
                assert(tiles(line)[i] == tiles(rest)[i - 1]);
            }
        }
    }
}

proof fn lemma_merge_keeps(t: Seq<nat>, ok: spec_fn(nat) -> bool)
    requires
        forall|i: int| 0 <= i < t.len() ==> ok(#[trigger] t[i]),
        forall|v: nat| ok(v) ==> #[trigger] ok(v + v),
    ensures
        forall|i: int| 0 <= i < merge(t).len() ==> ok(#[trigger] merge(t)[i]),
    decreases t.len(),
{
    if t.len() >= 2 {
        if t[0] == t[1] {
            let rest = t.skip(2);
            assert forall|i: int| 0 <= i < rest.len() implies ok(#[trigger] rest[i]) by {
                assert(rest[i] == t[i + 2]);
            }
            lemma_merge_keeps(rest, ok);
            assert(ok(t[0]));
            assert forall|i: int| 0 <= i < merge(t).len() implies ok(#[trigger] merge(t)[i]) by {
                if i > 0 {
                    assert(merge(t)[i] == merge(rest)[i - 1]);
                }
            }
        } else {
            let rest = t.drop_first();
            assert forall|i: int| 0 <= i < rest.len() implies ok(#[trigger] rest[i]) by {
                assert(rest[i] == t[i + 1]);
            }
            lemma_merge_keeps(rest, ok);
            assert(ok(t[0]));
            assert forall|i: int| 0 <= i < merge(t).len() implies ok(#[trigger] merge(t)[i]) by {
                if i > 0 {
                    assert(merge(t)[i] == merge(rest)[i - 1]);
                }
            }
        }
    }
}

/// The tile that is held back because the next tile may merge with it.
spec fn held(pending: u32) -> Seq<nat> {
    if pending == 0 {
        Seq::empty()
    } else {
        seq![pending as nat]
    }
}

/// Slides the four cells of a line towards the front and merges them. Returns
/// the new line and the sum of the tiles that the merges created.
pub(crate) fn slide_line(line: [u32; 4]) -> (r: ([u32; 4], u32))
    requires
        total(nats(line@)) <= u32::MAX,
    ensures
        nats(r.0@) == slide(nats(line@)),
        r.1 == gain(tiles(nats(line@))),
{
    let ghost cells = nats(line@);
    let mut out = [0u32; 4];
    let mut n: usize = 0;
    let mut pending: u32 = 0;
    let mut score: u32 = 0;
    let mut i: usize = 0;
    proof {
        assert(cells.skip(0) =~= cells);
        assert(nats(out@).take(0) =~= Seq::<nat>::empty());
        assert(held(pending) + tiles(cells) =~= tiles(cells));
        assert(Seq::<nat>::empty() + merge(tiles(cells)) =~= merge(tiles(cells)));
    }
    while i < 4
        invariant
            i <= 4,
            n <= i,
            pending != 0 ==> n < i,
            cells == nats(line@),
            total(cells) <= u32::MAX,
            forall|j: int| n <= j < 4 ==> out[j] == 0,
            merge(tiles(cells)) == nats(out@).take(n as int) + merge(
                held(pending) + tiles(cells.skip(i as int)),
            ),
            gain(tiles(cells)) == score + gain(held(pending) + tiles(cells.skip(i as int))),
            total(nats(out@).take(n as int)) + pending + total(cells.skip(i as int)) == total(
                cells,
            ),
            score <= total(nats(out@).take(n as int)),
        decreases 4 - i,
    {
        let v = line[i];
        let ghost done = nats(out@).take(n as int);
        let ghost rest = tiles(cells.skip(i as int + 1));
        proof {
            assert(cells.skip(i as int).drop_first() =~= cells.skip(i as int + 1));
            assert(cells.skip(i as int)[0] == v);
        }
        if v != 0 {
            let ghost ahead = held(pending) + (seq![v as nat] + rest);
            if pending == 0 {
                proof {
                    assert(ahead =~= held(v) + rest);
                }
                pending = v;
            } else if pending == v {
                proof {
                    assert(ahead.skip(2) =~= rest);
                    assert(held(0) + rest =~= rest);
                    lemma_total_push(done, (pending + v) as nat);
                }
                out[n] = pending + v;
                proof {
                    assert(nats(out@).take(n as int + 1) =~= done.push((pending + v) as nat));
                    assert(done + (seq![(pending + v) as nat] + merge(rest)) =~= done.push(
                        (pending + v) as nat,
                    ) + merge(rest));
                }
                score = score + (pending + v);
                n += 1;
                pending = 0;
            } else {
                proof {
                    assert(ahead.drop_first() =~= held(v) + rest);
                    lemma_total_push(done, pending as nat);
                }
                out[n] = pending;
                proof {
                    assert(nats(out@).take(n as int + 1) =~= done.push(pending as nat));
                    assert(done + (seq![pending as nat] + merge(held(v) + rest)) =~= done.push(
                        pending as nat,
                    ) + merge(held(v) + rest));
                }
                n += 1;
                pending = v;
            }
        } else {
            proof {
                assert(nats(out@).take(n as int) =~= done);
            }
        }
        i += 1;
    }
    proof {
        assert(cells.skip(4) =~= Seq::<nat>::empty());
        assert(held(pending) + tiles(cells.skip(4)) =~= held(pending));
    }
    let ghost done = nats(out@).take(n as int);
    if pending != 0 {
        out[n] = pending;
        proof {
            assert(nats(out@).take(n as int + 1) =~= done.push(pending as nat));
            assert(done + held(pending) =~= done.push(pending as nat));
            assert(nats(out@) =~= pad(done.push(pending as nat), 4));
        }
    } else {
        proof {
            assert(done + held(pending) =~= done);
            assert(nats(out@) =~= pad(done, 4));
        }
    }
    (out, score)
}

} // verus!
