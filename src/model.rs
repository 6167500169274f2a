use vstd::prelude::*;

verus! {

/// One row of the registry, as values: a grantor and its grantees in order.
pub type RowView = (Seq<u8>, Seq<Seq<u8>>);

/// Whether some row of `rows` belongs to `g`.
pub open spec fn has_row(rows: Seq<RowView>, g: Seq<u8>) -> bool {
    exists|i: int| 0 <= i < rows.len() && (#[trigger] rows[i]).0 == g
}

/// The position of `g`'s row, where `has_row(rows, g)`.
pub open spec fn row_of(rows: Seq<RowView>, g: Seq<u8>) -> int {
    choose|i: int| 0 <= i < rows.len() && (#[trigger] rows[i]).0 == g
}

/// The grantees of `g`: its row, or nothing where it has no row.
pub open spec fn grantees_of(rows: Seq<RowView>, g: Seq<u8>) -> Seq<Seq<u8>> {
    if has_row(rows, g) {
        rows[row_of(rows, g)].1
    } else {
        Seq::empty()
    }
}

/// Whether `g` lets `e` send: never to itself, else exactly when `e` is in `g`'s row.
pub open spec fn permitted(rows: Seq<RowView>, g: Seq<u8>, e: Seq<u8>) -> bool {
    g != e && grantees_of(rows, g).contains(e)
}

/// The registry's invariant: one row per grantor, no grantee twice in a row,
/// and no grantor among its own grantees.
pub open spec fn well_formed(rows: Seq<RowView>) -> bool {
    &&& forall|i: int, j: int|
        0 <= i < rows.len() && 0 <= j < rows.len() && i != j ==> (#[trigger] rows[i]).0 != (
        #[trigger] rows[j]).0
    &&& forall|i: int| 0 <= i < rows.len() ==> (#[trigger] rows[i]).1.no_duplicates()
    &&& forall|i: int| 0 <= i < rows.len() ==> !(#[trigger] rows[i]).1.contains(rows[i].0)
}

/// The registry after `g` grants to `e`: `e` joins the end of `g`'s row unless it is
/// there already; a grantor without a row gets a new one at the end.
pub open spec fn granted(rows: Seq<RowView>, g: Seq<u8>, e: Seq<u8>) -> Seq<RowView> {
    if g == e || permitted(rows, g, e) {
        rows
    } else if has_row(rows, g) {
        rows.update(row_of(rows, g), (g, rows[row_of(rows, g)].1.push(e)))
    } else {
        rows.push((g, seq![e]))
    }
}

/// `s` without `e`, the rest in order.
pub open spec fn without(s: Seq<Seq<u8>>, e: Seq<u8>) -> Seq<Seq<u8>>
    decreases s.len(),
{
    if s.len() == 0 {
        s
    } else if s.last() == e {
        without(s.drop_last(), e)
    } else {
        without(s.drop_last(), e).push(s.last())
    }
}

/// The registry after `g` revokes `e`: `e` leaves `g`'s row, the row stays.
pub open spec fn revoked(rows: Seq<RowView>, g: Seq<u8>, e: Seq<u8>) -> Seq<RowView> {
    if permitted(rows, g, e) {
        rows.update(row_of(rows, g), (g, without(rows[row_of(rows, g)].1, e)))
    } else {
        rows
    }
}

/// The registry after `g`'s row is removed.
pub open spec fn cleared(rows: Seq<RowView>, g: Seq<u8>) -> Seq<RowView> {
    if has_row(rows, g) {
        rows.remove(row_of(rows, g))
    } else {
        rows
    }
}

/// The grantors whose rows hold `e`, in the order of the rows.
pub open spec fn grantors(rows: Seq<RowView>, e: Seq<u8>) -> Seq<Seq<u8>>
    decreases rows.len(),
{
    if rows.len() == 0 {
        Seq::empty()
    } else if rows.last().1.contains(e) {
        grantors(rows.drop_last(), e).push(rows.last().0)
    } else {
        grantors(rows.drop_last(), e)
    }
}

/// What `without` keeps: every element but `e`, each once where `s` has it once.
pub proof fn lemma_without(s: Seq<Seq<u8>>, e: Seq<u8>)
    ensures
        forall|x: Seq<u8>| #[trigger] without(s, e).contains(x) <==> (s.contains(x) && x != e),
        s.no_duplicates() ==> without(s, e).no_duplicates(),
        !s.contains(e) ==> without(s, e) == s,
    decreases s.len(),
{
    if s.len() > 0 {
        let p = s.drop_last();
        lemma_without(p, e);
        assert(s =~= p.push(s.last()));
        assert forall|x: Seq<u8>| #[trigger] s.contains(x) <==> (p.contains(x) || x == s.last()) by {
            if s.contains(x) {
                let k = choose|k: int| 0 <= k < s.len() && s[k] == x;
                if k < p.len() {
                    assert(p[k] == x);
                }
            }
            if p.contains(x) {
                let k = choose|k: int| 0 <= k < p.len() && p[k] == x;
                assert(s[k] == x);
            }
            if x == s.last() {
                assert(s[s.len() - 1] == x);
            }
        }
        if s.last() != e {
            let w = without(p, e);
            assert forall|x: Seq<u8>| #[trigger] w.push(s.last()).contains(x) <==> (w.contains(x) || x == s.last()) by {
                if w.push(s.last()).contains(x) {
                    let k = choose|k: int| 0 <= k < w.len() + 1 && w.push(s.last())[k] == x;
                    if k < w.len() {
                        assert(w[k] == x);
                    }
                }
                if w.contains(x) {
                    let k = choose|k: int| 0 <= k < w.len() && w[k] == x;
                    assert(w.push(s.last())[k] == x);
                }
                if x == s.last() {
                    assert(w.push(s.last())[w.len() as int] == x);
                }
            }
            if s.no_duplicates() {
                assert(p.no_duplicates()) by {
                    assert forall|a: int, b: int| 0 <= a < p.len() && 0 <= b < p.len() && a != b
                        implies p[a] != p[b] by {
                        assert(s[a] == p[a] && s[b] == p[b]);
                    }
                }
                assert(!p.contains(s.last())) by {
                    if p.contains(s.last()) {
                        let k = choose|k: int| 0 <= k < p.len() && p[k] == s.last();
                        assert(s[k] == s[s.len() - 1]);
                    }
                }
                let wl = w.push(s.last());
                assert forall|a: int, b: int| 0 <= a < wl.len() && 0 <= b < wl.len() && a != b
                    implies wl[a] != wl[b] by {
                    if a == w.len() as int {
                        assert(w.contains(wl[b]));
                    } else if b == w.len() as int {
                        assert(w.contains(wl[a]));
                    }
                }
            }
        } else {
            if s.no_duplicates() {
                assert(p.no_duplicates()) by {
                    assert forall|a: int, b: int| 0 <= a < p.len() && 0 <= b < p.len() && a != b
                        implies p[a] != p[b] by {
                        assert(s[a] == p[a] && s[b] == p[b]);
                    }
                }
            }
            assert(s.contains(e)) by {
                assert(s[s.len() - 1] == e);
            }
        }
    }
}

/// In a well-formed registry the row at `i` is the row of its grantor.
pub proof fn lemma_row_at(rows: Seq<RowView>, i: int)
    requires
        well_formed(rows),
        0 <= i < rows.len(),
    ensures
        has_row(rows, rows[i].0),
        row_of(rows, rows[i].0) == i,
        grantees_of(rows, rows[i].0) == rows[i].1,
{
    assert(has_row(rows, rows[i].0));
    let k = row_of(rows, rows[i].0);
    if k != i {
        assert(rows[k].0 != rows[i].0);
    }
}

/// Rows that keep their grantors in place and change only the grantees of `g`
/// keep the grantees of every other party.
pub proof fn lemma_same_grantors(rows: Seq<RowView>, rows2: Seq<RowView>, g: Seq<u8>)
    requires
        well_formed(rows),
        well_formed(rows2),
        rows.len() == rows2.len(),
        forall|k: int| 0 <= k < rows.len() ==> (#[trigger] rows2[k]).0 == rows[k].0,
        forall|k: int| 0 <= k < rows.len() && rows[k].0 != g ==> (#[trigger] rows2[k]).1 == rows[k].1,
    ensures
        has_row(rows2, g) == has_row(rows, g),
        has_row(rows, g) ==> row_of(rows2, g) == row_of(rows, g),
        forall|h: Seq<u8>| h != g ==> #[trigger] grantees_of(rows2, h) == grantees_of(rows, h),
{
    if has_row(rows, g) {
        let i = row_of(rows, g);
        lemma_row_at(rows2, i);
    }
    if has_row(rows2, g) {
        let i = row_of(rows2, g);
        assert(rows[i].0 == g);
    }
    assert forall|h: Seq<u8>| h != g implies #[trigger] grantees_of(rows2, h) == grantees_of(rows, h) by {
        if has_row(rows, h) {
            let i = row_of(rows, h);
            lemma_row_at(rows2, i);
        }
        if has_row(rows2, h) {
            let i = row_of(rows2, h);
            assert(rows[i].0 == h);
        }
    }
}

/// Granting keeps the registry well formed, adds `e` to the end of `g`'s grantees
/// where it was missing, and leaves every other party's grantees alone.
pub proof fn lemma_granted(rows: Seq<RowView>, g: Seq<u8>, e: Seq<u8>)
    requires
        well_formed(rows),
    ensures
        well_formed(granted(rows, g, e)),
        grantees_of(granted(rows, g, e), g) == (if g != e && !grantees_of(rows, g).contains(e) {
            grantees_of(rows, g).push(e)
        } else {
            grantees_of(rows, g)
        }),
        forall|h: Seq<u8>| h != g ==> #[trigger] grantees_of(granted(rows, g, e), h) == grantees_of(rows, h),
{
    let r = granted(rows, g, e);
    if g == e || permitted(rows, g, e) {
    } else if has_row(rows, g) {
        let i = row_of(rows, g);
        let s = rows[i].1;
        assert(s.push(e).no_duplicates()) by {
            assert forall|a: int, b: int| 0 <= a < s.len() + 1 && 0 <= b < s.len() + 1 && a != b
                implies s.push(e)[a] != s.push(e)[b] by {
                if a == s.len() {
                    assert(s[b] == s.push(e)[b]);
                } else if b == s.len() {
                    assert(s[a] == s.push(e)[a]);
                }
            }
        }
        assert(!s.push(e).contains(g)) by {
            if s.push(e).contains(g) {
                let k = choose|k: int| 0 <= k < s.len() + 1 && s.push(e)[k] == g;
                assert(s[k] == g);
            }
        }
        assert(well_formed(r)) by {
            assert forall|a: int, b: int| 0 <= a < r.len() && 0 <= b < r.len() && a != b
                implies (#[trigger] r[a]).0 != (#[trigger] r[b]).0 by {
                assert(rows[a].0 != rows[b].0);
            }
            assert forall|a: int| 0 <= a < r.len() implies (#[trigger] r[a]).1.no_duplicates() by {
                if a != i {
                    assert(rows[a] == r[a]);
                }
            }
            assert forall|a: int| 0 <= a < r.len() implies !(#[trigger] r[a]).1.contains(r[a].0) by {
                if a != i {
                    assert(rows[a] == r[a]);
                }
            }
        }
        lemma_same_grantors(rows, r, g);
        lemma_row_at(r, i);
    } else {
        let n = rows.len() as int;
        assert(well_formed(r)) by {
            assert forall|a: int, b: int| 0 <= a < r.len() && 0 <= b < r.len() && a != b
                implies (#[trigger] r[a]).0 != (#[trigger] r[b]).0 by {
                if a == n {
                    assert(r[b] == rows[b]);
                } else if b == n {
                    assert(r[a] == rows[a]);
                } else {
                    assert(rows[a].0 != rows[b].0);
                }
            }
            assert forall|a: int| 0 <= a < r.len() implies (#[trigger] r[a]).1.no_duplicates() by {
                if a != n {
                    assert(rows[a] == r[a]);
                }
            }
            assert forall|a: int| 0 <= a < r.len() implies !(#[trigger] r[a]).1.contains(r[a].0) by {
                if a != n {
                    assert(rows[a] == r[a]);
                } else {
                    assert(seq![e][0] != g);
                }
            }
        }
        lemma_row_at(r, n);
        assert(grantees_of(rows, g) =~= Seq::<Seq<u8>>::empty());
        assert(seq![e] =~= Seq::<Seq<u8>>::empty().push(e));
        assert forall|h: Seq<u8>| h != g implies #[trigger] grantees_of(r, h) == grantees_of(rows, h) by {
            if has_row(rows, h) {
                let k = row_of(rows, h);
                lemma_row_at(r, k);
            }
            if has_row(r, h) {
                let k = row_of(r, h);
                assert(r[k].0 == h);
                assert(k != n);
                assert(rows[k].0 == h);
            }
        }
    }
}

/// Revoking keeps the registry well formed, takes `e` out of `g`'s grantees where
/// `g` let `e` send, and leaves every other party's grantees alone.
pub proof fn lemma_revoked(rows: Seq<RowView>, g: Seq<u8>, e: Seq<u8>)
    requires
        well_formed(rows),
    ensures
        well_formed(revoked(rows, g, e)),
        grantees_of(revoked(rows, g, e), g) == (if permitted(rows, g, e) {
            without(grantees_of(rows, g), e)
        } else {
            grantees_of(rows, g)
        }),
        forall|h: Seq<u8>| h != g ==> #[trigger] grantees_of(revoked(rows, g, e), h) == grantees_of(rows, h),
{
    let r = revoked(rows, g, e);
    if permitted(rows, g, e) {
        let i = row_of(rows, g);
        let s = rows[i].1;
        lemma_without(s, e);
        assert(well_formed(r)) by {
            assert forall|a: int, b: int| 0 <= a < r.len() && 0 <= b < r.len() && a != b
                implies (#[trigger] r[a]).0 != (#[trigger] r[b]).0 by {
                assert(rows[a].0 != rows[b].0);
            }
            assert forall|a: int| 0 <= a < r.len() implies (#[trigger] r[a]).1.no_duplicates() by {
                if a != i {
                    assert(rows[a] == r[a]);
                }
            }
            assert forall|a: int| 0 <= a < r.len() implies !(#[trigger] r[a]).1.contains(r[a].0) by {
                if a != i {
                    assert(rows[a] == r[a]);
                }
            }
        }
        lemma_same_grantors(rows, r, g);
        lemma_row_at(r, i);
    }
}

/// Clearing keeps the registry well formed, leaves `g` with no grantees, and
/// leaves every other party's grantees alone.
pub proof fn lemma_cleared(rows: Seq<RowView>, g: Seq<u8>)
    requires
        well_formed(rows),
    ensures
        well_formed(cleared(rows, g)),
        !has_row(cleared(rows, g), g),
        grantees_of(cleared(rows, g), g) == Seq::<Seq<u8>>::empty(),
        forall|h: Seq<u8>| h != g ==> #[trigger] grantees_of(cleared(rows, g), h) == grantees_of(rows, h),
{
    if has_row(rows, g) {
        let i = row_of(rows, g);
        let r = cleared(rows, g);
        assert forall|a: int| 0 <= a < r.len() implies #[trigger] r[a] == rows[if a < i {
            a
        } else {
            a + 1
        }] by {}
        assert(well_formed(r)) by {
            assert forall|a: int, b: int| 0 <= a < r.len() && 0 <= b < r.len() && a != b
                implies (#[trigger] r[a]).0 != (#[trigger] r[b]).0 by {
                let a0 = if a < i { a } else { a + 1 };
                let b0 = if b < i { b } else { b + 1 };
                assert(rows[a0].0 != rows[b0].0);
            }
            assert forall|a: int| 0 <= a < r.len() implies (#[trigger] r[a]).1.no_duplicates() by {
                let a0 = if a < i { a } else { a + 1 };
                assert(rows[a0].1.no_duplicates());
            }
            assert forall|a: int| 0 <= a < r.len() implies !(#[trigger] r[a]).1.contains(r[a].0) by {
                let a0 = if a < i { a } else { a + 1 };
                assert(!rows[a0].1.contains(rows[a0].0));
            }
        }
        assert(!has_row(r, g)) by {
            if has_row(r, g) {
                let k = row_of(r, g);
                let k0 = if k < i { k } else { k + 1 };
                assert(rows[k0].0 == g);
                assert(rows[k0].0 != rows[i].0);
            }
        }
        assert forall|h: Seq<u8>| h != g implies #[trigger] grantees_of(r, h) == grantees_of(rows, h) by {
            if has_row(rows, h) {
                let k0 = row_of(rows, h);
                assert(k0 != i);
                let k = if k0 < i { k0 } else { k0 - 1 };
                assert(r[k] == rows[k0]);
                lemma_row_at(r, k);
            }
            if has_row(r, h) {
                let k = row_of(r, h);
                let k0 = if k < i { k } else { k + 1 };
                assert(rows[k0].0 == h);
                lemma_row_at(rows, k0);
            }
        }
    }
}

/// The grantors of `e` are exactly the parties that let `e` send, each once.
pub proof fn lemma_grantors(rows: Seq<RowView>, e: Seq<u8>)
    requires
        well_formed(rows),
    ensures
        forall|h: Seq<u8>| #[trigger] grantors(rows, e).contains(h) <==> permitted(rows, h, e),
        grantors(rows, e).no_duplicates(),
    decreases rows.len(),
{
    if rows.len() == 0 {
        assert forall|h: Seq<u8>| #[trigger] grantors(rows, e).contains(h) <==> permitted(rows, h, e) by {
            assert(!has_row(rows, h));
        }
    } else {
        let n = rows.len() - 1;
        let p = rows.drop_last();
        let last = rows[n];
        assert(well_formed(p)) by {
            assert forall|a: int, b: int| 0 <= a < p.len() && 0 <= b < p.len() && a != b
                implies (#[trigger] p[a]).0 != (#[trigger] p[b]).0 by {
                assert(rows[a].0 != rows[b].0);
            }
            assert forall|a: int| 0 <= a < p.len() implies (#[trigger] p[a]).1.no_duplicates() by {
                assert(rows[a] == p[a]);
            }
            assert forall|a: int| 0 <= a < p.len() implies !(#[trigger] p[a]).1.contains(p[a].0) by {
                assert(rows[a] == p[a]);
            }
        }
        lemma_grantors(p, e);
        lemma_row_at(rows, n);
        assert(!has_row(p, last.0)) by {
            if has_row(p, last.0) {
                let k = row_of(p, last.0);
                assert(rows[k].0 != rows[n].0);
            }
        }
        assert(!permitted(p, last.0, e));
        assert forall|h: Seq<u8>| h != last.0 implies permitted(rows, h, e) == permitted(p, h, e) by {
            if has_row(p, h) {
                let k = row_of(p, h);
                lemma_row_at(p, k);
                assert(rows[k] == p[k]);
                lemma_row_at(rows, k);
            }
            if has_row(rows, h) {
                let k = row_of(rows, h);
                assert(k != n);
                assert(p[k] == rows[k]);
            }
        }
        assert(permitted(rows, last.0, e) == last.1.contains(e)) by {
            if last.1.contains(e) {
                assert(!last.1.contains(last.0));
            }
        }
        let gp = grantors(p, e);
        assert(rows.drop_last() == p);
        if last.1.contains(e) {
            assert(grantors(rows, e) == gp.push(last.0));
            assert forall|h: Seq<u8>| #[trigger] gp.push(last.0).contains(h) <==> (gp.contains(h) || h == last.0) by {
                if gp.push(last.0).contains(h) {
                    let k = choose|k: int| 0 <= k < gp.len() + 1 && gp.push(last.0)[k] == h;
                    if k < gp.len() {
                        assert(gp[k] == h);
                    }
                }
                if gp.contains(h) {
                    let k = choose|k: int| 0 <= k < gp.len() && gp[k] == h;
                    assert(gp.push(last.0)[k] == h);
                }
                if h == last.0 {
                    assert(gp.push(last.0)[gp.len() as int] == h);
                }
            }
            let gl = gp.push(last.0);
            assert forall|a: int, b: int| 0 <= a < gl.len() && 0 <= b < gl.len() && a != b
                implies gl[a] != gl[b] by {
                if a == gp.len() as int {
                    assert(gp.contains(gl[b]));
                } else if b == gp.len() as int {
                    assert(gp.contains(gl[a]));
                }
            }
        } else {
            assert(grantors(rows, e) == gp);
        }
    }
}

} // verus!
