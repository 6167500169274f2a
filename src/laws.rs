use vstd::prelude::*;

use crate::model::{
    cleared, granted, grantees_of, grantors, lemma_cleared, lemma_granted, lemma_grantors,
    lemma_revoked, lemma_without, permitted, revoked, well_formed, without, RowView,
};

verus! {

/// Granting twice is granting once: the second grant changes nothing, and a
/// party granted twice by a grantor with no other grantees is its only grantee.
pub proof fn law_grant_idempotent(rows: Seq<RowView>, g: Seq<u8>, e: Seq<u8>)
    requires
        well_formed(rows),
    ensures
        granted(granted(rows, g, e), g, e) == granted(rows, g, e),
        g != e && grantees_of(rows, g) == Seq::<Seq<u8>>::empty() ==> grantees_of(
            granted(granted(rows, g, e), g, e),
            g,
        ) == seq![e],
{
    lemma_granted(rows, g, e);
    let r = granted(rows, g, e);
    if g != e {
        if grantees_of(rows, g).contains(e) {
        } else {
            let s = grantees_of(rows, g);
            assert(s.push(e)[s.len() as int] == e);
        }
        assert(permitted(r, g, e));
        if grantees_of(rows, g) == Seq::<Seq<u8>>::empty() {
            assert(Seq::<Seq<u8>>::empty().push(e) =~= seq![e]);
        }
    }
}

/// No party lets itself send, and granting to oneself changes nothing.
pub proof fn law_no_self_permission(rows: Seq<RowView>, a: Seq<u8>)
    ensures
        !permitted(rows, a, a),
        granted(rows, a, a) == rows,
{
}

/// After `g` grants to `e`, `g` lets `e` send; whether `e` lets `g` send is as it was.
pub proof fn law_grant_then_check(rows: Seq<RowView>, g: Seq<u8>, e: Seq<u8>)
    requires
        well_formed(rows),
        g != e,
    ensures
        permitted(granted(rows, g, e), g, e),
        permitted(granted(rows, g, e), e, g) == permitted(rows, e, g),
{
    lemma_granted(rows, g, e);
    let s = grantees_of(rows, g);
    if !s.contains(e) {
        assert(s.push(e)[s.len() as int] == e);
    }
}

/// Revoking takes out exactly the one grantee: the rest of the row stays in
/// order, and every other grantor's grantees stay as they were.
pub proof fn law_revoke_removes_one(rows: Seq<RowView>, g: Seq<u8>, e: Seq<u8>)
    requires
        well_formed(rows),
        permitted(rows, g, e),
    ensures
        !permitted(revoked(rows, g, e), g, e),
        grantees_of(revoked(rows, g, e), g) == without(grantees_of(rows, g), e),
        forall|x: Seq<u8>| x != e ==> #[trigger] permitted(revoked(rows, g, e), g, x) == permitted(rows, g, x),
        forall|h: Seq<u8>| h != g ==> #[trigger] grantees_of(revoked(rows, g, e), h) == grantees_of(rows, h),
{
    lemma_revoked(rows, g, e);
    lemma_without(grantees_of(rows, g), e);
}

/// A grantor with no other grantees that grants to `b`, then to `c`, then revokes
/// `b` is left with `c` alone.
pub proof fn law_revoke_after_two_grants(rows: Seq<RowView>, g: Seq<u8>, b: Seq<u8>, c: Seq<u8>)
    requires
        well_formed(rows),
        grantees_of(rows, g) == Seq::<Seq<u8>>::empty(),
        g != b,
        g != c,
        b != c,
    ensures
        grantees_of(revoked(granted(granted(rows, g, b), g, c), g, b), g) == seq![c],
{
    let r1 = granted(rows, g, b);
    lemma_granted(rows, g, b);
    assert(Seq::<Seq<u8>>::empty().push(b) =~= seq![b]);
    let r2 = granted(r1, g, c);
    lemma_granted(r1, g, c);
    assert(!seq![b].contains(c)) by {
        if seq![b].contains(c) {
            let k = choose|k: int| 0 <= k < 1 && seq![b][k] == c;
        }
    }
    assert(seq![b].push(c) =~= seq![b, c]);
    assert(seq![b, c][0] == b);
    lemma_revoked(r2, g, b);
    let s = seq![b, c];
    assert(s.drop_last() =~= seq![b]);
    assert(seq![b].drop_last() =~= Seq::<Seq<u8>>::empty());
    assert(without(Seq::<Seq<u8>>::empty(), b) == Seq::<Seq<u8>>::empty());
    assert(without(seq![b], b) == Seq::<Seq<u8>>::empty());
    assert(Seq::<Seq<u8>>::empty().push(c) =~= seq![c]);
}

/// Revoking a permission that was never given changes nothing.
pub proof fn law_revoke_absent(rows: Seq<RowView>, g: Seq<u8>, e: Seq<u8>)
    requires
        !permitted(rows, g, e),
    ensures
        revoked(rows, g, e) == rows,
{
}

/// The grantors of `e` are the parties that let `e` send, each once; where no
/// party does, there are none.
pub proof fn law_grantors_exact(rows: Seq<RowView>, e: Seq<u8>)
    requires
        well_formed(rows),
    ensures
        forall|h: Seq<u8>| #[trigger] grantors(rows, e).contains(h) <==> permitted(rows, h, e),
        grantors(rows, e).no_duplicates(),
        (forall|h: Seq<u8>| !#[trigger] permitted(rows, h, e)) ==> grantors(rows, e) == Seq::<
            Seq<u8>,
        >::empty(),
{
    lemma_grantors(rows, e);
    if forall|h: Seq<u8>| !#[trigger] permitted(rows, h, e) {
        let gs = grantors(rows, e);
        if gs.len() > 0 {
            assert(gs.contains(gs[0]));
        }
        assert(gs =~= Seq::<Seq<u8>>::empty());
    }
}

/// After `a` and `b` both grant to `c`, the grantors of `c` are `a`, `b` and those
/// that let `c` send before, each once.
pub proof fn law_grantors_after_grants(rows: Seq<RowView>, a: Seq<u8>, b: Seq<u8>, c: Seq<u8>)
    requires
        well_formed(rows),
        a != c,
        b != c,
    ensures
        forall|h: Seq<u8>| #[trigger] grantors(granted(granted(rows, a, c), b, c), c).contains(h) <==> (h
            == a || h == b || permitted(rows, h, c)),
        grantors(granted(granted(rows, a, c), b, c), c).no_duplicates(),
{
    let r1 = granted(rows, a, c);
    law_grant_then_check(rows, a, c);
    lemma_granted(rows, a, c);
    let r2 = granted(r1, b, c);
    law_grant_then_check(r1, b, c);
    lemma_granted(r1, b, c);
    lemma_grantors(r2, c);
    assert forall|h: Seq<u8>| #[trigger] permitted(r2, h, c) <==> (h == a || h == b || permitted(rows, h, c)) by {
        if h != a && h != b {
            assert(grantees_of(r2, h) == grantees_of(r1, h));
            assert(grantees_of(r1, h) == grantees_of(rows, h));
        } else if h == a && h != b {
            assert(grantees_of(r2, h) == grantees_of(r1, h));
        }
    }
}

/// Clearing leaves the grantor with no grantees and no permission to give, keeps
/// every other grantor's grantees, and clearing again changes nothing.
pub proof fn law_clear(rows: Seq<RowView>, g: Seq<u8>)
    requires
        well_formed(rows),
    ensures
        grantees_of(cleared(rows, g), g) == Seq::<Seq<u8>>::empty(),
        forall|x: Seq<u8>| !#[trigger] permitted(cleared(rows, g), g, x),
        forall|h: Seq<u8>| h != g ==> #[trigger] grantees_of(cleared(rows, g), h) == grantees_of(rows, h),
        cleared(cleared(rows, g), g) == cleared(rows, g),
{
    lemma_cleared(rows, g);
}

} // verus!
