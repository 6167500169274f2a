use vstd::prelude::*;

use crate::error::FileTransferError;
use crate::identity::{copy_all, parties, Identity};
use crate::model::{
    cleared, granted, grantees_of, grantors, has_row, lemma_cleared, lemma_granted, lemma_revoked,
    permitted, revoked, row_of, well_formed, without, RowView,
};

verus! {

/// A change of the registry, for the platform's event log.
#[derive(Debug)]
pub struct PermissionEvent {
    pub grantor: Identity,
    pub grantee: Identity,
}

impl View for PermissionEvent {
    type V = (Seq<u8>, Seq<u8>);

    open spec fn view(&self) -> (Seq<u8>, Seq<u8>) {
        (self.grantor@, self.grantee@)
    }
}

struct Row {
    grantor: Identity,
    grantees: Vec<Identity>,
}

impl View for Row {
    type V = RowView;

    closed spec fn view(&self) -> RowView {
        (self.grantor@, parties(self.grantees@))
    }
}

/// The permission registry: for each grantor, the parties it lets send to it.
pub struct FileTransfer {
    rows: Vec<Row>,
}

impl View for FileTransfer {
    type V = Seq<RowView>;

    closed spec fn view(&self) -> Seq<RowView> {
        self.rows@.map_values(|r: Row| r@)
    }
}

/// Whether `e` is among `v`.
fn holds(v: &Vec<Identity>, e: &Identity) -> (r: bool)
    ensures
        r == parties(v@).contains(e@),
{
    let mut i: usize = 0;
    while i < v.len()
        invariant
            i <= v@.len(),
            forall|k: int| 0 <= k < i ==> (#[trigger] v@[k])@ != e@,
        decreases v@.len() - i,
    {
        if v[i].same(e) {
            proof {
                assert(parties(v@)[i as int] == e@);
            }
            return true;
        }
        i = i + 1;
    }
    proof {
        if parties(v@).contains(e@) {
            let k = choose|k: int| 0 <= k < parties(v@).len() && parties(v@)[k] == e@;
            assert(v@[k]@ == e@);
        }
    }
    false
}

impl FileTransfer {
    /// The registry's invariant, over its rows.
    pub open spec fn wf(&self) -> bool {
        well_formed(self@)
    }

    /// An empty registry.
    pub fn new() -> (r: FileTransfer)
        ensures
            r.wf(),
            r@ == Seq::<RowView>::empty(),
    {
        let r = FileTransfer { rows: Vec::new() };
        proof {
            assert(r@ =~= Seq::<RowView>::empty());
        }
        r
    }

    /// The position of `g`'s row, if it has one.
    fn find_row(&self, g: &Identity) -> (r: Option<usize>)
        requires
            self.wf(),
        ensures
            match r {
                Some(i) => has_row(self@, g@) && i == row_of(self@, g@) && i < self@.len()
                    && self@[i as int].0 == g@,
                None => !has_row(self@, g@),
            },
    {
        let mut i: usize = 0;
        while i < self.rows.len()
            invariant
                self.wf(),
                i <= self.rows@.len(),
                self@.len() == self.rows@.len(),
                forall|k: int| 0 <= k < i ==> (#[trigger] self@[k]).0 != g@,
            decreases self.rows@.len() - i,
        {
            if self.rows[i].grantor.same(g) {
                proof {
                    assert(self@[i as int].0 == g@);
                    assert(has_row(self@, g@));
                    let k = row_of(self@, g@);
                    assert(self@[k].0 == g@);
                    assert(well_formed(self@));
                    if k != i as int {
                        assert(self@[k].0 != self@[i as int].0);
                    }
                }
                return Some(i);
            }
            i = i + 1;
        }
        None
    }

    /// Whether `grantor` lets `grantee` send.
    pub fn has_permission(&self, grantor: &Identity, grantee: &Identity) -> (r: bool)
        requires
            self.wf(),
        ensures
            r == permitted(self@, grantor@, grantee@),
    {
        if grantor.same(grantee) {
            return false;
        }
        match self.find_row(grantor) {
            Some(i) => holds(&self.rows[i].grantees, grantee),
            None => false,
        }
    }

    /// The grantees of `grantor`, in the order they were granted.
    pub fn get_all_grantees(&self, grantor: &Identity) -> (r: Vec<Identity>)
        requires
            self.wf(),
        ensures
            parties(r@) == grantees_of(self@, grantor@),
    {
        match self.find_row(grantor) {
            Some(i) => copy_all(&self.rows[i].grantees),
            None => {
                let r: Vec<Identity> = Vec::new();
                proof {
                    assert(parties(r@) =~= Seq::<Seq<u8>>::empty());
                }
                r
            },
        }
    }
    /// `grantor` lets `grantee` send. Granting again changes nothing; a party
    /// cannot grant to itself. The event is returned where the registry changed.
    pub fn grant_permission(&mut self, grantor: Identity, grantee: Identity) -> (r: Result<
        Option<PermissionEvent>,
        FileTransferError,
    >)
        requires
            old(self).wf(),
        ensures
            final(self).wf(),
            final(self)@ == granted(old(self)@, grantor@, grantee@),
            grantor@ == grantee@ || permitted(old(self)@, grantor@, grantee@) ==> final(self)@ == old(
                self,
            )@,
            grantor@ == grantee@ ==> r == Err::<Option<PermissionEvent>, FileTransferError>(
                FileTransferError::InvalidAddress,
            ),
            grantor@ != grantee@ && permitted(old(self)@, grantor@, grantee@) ==> r == Ok::<
                Option<PermissionEvent>,
                FileTransferError,
            >(None),
            grantor@ != grantee@ && !permitted(old(self)@, grantor@, grantee@) ==> (r matches Ok(
                Some(ev),
            ) && ev@ == (grantor@, grantee@)),
    {
        if grantor.same(&grantee) {
            return Err(FileTransferError::InvalidAddress);
        }
        let ghost rows0 = self@;
        match self.find_row(&grantor) {
            Some(i) => {
                if holds(&self.rows[i].grantees, &grantee) {
                    return Ok(None);
                }
                let x = grantee.copy();
                self.rows[i].grantees.push(x);
                proof {
                    assert(parties(self.rows@[i as int].grantees@) =~= rows0[i as int].1.push(
                        grantee@,
                    ));
                    assert(self@ =~= rows0.update(i as int, (grantor@, rows0[i as int].1.push(grantee@))));
                    lemma_granted(rows0, grantor@, grantee@);
                }
            },
            None => {
                let mut grantees: Vec<Identity> = Vec::new();
                grantees.push(grantee.copy());
                let row = Row { grantor: grantor.copy(), grantees };
                proof {
                    assert(parties(row.grantees@) =~= seq![grantee@]);
                }
                self.rows.push(row);
                proof {
                    assert(self@ =~= rows0.push((grantor@, seq![grantee@])));
                    lemma_granted(rows0, grantor@, grantee@);
                }
            },
        }
        Ok(Some(PermissionEvent { grantor, grantee }))
    }

    /// `grantor` no longer lets `grantee` send. The other grantees of the row keep
    /// their order; the event is returned.
    pub fn delete_permission(&mut self, grantor: Identity, grantee: Identity) -> (r: Result<
        PermissionEvent,
        FileTransferError,
    >)
        requires
            old(self).wf(),
        ensures
            final(self).wf(),
            final(self)@ == revoked(old(self)@, grantor@, grantee@),
            !permitted(old(self)@, grantor@, grantee@) ==> final(self)@ == old(self)@,
            grantor@ == grantee@ ==> r == Err::<PermissionEvent, FileTransferError>(
                FileTransferError::InvalidAddress,
            ),
            grantor@ != grantee@ && !permitted(old(self)@, grantor@, grantee@) ==> r == Err::<
                PermissionEvent,
                FileTransferError,
            >(FileTransferError::PermissionNotFound),
            permitted(old(self)@, grantor@, grantee@) ==> (r matches Ok(ev) && ev@ == (
                grantor@,
                grantee@,
            )),
    {
        if grantor.same(&grantee) {
            return Err(FileTransferError::InvalidAddress);
        }
        let ghost rows0 = self@;
        let i = match self.find_row(&grantor) {
            Some(i) => i,
            None => {
                return Err(FileTransferError::PermissionNotFound);
            },
        };
        let ghost s = rows0[i as int].1;
        let mut kept: Vec<Identity> = Vec::new();
        let mut found = false;
        let mut j: usize = 0;
        while j < self.rows[i].grantees.len()
            invariant
                self@ == rows0,
                i < self.rows@.len(),
                s == parties(self.rows@[i as int].grantees@),
                j <= s.len(),
                parties(kept@) == without(s.subrange(0, j as int), grantee@),
                found == s.subrange(0, j as int).contains(grantee@),
            decreases s.len() - j,
        {
            let ghost p = s.subrange(0, j as int);
            let ghost q = s.subrange(0, j as int + 1);
            proof {
                assert(q.drop_last() =~= p);
                assert(q.last() == self.rows@[i as int].grantees@[j as int]@);
                assert forall|x: Seq<u8>| q.contains(x) <==> (p.contains(x) || x == q.last()) by {
                    if q.contains(x) {
                        let k = choose|k: int| 0 <= k < q.len() && q[k] == x;
                        if k < p.len() {
                            assert(p[k] == x);
                        }
                    }
                    if p.contains(x) {
                        let k = choose|k: int| 0 <= k < p.len() && p[k] == x;
                        assert(q[k] == x);
                    }
                    if x == q.last() {
                        assert(q[q.len() - 1] == x);
                    }
                }
            }
            if self.rows[i].grantees[j].same(&grantee) {
                found = true;
            } else {
                let x = self.rows[i].grantees[j].copy();
                kept.push(x);
                proof {
                    assert(parties(kept@) =~= without(p, grantee@).push(q.last()));
                }
            }
            j = j + 1;
        }
        proof {
            assert(s.subrange(0, s.len() as int) =~= s);
        }
        if !found {
            return Err(FileTransferError::PermissionNotFound);
        }
        self.rows[i].grantees = kept;
        proof {
            let rows = self@;
            assert(rows =~= rows0.update(i as int, (grantor@, without(s, grantee@))));
            lemma_revoked(rows0, grantor@, grantee@);
        }
        Ok(PermissionEvent { grantor, grantee })
    }

    /// The grantors that let `grantee` send, in the order of their rows.
    pub fn get_all_grantors(&self, grantee: &Identity) -> (r: Vec<Identity>)
        requires
            self.wf(),
        ensures
            parties(r@) == grantors(self@, grantee@),
    {
        let mut r: Vec<Identity> = Vec::new();
        let mut i: usize = 0;
        while i < self.rows.len()
            invariant
                i <= self.rows@.len(),
                self@.len() == self.rows@.len(),
                parties(r@) == grantors(self@.subrange(0, i as int), grantee@),
            decreases self.rows@.len() - i,
        {
            let ghost p = self@.subrange(0, i as int);
            let ghost q = self@.subrange(0, i as int + 1);
            proof {
                assert(q.drop_last() =~= p);
                assert(q.last() == self@[i as int]);
            }
            if holds(&self.rows[i].grantees, grantee) {
                let x = self.rows[i].grantor.copy();
                r.push(x);
                proof {
                    assert(parties(r@) =~= grantors(p, grantee@).push(q.last().0));
                }
            }
            i = i + 1;
        }
        proof {
            assert(self@.subrange(0, self@.len() as int) =~= self@);
        }
        r
    }

    /// Removes `grantor`'s row, if it has one.
    pub fn clear_all_permissions(&mut self, grantor: &Identity)
        requires
            old(self).wf(),
        ensures
            final(self).wf(),
            final(self)@ == cleared(old(self)@, grantor@),
    {
        let ghost rows0 = self@;
        if let Some(i) = self.find_row(grantor) {
            self.rows.remove(i);
            proof {
                let rows = self@;
                assert(rows =~= rows0.remove(i as int));
                lemma_cleared(rows0, grantor@);
            }
        }
    }
}

} // verus!
