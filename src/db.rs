use vstd::prelude::*;

use std::collections::HashSet;

use crate::raw_photo::Photo;

verus! {

broadcast use vstd::std_specs::hash::group_hash_axioms;

/// Why a record was not added to a ledger.
#[derive(PartialEq, Eq, Structural, Clone, Copy, Debug)]
pub enum LedgerError {
    /// Its fingerprint is there already.
    Duplicate,
    /// The store could not be written.
    Io,
}

/// Some record of `s` has the fingerprint `hash`.
pub open spec fn holds(s: Seq<Photo>, hash: u128) -> bool {
    exists|i: int| 0 <= i < s.len() && s[i].hash == hash
}

/// No two records of `s` share a fingerprint.
pub open spec fn unique_hashes(s: Seq<Photo>) -> bool {
    forall|i: int, j: int| 0 <= i < j < s.len() ==> s[i].hash != s[j].hash
}

/// The fingerprints of the records of `s`.
pub open spec fn fingerprints(s: Seq<Photo>) -> Set<u128> {
    Set::new(|h: u128| holds(s, h))
}

/// `s` after an attempt to add `p`: unchanged where its fingerprint is
/// there already, else with `p` at the end.
pub open spec fn inserted(s: Seq<Photo>, p: Photo) -> Seq<Photo> {
    if holds(s, p.hash) {
        s
    } else {
        s.push(p)
    }
}

/// `s` after attempts to add each of `ps` in turn.
pub open spec fn after_inserts(s: Seq<Photo>, ps: Seq<Photo>) -> Seq<Photo>
    decreases ps.len(),
{
    if ps.len() == 0 {
        s
    } else {
        inserted(after_inserts(s, ps.drop_last()), ps.last())
    }
}

pub(crate) proof fn lemma_holds_push(s: Seq<Photo>, p: Photo, h: u128)
    ensures
        holds(s.push(p), h) <==> (holds(s, h) || p.hash == h),
{
    if holds(s, h) {
        let i = choose|i: int| 0 <= i < s.len() && s[i].hash == h;
        assert(s.push(p)[i].hash == h);
    }
    if p.hash == h {
        assert(s.push(p)[s.len() as int].hash == h);
    }
    if holds(s.push(p), h) && p.hash != h {
        let i = choose|i: int| 0 <= i < s.push(p).len() && s.push(p)[i].hash == h;
        assert(s[i].hash == h);
    }
}

pub(crate) proof fn lemma_holds_concat(s: Seq<Photo>, u: Seq<Photo>, h: u128)
    ensures
        holds(s + u, h) <==> (holds(s, h) || holds(u, h)),
{
    if holds(s, h) {
        let i = choose|i: int| 0 <= i < s.len() && s[i].hash == h;
        assert((s + u)[i].hash == h);
    }
    if holds(u, h) {
        let i = choose|i: int| 0 <= i < u.len() && u[i].hash == h;
        assert((s + u)[s.len() + i].hash == h);
    }
    if holds(s + u, h) {
        let i = choose|i: int| 0 <= i < (s + u).len() && (s + u)[i].hash == h;
        if i < s.len() {
            assert(s[i].hash == h);
        } else {
            assert(u[i - s.len()].hash == h);
        }
    }
}

/// The records of one archive, at most one per fingerprint.
pub struct Ledger {
    records: Vec<Photo>,
    index: HashSet<u128>,
}

impl View for Ledger {
    type V = Seq<Photo>;

    closed spec fn view(&self) -> Seq<Photo> {
        self.records@
    }
}

impl Ledger {
    /// The ledger is consistent: no fingerprint twice, and the index holds
    /// exactly the fingerprints of the records.
    pub closed spec fn wf(&self) -> bool {
        &&& unique_hashes(self.records@)
        &&& forall|h: u128| self.index@.contains(h) <==> holds(self.records@, h)
    }

    /// An empty ledger.
    pub fn new() -> (r: Ledger)
        ensures
            r.wf(),
            r@ == Seq::<Photo>::empty(),
    {
        Ledger { records: Vec::new(), index: HashSet::new() }
    }

    /// A ledger of `rows` in order, where a row whose fingerprint came
    /// before is left out.
    pub fn from_rows(rows: &Vec<Photo>) -> (r: Ledger)
        ensures
            r.wf(),
            r@ == after_inserts(Seq::empty(), rows@),
    {
        let mut l = Ledger::new();
        let mut i: usize = 0;
        while i < rows.len()
            invariant
                i <= rows@.len(),
                l.wf(),
                l@ == after_inserts(Seq::empty(), rows@.subrange(0, i as int)),
            decreases rows@.len() - i,
        {
            assert(rows@.subrange(0, i + 1).drop_last() =~= rows@.subrange(0, i as int));
            let _ = insert_file_to_db(&rows[i], &mut l);
            i = i + 1;
        }
        assert(rows@.subrange(0, rows@.len() as int) =~= rows@);
        l
    }

    /// How many records the ledger holds.
    pub fn len(&self) -> (r: usize)
        ensures
            r == self@.len(),
    {
        self.records.len()
    }
}

/// A consistent ledger holds at most one record per fingerprint.
pub proof fn lemma_ledger_unique(l: &Ledger)
    requires
        l.wf(),
    ensures
        unique_hashes(l@),
{
}

/// Whether a photo with fingerprint `hash` is in the ledger.
pub fn is_imported(hash: u128, ledger: &Ledger) -> (r: bool)
    requires
        ledger.wf(),
    ensures
        r == holds(ledger@, hash),
{
    ledger.index.contains(&hash)
}

/// Adds `photo` to the ledger, unless its fingerprint is there already.
pub fn insert_file_to_db(photo: &Photo, ledger: &mut Ledger) -> (r: Result<(), LedgerError>)
    requires
        old(ledger).wf(),
    ensures
        final(ledger).wf(),
        final(ledger)@ == inserted(old(ledger)@, *photo),
        r == (if holds(old(ledger)@, photo.hash) {
            Err::<(), LedgerError>(LedgerError::Duplicate)
        } else {
            Ok::<(), LedgerError>(())
        }),
{
    if ledger.index.contains(&photo.hash) {
        return Err(LedgerError::Duplicate);
    }
    let ghost old_records = ledger.records@;
    ledger.records.push(photo.clone());
    ledger.index.insert(photo.hash);
    assert forall|h: u128| ledger.index@.contains(h) <==> holds(ledger.records@, h) by {
        if holds(ledger.records@, h) && h != photo.hash {
            let i = choose|i: int| 0 <= i < ledger.records@.len() && ledger.records@[i].hash == h;
            assert(old_records[i].hash == h);
        }
        if h == photo.hash {
            assert(ledger.records@[old_records.len() as int].hash == h);
        } else if ledger.index@.contains(h) {
            let i = choose|i: int| 0 <= i < old_records.len() && old_records[i].hash == h;
            assert(ledger.records@[i].hash == h);
        }
    }
    Ok(())
}

/// The records of the ledger, each fingerprint once.
pub fn get_photos(ledger: &Ledger) -> (r: &Vec<Photo>)
    requires
        ledger.wf(),
    ensures
        r@ == ledger@,
        unique_hashes(r@),
{
    &ledger.records
}

} // verus!
