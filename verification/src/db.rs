//! The chip database.
use vstd::prelude::*;

verus! {

/// Supply voltage a chip is made for.
#[derive(Debug, Clone, Copy, PartialEq, Eq, Structural)]
pub enum ChipVoltage {
    V1_8,
    V3_3,
}

/// One database entry.
#[derive(Debug)]
pub struct SpiNorDef {
    pub name: String,
    pub mfr: u8,
    pub id1: u8,
    pub id2: u8,
    pub size_bytes: u32,
    pub page_size: u32,
    pub erase_size: u32,
    pub addr_bytes: u8,
    pub voltage: ChipVoltage,
    pub quad: bool,
}

impl SpiNorDef {
    /// Whether the entry answers to this three-byte identifier.
    pub open spec fn has_id(self, mfr: u8, id1: u8, id2: u8) -> bool {
        self.mfr == mfr && self.id1 == id1 && self.id2 == id2
    }
}

/// The entries from `i` on that answer to an identifier, in database order.
pub open spec fn matching_from(
    db: Seq<SpiNorDef>,
    mfr: u8,
    id1: u8,
    id2: u8,
    i: int,
) -> Seq<SpiNorDef>
    decreases db.len() - i,
{
    if i < 0 || i >= db.len() {
        Seq::empty()
    } else if db[i].has_id(mfr, id1, id2) {
        seq![db[i]] + matching_from(db, mfr, id1, id2, i + 1)
    } else {
        matching_from(db, mfr, id1, id2, i + 1)
    }
}

/// The entries that references point at.
pub open spec fn entries(refs: Seq<&SpiNorDef>) -> Seq<SpiNorDef> {
    Seq::new(refs.len(), |i: int| *refs[i])
}

/// All entries that answer to an identifier, in database order.  An identifier may be
/// shared by several parts.
pub fn lookup(db: &[SpiNorDef], mfr: u8, id1: u8, id2: u8) -> (r: Vec<&SpiNorDef>)
    ensures
        entries(r@) == matching_from(db@, mfr, id1, id2, 0),
{
    let mut found: Vec<&SpiNorDef> = Vec::new();
    let mut i: usize = 0;
    while i < db.len()
        invariant
            i <= db.len(),
            entries(found@) + matching_from(db@, mfr, id1, id2, i as int) =~= matching_from(
                db@,
                mfr,
                id1,
                id2,
                0,
            ),
        decreases db.len() - i,
    {
        if db[i].mfr == mfr && db[i].id1 == id1 && db[i].id2 == id2 {
            let ghost before = entries(found@);
            found.push(&db[i]);
            assert(entries(found@) =~= before.push(db@[i as int]));
        }
        i += 1;
    }
    found
}

/// A lookup finds all entries with the three identifier bytes, no others, and in the order of the
/// database.
pub proof fn law_lookup_finds_all_and_only_the_matches(
    db: Seq<SpiNorDef>,
    mfr: u8,
    id1: u8,
    id2: u8,
)
    ensures
        matching_from(db, mfr, id1, id2, 0) == db.filter(
            |e: SpiNorDef| e.mfr == mfr && e.id1 == id1 && e.id2 == id2,
        ),
{
    lemma_matching_filter(db, mfr, id1, id2, 0);
    assert(db.skip(0) =~= db);
}

proof fn lemma_matching_filter(db: Seq<SpiNorDef>, mfr: u8, id1: u8, id2: u8, i: int)
    requires
        0 <= i <= db.len(),
    ensures
        matching_from(db, mfr, id1, id2, i) == db.skip(i).filter(
            |e: SpiNorDef| e.mfr == mfr && e.id1 == id1 && e.id2 == id2,
        ),
    decreases db.len() - i,
{
    let p = |e: SpiNorDef| e.mfr == mfr && e.id1 == id1 && e.id2 == id2;
    if i < db.len() {
        let one = seq![db[i]];
        lemma_matching_filter(db, mfr, id1, id2, i + 1);
        assert(db.skip(i) =~= one + db.skip(i + 1));
        Seq::filter_distributes_over_add(one, db.skip(i + 1), p);
        reveal(Seq::filter);
        assert(one.drop_last() =~= Seq::<SpiNorDef>::empty());
        assert(one.drop_last().filter(p) =~= Seq::<SpiNorDef>::empty());
        assert(one.filter(p) =~= if p(db[i]) {
            one
        } else {
            Seq::empty()
        });
    } else {
        reveal(Seq::filter);
    }
}

} // verus!
