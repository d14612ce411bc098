//! The catalogue an OMM document is read into, as the plain values the rest
//! of the globe names objects by.
//!
//! A record that will not parse, or whose elements the propagator refuses to
//! initialise from, is dropped and counted; the rest of the document is kept.
//! A catalogue is a bulk product and one bad row in twelve thousand is not a
//! reason to draw nothing. A document that yields nothing at all is refused.
use vstd::prelude::*;

use crate::text::{decimal, push_decimal, push_str};

verus! {

/// One object of a catalogue, as an interface names it.
pub struct CatalogueEntry {
    /// The catalogue number, which is the only identifier that is both stable
    /// and unique.
    pub norad_id: u64,
    pub name: String,
    /// Launch year, launch number and piece, as `1998-067A`.
    pub international_designator: Option<String>,
}

/// Every object one document held, in the order it held them.
pub struct Catalogue {
    pub satellites: Vec<CatalogueEntry>,
    /// Records that were read but could not be turned into a propagator.
    pub rejected: usize,
}

pub open spec fn entry_view(e: CatalogueEntry) -> (u64, Seq<char>, Option<Seq<char>>) {
    (
        e.norad_id,
        e.name@,
        match e.international_designator {
            Some(d) => Some(d@),
            None => None,
        },
    )
}

/// Where the first object with this number is, if there is one.
pub open spec fn first_index_of(ids: Seq<u64>, norad_id: u64) -> Option<int> {
    if exists|i: int| 0 <= i < ids.len() && ids[i] == norad_id {
        Some(
            choose|i: int|
                0 <= i < ids.len() && ids[i] == norad_id && forall|j: int|
                    0 <= j < i ==> ids[j] != norad_id,
        )
    } else {
        None
    }
}

pub proof fn lemma_first_index_of(ids: Seq<u64>, norad_id: u64, k: int)
    requires
        0 <= k < ids.len(),
        ids[k] == norad_id,
        forall|j: int| 0 <= j < k ==> ids[j] != norad_id,
    ensures
        first_index_of(ids, norad_id) == Some(k),
{
    let c = choose|i: int|
        0 <= i < ids.len() && ids[i] == norad_id && forall|j: int| 0 <= j < i ==> ids[j] != norad_id;
    assert(0 <= k < ids.len() && ids[k] == norad_id && forall|j: int|
        0 <= j < k ==> ids[j] != norad_id);
    if c < k {
        assert(ids[c] != norad_id);
    }
    if c > k {
        assert(ids[k] != norad_id);
    }
}

proof fn lemma_first_exists(ids: Seq<u64>, norad_id: u64, k: int)
    requires
        0 <= k < ids.len(),
        ids[k] == norad_id,
    ensures
        exists|i: int|
            0 <= i < ids.len() && ids[i] == norad_id && forall|j: int| 0 <= j < i ==> ids[j] != norad_id,
    decreases k,
{
    if exists|j: int| 0 <= j < k && ids[j] == norad_id {
        let j = choose|j: int| 0 <= j < k && ids[j] == norad_id;
        lemma_first_exists(ids, norad_id, j);
    } else {
        assert(0 <= k < ids.len() && ids[k] == norad_id && forall|j: int| 0 <= j < k ==> ids[j] != norad_id);
    }
}

/// The first object with a number is one, and no object before it has that
/// number.
pub proof fn lemma_first_index_of_found(ids: Seq<u64>, norad_id: u64)
    ensures
        first_index_of(ids, norad_id) matches Some(i) ==> {
            &&& 0 <= i < ids.len()
            &&& ids[i] == norad_id
            &&& forall|j: int| 0 <= j < i ==> ids[j] != norad_id
        },
{
    if exists|i: int| 0 <= i < ids.len() && ids[i] == norad_id {
        let k = choose|i: int| 0 <= i < ids.len() && ids[i] == norad_id;
        lemma_first_exists(ids, norad_id, k);
    }
}

impl Catalogue {
    /// The catalogue numbers, in document order.
    pub open spec fn ids(&self) -> Seq<u64> {
        self.satellites@.map_values(|e: CatalogueEntry| e.norad_id)
    }

    pub open spec fn entries(&self) -> Seq<(u64, Seq<char>, Option<Seq<char>>)> {
        self.satellites@.map_values(|e: CatalogueEntry| entry_view(e))
    }

    pub fn len(&self) -> (n: usize)
        ensures
            n == self.ids().len(),
    {
        self.satellites.len()
    }

    /// Where an object with this catalogue number is, if the document held one.
    pub fn index_of(&self, norad_id: u64) -> (index: Option<usize>)
        ensures
            match index {
                Some(i) => {
                    &&& first_index_of(self.ids(), norad_id) == Some(i as int)
                    &&& i < self.ids().len()
                    &&& self.ids()[i as int] == norad_id
                },
                None => first_index_of(self.ids(), norad_id) is None,
            },
    {
        let mut i: usize = 0;
        while i < self.satellites.len()
            invariant
                i <= self.satellites@.len(),
                forall|j: int| 0 <= j < i ==> self.ids()[j] != norad_id,
            decreases self.satellites@.len() - i,
        {
            if self.satellites[i].norad_id == norad_id {
                proof {
                    lemma_first_index_of(self.ids(), norad_id, i as int);
                }
                return Some(i);
            }
            i = i + 1;
        }
        None
    }
}

/// What an object is called: the name its record gave, or `NORAD` and its
/// catalogue number when it gave none.
pub fn display_name(name: Option<String>, norad_id: u64) -> (display: String)
    ensures
        display@ == match name {
            Some(n) => n@,
            None => "NORAD "@ + decimal(norad_id as nat),
        },
{
    match name {
        Some(name) => name,
        None => {
            let mut display = String::new();
            push_str(&mut display, "NORAD ");
            push_decimal(&mut display, norad_id);
            display
        },
    }
}

/// Why a document could not be read.
pub enum OmmError {
    /// Not JSON, or not JSON shaped like a catalogue.
    Malformed(String),
    /// A well-formed document holding nothing that could be propagated, which
    /// is what a query that matched nothing looks like.
    Empty,
}

impl OmmError {
    /// What the error says, as a person reads it.
    pub fn message(&self) -> (text: String)
        ensures
            match self {
                OmmError::Malformed(error) => text@ == "not valid OMM JSON: "@ + error@,
                OmmError::Empty => text@ == "no propagatable objects in the document"@,
            },
    {
        match self {
            OmmError::Malformed(error) => {
                let mut text = String::new();
                crate::text::push_str(&mut text, "not valid OMM JSON: ");
                crate::text::push_str(&mut text, error.as_str());
                text
            },
            OmmError::Empty => {
                let mut text = String::new();
                crate::text::push_str(&mut text, "no propagatable objects in the document");
                text
            },
        }
    }
}

/// The objects a document's records yield, in order, with the records that
/// yielded none counted.
pub open spec fn kept_entries(
    records: Seq<Option<CatalogueEntry>>,
) -> Seq<(u64, Seq<char>, Option<Seq<char>>)>
    decreases records.len(),
{
    if records.len() == 0 {
        Seq::empty()
    } else {
        let before = kept_entries(records.drop_last());
        match records.last() {
            Some(e) => before.push(entry_view(e)),
            None => before,
        }
    }
}

pub open spec fn rejected_count(records: Seq<Option<CatalogueEntry>>) -> nat
    decreases records.len(),
{
    if records.len() == 0 {
        0
    } else {
        rejected_count(records.drop_last()) + if records.last() is None {
            1nat
        } else {
            0nat
        }
    }
}

/// Builds a catalogue out of a document's records, each already turned into
/// an object or found wanting: refused as [`OmmError::Empty`] when none of them
/// yielded anything.
pub fn catalogue_from_records(records: Vec<Option<CatalogueEntry>>) -> (catalogue: Result<
    Catalogue,
    OmmError,
>)
    ensures
        match catalogue {
            Ok(c) => c.entries() == kept_entries(records@) && c.rejected == rejected_count(
                records@,
            ) && c.entries().len() > 0,
            Err(e) => e is Empty && kept_entries(records@).len() == 0,
        },
{
    let mut satellites: Vec<CatalogueEntry> = Vec::new();
    let mut rejected: usize = 0;
    let ghost all = records@;
    let total = records.len();
    let mut records = records;
    let mut k: usize = 0;
    while k < total
        invariant
            total == all.len(),
            k <= total,
            records@ == all.skip(k as int),
            rejected <= k,
            satellites@.map_values(|e: CatalogueEntry| entry_view(e)) == kept_entries(
                all.take(k as int),
            ),
            rejected == rejected_count(all.take(k as int)),
        decreases total - k,
    {
        let record = records.remove(0);
        proof {
            assert(all.take(k + 1).drop_last() =~= all.take(k as int));
            assert(all.take(k + 1).last() == record);
            assert(records@ =~= all.skip(k + 1));
        }
        let ghost before = satellites@;
        match record {
            Some(entry) => {
                satellites.push(entry);
                assert(satellites@.map_values(|e: CatalogueEntry| entry_view(e)) =~= before.map_values(
                    |e: CatalogueEntry| entry_view(e),
                ).push(entry_view(entry)));
            },
            None => {
                rejected = rejected + 1;
            },
        }
        k = k + 1;
    }
    assert(all.take(total as int) =~= all);
    if satellites.len() == 0 {
        return Err(OmmError::Empty);
    }
    Ok(Catalogue { satellites, rejected })
}

} // verus!
