//! Catalog loading: an XML release list is reduced to a plain event
//! stream by the `xml` crate, a verified scanner folds the events into
//! records, and `CatalogIndex` answers identifier queries over them.

use vstd::prelude::*;
use crate::common::spec_region_of;
use crate::common::region_from_name;
use crate::n3ds::{N3DSGameMetadata, MetaView, metas_view};

verus! {

/// One XML event, reduced to what the catalog scanner reads: element
/// names, character data, and whether the document broke off.
pub enum CatalogEvent {
    /// An element opened; the payload is its local name.
    ElementStart(String),
    /// An element closed; the payload is its local name.
    ElementEnd(String),
    /// Character data between tags.
    Text(String),
    /// Any other well-formed event.
    Other,
    /// The document could not be parsed past this point.
    Malformed,
}

/// The event stream that parsing a byte buffer as XML yields; a function
/// of the bytes alone.
pub uninterp spec fn xml_events_of(bytes: Seq<u8>) -> Seq<CatalogEvent>;

/// Relies on xml's `EventReader` over a byte slice: its iterator yields
/// the document's events in order and stops after the first error or the
/// end of the document, so the result is a function of the bytes alone.
/// Each event is reduced to the variant of it that the scanner reads.
#[verifier::external_body]
fn parse_xml_events(bytes: &[u8]) -> (r: Vec<CatalogEvent>)
    ensures
        r@ == xml_events_of(bytes@),
{
    xml::reader::EventReader::new(bytes)
        .into_iter()
        .map(|ev| match ev {
            Ok(xml::reader::XmlEvent::StartElement { name, .. }) => CatalogEvent::ElementStart(
                name.local_name,
            ),
            Ok(xml::reader::XmlEvent::EndElement { name }) => CatalogEvent::ElementEnd(
                name.local_name,
            ),
            Ok(xml::reader::XmlEvent::Characters(text)) => CatalogEvent::Text(text),
            Ok(_) => CatalogEvent::Other,
            Err(_) => CatalogEvent::Malformed,
        })
        .collect()
}

/// Why a catalog source was rejected; either way the load is fatal.
#[derive(PartialEq, Eq, Structural, Clone, Copy, Debug)]
pub enum CatalogError {
    /// The document is not well-formed XML, or a release carries more
    /// tracked fields than a record has.
    MalformedDocument,
    /// A release names a region outside the known set.
    UnknownRegion,
}

/// Scanner state between two events: the texts gathered for the record
/// being read, how many are gathered, whether the next character data
/// belongs to it, and the records finished so far.
#[verifier::ext_equal]
pub ghost struct ScanState {
    pub field0: Seq<char>,
    pub field1: Seq<char>,
    pub field2: Seq<char>,
    pub filled: int,
    pub pending: bool,
    pub records: Seq<MetaView>,
}

/// The scanner's state before any event: nothing gathered, no records.
pub open spec fn initial_scan_state() -> ScanState {
    ScanState {
        field0: Seq::empty(),
        field1: Seq::empty(),
        field2: Seq::empty(),
        filled: 0,
        pending: false,
        records: Seq::empty(),
    }
}

/// An element whose character data the scanner gathers, in the order the
/// catalog writes them: display name, region tag, title identifier.
pub open spec fn is_tracked_element(name: Seq<char>) -> bool {
    name == "name"@ || name == "region"@ || name == "titleid"@
}

/// One scanner step: a tracked element arms text gathering, character
/// data fills the next field, the end of a release turns the gathered
/// texts into a record, and a break in the document is fatal.
pub open spec fn scan_step(st: ScanState, ev: CatalogEvent) -> Result<ScanState, CatalogError> {
    match ev {
        CatalogEvent::ElementStart(name) => if is_tracked_element(name@) {
            Ok(
                ScanState {
                    field0: st.field0,
                    field1: st.field1,
                    field2: st.field2,
                    filled: st.filled,
                    pending: true,
                    records: st.records,
                },
            )
        } else {
            Ok(st)
        },
        CatalogEvent::ElementEnd(name) => if name@ == "release"@ {
            match spec_region_of(st.field1) {
                Some(region) => Ok(
                    ScanState {
                        field0: Seq::empty(),
                        field1: Seq::empty(),
                        field2: Seq::empty(),
                        filled: 0,
                        pending: false,
                        records: st.records.push(
                            MetaView { name: st.field0, region, title_id: st.field2 },
                        ),
                    },
                ),
                None => Err(CatalogError::UnknownRegion),
            }
        } else {
            Ok(st)
        },
        CatalogEvent::Text(text) => if st.pending {
            if st.filled == 0 {
                Ok(
                    ScanState {
                        field0: text@,
                        field1: st.field1,
                        field2: st.field2,
                        filled: 1,
                        pending: false,
                        records: st.records,
                    },
                )
            } else if st.filled == 1 {
                Ok(
                    ScanState {
                        field0: st.field0,
                        field1: text@,
                        field2: st.field2,
                        filled: 2,
                        pending: false,
                        records: st.records,
                    },
                )
            } else if st.filled == 2 {
                Ok(
                    ScanState {
                        field0: st.field0,
                        field1: st.field1,
                        field2: text@,
                        filled: 3,
                        pending: false,
                        records: st.records,
                    },
                )
            } else {
                Err(CatalogError::MalformedDocument)
            }
        } else {
            Ok(st)
        },
        CatalogEvent::Other => Ok(st),
        CatalogEvent::Malformed => Err(CatalogError::MalformedDocument),
    }
}

/// Folds the scanner over an event sequence from a given state: the
/// records gathered at the end, or the first fatal fault.
pub open spec fn scan_events(st: ScanState, events: Seq<CatalogEvent>) -> Result<
    Seq<MetaView>,
    CatalogError,
>
    decreases events.len(),
{
    if events.len() == 0 {
        Ok(st.records)
    } else {
        match scan_step(st, events.first()) {
            Ok(st2) => scan_events(st2, events.drop_first()),
            Err(e) => Err(e),
        }
    }
}

/// The records an event stream describes, from the scanner's initial
/// state.
pub open spec fn catalog_of_events(events: Seq<CatalogEvent>) -> Result<
    Seq<MetaView>,
    CatalogError,
> {
    scan_events(initial_scan_state(), events)
}

/// The scanner state a set of in-progress values stands for.
spec fn scan_state_of(
    field0: Seq<char>,
    field1: Seq<char>,
    field2: Seq<char>,
    filled: int,
    pending: bool,
    records: Seq<MetaView>,
) -> ScanState {
    ScanState { field0, field1, field2, filled, pending, records }
}

/// Folds the scanner over a gathered event stream: the records the stream
/// describes, or the first fault — an unknown region tag or a break in
/// the document.
pub fn build_catalog(events: &Vec<CatalogEvent>) -> (r: Result<Vec<N3DSGameMetadata>, CatalogError>)
    ensures
        match r {
            Ok(v) => catalog_of_events(events@) == Ok::<Seq<MetaView>, CatalogError>(
                metas_view(v@),
            ),
            Err(e) => catalog_of_events(events@) == Err::<Seq<MetaView>, CatalogError>(e),
        },
{
    let mut field0 = String::new();
    let mut field1 = String::new();
    let mut field2 = String::new();
    let mut filled: usize = 0;
    let mut pending = false;
    let mut records: Vec<N3DSGameMetadata> = Vec::new();
    let n = events.len();
    let mut i: usize = 0;
    proof {
        assert(metas_view(records@) =~= Seq::<MetaView>::empty());
        assert(scan_state_of(field0@, field1@, field2@, filled as int, pending, metas_view(
            records@,
        )) =~= initial_scan_state());
        assert(events@.skip(0) =~= events@);
    }
    while i < n
        invariant
            i <= n,
            n == events@.len(),
            filled <= 3,
            scan_events(
                scan_state_of(field0@, field1@, field2@, filled as int, pending, metas_view(
                    records@,
                )),
                events@.skip(i as int),
            ) == catalog_of_events(events@),
        decreases n - i,
    {
        let ghost prev = scan_state_of(
            field0@,
            field1@,
            field2@,
            filled as int,
            pending,
            metas_view(records@),
        );
        proof {
            assert(events@.skip(i as int).first() == events@[i as int]);
            assert(events@.skip(i as int).drop_first() =~= events@.skip(i + 1 as int));
        }
        let ev = &events[i];
        match ev {
            CatalogEvent::ElementStart(name) => {
                if *name == String::from_str("name") || *name == String::from_str("region")
                    || *name == String::from_str("titleid") {
                    pending = true;
                }
            },
            CatalogEvent::ElementEnd(name) => {
                if *name == String::from_str("release") {
                    match region_from_name(&field1) {
                        Some(region) => {
                            let done_name = field0;
                            let done_id = field2;
                            field0 = String::new();
                            field1 = String::new();
                            field2 = String::new();
                            filled = 0;
                            pending = false;
                            records.push(
                                N3DSGameMetadata { name: done_name, region, title_id: done_id },
                            );
                        },
                        None => {
                            return Err(CatalogError::UnknownRegion);
                        },
                    }
                }
            },
            CatalogEvent::Text(text) => {
                if pending {
                    if filled == 0 {
                        field0 = text.clone();
                        filled = 1;
                        pending = false;
                    } else if filled == 1 {
                        field1 = text.clone();
                        filled = 2;
                        pending = false;
                    } else if filled == 2 {
                        field2 = text.clone();
                        filled = 3;
                        pending = false;
                    } else {
                        return Err(CatalogError::MalformedDocument);
                    }
                }
            },
            CatalogEvent::Other => {},
            CatalogEvent::Malformed => {
                return Err(CatalogError::MalformedDocument);
            },
        }
        proof {
            let cur = scan_state_of(
                field0@,
                field1@,
                field2@,
                filled as int,
                pending,
                metas_view(records@),
            );
            assert(scan_step(prev, events@[i as int]) matches Ok(st2) && st2 =~= cur);
        }
        i = i + 1;
    }
    proof {
        assert(events@.skip(n as int) =~= Seq::<CatalogEvent>::empty());
    }
    Ok(records)
}

/// Parses a catalog document: the XML bytes become an event stream, and
/// the verified scanner folds the stream into records.
pub fn read_3ds_metadata_xml(bytes: &[u8]) -> (r: Result<Vec<N3DSGameMetadata>, CatalogError>)
    ensures
        match r {
            Ok(v) => catalog_of_events(xml_events_of(bytes@)) == Ok::<Seq<MetaView>, CatalogError>(
                metas_view(v@),
            ),
            Err(e) => catalog_of_events(xml_events_of(bytes@)) == Err::<
                Seq<MetaView>,
                CatalogError,
            >(e),
        },
{
    let events = parse_xml_events(bytes);
    build_catalog(&events)
}

/// All records of a catalog whose identifier equals the query, in catalog
/// order.
pub open spec fn matching_records(catalog: Seq<MetaView>, id: Seq<char>) -> Seq<MetaView> {
    catalog.filter(|m: MetaView| m.title_id == id)
}

/// The loaded catalog: the full record set, read-only once built, queried
/// by title identifier.
pub struct CatalogIndex {
    records: Vec<N3DSGameMetadata>,
}

impl View for CatalogIndex {
    type V = Seq<MetaView>;

    closed spec fn view(&self) -> Seq<MetaView> {
        metas_view(self.records@)
    }
}

impl CatalogIndex {
    /// Takes the full externally parsed record set as it stands; no
    /// transformation, no later mutation.
    pub fn new(records: Vec<N3DSGameMetadata>) -> (r: Self)
        ensures
            r@ == metas_view(records@),
    {
        CatalogIndex { records }
    }

    /// Every loaded record whose identifier equals the query, in load
    /// order.
    pub fn lookup(&self, identifier: &String) -> (r: Vec<N3DSGameMetadata>)
        ensures
            metas_view(r@) == matching_records(self@, identifier@),
    {
        let mut out: Vec<N3DSGameMetadata> = Vec::new();
        let n = self.records.len();
        let mut i: usize = 0;
        proof {
            reveal(Seq::filter);
            assert(self@.take(0) =~= Seq::<MetaView>::empty());
            assert(metas_view(out@) =~= matching_records(self@.take(0), identifier@));
        }
        while i < n
            invariant
                i <= n,
                n == self.records@.len(),
                metas_view(out@) == matching_records(self@.take(i as int), identifier@),
            decreases n - i,
        {
            let ghost old_out = out@;
            if self.records[i].title_id == *identifier {
                out.push(self.records[i].clone());
            }
            proof {
                reveal(Seq::filter);
                assert(self@.take(i + 1 as int).drop_last() =~= self@.take(i as int));
                assert(self@.take(i + 1 as int).last() == self@[i as int]);
                assert(self@[i as int] == self.records@[i as int]@);
                if self.records@[i as int]@.title_id == identifier@ {
                    assert(metas_view(out@) =~= metas_view(old_out).push(self@[i as int]));
                }
            }
            i = i + 1;
        }
        proof {
            assert(self@.take(n as int) =~= self@);
        }
        out
    }
}

/// A lookup returns exactly the catalog's records that carry the queried
/// identifier: every returned record carries it, and each record carrying
/// it is returned as many times as the catalog holds it, no more, no
/// fewer.
pub proof fn lemma_lookup_exact(catalog: Seq<MetaView>, id: Seq<char>)
    ensures
        forall|i: int|
            0 <= i < matching_records(catalog, id).len() ==> (#[trigger] matching_records(
                catalog,
                id,
            )[i]).title_id == id,
        forall|m: MetaView| #[trigger]
            matching_records(catalog, id).to_multiset().count(m) == (if m.title_id == id {
                catalog.to_multiset().count(m)
            } else {
                0
            }),
    decreases catalog.len(),
{
    broadcast use vstd::seq_lib::group_to_multiset_ensures;
    broadcast use vstd::multiset::group_multiset_axioms;

    reveal(Seq::filter);
    if catalog.len() == 0 {
        assert(matching_records(catalog, id) =~= catalog);
        assert(forall|m: MetaView| catalog.to_multiset().count(m) == 0);
    } else {
        let prefix = catalog.drop_last();
        let last = catalog.last();
        lemma_lookup_exact(prefix, id);
        assert(catalog =~= prefix.push(last));
        assert(catalog.to_multiset() == prefix.to_multiset().insert(last));
        if last.title_id == id {
            assert(matching_records(catalog, id) == matching_records(prefix, id).push(last));
            assert(matching_records(catalog, id).to_multiset() == matching_records(
                prefix,
                id,
            ).to_multiset().insert(last));
        } else {
            assert(matching_records(catalog, id) == matching_records(prefix, id));
        }
    }
}

} // verus!
