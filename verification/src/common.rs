//! Region and container-format enumerations shared by the decoder, the
//! catalog and the resolver.

use vstd::prelude::*;

verus! {

/// Region tag of one released variant of a title.
#[derive(PartialEq, Eq, Structural, Clone, Copy, Debug)]
pub enum Region {
    EUR,
    USA,
    JPN,
    TWN,
    ITA,
    SPA,
    FRA,
    GER,
    KOR,
    CHN,
    UKV,
    NLD,
    WLD,
    RUS,
}

/// Container format of a cartridge-image file, decided by the magic tag
/// found in its header.
#[derive(PartialEq, Eq, Structural, Clone, Copy, Debug)]
pub enum FileType {
    NCCH,
    NCSD,
}

/// The region named by a tag as the catalog writes it, or `None` for any
/// other string.
pub open spec fn spec_region_of(s: Seq<char>) -> Option<Region> {
    if s == "EUR"@ {
        Some(Region::EUR)
    } else if s == "USA"@ {
        Some(Region::USA)
    } else if s == "JPN"@ {
        Some(Region::JPN)
    } else if s == "TWN"@ {
        Some(Region::TWN)
    } else if s == "ITA"@ {
        Some(Region::ITA)
    } else if s == "SPA"@ {
        Some(Region::SPA)
    } else if s == "FRA"@ {
        Some(Region::FRA)
    } else if s == "GER"@ {
        Some(Region::GER)
    } else if s == "KOR"@ {
        Some(Region::KOR)
    } else if s == "CHN"@ {
        Some(Region::CHN)
    } else if s == "UKV"@ {
        Some(Region::UKV)
    } else if s == "NLD"@ {
        Some(Region::NLD)
    } else if s == "WLD"@ {
        Some(Region::WLD)
    } else if s == "RUS"@ {
        Some(Region::RUS)
    } else {
        None
    }
}

/// Parses a region tag; unknown tags yield `None` instead of aborting.
pub fn region_from_name(name: &String) -> (r: Option<Region>)
    ensures
        r == spec_region_of(name@),
{
    if *name == String::from_str("EUR") {
        Some(Region::EUR)
    } else if *name == String::from_str("USA") {
        Some(Region::USA)
    } else if *name == String::from_str("JPN") {
        Some(Region::JPN)
    } else if *name == String::from_str("TWN") {
        Some(Region::TWN)
    } else if *name == String::from_str("ITA") {
        Some(Region::ITA)
    } else if *name == String::from_str("SPA") {
        Some(Region::SPA)
    } else if *name == String::from_str("FRA") {
        Some(Region::FRA)
    } else if *name == String::from_str("GER") {
        Some(Region::GER)
    } else if *name == String::from_str("KOR") {
        Some(Region::KOR)
    } else if *name == String::from_str("CHN") {
        Some(Region::CHN)
    } else if *name == String::from_str("UKV") {
        Some(Region::UKV)
    } else if *name == String::from_str("NLD") {
        Some(Region::NLD)
    } else if *name == String::from_str("WLD") {
        Some(Region::WLD)
    } else if *name == String::from_str("RUS") {
        Some(Region::RUS)
    } else {
        None
    }
}

/// The standard region-preference order: earlier regions win over later
/// ones when several variants share a title identifier.
pub open spec fn spec_default_region_priority() -> Seq<Region> {
    seq![
        Region::EUR,
        Region::USA,
        Region::JPN,
        Region::TWN,
        Region::ITA,
        Region::SPA,
        Region::FRA,
        Region::GER,
        Region::KOR,
        Region::CHN,
        Region::UKV,
        Region::NLD,
        Region::WLD,
        Region::RUS,
    ]
}

/// Builds the standard region-preference order as a vector, so that a
/// caller may pass it to the resolver or substitute an order of its own.
pub fn default_region_priority() -> (r: Vec<Region>)
    ensures
        r@ == spec_default_region_priority(),
{
    let mut v: Vec<Region> = Vec::new();
    v.push(Region::EUR);
    v.push(Region::USA);
    v.push(Region::JPN);
    v.push(Region::TWN);
    v.push(Region::ITA);
    v.push(Region::SPA);
    v.push(Region::FRA);
    v.push(Region::GER);
    v.push(Region::KOR);
    v.push(Region::CHN);
    v.push(Region::UKV);
    v.push(Region::NLD);
    v.push(Region::WLD);
    v.push(Region::RUS);
    proof {
        assert(v@ =~= spec_default_region_priority());
    }
    v
}

} // verus!
