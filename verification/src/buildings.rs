//! The data model that the generated artifacts compile into: the closed
//! enumeration of building tags, the identity and indoor location of one
//! beacon, and the fixed namespace identifier stamped into every descriptor.

use vstd::prelude::*;

verus! {

/// The fixed namespace identifier used for every descriptor's uuid field.
pub const ETH_UUID: &'static str = "58793564-459c-548d-bfcc-367ffd4fcd70";

/// A closed enumeration of physical buildings, one variant per tag.
#[derive(Clone, Debug)]
pub enum Building {
    AGS,
    BEA,
    BSS,
    CAB,
    CHN,
    CLA,
    CLD,
    CLP,
    CLT,
    CNB,
    DFA,
    DFB,
    ETA,
    ETF,
    ETL,
    ETZ,
    FRB,
    FRN,
    GLC,
    HCI,
    HCP,
    HDB,
    HEK,
    HEZ,
    HG,
    HGP,
    HIA,
    HIB,
    HIF,
    HIG,
    HIL,
    HIT,
    HPF,
    HPG,
    HPH,
    HPI,
    HPK,
    HPL,
    HPM,
    HPP,
    HPR,
    HPS,
    HPT,
    HPV,
    HPZ,
    HRG,
    HXE,
    HZA,
    IFW,
    LCA,
    LEE,
    LEO,
    LFH,
    LFO,
    LFV,
    LFW,
    ML,
    MLY,
    MM,
    NO,
    NW,
    OAT,
    OCT,
    ONA,
    PFA,
    RZ,
    RZY,
    SLA,
    SON,
    STB,
    STC,
    STW,
    TAN,
    UNO,
    WEH,
    WES,
    WET,
    WEV,
    WPW,
    WWA,
    ZUE,
}

impl Building {
    /// The tag text of the variant.
    pub open spec fn code_spec(self) -> Seq<char> {
        match self {
            Building::AGS => "AGS"@,
            Building::BEA => "BEA"@,
            Building::BSS => "BSS"@,
            Building::CAB => "CAB"@,
            Building::CHN => "CHN"@,
            Building::CLA => "CLA"@,
            Building::CLD => "CLD"@,
            Building::CLP => "CLP"@,
            Building::CLT => "CLT"@,
            Building::CNB => "CNB"@,
            Building::DFA => "DFA"@,
            Building::DFB => "DFB"@,
            Building::ETA => "ETA"@,
            Building::ETF => "ETF"@,
            Building::ETL => "ETL"@,
            Building::ETZ => "ETZ"@,
            Building::FRB => "FRB"@,
            Building::FRN => "FRN"@,
            Building::GLC => "GLC"@,
            Building::HCI => "HCI"@,
            Building::HCP => "HCP"@,
            Building::HDB => "HDB"@,
            Building::HEK => "HEK"@,
            Building::HEZ => "HEZ"@,
            Building::HG => "HG"@,
            Building::HGP => "HGP"@,
            Building::HIA => "HIA"@,
            Building::HIB => "HIB"@,
            Building::HIF => "HIF"@,
            Building::HIG => "HIG"@,
            Building::HIL => "HIL"@,
            Building::HIT => "HIT"@,
            Building::HPF => "HPF"@,
            Building::HPG => "HPG"@,
            Building::HPH => "HPH"@,
            Building::HPI => "HPI"@,
            Building::HPK => "HPK"@,
            Building::HPL => "HPL"@,
            Building::HPM => "HPM"@,
            Building::HPP => "HPP"@,
            Building::HPR => "HPR"@,
            Building::HPS => "HPS"@,
            Building::HPT => "HPT"@,
            Building::HPV => "HPV"@,
            Building::HPZ => "HPZ"@,
            Building::HRG => "HRG"@,
            Building::HXE => "HXE"@,
            Building::HZA => "HZA"@,
            Building::IFW => "IFW"@,
            Building::LCA => "LCA"@,
            Building::LEE => "LEE"@,
            Building::LEO => "LEO"@,
            Building::LFH => "LFH"@,
            Building::LFO => "LFO"@,
            Building::LFV => "LFV"@,
            Building::LFW => "LFW"@,
            Building::ML => "ML"@,
            Building::MLY => "MLY"@,
            Building::MM => "MM"@,
            Building::NO => "NO"@,
            Building::NW => "NW"@,
            Building::OAT => "OAT"@,
            Building::OCT => "OCT"@,
            Building::ONA => "ONA"@,
            Building::PFA => "PFA"@,
            Building::RZ => "RZ"@,
            Building::RZY => "RZY"@,
            Building::SLA => "SLA"@,
            Building::SON => "SON"@,
            Building::STB => "STB"@,
            Building::STC => "STC"@,
            Building::STW => "STW"@,
            Building::TAN => "TAN"@,
            Building::UNO => "UNO"@,
            Building::WEH => "WEH"@,
            Building::WES => "WES"@,
            Building::WET => "WET"@,
            Building::WEV => "WEV"@,
            Building::WPW => "WPW"@,
            Building::WWA => "WWA"@,
            Building::ZUE => "ZUE"@,
        }
    }

    /// The building's short tag code.
    pub fn short_code(&self) -> (r: &'static str)
        ensures
            r@ == self.code_spec(),
    {
        match self {
            Building::AGS => "AGS",
            Building::BEA => "BEA",
            Building::BSS => "BSS",
            Building::CAB => "CAB",
            Building::CHN => "CHN",
            Building::CLA => "CLA",
            Building::CLD => "CLD",
            Building::CLP => "CLP",
            Building::CLT => "CLT",
            Building::CNB => "CNB",
            Building::DFA => "DFA",
            Building::DFB => "DFB",
            Building::ETA => "ETA",
            Building::ETF => "ETF",
            Building::ETL => "ETL",
            Building::ETZ => "ETZ",
            Building::FRB => "FRB",
            Building::FRN => "FRN",
            Building::GLC => "GLC",
            Building::HCI => "HCI",
            Building::HCP => "HCP",
            Building::HDB => "HDB",
            Building::HEK => "HEK",
            Building::HEZ => "HEZ",
            Building::HG => "HG",
            Building::HGP => "HGP",
            Building::HIA => "HIA",
            Building::HIB => "HIB",
            Building::HIF => "HIF",
            Building::HIG => "HIG",
            Building::HIL => "HIL",
            Building::HIT => "HIT",
            Building::HPF => "HPF",
            Building::HPG => "HPG",
            Building::HPH => "HPH",
            Building::HPI => "HPI",
            Building::HPK => "HPK",
            Building::HPL => "HPL",
            Building::HPM => "HPM",
            Building::HPP => "HPP",
            Building::HPR => "HPR",
            Building::HPS => "HPS",
            Building::HPT => "HPT",
            Building::HPV => "HPV",
            Building::HPZ => "HPZ",
            Building::HRG => "HRG",
            Building::HXE => "HXE",
            Building::HZA => "HZA",
            Building::IFW => "IFW",
            Building::LCA => "LCA",
            Building::LEE => "LEE",
            Building::LEO => "LEO",
            Building::LFH => "LFH",
            Building::LFO => "LFO",
            Building::LFV => "LFV",
            Building::LFW => "LFW",
            Building::ML => "ML",
            Building::MLY => "MLY",
            Building::MM => "MM",
            Building::NO => "NO",
            Building::NW => "NW",
            Building::OAT => "OAT",
            Building::OCT => "OCT",
            Building::ONA => "ONA",
            Building::PFA => "PFA",
            Building::RZ => "RZ",
            Building::RZY => "RZY",
            Building::SLA => "SLA",
            Building::SON => "SON",
            Building::STB => "STB",
            Building::STC => "STC",
            Building::STW => "STW",
            Building::TAN => "TAN",
            Building::UNO => "UNO",
            Building::WEH => "WEH",
            Building::WES => "WES",
            Building::WET => "WET",
            Building::WEV => "WEV",
            Building::WPW => "WPW",
            Building::WWA => "WWA",
            Building::ZUE => "ZUE",
        }
    }
}

/// The advertising identity of one beacon.
#[derive(Clone, Debug)]
pub struct Id {
    pub uuid: &'static str,
    pub major: u16,
    pub minor: u16,
}

/// The indoor location of one beacon.
#[derive(Clone, Debug)]
pub struct Location {
    pub building: Building,
    pub floor: &'static str,
    pub room: &'static str,
}

} // verus!
