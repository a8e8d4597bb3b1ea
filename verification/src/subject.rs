//! What a search looks for: byte patterns of 32 bytes, given as an address
//! or derived from the number of a parachain.

use crate::account::to_ss58;
use crate::codec::{encode_u16, scale_u16};
use crate::matcher::{is_substr, occurs};
use crate::text::{decimal, decimal_string};
use vstd::prelude::*;

verus! {

/// How the chain that asks stands to the parachain whose account is meant.
#[derive(Debug, Clone, Copy, PartialEq, Eq, Structural)]
pub enum ParaLocation {
    /// The parachain is a child: the account is the one that the relay
    /// chain keeps for it.
    Child,
    /// The parachain is a sibling: the account is the one that another
    /// parachain keeps for it.
    Sibling,
}

impl ParaLocation {
    /// The four ASCII characters that an account of this kind starts with.
    pub open spec fn tag(self) -> Seq<u8> {
        match self {
            ParaLocation::Child => seq![0x70u8, 0x61u8, 0x72u8, 0x61u8],
            ParaLocation::Sibling => seq![0x73u8, 0x69u8, 0x62u8, 0x6cu8],
        }
    }

    /// The tag as bytes: "para" for a child, "sibl" for a sibling.
    pub fn tag_bytes(self) -> (tag: [u8; 4])
        ensures
            tag@ == self.tag(),
    {
        let tag: [u8; 4] = match self {
            ParaLocation::Child => [0x70, 0x61, 0x72, 0x61],
            ParaLocation::Sibling => [0x73, 0x69, 0x62, 0x6c],
        };
        assert(tag@ =~= self.tag());
        tag
    }

    /// The name of the variant.
    pub open spec fn name(self) -> Seq<char> {
        match self {
            ParaLocation::Child => "Child"@,
            ParaLocation::Sibling => "Sibling"@,
        }
    }

    /// The name of the variant.
    pub fn to_string(&self) -> (name: String)
        ensures
            name@ == self.name(),
    {
        match self {
            ParaLocation::Child => String::from_str("Child"),
            ParaLocation::Sibling => String::from_str("Sibling"),
        }
    }
}

/// The length of every account, derived or not.
pub const ADDRESS_LEN: usize = 32;

/// The account of the parachain `para_id`: the tag of the location, the
/// number in its SCALE encoding, and zeros up to 32 bytes.
pub open spec fn derived_address(location: ParaLocation, para_id: u16) -> Seq<u8> {
    location.tag() + scale_u16(para_id) + Seq::new(26, |i: int| 0u8)
}

/// A derived account has 32 bytes, starts with the tag of its location,
/// holds the number behind it and is zero from there on.
pub proof fn lemma_derived_address_layout(location: ParaLocation, para_id: u16)
    ensures
        derived_address(location, para_id).len() == 32,
        derived_address(location, para_id).subrange(0, 4) == location.tag(),
        derived_address(location, para_id)[4] == (para_id % 256) as u8,
        derived_address(location, para_id)[5] == (para_id / 256) as u8,
        forall|i: int| 6 <= i < 32 ==> derived_address(location, para_id)[i] == 0u8,
{
    assert(derived_address(location, para_id).subrange(0, 4) =~= location.tag());
}

/// The accounts of the two locations differ, whatever the numbers.
pub proof fn lemma_locations_differ(a: u16, b: u16)
    ensures
        derived_address(ParaLocation::Child, a) != derived_address(ParaLocation::Sibling, b),
{
    assert(derived_address(ParaLocation::Child, a)[0] == 0x70u8);
    assert(derived_address(ParaLocation::Sibling, b)[0] == 0x73u8);
}

/// Different locations or different numbers have different accounts.
pub proof fn lemma_derived_address_injective(
    location: ParaLocation,
    para_id: u16,
    other_location: ParaLocation,
    other_id: u16,
)
    requires
        derived_address(location, para_id) == derived_address(other_location, other_id),
    ensures
        location == other_location,
        para_id == other_id,
{
    lemma_derived_address_layout(location, para_id);
    lemma_derived_address_layout(other_location, other_id);
    let a = derived_address(location, para_id);
    let b = derived_address(other_location, other_id);
    assert(a[0] == location.tag()[0]);
    assert(b[0] == other_location.tag()[0]);
    assert(a[4] == b[4] && a[5] == b[5]);
}

/// The account that stands for a parachain, seen from `location`. It is
/// made of the location's tag and the number alone; nothing is hashed.
pub fn para_id_to_address(location: ParaLocation, para_id: u16) -> (address: Vec<u8>)
    ensures
        address@ == derived_address(location, para_id),
{
    let prefix = location.tag_bytes();
    let encoded_id = encode_u16(para_id);
    let mut bytes: Vec<u8> = Vec::new();
    let mut i: usize = 0;
    while i < 4
        invariant
            i <= 4,
            bytes@ == prefix@.subrange(0, i as int),
        decreases 4 - i,
    {
        bytes.push(prefix[i]);
        i += 1;
    }
    let mut j: usize = 0;
    while j < encoded_id.len()
        invariant
            j <= encoded_id@.len(),
            encoded_id@.len() == 2,
            bytes@ == prefix@ + encoded_id@.subrange(0, j as int),
        decreases encoded_id@.len() - j,
    {
        bytes.push(encoded_id[j]);
        j += 1;
    }
    while bytes.len() < ADDRESS_LEN
        invariant
            6 <= bytes@.len() <= 32,
            bytes@ == prefix@ + encoded_id@ + Seq::new((bytes@.len() - 6) as nat, |i: int| 0u8),
        decreases 32 - bytes@.len(),
    {
        bytes.push(0);
    }
    assert(bytes@ =~= derived_address(location, para_id));
    bytes
}

/// Something that a search looks for, as a value of the model.
pub enum SubjectView {
    Address(Seq<u8>),
    ParaAccount(ParaLocation, u16, Seq<u8>),
}

impl SubjectView {
    /// The bytes that are looked for.
    pub open spec fn pattern(self) -> Seq<u8> {
        match self {
            SubjectView::Address(address) => address,
            SubjectView::ParaAccount(_, _, address) => address,
        }
    }
}

/// Something that a search looks for.
#[derive(Debug)]
pub enum Subject {
    /// An account given by its address.
    Address(Vec<u8>),
    /// The account of a parachain: the location and the number it was
    /// derived from, and the address.
    ParaAccount(ParaLocation, u16, Vec<u8>),
}

impl View for Subject {
    type V = SubjectView;

    open spec fn view(&self) -> SubjectView {
        match self {
            Subject::Address(address) => SubjectView::Address(address@),
            Subject::ParaAccount(location, para_id, address) => SubjectView::ParaAccount(
                *location,
                *para_id,
                address@,
            ),
        }
    }
}

/// The views of a run of subjects, in its order.
pub open spec fn subject_views(subjects: Seq<Subject>) -> Seq<SubjectView> {
    Seq::new(subjects.len(), |i: int| subjects[i]@)
}

impl Subject {
    /// The bytes that are looked for.
    pub fn pattern(&self) -> (pattern: &Vec<u8>)
        ensures
            pattern@ == self@.pattern(),
    {
        match self {
            Subject::Address(address) => address,
            Subject::ParaAccount(_, _, address) => address,
        }
    }

    /// Whether the subject's bytes occur in `data`, one after the other
    /// without a gap. Only the bytes count, not how the subject was given.
    pub fn matches(&self, data: &[u8]) -> (found: bool)
        ensures
            found == occurs(data@, self@.pattern()),
    {
        is_substr(data, self.pattern().as_slice()).is_some()
    }
}

/// A subject in words, its address written as `ss58`.
pub open spec fn rendered(subject: SubjectView, ss58: Seq<char>) -> Seq<char> {
    match subject {
        SubjectView::Address(_) => "Address("@ + ss58 + ")"@,
        SubjectView::ParaAccount(location, para_id, _) => "ParaAccount("@ + location.name()
            + ", "@ + decimal(para_id as nat) + ", "@ + ss58 + ")"@,
    }
}

impl Subject {
    /// The subject in words, given its address in the SS58 form.
    pub fn render(&self, ss58: &str) -> (text: String)
        ensures
            text@ == rendered(self@, ss58@),
    {
        match self {
            Subject::Address(_) => String::from_str("Address(").concat(ss58).concat(")"),
            Subject::ParaAccount(location, para_id, _) => {
                let name = location.to_string();
                let number = decimal_string(*para_id);
                String::from_str("ParaAccount(").concat(name.as_str()).concat(", ").concat(
                    number.as_str(),
                ).concat(", ").concat(ss58).concat(")")
            },
        }
    }

    /// The subject in words. The address is written in the SS58 form, with
    /// the prefix that the process has set as its default.
    pub fn to_string(&self) -> (text: String)
        requires
            self@.pattern().len() == 32,
        ensures
            exists|ss58: Seq<char>| text@ == rendered(self@, ss58),
    {
        let ss58 = to_ss58(self.pattern().as_slice());
        self.render(ss58.as_str())
    }
}

} // verus!
