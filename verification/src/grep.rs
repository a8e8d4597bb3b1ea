//! The search for accounts in the records of a snapshot.
//!
//! A search has subjects, byte patterns of 32 bytes, and looks for each of
//! them in the key and in the value of every record. The caller reads the
//! records and hands them over one by one; what comes back says whether
//! the record is to be reported, and for which subject.

use crate::account::parse_account;
use crate::endpoint::{meta_path_of, network_name, network_of, resolve_url, url_of};
use crate::json::{json_u16_list, parse_u16_list};
use crate::matcher::occurs;
use crate::prefix::{categorize_prefix, classify, CategorizedKey, KeyClass, PrefixIndex};
use crate::subject::{
    derived_address, para_id_to_address, subject_views, ParaLocation, Subject, SubjectView,
};
use vstd::prelude::*;

verus! {

/// Why the subjects of a search could not be made.
#[derive(Debug, Clone, Copy, PartialEq, Eq, Structural)]
pub enum GrepError {
    /// The address is neither hex nor a valid SS58 address.
    InvalidSs58,
    /// The file with the numbers of the parachains could not be read.
    UnreadableFile,
    /// The file with the numbers of the parachains holds no list of
    /// numbers.
    InvalidJson,
}

impl GrepError {
    /// The error in words.
    pub fn message(&self) -> (text: String)
        ensures
            text@ == match self {
                GrepError::InvalidSs58 => "Invalid SS58"@,
                GrepError::UnreadableFile => "Failed to read the para ID file"@,
                GrepError::InvalidJson => "Invalid para ID list"@,
            },
    {
        match self {
            GrepError::InvalidSs58 => String::from_str("Invalid SS58"),
            GrepError::UnreadableFile => String::from_str("Failed to read the para ID file"),
            GrepError::InvalidJson => String::from_str("Invalid para ID list"),
        }
    }
}

/// A search for one account, given by its address.
#[derive(Debug)]
pub struct GrepSearchAddress {
    /// The address to search for.
    pub ss58: String,
}

/// The subjects of a search for an address, given what reading the address
/// gave: the account's bytes as the one subject, or no bytes and so no
/// search.
pub fn subjects_of_account(account: Option<Vec<u8>>) -> (subjects: Result<Vec<Subject>, GrepError>)
    ensures
        match account {
            Some(bytes) => subjects matches Ok(list) && subject_views(list@) == seq![
                SubjectView::Address(bytes@),
            ],
            None => subjects == Err::<Vec<Subject>, GrepError>(GrepError::InvalidSs58),
        },
{
    match account {
        Some(bytes) => {
            let mut list: Vec<Subject> = Vec::new();
            list.push(Subject::Address(bytes));
            assert(subject_views(list@) =~= seq![list@[0]@]);
            Ok(list)
        },
        None => Err(GrepError::InvalidSs58),
    }
}

impl GrepSearchAddress {
    /// The one subject of the search: the 32 bytes of the account that the
    /// address names. An address that cannot be read is refused here,
    /// before any record is looked at.
    pub fn subjects(&self) -> (subjects: Result<Vec<Subject>, GrepError>)
        ensures
            match subjects {
                Ok(list) => list@.len() == 1 && list@[0]@ is Address && list@[0]@.pattern().len()
                    == 32,
                Err(error) => error == GrepError::InvalidSs58,
            },
    {
        let account = parse_account(self.ss58.as_str());
        let subjects = subjects_of_account(account);
        proof {
            if subjects is Ok {
                let list = subjects->Ok_0;
                assert(subject_views(list@).len() == 1);
                assert(list@.len() == 1);
                assert(subject_views(list@)[0] == list@[0]@);
            }
        }
        subjects
    }
}

/// A search for the accounts of parachains.
#[derive(Debug)]
pub struct GrepSearchParaAccount {
    /// How the parachains stand to the chain of the snapshot.
    pub para_location: ParaLocation,
    /// The numbers of the parachains.
    pub para_ids: Vec<u16>,
    /// The path of a JSON file with the numbers of the parachains, to be
    /// used in place of `para_ids`.
    pub para_ids_from_json: Option<String>,
}

/// The subjects of a search for the accounts of the parachains `ids`, in
/// their order.
pub open spec fn para_subjects(location: ParaLocation, ids: Seq<u16>) -> Seq<SubjectView> {
    Seq::new(
        ids.len(),
        |i: int| SubjectView::ParaAccount(location, ids[i], derived_address(location, ids[i])),
    )
}

/// The numbers that a search for parachains is about: those given with it
/// where no file is named; else those in the file, which has to be there
/// and to hold a list of numbers.
pub open spec fn para_ids_of(
    given: Seq<u16>,
    file_named: bool,
    file: Option<Seq<u8>>,
) -> Result<Seq<u16>, GrepError> {
    if !file_named {
        Ok(given)
    } else {
        match file {
            None => Err(GrepError::UnreadableFile),
            Some(text) => match json_u16_list(text) {
                Some(ids) => Ok(ids),
                None => Err(GrepError::InvalidJson),
            },
        }
    }
}

impl GrepSearchParaAccount {
    /// One subject for each of `ids`: the account derived from the
    /// search's location and the number.
    pub fn subjects_for(&self, ids: &[u16]) -> (subjects: Vec<Subject>)
        ensures
            subject_views(subjects@) == para_subjects(self.para_location, ids@),
    {
        let mut subjects: Vec<Subject> = Vec::new();
        let mut i: usize = 0;
        while i < ids.len()
            invariant
                i <= ids@.len(),
                subjects@.len() == i,
                forall|j: int|
                    0 <= j < i ==> subjects@[j]@ == SubjectView::ParaAccount(
                        self.para_location,
                        ids@[j],
                        derived_address(self.para_location, ids@[j]),
                    ),
            decreases ids@.len() - i,
        {
            let address = para_id_to_address(self.para_location, ids[i]);
            subjects.push(Subject::ParaAccount(self.para_location, ids[i], address));
            i += 1;
        }
        assert(subject_views(subjects@) =~= para_subjects(self.para_location, ids@));
        subjects
    }

    /// The numbers that the search is about. `ids_file` is what the file
    /// named by `para_ids_from_json` holds, or `None` where the file could
    /// not be read; it is not looked at where no file is named.
    pub fn para_ids(&self, ids_file: Option<&[u8]>) -> (ids: Result<Vec<u16>, GrepError>)
        ensures
            match para_ids_of(
                self.para_ids@,
                self.para_ids_from_json is Some,
                match ids_file {
                    Some(text) => Some(text@),
                    None => None,
                },
            ) {
                Ok(expected) => ids matches Ok(list) && list@ == expected,
                Err(error) => ids == Err::<Vec<u16>, GrepError>(error),
            },
    {
        if self.para_ids_from_json.is_none() {
            return Ok(self.para_ids.clone());
        }
        match ids_file {
            None => Err(GrepError::UnreadableFile),
            Some(text) => Self::para_ids_from_json(text),
        }
    }

    /// The list of numbers that `text` holds in JSON.
    pub fn para_ids_from_json(text: &[u8]) -> (ids: Result<Vec<u16>, GrepError>)
        ensures
            match json_u16_list(text@) {
                Some(expected) => ids matches Ok(list) && list@ == expected,
                None => ids == Err::<Vec<u16>, GrepError>(GrepError::InvalidJson),
            },
    {
        match parse_u16_list(text) {
            Ok(list) => Ok(list),
            Err(_) => Err(GrepError::InvalidJson),
        }
    }

    /// The subjects of the search: one derived account for each number, in
    /// the order of the numbers. `ids_file` is as for
    /// [`GrepSearchParaAccount::para_ids`].
    pub fn subjects(&self, ids_file: Option<&[u8]>) -> (subjects: Result<Vec<Subject>, GrepError>)
        ensures
            match para_ids_of(
                self.para_ids@,
                self.para_ids_from_json is Some,
                match ids_file {
                    Some(text) => Some(text@),
                    None => None,
                },
            ) {
                Ok(ids) => subjects matches Ok(list) && subject_views(list@) == para_subjects(
                    self.para_location,
                    ids,
                ),
                Err(error) => subjects == Err::<Vec<Subject>, GrepError>(error),
            },
    {
        match self.para_ids(ids_file) {
            Ok(ids) => Ok(self.subjects_for(ids.as_slice())),
            Err(error) => Err(error),
        }
    }
}

/// What a search looks for.
#[derive(Debug)]
pub enum GrepSearch {
    Address(GrepSearchAddress),
    ParaAccount(GrepSearchParaAccount),
}

impl GrepSearch {
    /// The subjects of the search, as the kind of search at hand makes
    /// them. `ids_file` is read only by a search for parachains, as
    /// [`GrepSearchParaAccount::para_ids`] says.
    pub fn subjects(&self, ids_file: Option<&[u8]>) -> (subjects: Result<Vec<Subject>, GrepError>)
        ensures
            match self {
                GrepSearch::Address(_) => match subjects {
                    Ok(list) => list@.len() == 1 && list@[0]@ is Address
                        && list@[0]@.pattern().len() == 32,
                    Err(error) => error == GrepError::InvalidSs58,
                },
                GrepSearch::ParaAccount(search) => match para_ids_of(
                    search.para_ids@,
                    search.para_ids_from_json is Some,
                    match ids_file {
                        Some(text) => Some(text@),
                        None => None,
                    },
                ) {
                    Ok(ids) => subjects matches Ok(list) && subject_views(list@) == para_subjects(
                        search.para_location,
                        ids,
                    ),
                    Err(error) => subjects == Err::<Vec<Subject>, GrepError>(error),
                },
            },
    {
        match self {
            GrepSearch::Address(search) => search.subjects(),
            GrepSearch::ParaAccount(search) => search.subjects(ids_file),
        }
    }
}

/// The arguments of a search.
#[derive(Debug)]
pub struct Grep {
    /// The path of the snapshot to search.
    pub snapshot: String,
    /// The node to ask for the schema: an address, or the name of a
    /// network.
    pub rpc: String,
    /// The category whose records are not reported.
    pub ignore_pallet: Option<String>,
    /// What to search for.
    pub search: GrepSearch,
}

/// `subjects[at]` occurs in `data` and no later subject does.
pub open spec fn is_last_match(subjects: Seq<SubjectView>, data: Seq<u8>, at: int) -> bool {
    &&& 0 <= at < subjects.len()
    &&& occurs(data, subjects[at].pattern())
    &&& forall|later: int| at < later < subjects.len() ==> !occurs(data, subjects[later].pattern())
}

/// Some subject occurs in `data`.
pub open spec fn any_match(subjects: Seq<SubjectView>, data: Seq<u8>) -> bool {
    exists|at: int| 0 <= at < subjects.len() && occurs(data, #[trigger] subjects[at].pattern())
}

/// `found` is the subject that a match in `data` is attributed to: the last
/// of those that occur in it, or none where none occurs.
pub open spec fn attributed(subjects: Seq<SubjectView>, data: Seq<u8>, found: Option<usize>) -> bool {
    match found {
        Some(at) => is_last_match(subjects, data, at as int),
        None => !any_match(subjects, data),
    }
}

/// A match is attributed to one subject and no other.
pub proof fn lemma_attributed_unique(
    subjects: Seq<SubjectView>,
    data: Seq<u8>,
    a: Option<usize>,
    b: Option<usize>,
)
    requires
        attributed(subjects, data, a),
        attributed(subjects, data, b),
    ensures
        a == b,
{
    match (a, b) {
        (Some(x), Some(y)) => {
            if x < y {
                assert(!occurs(data, subjects[y as int].pattern()));
            } else if y < x {
                assert(!occurs(data, subjects[x as int].pattern()));
            }
        },
        (Some(x), None) => {
            assert(occurs(data, subjects[x as int].pattern()));
        },
        (None, Some(y)) => {
            assert(occurs(data, subjects[y as int].pattern()));
        },
        (None, None) => {},
    }
}

/// The subject that a match in `data` is attributed to. Where several
/// subjects occur in `data` it is the last of them in the order given.
pub fn find_subject(subjects: &[Subject], data: &[u8]) -> (found: Option<usize>)
    ensures
        attributed(subject_views(subjects@), data@, found),
{
    let ghost views = subject_views(subjects@);
    let mut i: usize = subjects.len();
    while i > 0
        invariant
            i <= subjects@.len(),
            views == subject_views(subjects@),
            forall|later: int| i <= later < subjects@.len() ==> !occurs(data@, views[later].pattern()),
        decreases i,
    {
        i -= 1;
        proof {
            assert(views[i as int] == subjects@[i as int]@);
        }
        if subjects[i].matches(data) {
            return Some(i);
        }
    }
    None
}

/// Whether records of this class are left out of the report: those whose
/// category carries the name to ignore. The comparison is exact, case
/// included; a key of no known category is never left out.
pub open spec fn ignores(ignore: Option<Seq<char>>, class: KeyClass) -> bool {
    match ignore {
        Some(name) => class.category() == Some(name),
        None => false,
    }
}

/// The counters of a search.
#[derive(Debug, Clone, Copy, PartialEq, Eq, Structural)]
pub struct SearchTally {
    /// How many records were looked at.
    pub scanned: usize,
    /// How many of them were reported.
    pub matched: usize,
}

/// What is reported of a record in which a subject was found.
#[derive(Debug)]
pub struct MatchReport {
    /// The subject found in the key, by its position among the subjects.
    pub key_subject: Option<usize>,
    /// The subject found in the value, by its position among the subjects.
    pub value_subject: Option<usize>,
    /// What the record's key was classified as.
    pub class: CategorizedKey,
}

/// What became of one record of the search.
#[derive(Debug)]
pub enum Scanned {
    /// No subject occurs in the key or in the value.
    Skipped,
    /// A subject occurs, and the record's category is the one to ignore.
    Suppressed,
    /// A subject occurs and the record is reported.
    Reported(MatchReport),
}

impl SearchTally {
    /// The counters before the first record.
    pub fn new() -> (tally: SearchTally)
        ensures
            tally.scanned == 0,
            tally.matched == 0,
    {
        SearchTally { scanned: 0, matched: 0 }
    }
}

impl Grep {
    /// The name to ignore, as a value of the model.
    pub open spec fn ignore_view(&self) -> Option<Seq<char>> {
        match self.ignore_pallet {
            Some(name) => Some(name@),
            None => None,
        }
    }

    /// The address of the node to ask for the schema.
    pub fn url(&self) -> (url: String)
        ensures
            url@ == url_of(self.rpc@),
    {
        resolve_url(self.rpc.as_str())
    }

    /// The name of the network, given the name of the snapshot's file as
    /// the file system has it, without the directories.
    pub fn network(&self, file_name: &str) -> (network: String)
        ensures
            network@ == network_of(file_name@),
    {
        network_name(file_name)
    }

    /// Where the schema is kept, given the name of the snapshot's file as
    /// for [`Grep::network`].
    pub fn meta_path(&self, file_name: &str) -> (path: String)
        ensures
            path@ == network_of(file_name@) + ".meta"@,
    {
        meta_path_of(self.network(file_name).as_str())
    }

    /// Whether records of this class are left out of the report.
    pub fn is_ignored(&self, key: &CategorizedKey) -> (ignored: bool)
        ensures
            ignored == ignores(self.ignore_view(), key@),
    {
        match &self.ignore_pallet {
            None => false,
            Some(name) => match key {
                CategorizedKey::Item(category, _) => *name == *category,
                CategorizedKey::Category(category) => *name == *category,
                CategorizedKey::Unknown => false,
            },
        }
    }

    /// Looks at one record. Every record counts as scanned. A record in
    /// which no subject occurs, neither in the key nor in the value, is
    /// skipped. Else its key is classified; where the category is the one
    /// to ignore the match is suppressed and not counted, else it is
    /// counted and reported with the subjects that key and value are
    /// attributed to.
    pub fn search_record(
        &self,
        tally: &mut SearchTally,
        key: &[u8],
        value: &[u8],
        lookup: &PrefixIndex,
        subjects: &[Subject],
    ) -> (scanned: Scanned)
        requires
            lookup.wf(),
            old(tally).matched <= old(tally).scanned < usize::MAX,
        ensures
            final(tally).scanned == old(tally).scanned + 1,
            match scanned {
                Scanned::Skipped => {
                    &&& !any_match(subject_views(subjects@), key@)
                    &&& !any_match(subject_views(subjects@), value@)
                    &&& final(tally).matched == old(tally).matched
                },
                Scanned::Suppressed => {
                    &&& any_match(subject_views(subjects@), key@) || any_match(
                        subject_views(subjects@),
                        value@,
                    )
                    &&& ignores(self.ignore_view(), classify(lookup@, key@))
                    &&& final(tally).matched == old(tally).matched
                },
                Scanned::Reported(report) => {
                    &&& attributed(subject_views(subjects@), key@, report.key_subject)
                    &&& attributed(subject_views(subjects@), value@, report.value_subject)
                    &&& report.key_subject is Some || report.value_subject is Some
                    &&& report.class@ == classify(lookup@, key@)
                    &&& !ignores(self.ignore_view(), classify(lookup@, key@))
                    &&& final(tally).matched == old(tally).matched + 1
                },
            },
    {
        tally.scanned = tally.scanned + 1;
        let key_subject = find_subject(subjects, key);
        let value_subject = find_subject(subjects, value);
        if key_subject.is_none() && value_subject.is_none() {
            return Scanned::Skipped;
        }
        let class = categorize_prefix(key, lookup);
        if self.is_ignored(&class) {
            return Scanned::Suppressed;
        }
        tally.matched = tally.matched + 1;
        Scanned::Reported(MatchReport { key_subject, value_subject, class })
    }
}

} // verus!
