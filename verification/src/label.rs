//! Names of the buckets that statistics are kept under.

use crate::lex::{
    lemma_lex_irreflexive, lemma_lex_total, lemma_lex_transitive, lex_lt, side_of, Side,
};
use vstd::prelude::*;
use vstd::utf8::{encode_utf8, encode_utf8_decode_utf8};

verus! {

/// What a bucket is identified by: a name out of the schema, or the one
/// bucket for everything the schema does not know.
///
/// The unknown bucket is a variant of its own, not a reserved name, so a
/// category that happens to be called "Unknown" never shares a bucket with
/// it, however the unknown bucket is shown.
#[derive(Debug)]
pub enum Label {
    Named(String),
    Unknown,
}

/// A label as a value of the model: the name's characters, or `None` for the
/// unknown bucket.
pub type Name = Option<Seq<char>>;

impl View for Label {
    type V = Name;

    open spec fn view(&self) -> Name {
        match self {
            Label::Named(name) => Some(name@),
            Label::Unknown => None,
        }
    }
}

impl Clone for Label {
    fn clone(&self) -> (copy: Label)
        ensures
            copy@ == self@,
    {
        match self {
            Label::Named(name) => Label::Named(name.clone()),
            Label::Unknown => Label::Unknown,
        }
    }
}

impl Label {
    /// The label of a named bucket.
    pub fn named(name: &str) -> (label: Label)
        ensures
            label@ == Some(name@),
    {
        Label::Named(String::from_str(name))
    }

    /// Whether two labels identify the same bucket.
    pub fn same(&self, other: &Label) -> (same: bool)
        ensures
            same == (self@ == other@),
    {
        match (self, other) {
            (Label::Named(a), Label::Named(b)) => *a == *b,
            (Label::Unknown, Label::Unknown) => true,
            _ => false,
        }
    }

    /// The text a label is shown as: the name itself, or "Unknown".
    pub fn text(&self) -> (text: String)
        ensures
            text@ == match self@ {
                Some(name) => name,
                None => "Unknown"@,
            },
    {
        match self {
            Label::Named(name) => name.clone(),
            Label::Unknown => String::from_str("Unknown"),
        }
    }
}

/// The order in which buckets are kept: the unknown bucket first, then the
/// named ones in the order of their names as strings, which is the
/// dictionary order of their bytes.
pub open spec fn name_lt(a: Name, b: Name) -> bool {
    match (a, b) {
        (None, Some(_)) => true,
        (Some(x), Some(y)) => lex_lt(encode_utf8(x), encode_utf8(y)),
        _ => false,
    }
}

/// No bucket comes before itself.
pub proof fn lemma_name_irreflexive(a: Name)
    ensures
        !name_lt(a, a),
{
    if let Some(x) = a {
        lemma_lex_irreflexive(encode_utf8(x));
    }
}

/// The order of buckets is transitive.
pub proof fn lemma_name_transitive(a: Name, b: Name, c: Name)
    requires
        name_lt(a, b),
        name_lt(b, c),
    ensures
        name_lt(a, c),
{
    if let (Some(x), Some(y), Some(z)) = (a, b, c) {
        lemma_lex_transitive(encode_utf8(x), encode_utf8(y), encode_utf8(z));
    }
}

/// Of two different buckets one comes before the other.
pub proof fn lemma_name_total(a: Name, b: Name)
    ensures
        a == b || name_lt(a, b) || name_lt(b, a),
{
    if let (Some(x), Some(y)) = (a, b) {
        lemma_lex_total(encode_utf8(x), encode_utf8(y));
        encode_utf8_decode_utf8(x);
        encode_utf8_decode_utf8(y);
    }
}

/// Every name comes before all names after it.
pub open spec fn sorted_names(names: Seq<Name>) -> bool {
    forall|i: int, j: int| 0 <= i < j < names.len() ==> name_lt(names[i], names[j])
}

/// Names that are kept in their order do not repeat.
pub proof fn lemma_sorted_distinct(names: Seq<Name>)
    requires
        sorted_names(names),
    ensures
        names.no_duplicates(),
{
    assert forall|i: int, j: int| 0 <= i < names.len() && 0 <= j < names.len() && i
        != j implies names[i] != names[j] by {
        if i < j {
            assert(name_lt(names[i], names[j]));
        } else {
            assert(name_lt(names[j], names[i]));
        }
        lemma_name_irreflexive(names[i]);
    }
}

/// A name put between the names before it and the names after it keeps the
/// order.
pub proof fn lemma_sorted_insert(names: Seq<Name>, at: int, name: Name)
    requires
        sorted_names(names),
        0 <= at <= names.len(),
        forall|i: int| 0 <= i < at ==> name_lt(names[i], name),
        forall|i: int| at <= i < names.len() ==> name_lt(name, names[i]),
    ensures
        sorted_names(names.insert(at, name)),
        !names.contains(name),
{
    let longer = names.insert(at, name);
    assert forall|i: int, j: int| 0 <= i < j < longer.len() implies name_lt(
        longer[i],
        longer[j],
    ) by {
        if j < at {
            assert(name_lt(names[i], names[j]));
        } else if j == at {
            assert(name_lt(names[i], name));
        } else if i < at {
            assert(name_lt(names[i], names[j - 1]));
        } else if i == at {
            assert(name_lt(name, names[j - 1]));
        } else {
            assert(name_lt(names[i - 1], names[j - 1]));
        }
    }
    lemma_name_irreflexive(name);
    if names.contains(name) {
        let i = names.index_of(name);
        assert(0 <= i < names.len() && names[i] == name);
    }
}

/// Names in their order are the only way to keep a set of names: two runs
/// of names in order that hold the same names are the same run.
pub proof fn lemma_sorted_unique(a: Seq<Name>, b: Seq<Name>)
    requires
        sorted_names(a),
        sorted_names(b),
        forall|name: Name| a.contains(name) <==> b.contains(name),
    ensures
        a == b,
    decreases a.len(),
{
    if a.len() == 0 {
        if b.len() > 0 {
            assert(b.contains(b[0]));
        }
        assert(a =~= b);
    } else {
        assert(a.contains(a[0]));
        let k = b.index_of(a[0]);
        assert(0 <= k < b.len() && b[k] == a[0]);
        assert(b.contains(b[0]));
        let m = a.index_of(b[0]);
        assert(0 <= m < a.len() && a[m] == b[0]);
        if k > 0 {
            assert(name_lt(b[0], b[k]));
            if m > 0 {
                assert(name_lt(a[0], a[m]));
                lemma_name_transitive(a[0], b[0], a[0]);
            }
            lemma_name_irreflexive(a[0]);
        }
        assert(b[0] == a[0]);
        let ra = a.drop_first();
        let rb = b.drop_first();
        lemma_sorted_distinct(a);
        lemma_sorted_distinct(b);
        assert forall|name: Name| ra.contains(name) <==> rb.contains(name) by {
            if ra.contains(name) {
                let i = ra.index_of(name);
                assert(0 <= i < ra.len() && ra[i] == name);
                assert(a[i + 1] == name);
                assert(a.contains(name));
                let j = b.index_of(name);
                assert(0 <= j < b.len() && b[j] == name);
                assert(j != 0);
                assert(rb[j - 1] == name);
            }
            if rb.contains(name) {
                let i = rb.index_of(name);
                assert(0 <= i < rb.len() && rb[i] == name);
                assert(b[i + 1] == name);
                assert(b.contains(name));
                let j = a.index_of(name);
                assert(0 <= j < a.len() && a[j] == name);
                assert(j != 0);
                assert(ra[j - 1] == name);
            }
        }
        assert forall|i: int, j: int| 0 <= i < j < ra.len() implies name_lt(ra[i], ra[j]) by {
            assert(name_lt(a[i + 1], a[j + 1]));
        }
        assert forall|i: int, j: int| 0 <= i < j < rb.len() implies name_lt(rb[i], rb[j]) by {
            assert(name_lt(b[i + 1], b[j + 1]));
        }
        lemma_sorted_unique(ra, rb);
        assert(a =~= seq![a[0]] + ra);
        assert(b =~= seq![b[0]] + rb);
    }
}

impl Label {
    /// Where this label stands to `other` in the order of buckets.
    pub fn side(&self, other: &Label) -> (side: Side)
        ensures
            match side {
                Side::Before => name_lt(self@, other@),
                Side::Same => self@ == other@,
                Side::After => name_lt(other@, self@),
            },
    {
        match (self, other) {
            (Label::Unknown, Label::Unknown) => Side::Same,
            (Label::Unknown, Label::Named(_)) => Side::Before,
            (Label::Named(_), Label::Unknown) => Side::After,
            (Label::Named(a), Label::Named(b)) => {
                let side = side_of(a.as_str().as_bytes(), b.as_str().as_bytes());
                proof {
                    encode_utf8_decode_utf8(a@);
                    encode_utf8_decode_utf8(b@);
                }
                side
            },
        }
    }
}

} // verus!
