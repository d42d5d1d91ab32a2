use crate::strutil::{
    lemma_seq_le_antisym, lemma_seq_le_refl, lemma_seq_le_total, lemma_seq_le_trans, seq_le,
};
use crate::tree::node::Node;
use vstd::prelude::*;
use vstd::relations::{sorted_by, total_ordering};
use vstd::seq_lib::lemma_sorted_unique;

verus! {

/// Entries compare equal when their names do.
impl PartialEq for Node {
    fn eq(&self, other: &Node) -> (r: bool) {
        self.file.eq(&other.file)
    }
}

impl vstd::std_specs::cmp::PartialEqSpecImpl for Node {
    open spec fn obeys_eq_spec() -> bool {
        true
    }

    open spec fn eq_spec(&self, other: &Node) -> bool {
        self.file@ == other.file@
    }
}

/// Entries order by byte-lexicographic comparison of their names.
impl PartialOrd for Node {
    fn partial_cmp(&self, other: &Node) -> (r: Option<core::cmp::Ordering>) {
        if self.file.eq(&other.file) {
            Some(core::cmp::Ordering::Equal)
        } else if crate::strutil::str_le(self.file.as_str(), other.file.as_str()) {
            Some(core::cmp::Ordering::Less)
        } else {
            Some(core::cmp::Ordering::Greater)
        }
    }
}

impl vstd::std_specs::cmp::PartialOrdSpecImpl for Node {
    open spec fn obeys_partial_cmp_spec() -> bool {
        true
    }

    open spec fn partial_cmp_spec(&self, other: &Node) -> Option<core::cmp::Ordering> {
        if self.file@ == other.file@ {
            Some(core::cmp::Ordering::Equal)
        } else if seq_le(self.file@, other.file@) {
            Some(core::cmp::Ordering::Less)
        } else {
            Some(core::cmp::Ordering::Greater)
        }
    }
}

/// The order that sorts siblings, as a relation on names.
pub open spec fn name_le() -> spec_fn(Seq<char>, Seq<char>) -> bool {
    |a: Seq<char>, b: Seq<char>| seq_le(a, b)
}

pub proof fn lemma_name_le_total_ordering()
    ensures
        total_ordering(name_le()),
{
    let r = name_le();
    assert forall|a: Seq<char>| #[trigger] r(a, a) by {
        lemma_seq_le_refl(a);
    }
    assert forall|a: Seq<char>, b: Seq<char>| #[trigger] r(a, b) && #[trigger] r(b, a) implies a
        == b by {
        lemma_seq_le_antisym(a, b);
    }
    assert forall|a: Seq<char>, b: Seq<char>, c: Seq<char>|
        #[trigger] r(a, b) && #[trigger] r(b, c) implies r(a, c) by {
        lemma_seq_le_trans(a, b, c);
    }
    assert forall|a: Seq<char>, b: Seq<char>| #[trigger] r(a, b) || #[trigger] r(b, a) by {
        lemma_seq_le_total(a, b);
    }
}

/// A sorted listing is canonical: whatever order a directory hands its
/// entries out in, the two name lists agree as multisets, and once both
/// stand sorted by name they are the same list.
pub proof fn lemma_sorted_names_unique(a: Seq<Seq<char>>, b: Seq<Seq<char>>)
    requires
        sorted_by(a, name_le()),
        sorted_by(b, name_le()),
        a.to_multiset() == b.to_multiset(),
    ensures
        a == b,
{
    lemma_name_le_total_ordering();
    lemma_sorted_unique(a, b, name_le());
    assert(a =~= b);
}

} // verus!
