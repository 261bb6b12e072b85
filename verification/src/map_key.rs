//! Map key: an `int | string` value, the two kinds kept disjoint (no
//! numeric-string coercion). String keys are binary-safe byte strings.

use vstd::prelude::*;
use vstd::string::StrSliceExecFns;
use vstd::string::StringSliceAdditionalSpecFns;

verus! {

/// Abstract key: an integer or a byte string.
pub enum KeyView {
    Int(i64),
    Str(Seq<u8>),
}

#[derive(Clone, Debug, Hash)]
pub enum MapKey {
    Int(i64),
    Str(Vec<u8>),
}

impl View for MapKey {
    type V = KeyView;

    open spec fn view(&self) -> KeyView {
        match self {
            MapKey::Int(i) => KeyView::Int(*i),
            MapKey::Str(s) => KeyView::Str(s@),
        }
    }
}

/// Byte-wise equality of two byte strings.
pub fn bytes_equal(a: &[u8], b: &[u8]) -> (r: bool)
    ensures
        r == (a@ == b@),
{
    if a.len() != b.len() {
        return false;
    }
    let mut i: usize = 0;
    while i < a.len()
        invariant
            a.len() == b.len(),
            i <= a.len(),
            forall|j: int| 0 <= j < i ==> a@[j] == b@[j],
        decreases a.len() - i,
    {
        if a[i] != b[i] {
            return false;
        }
        i = i + 1;
    }
    assert(a@ =~= b@);
    true
}

impl MapKey {
    /// A string key holding the bytes of `s`.
    pub fn from_str(s: &str) -> (k: Self)
        ensures
            k@ == KeyView::Str(s.spec_bytes()),
    {
        MapKey::Str(s.as_bytes_vec())
    }

    /// A string key holding `b` (binary-safe, no UTF-8 check).
    pub fn from_bytes(b: &[u8]) -> (k: Self)
        ensures
            k@ == KeyView::Str(b@),
    {
        MapKey::Str(vstd::slice::slice_to_vec(b))
    }

    /// A copy with the same abstract key.
    pub fn duplicate(&self) -> (k: MapKey)
        ensures
            k@ == self@,
    {
        match self {
            MapKey::Int(i) => MapKey::Int(*i),
            MapKey::Str(s) => {
                let c = s.clone();
                assert(c@ =~= s@);
                MapKey::Str(c)
            }
        }
    }

    /// Key equality: same kind and same integer or same bytes.
    pub fn same_key(&self, other: &MapKey) -> (r: bool)
        ensures
            r == (self@ == other@),
    {
        match (self, other) {
            (MapKey::Int(a), MapKey::Int(b)) => *a == *b,
            (MapKey::Str(a), MapKey::Str(b)) => bytes_equal(a.as_slice(), b.as_slice()),
            _ => false,
        }
    }
}

impl PartialEq for MapKey {
    fn eq(&self, other: &MapKey) -> (r: bool) {
        self.same_key(other)
    }
}

impl vstd::std_specs::cmp::PartialEqSpecImpl for MapKey {
    open spec fn obeys_eq_spec() -> bool {
        true
    }

    open spec fn eq_spec(&self, other: &MapKey) -> bool {
        self@ == other@
    }
}

impl Eq for MapKey {}

} // verus!
