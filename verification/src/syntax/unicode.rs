//! The Unicode word-character capability.
//!
//! Raw Unicode data tables are not compiled into this library; they are an
//! external capability. The caller injects a [`UnicodeWordData`] value that
//! either holds the canonical range list for the word-character class, or
//! marks the data as unavailable. Classification consults the table with a
//! range search, and reports a typed, recoverable [`UnicodeWordError`] when
//! the table is absent.

use vstd::prelude::*;

use crate::syntax::ranges::{canonical, check_canonical, contains, in_ranges};

verus! {

/// An error that occurs when the Unicode word-character data is required but
/// unavailable: the injected capability holds no table.
#[derive(Clone, Copy, Debug, PartialEq, Eq, Structural)]
pub struct UnicodeWordError;

/// No range of the list touches the surrogate gap: the list covers Unicode
/// scalar values only.
pub open spec fn surrogate_free(rs: Seq<(u32, u32)>) -> bool {
    forall|i: int| 0 <= i < rs.len() ==> ((#[trigger] rs[i]).1 < 0xD800 || 0xE000 <= rs[i].0)
}

/// The injected word-character capability: the canonical range list for the
/// Unicode word-character class, or a marker that the data is unavailable.
pub struct UnicodeWordData {
    data: Option<Vec<(u32, u32)>>,
}

impl UnicodeWordData {
    /// Whether the word-character table is present.
    pub closed spec fn is_available(&self) -> bool {
        self.data is Some
    }

    /// The ranges of the table; empty when the table is absent.
    pub closed spec fn ranges(&self) -> Seq<(u32, u32)> {
        match self.data {
            Some(rs) => rs@,
            None => Seq::empty(),
        }
    }

    /// Well-formedness: a present table is a canonical range list over
    /// scalar values.
    pub open spec fn wf(&self) -> bool {
        self.is_available() ==> canonical(self.ranges()) && surrogate_free(self.ranges())
    }

    /// Whether the table classifies `c` as a word character.
    pub open spec fn contains_char(&self, c: char) -> bool {
        in_ranges(self.ranges(), c as u32)
    }

    /// A capability with the word-character table absent: every lookup
    /// reports [`UnicodeWordError`].
    pub fn unavailable() -> (r: UnicodeWordData)
        ensures
            r.wf(),
            !r.is_available(),
    {
        UnicodeWordData { data: None }
    }

    /// Builds the capability from a range list, accepting it exactly when it
    /// is canonical and clear of the surrogate gap: sorted, merged, and
    /// within the scalar-value domain.
    pub fn new(ranges: Vec<(u32, u32)>) -> (r: Option<UnicodeWordData>)
        ensures
            match r {
                Some(d) => {
                    &&& canonical(ranges@)
                    &&& surrogate_free(ranges@)
                    &&& d.wf()
                    &&& d.is_available()
                    &&& d.ranges() == ranges@
                },
                None => !(canonical(ranges@) && surrogate_free(ranges@)),
            },
    {
        if !check_canonical(&ranges) {
            return None;
        }
        let n = ranges.len();
        let mut i: usize = 0;
        while i < n
            invariant
                n == ranges@.len(),
                i <= n,
                forall|k: int|
                    0 <= k < i ==> ((#[trigger] ranges@[k]).1 < 0xD800 || 0xE000 <= ranges@[k].0),
            decreases n - i,
        {
            let (lo, hi) = ranges[i];
            if !(hi < 0xD800 || 0xE000 <= lo) {
                proof {
                    assert(!(ranges@[i as int].1 < 0xD800 || 0xE000 <= ranges@[i as int].0));
                }
                return None;
            }
            i += 1;
        }
        Some(UnicodeWordData { data: Some(ranges) })
    }

    /// Looks a character up in the word-character table: `Ok` with the
    /// membership answer when the table is available, `Err` when it is not.
    pub fn lookup(&self, c: char) -> (r: Result<bool, UnicodeWordError>)
        requires
            self.wf(),
        ensures
            r is Ok <==> self.is_available(),
            r matches Ok(b) ==> b == self.contains_char(c),
    {
        match &self.data {
            None => Err(UnicodeWordError),
            Some(rs) => Ok(contains(rs, c as u32)),
        }
    }
}

/// `d2` offers at least the capability of `d1`: whatever table `d1` holds,
/// `d2` holds as well.
pub open spec fn covers(d2: &UnicodeWordData, d1: &UnicodeWordData) -> bool {
    d1.is_available() ==> (d2.is_available() && d2.ranges() == d1.ranges())
}

/// Enabling more capabilities never changes the meaning of what was already
/// accepted: a classification that succeeds against `d1` succeeds against
/// any covering `d2` with the identical answer.
pub proof fn lemma_capability_monotone(d1: &UnicodeWordData, d2: &UnicodeWordData, c: char)
    requires
        covers(d2, d1),
        d1.is_available(),
    ensures
        d2.is_available(),
        d2.contains_char(c) == d1.contains_char(c),
{
}

} // verus!
