//! The string interner: a bidirectional map between field-name strings and
//! dense symbol ids.
//!
//! Ids are assigned monotonically in first-seen order and double as positions
//! in the snapshot, so the symbol-to-index projection of the encoder is the
//! identity. Equal ids stand for equal strings and the table grows
//! monotonically; there is no eviction.

use vstd::prelude::*;
use crate::error::Error;
use crate::strutil::str_eq;

verus! {

/// The largest number of strings the interner can hold: ids are 32-bit.
pub open spec fn sp_cap() -> nat {
    u32::MAX as nat
}

/// Whether every entry of `tab` is distinct from every other.
pub open spec fn sp_distinct(tab: Seq<Seq<char>>) -> bool {
    forall|i: int, j: int| 0 <= i < j < tab.len() ==> tab[i] != tab[j]
}

/// The position of `s` in `tab`; meaningful only when `tab` contains `s`.
pub open spec fn sp_index_of(tab: Seq<Seq<char>>, s: Seq<char>) -> int {
    choose|i: int| 0 <= i < tab.len() && tab[i] == s
}

/// Whether an intern of `s` into `tab` can succeed: either `s` is present
/// already, or there is room for one more id.
pub open spec fn sp_has_room(tab: Seq<Seq<char>>, s: Seq<char>) -> bool {
    tab.contains(s) || tab.len() < sp_cap()
}

/// The table after interning `s`: unchanged if present, else grown by one.
pub open spec fn sp_intern_tab(tab: Seq<Seq<char>>, s: Seq<char>) -> Seq<Seq<char>> {
    if tab.contains(s) {
        tab
    } else {
        tab.push(s)
    }
}

/// The id that interning `s` into `tab` yields.
pub open spec fn sp_intern_id(tab: Seq<Seq<char>>, s: Seq<char>) -> u32 {
    if tab.contains(s) {
        sp_index_of(tab, s) as u32
    } else {
        tab.len() as u32
    }
}

/// The string interner. Its view is the sequence of interned strings in
/// assignment order; the id of a string is its position in that sequence.
#[derive(Debug)]
pub struct Interner {
    strings: Vec<String>,
}

impl View for Interner {
    type V = Seq<Seq<char>>;

    closed spec fn view(&self) -> Seq<Seq<char>> {
        self.strings@.map_values(|s: String| s@)
    }
}

impl Interner {
    /// Well-formedness: no string occurs twice, and the table fits the id
    /// space.
    pub open spec fn wf(&self) -> bool {
        sp_distinct(self@) && self@.len() <= sp_cap()
    }

    /// Creates an empty interner.
    pub fn new() -> (r: Interner)
        ensures
            r@ == Seq::<Seq<char>>::empty(),
            r.wf(),
    {
        let r = Interner { strings: Vec::new() };
        proof {
            assert(r@ =~= Seq::<Seq<char>>::empty());
        }
        r
    }

    /// The number of interned strings.
    pub fn len(&self) -> (r: usize)
        ensures
            r == self@.len(),
    {
        self.strings.len()
    }

    /// The position of `s` in the table, or `None` if it was never interned.
    pub fn lookup(&self, s: &str) -> (r: Option<u32>)
        requires
            self.wf(),
        ensures
            match r {
                Some(id) => self@.contains(s@) && id == sp_intern_id(self@, s@) && id < self@.len()
                    && self@[id as int] == s@,
                None => !self@.contains(s@),
            },
    {
        let n = self.strings.len();
        let mut i: usize = 0;
        while i < n
            invariant
                self.wf(),
                n == self@.len(),
                i <= n,
                forall|j: int| 0 <= j < i ==> self@[j] != s@,
            decreases n - i,
        {
            if str_eq(self.strings[i].as_str(), s) {
                proof {
                    assert(self@[i as int] == s@);
                    assert(self@.contains(s@));
                    let k = sp_index_of(self@, s@);
                    assert(0 <= k < self@.len() && self@[k] == s@);
                    assert(k == i as int);
                }
                return Some(i as u32);
            }
            i = i + 1;
        }
        proof {
            if self@.contains(s@) {
                let k = choose|k: int| 0 <= k < self@.len() && self@[k] == s@;
                assert(self@[k] != s@);
            }
        }
        None
    }

    /// Interns `s`: returns the existing id if `s` was seen before, else
    /// assigns the next id. Fails only when the id space is exhausted, in
    /// which case the interner is unchanged.
    pub fn try_intern(&mut self, s: &str) -> (r: Result<u32, Error>)
        requires
            old(self).wf(),
        ensures
            final(self).wf(),
            match r {
                Ok(id) => {
                    &&& sp_has_room(old(self)@, s@)
                    &&& final(self)@ == sp_intern_tab(old(self)@, s@)
                    &&& id == sp_intern_id(old(self)@, s@)
                    &&& id < final(self)@.len()
                    &&& final(self)@[id as int] == s@
                },
                Err(e) => {
                    &&& !sp_has_room(old(self)@, s@)
                    &&& final(self)@ == old(self)@
                    &&& e == Error::CorruptedState
                },
            },
    {
        match self.lookup(s) {
            Some(id) => {
                proof {
                    assert(final(self)@ == sp_intern_tab(old(self)@, s@));
                }
                Ok(id)
            },
            None => {
                let n = self.strings.len();
                if n < (u32::MAX as usize) {
                    let id = n as u32;
                    self.strings.push(String::from_str(s));
                    proof {
                        assert(final(self)@ =~= old(self)@.push(s@));
                        let fv = final(self)@;
                        assert forall|i: int, j: int|
                            0 <= i < j < fv.len() implies fv[i] != fv[j] by {
                            if j == fv.len() - 1 {
                                assert(fv[j] == s@);
                                assert(!old(self)@.contains(s@));
                                assert(old(self)@[i] == fv[i]);
                                if fv[i] == s@ {
                                    assert(old(self)@.contains(s@));
                                }
                            }
                        }
                    }
                    Ok(id)
                } else {
                    Err(Error::CorruptedState)
                }
            },
        }
    }

    /// Interns `s` under the caller's guarantee that the id space is not
    /// exhausted; this is the common path.
    pub fn intern_str(&mut self, s: &str) -> (id: u32)
        requires
            old(self).wf(),
            sp_has_room(old(self)@, s@),
        ensures
            final(self).wf(),
            final(self)@ == sp_intern_tab(old(self)@, s@),
            id == sp_intern_id(old(self)@, s@),
            id < final(self)@.len(),
            final(self)@[id as int] == s@,
    {
        match self.try_intern(s) {
            Ok(id) => id,
            Err(_) => {
                proof {
                    assert(false);
                }
                0
            },
        }
    }

    /// Resolves an id back to its string; `None` only for ids this interner
    /// never produced.
    pub fn resolve_str(&self, id: u32) -> (r: Option<String>)
        ensures
            match r {
                Some(t) => (id as int) < self@.len() && t@ == self@[id as int],
                None => (id as int) >= self@.len(),
            },
    {
        if (id as usize) < self.strings.len() {
            Some(self.strings[id as usize].clone())
        } else {
            None
        }
    }

    /// All interned strings in assignment order; position equals id.
    pub fn get_all_strings(&self) -> (r: Vec<String>)
        ensures
            r@.len() == self@.len(),
            forall|i: int| 0 <= i < r@.len() ==> r@[i]@ == self@[i],
    {
        let r = self.strings.clone();
        proof {
            assert(forall|i: int| 0 <= i < r@.len() ==> r@[i]@ == self@[i]);
        }
        r
    }
}

} // verus!
