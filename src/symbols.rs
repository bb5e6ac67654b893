//! The symbol cache: for each visited file, the signatures of the
//! components it declares, replaced whole whenever the file is parsed
//! again.

use crate::document::{ComponentSig, SigView};
use crate::table::{entries, key_index, key_is, upsert};
use vstd::prelude::*;

verus! {

pub struct SymbolCache {
    files: Vec<(String, Vec<(String, ComponentSig)>)>,
}

/// The view of one file's signatures.
pub open spec fn sigs_view(v: Seq<(String, ComponentSig)>) -> Seq<(Seq<char>, SigView)> {
    entries(v)
}

impl SymbolCache {
    /// Each file with the signatures of its components, one entry per file.
    pub closed spec fn view(&self) -> Seq<(Seq<char>, Seq<(Seq<char>, SigView)>)> {
        self.files@.map_values(
            |e: (String, Vec<(String, ComponentSig)>)| (e.0@, sigs_view(e.1@)),
        )
    }

    pub fn new() -> (r: SymbolCache)
        ensures
            r@ == Seq::<(Seq<char>, Seq<(Seq<char>, SigView)>)>::empty(),
    {
        let r = SymbolCache { files: Vec::new() };
        assert(r@ =~= Seq::<(Seq<char>, Seq<(Seq<char>, SigView)>)>::empty());
        r
    }

    /// Records the signatures of file `url`, dropping what was recorded of
    /// it before.
    pub fn update(&mut self, url: String, sigs: Vec<(String, ComponentSig)>)
        ensures
            final(self)@ == upsert(old(self)@, url@, sigs_view(sigs@)),
    {
        let ghost s = self@;
        let ghost f = key_is(s, url@);
        let mut i: usize = 0;
        while i < self.files.len()
            invariant
                i <= self.files@.len(),
                s == self@,
                s == old(self)@,
                f == key_is(s, url@),
                forall|m: int| 0 <= m < i ==> !#[trigger] f(m),
            decreases self.files@.len() - i,
        {
            if self.files[i].0 == url {
                proof {
                    assert(f(i as int));
                    crate::search::lemma_first_from_skip(0, i as int, s.len() as int, f);
                    assert(key_index(s, url@) == i as int);
                }
                self.files.set(i, (url, sigs));
                proof {
                    assert(self@ =~= s.update(i as int, (url@, sigs_view(sigs@))));
                }
                return;
            }
            assert(!f(i as int));
            i += 1;
        }
        proof {
            crate::search::lemma_first_from_skip(0, i as int, s.len() as int, f);
        }
        self.files.push((url, sigs));
        proof {
            assert(self@ =~= s.push((url@, sigs_view(sigs@))));
        }
    }

    /// The signatures recorded of file `url`.
    pub fn signatures_of(&self, url: &String) -> (r: Option<&Vec<(String, ComponentSig)>>)
        ensures
            r matches Some(v) ==> key_index(self@, url@) < self@.len() && self@[key_index(
                self@,
                url@,
            )].1 == sigs_view(v@),
            r is None ==> key_index(self@, url@) == self@.len(),
    {
        let ghost s = self@;
        let ghost f = key_is(s, url@);
        let mut i: usize = 0;
        while i < self.files.len()
            invariant
                i <= self.files@.len(),
                s == self@,
                f == key_is(s, url@),
                forall|m: int| 0 <= m < i ==> !#[trigger] f(m),
            decreases self.files@.len() - i,
        {
            if self.files[i].0 == *url {
                proof {
                    assert(f(i as int));
                    crate::search::lemma_first_from_skip(0, i as int, s.len() as int, f);
                }
                return Some(&self.files[i].1);
            }
            assert(!f(i as int));
            i += 1;
        }
        proof {
            crate::search::lemma_first_from_skip(0, i as int, s.len() as int, f);
        }
        None
    }
}

} // verus!
