//! The filter compiler: a set of character-name fragments becomes a
//! disjunctive predicate of case-insensitive substring conditions.
//!
//! Each name is trimmed and names that are blank after trimming are dropped.
//! An empty condition list is deliberately permissive: it matches every
//! record, not none.

use vstd::prelude::*;

use crate::artwork::ArtworkInfo;
use crate::text::{ci_contains, ci_contains_bytes, str_bytes, string_bytes, trim, trim_bytes};

verus! {

/// The compiled form of a character filter: the trimmed, non-blank name
/// fragments, each a case-insensitive substring condition.
pub struct CharacterFilter {
    pub conds: Vec<Vec<u8>>,
}

impl View for CharacterFilter {
    type V = Seq<Seq<u8>>;

    open spec fn view(&self) -> Seq<Seq<u8>> {
        self.conds@.map_values(|c: Vec<u8>| c@)
    }
}

/// What compilation yields: every name trimmed, blanks dropped.
pub open spec fn spec_compile(names: Seq<Seq<u8>>) -> Seq<Seq<u8>> {
    names.map_values(|b: Seq<u8>| trim(b)).filter(|b: Seq<u8>| b.len() != 0)
}

/// One condition holds of a record when it is a case-insensitive substring
/// of one of the record's character names.
pub open spec fn cond_matches(cond: Seq<u8>, characters: Seq<Seq<u8>>) -> bool {
    exists|i: int| 0 <= i < characters.len() && ci_contains(#[trigger] characters[i], cond)
}

/// The whole filter holds of a record when it has no conditions (the
/// permissive default) or some condition holds.
pub open spec fn filter_matches(conds: Seq<Seq<u8>>, characters: Seq<Seq<u8>>) -> bool {
    conds.len() == 0 || exists|i: int| 0 <= i < conds.len() && cond_matches(
        #[trigger] conds[i],
        characters,
    )
}

/// Compile a list of character names into the disjunctive filter: each name
/// trimmed, blank names dropped.
pub fn compile_character_filter(names: &Vec<String>) -> (f: CharacterFilter)
    ensures
        f@ == spec_compile(names@.map_values(|s: String| str_bytes(s@))),
{
    let ghost name_bytes = names@.map_values(|s: String| str_bytes(s@));
    let mut conds: Vec<Vec<u8>> = Vec::new();
    let mut i: usize = 0;
    while i < names.len()
        invariant
            0 <= i <= names@.len(),
            name_bytes == names@.map_values(|s: String| str_bytes(s@)),
            conds@.map_values(|c: Vec<u8>| c@) =~= spec_compile(name_bytes.take(i as int)),
        decreases names.len() - i,
    {
        let t = trim_bytes(string_bytes(&names[i]));
        proof {
            let mapped = name_bytes.take(i as int).map_values(|b: Seq<u8>| trim(b));
            let mapped1 = name_bytes.take(i + 1).map_values(|b: Seq<u8>| trim(b));
            assert(mapped1 =~= mapped.push(trim(name_bytes[i as int])));
            assert(mapped1.drop_last() =~= mapped);
            reveal_with_fuel(Seq::filter, 2);
            assert(mapped1.filter(|b: Seq<u8>| b.len() != 0) == mapped.filter(
                |b: Seq<u8>| b.len() != 0,
            ) + if trim(name_bytes[i as int]).len() != 0 {
                seq![trim(name_bytes[i as int])]
            } else {
                Seq::<Seq<u8>>::empty()
            });
        }
        if t.len() > 0 {
            conds.push(t);
            proof {
                assert(conds@.map_values(|c: Vec<u8>| c@) =~= spec_compile(
                    name_bytes.take(i as int),
                ).push(trim(name_bytes[i as int])));
                assert(spec_compile(name_bytes.take(i + 1)) =~= spec_compile(
                    name_bytes.take(i as int),
                ).push(trim(name_bytes[i as int])));
            }
        }
        i += 1;
    }
    proof {
        assert(name_bytes.take(names@.len() as int) =~= name_bytes);
    }
    CharacterFilter { conds }
}

impl CharacterFilter {
    /// Whether this filter has no conditions and so matches every record.
    pub fn is_match_all(&self) -> (r: bool)
        ensures
            r == (self@.len() == 0),
    {
        self.conds.len() == 0
    }

    /// Whether the record's character names satisfy the filter.
    pub fn matches(&self, rec: &ArtworkInfo) -> (r: bool)
        ensures
            r == filter_matches(self@, rec@.characters),
    {
        if self.conds.len() == 0 {
            return true;
        }
        let mut i: usize = 0;
        while i < self.conds.len()
            invariant
                0 <= i <= self.conds@.len(),
                forall|k: int| 0 <= k < i ==> !cond_matches(#[trigger] self@[k], rec@.characters),
            decreases self.conds.len() - i,
        {
            let mut j: usize = 0;
            while j < rec.characters.len()
                invariant
                    0 <= i < self.conds@.len(),
                    0 <= j <= rec.characters@.len(),
                    forall|k: int|
                        0 <= k < j ==> !ci_contains(
                            #[trigger] rec@.characters[k],
                            self@[i as int],
                        ),
                decreases rec.characters.len() - j,
            {
                if ci_contains_bytes(
                    string_bytes(&rec.characters[j]),
                    self.conds[i].as_slice(),
                ) {
                    assert(rec@.characters[j as int] == str_bytes(rec.characters@[j as int]@));
                    assert(ci_contains(rec@.characters[j as int], self@[i as int]));
                    assert(cond_matches(self@[i as int], rec@.characters));
                    return true;
                }
                j += 1;
            }
            assert(!cond_matches(self@[i as int], rec@.characters));
            i += 1;
        }
        false
    }
}

/// A list of names that are all blank after trimming compiles to the empty
/// condition list, which is the permissive (match-all) predicate.
pub proof fn lemma_blank_names_compile_permissive(names: Seq<Seq<u8>>)
    requires
        forall|i: int| 0 <= i < names.len() ==> trim(#[trigger] names[i]).len() == 0,
    ensures
        spec_compile(names).len() == 0,
        forall|characters: Seq<Seq<u8>>| filter_matches(spec_compile(names), characters),
    decreases names.len(),
{
    if names.len() == 0 {
        assert(names.map_values(|b: Seq<u8>| trim(b)) =~= Seq::<Seq<u8>>::empty());
        reveal_with_fuel(Seq::filter, 2);
    } else {
        let prefix = names.drop_last();
        lemma_blank_names_compile_permissive(prefix);
        let mapped = names.map_values(|b: Seq<u8>| trim(b));
        assert(mapped.drop_last() =~= prefix.map_values(|b: Seq<u8>| trim(b)));
        reveal_with_fuel(Seq::filter, 2);
        assert(mapped.last().len() == 0);
        assert(spec_compile(names).len() == 0);
    }
}

} // verus!
