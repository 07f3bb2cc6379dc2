//! String interning: identifiers become small copyable symbol ids.

use vstd::prelude::*;
use vstd::string::*;

verus! {

/// A compact identifier for an interned string.
///
/// It is only meaningful within the [`Interner`] instance that created it.
#[derive(Debug, Clone, Copy, PartialEq, Eq, Hash, Structural)]
pub struct SymbolId(pub usize);

/// A string interner: each distinct string gets its own [`SymbolId`], and
/// interning the same string again returns the same id.
///
/// Symbols are numbered in insertion order, so the id of a string is its
/// position in the table.
#[derive(Debug)]
pub struct Interner {
    strings: Vec<String>,
}

/// The position of `s` in `names`, if it occurs there (the first occurrence).
pub open spec fn find_name(names: Seq<Seq<char>>, s: Seq<char>) -> Option<int>
    decreases names.len(),
{
    if names.len() == 0 {
        None
    } else {
        match find_name(names.drop_last(), s) {
            Some(i) => Some(i),
            None => if names.last() == s { Some(names.len() - 1) } else { None },
        }
    }
}

/// The table after interning `s`, and the id that `s` gets: an existing
/// string keeps its id, a new one is appended with the next id.
pub open spec fn intern_result(names: Seq<Seq<char>>, s: Seq<char>) -> (Seq<Seq<char>>, nat) {
    match find_name(names, s) {
        Some(i) => (names, i as nat),
        None => (names.push(s), names.len()),
    }
}

/// No string occurs twice in the table.
pub open spec fn distinct_names(names: Seq<Seq<char>>) -> bool {
    forall|i: int, j: int| 0 <= i < j < names.len() ==> names[i] != names[j]
}

/// `find_name` gives the first position holding `s`, or `None` when no
/// position does.
pub proof fn lemma_find_name(names: Seq<Seq<char>>, s: Seq<char>)
    ensures
        find_name(names, s) matches Some(i) ==> {
            &&& 0 <= i < names.len()
            &&& names[i] == s
            &&& forall|j: int| 0 <= j < i ==> names[j] != s
        },
        find_name(names, s) is None ==> forall|j: int| 0 <= j < names.len() ==> names[j] != s,
    decreases names.len(),
{
    if names.len() > 0 {
        lemma_find_name(names.drop_last(), s);
        assert forall|j: int| 0 <= j < names.len() - 1 implies names.drop_last()[j] == names[j] by {}
    }
}

impl Default for Interner {
    fn default() -> (r: Self)
        ensures
            r@ == Seq::<Seq<char>>::empty(),
    {
        Self::new()
    }
}

impl Interner {
    /// The interned strings, by id.
    pub closed spec fn view(&self) -> Seq<Seq<char>> {
        self.strings@.map_values(|s: String| s@)
    }

    #[verifier::type_invariant]
    closed spec fn distinct(&self) -> bool {
        distinct_names(self@)
    }

    /// Creates an empty interner.
    pub fn new() -> (r: Self)
        ensures
            r@ == Seq::<Seq<char>>::empty(),
    {
        let r = Self { strings: Vec::new() };
        assert(r@ =~= Seq::<Seq<char>>::empty());
        r
    }

    /// Returns the symbol for `text`, interning it first if necessary.
    ///
    /// This operation is idempotent: repeated calls with equal text
    /// return the same [`SymbolId`].
    pub fn intern(&mut self, text: &str) -> (id: SymbolId)
        ensures
            final(self)@ == intern_result(old(self)@, text@).0,
            id.0 == intern_result(old(self)@, text@).1,
    {
        proof {
            use_type_invariant(&*self);
            lemma_find_name(self@, text@);
        }
        let owned = String::from_str(text);
        let mut i: usize = 0;
        while i < self.strings.len()
            invariant
                0 <= i <= self.strings@.len(),
                owned@ == text@,
                forall|j: int| 0 <= j < i ==> self@[j] != text@,
                self@ == old(self)@,
                self@.len() == self.strings@.len(),
                forall|j: int| 0 <= j < self.strings@.len() ==> #[trigger] self@[j] == self.strings@[j]@,
            decreases self.strings.len() - i,
        {
            if self.strings[i] == owned {
                proof { lemma_find_name(self@, text@); }
                assert(self@[i as int] == text@);
                assert(find_name(self@, text@) == Some(i as int));
                assert(self@ == old(self)@);
                return SymbolId(i);
            }
            i = i + 1;
        }
        proof { lemma_find_name(self@, text@); }
        self.insert_new(owned)
    }

    /// Appends a string that is known not to be present yet.
    fn insert_new(&mut self, owned: String) -> (id: SymbolId)
        requires
            forall|j: int| 0 <= j < old(self)@.len() ==> old(self)@[j] != owned@,
        ensures
            final(self)@ == old(self)@.push(owned@),
            id.0 == old(self)@.len(),
    {
        proof { use_type_invariant(&*self); }
        let id = SymbolId(self.strings.len());
        let ghost before = self@;
        let mut strings = Vec::new();
        std::mem::swap(&mut strings, &mut self.strings);
        strings.push(owned);
        assert(strings@.map_values(|s: String| s@) =~= before.push(owned@));
        self.strings = strings;
        id
    }

    /// Resolves a symbol back to its interned text.
    ///
    /// The symbol must have been produced by this interner.
    pub fn resolve(&self, id: SymbolId) -> (r: &str)
        requires
            id.0 < self@.len(),
        ensures
            r@ == self@[id.0 as int],
    {
        self.strings[id.0].as_str()
    }

    /// Resolves a symbol back to its interned text, if the symbol is valid.
    pub fn get(&self, id: SymbolId) -> (r: Option<&str>)
        ensures
            id.0 < self@.len() ==> (r matches Some(s) && s@ == self@[id.0 as int]),
            id.0 >= self@.len() ==> r is None,
    {
        if id.0 < self.strings.len() {
            Some(self.strings[id.0].as_str())
        } else {
            None
        }
    }
}

/// Interning is idempotent: interning a string a second time returns the
/// same id and leaves the table unchanged.
pub proof fn law_intern_idempotent(names: Seq<Seq<char>>, s: Seq<char>)
    ensures
        intern_result(intern_result(names, s).0, s) == intern_result(names, s),
{
    lemma_find_name(names, s);
    let (n1, id1) = intern_result(names, s);
    lemma_find_name(n1, s);
    if find_name(names, s) is None {
        assert(n1[names.len() as int] == s);
        assert(forall|j: int| 0 <= j < names.len() ==> n1[j] == names[j]);
    }
}

/// Interning gives back a symbol that resolves to the interned text.
pub proof fn law_intern_then_resolve(names: Seq<Seq<char>>, s: Seq<char>)
    ensures
        intern_result(names, s).1 < intern_result(names, s).0.len(),
        intern_result(names, s).0[intern_result(names, s).1 as int] == s,
{
    lemma_find_name(names, s);
}

/// Different strings get different symbols, in a table without duplicates,
/// and the table stays free of duplicates.
pub proof fn law_distinct_strings_distinct_ids(names: Seq<Seq<char>>, s: Seq<char>, t: Seq<char>)
    requires
        distinct_names(names),
        s != t,
    ensures
        distinct_names(intern_result(names, s).0),
        intern_result(names, s).1 != intern_result(intern_result(names, s).0, t).1,
{
    lemma_find_name(names, s);
    let n1 = intern_result(names, s).0;
    lemma_find_name(n1, t);
    law_intern_then_resolve(names, s);
    law_intern_then_resolve(n1, t);
}

/// Interning never changes the text of symbols handed out earlier.
pub proof fn law_intern_keeps_existing(names: Seq<Seq<char>>, s: Seq<char>, i: int)
    requires
        0 <= i < names.len(),
    ensures
        intern_result(names, s).0[i] == names[i],
{
}

} // verus!
