//! Symbol interning: deduplicates identifier text into small stable ids.
//!
//! The interner is modelled as the sequence of distinct texts in the order
//! they were first interned; a `SymbolId` is the position of a text in that
//! sequence.

use vstd::prelude::*;

verus! {

/// An opaque, cheaply copyable identifier for a unique piece of interned
/// text: the position of the text in the interner's insertion order.
#[derive(Debug, Clone, Copy, PartialEq, Eq, Structural, Hash)]
pub struct SymbolId(pub u32);

/// The texts held by an interner, in the order they were first interned.
pub uninterp spec fn symbols_seq(s: Symbols) -> Seq<Seq<char>>;

/// Deduplicating store of identifier text, backed by `string_interner`.
///
/// The backing interner assigns symbols contiguously from zero in insertion
/// order, so a `SymbolId` is exactly an index into `symbols_seq`.
#[verifier::external_body]
#[derive(Debug)]
pub struct Symbols {
    interner: string_interner::StringInterner<string_interner::backend::BucketBackend>,
}

impl View for Symbols {
    type V = Seq<Seq<char>>;

    open spec fn view(&self) -> Seq<Seq<char>> {
        symbols_seq(*self)
    }
}

/// Whether some entry of the model holds the text `s`.
pub open spec fn contains_text(m: Seq<Seq<char>>, s: Seq<char>) -> bool {
    exists|i: int| 0 <= i < m.len() && m[i] == s
}

/// No two entries of the model hold the same text. Holds for every interner
/// built through `Symbols::new` and `Symbols::insert`.
pub open spec fn distinct_texts(m: Seq<Seq<char>>) -> bool {
    forall|i: int, j: int| 0 <= i < m.len() && 0 <= j < m.len() && i != j ==> m[i] != m[j]
}

/// The model after interning `s`: unchanged if `s` is already present,
/// extended by `s` otherwise.
pub open spec fn insert_model(m: Seq<Seq<char>>, s: Seq<char>) -> Seq<Seq<char>> {
    if contains_text(m, s) {
        m
    } else {
        m.push(s)
    }
}

/// The id that interning `s` yields: the position of `s` in the model.
pub open spec fn insert_id(m: Seq<Seq<char>>, s: Seq<char>) -> int {
    if contains_text(m, s) {
        choose|i: int| 0 <= i < m.len() && m[i] == s
    } else {
        m.len() as int
    }
}

impl Symbols {
    /// Relies on `StringInterner::new`: a fresh interner holds no strings.
    #[verifier::external_body]
    pub fn new() -> (r: Symbols)
        ensures
            symbols_seq(r) == Seq::<Seq<char>>::empty(),
    {
        Symbols { interner: string_interner::StringInterner::new() }
    }

    /// Relies on `StringInterner::len`: the number of interned strings.
    #[verifier::external_body]
    pub fn len(&self) -> (r: usize)
        ensures
            r == self@.len(),
    {
        self.interner.len()
    }

    /// Relies on `StringInterner::get_or_intern` over the bucket backend:
    /// returns the symbol of an already interned equal string, or interns the
    /// string under the next contiguous index. The backend panics once the
    /// 32-bit symbol space is exhausted, so the model must stay below it.
    #[verifier::external_body]
    pub fn insert(&mut self, symbol: &str) -> (r: SymbolId)
        requires
            symbols_seq(*old(self)).len() < 0xFFFF_FFFEusize,
        ensures
            final(self)@ == insert_model(old(self)@, symbol@),
            contains_text(old(self)@, symbol@) ==> {
                &&& 0 <= r.0 < old(self)@.len()
                &&& old(self)@[r.0 as int] == symbol@
            },
            !contains_text(old(self)@, symbol@) ==> r.0 == old(self)@.len(),
    {
        let sym = self.interner.get_or_intern(symbol);
        SymbolId(string_interner::Symbol::to_usize(sym) as u32)
    }

    /// Relies on `StringInterner::resolve` over the bucket backend: returns
    /// the string interned under the given contiguous index, if any.
    #[verifier::external_body]
    pub fn get(&self, id: SymbolId) -> (r: Option<&str>)
        ensures
            (r is Some) == (id.0 < self@.len()),
            r matches Some(t) ==> t@ == self@[id.0 as int],
    {
        match string_interner::Symbol::try_from_usize(id.0 as usize) {
            Some(sym) => self.interner.resolve(sym),
            None => None,
        }
    }

    /// Relies on `StringInterner::get`: looks a string up without interning
    /// it, returning the symbol of an equal interned string if one exists.
    #[verifier::external_body]
    pub fn find(&self, symbol: &str) -> (r: Option<SymbolId>)
        ensures
            (r is Some) == contains_text(self@, symbol@),
            r matches Some(id) ==> {
                &&& 0 <= id.0 < self@.len()
                &&& self@[id.0 as int] == symbol@
            },
    {
        self.interner.get(symbol).map(|s| SymbolId(string_interner::Symbol::to_usize(s) as u32))
    }
}

impl Default for Symbols {
    fn default() -> (r: Symbols)
        ensures
            r@ == Seq::<Seq<char>>::empty(),
    {
        Symbols::new()
    }
}

/// Law: interning a text twice yields the same id both times, and the second
/// interning leaves the interner unchanged.
pub proof fn lemma_insert_idempotent(m: Seq<Seq<char>>, s: Seq<char>)
    ensures
        insert_model(insert_model(m, s), s) == insert_model(m, s),
        insert_id(insert_model(m, s), s) == insert_id(m, s),
{
    if contains_text(m, s) {
    } else {
        let m1 = m.push(s);
        assert(m1[m.len() as int] == s);
        assert(contains_text(m1, s));
        let i = choose|i: int| 0 <= i < m1.len() && m1[i] == s;
        assert(!(0 <= i < m.len() && m[i] == s));
        assert(i == m.len());
    }
}

/// Law: before a text was ever interned, looking it up finds nothing; a
/// fresh interner in particular holds no text.
pub proof fn lemma_find_in_empty(s: Seq<char>)
    ensures
        !contains_text(Seq::<Seq<char>>::empty(), s),
{
}

/// Law: distinct texts never collide; ids point at entries of the model, so
/// equal ids would mean equal texts.
pub proof fn lemma_distinct_texts_distinct_ids(m: Seq<Seq<char>>, i: int, j: int)
    requires
        0 <= i < m.len(),
        0 <= j < m.len(),
        m[i] != m[j],
    ensures
        i != j,
{
}

/// Interning preserves the distinctness of the interner's texts.
pub proof fn lemma_insert_preserves_distinct(m: Seq<Seq<char>>, s: Seq<char>)
    requires
        distinct_texts(m),
    ensures
        distinct_texts(insert_model(m, s)),
{
    if !contains_text(m, s) {
        let m1 = m.push(s);
        assert forall|i: int, j: int|
            0 <= i < m1.len() && 0 <= j < m1.len() && i != j implies m1[i] != m1[j] by {
            if i < m.len() && j < m.len() {
            } else if i == m.len() {
                assert(m1[j] == m[j]);
                assert(!(m[j] == s)) by {
                    assert(!contains_text(m, s));
                }
            } else {
                assert(m1[i] == m[i]);
                assert(!(m[i] == s)) by {
                    assert(!contains_text(m, s));
                }
            }
        }
    }
}

/// Interning never removes a text: anything present stays present, at the
/// same position; stated so the prover applies it wherever an entry of an
/// extended model is read.
pub broadcast proof fn lemma_insert_model_entries(m: Seq<Seq<char>>, s: Seq<char>, i: int)
    requires
        0 <= i < m.len(),
    ensures
        #[trigger] insert_model(m, s)[i] == m[i],
        insert_model(m, s).len() >= m.len(),
{
}

} // verus!
